use vstd::prelude::*;

verus! {

/// Where a material's uniform struct is bound and which of the material's
/// uniform buffers backs it.
#[derive(Debug)]
pub struct UniformStruct {
    group: u32,
    binding: u32,
    buffer_index: u32,
}

impl UniformStruct {
    pub closed spec fn spec_group(&self) -> u32 {
        self.group
    }

    pub closed spec fn spec_binding(&self) -> u32 {
        self.binding
    }

    pub closed spec fn spec_buffer_index(&self) -> u32 {
        self.buffer_index
    }

    pub fn new(group: u32, binding: u32, buffer_index: u32) -> (r: UniformStruct)
        ensures
            r.spec_group() == group,
            r.spec_binding() == binding,
            r.spec_buffer_index() == buffer_index,
    {
        UniformStruct { group, binding, buffer_index }
    }

    pub fn group(&self) -> (r: u32)
        ensures
            r == self.spec_group(),
    {
        self.group
    }

    pub fn binding(&self) -> (r: u32)
        ensures
            r == self.spec_binding(),
    {
        self.binding
    }

    pub fn buffer_index(&self) -> (r: u32)
        ensures
            r == self.spec_buffer_index(),
    {
        self.buffer_index
    }
}

/// The resource a material property is bound to. The sizes are byte counts
/// and are never 0.
#[derive(Debug, Clone, Copy, PartialEq, Eq)]
pub enum MaterialPropertyKind {
    UniformBuffer { group: u32, binding: u32, buffer_index: u32 },
    UniformMember { offset: u64, size: u64, buffer_index: u32 },
    StorageBuffer { size: u64 },
    Texture,
    Sampler,
}

/// The variant of a value given to a material property, with the byte size of
/// the bound range for a storage buffer.
#[derive(Debug, Clone, Copy, PartialEq, Eq)]
pub enum MaterialValueKind {
    Float,
    Vec2,
    Vec3,
    Vec4,
    U32,
    StorageBuffer { size: u64 },
    Texture,
    Sampler,
}

/// A value of uniform data: a float, a vector of two, three or four floats,
/// or an unsigned integer.
pub open spec fn is_uniform_value(value: MaterialValueKind) -> bool {
    match value {
        MaterialValueKind::Float => true,
        MaterialValueKind::Vec2 => true,
        MaterialValueKind::Vec3 => true,
        MaterialValueKind::Vec4 => true,
        MaterialValueKind::U32 => true,
        _ => false,
    }
}

/// A uniform buffer or member takes every kind of uniform data (a float, a
/// vector of two, three or four floats, an unsigned integer) and nothing else;
/// a texture takes only a texture and a sampler only a sampler; and uniform
/// data, a texture or a sampler is taken only by a property of its own kind.
pub proof fn lemma_accepts(k: MaterialPropertyKind, v: MaterialValueKind)
    ensures
        k.binds_uniform_data() ==> (k.accepts(v) <==> (v == MaterialValueKind::Float || v == MaterialValueKind::Vec2
            || v == MaterialValueKind::Vec3 || v == MaterialValueKind::Vec4 || v == MaterialValueKind::U32)),
        k == MaterialPropertyKind::Texture ==> (k.accepts(v) <==> v == MaterialValueKind::Texture),
        k == MaterialPropertyKind::Sampler ==> (k.accepts(v) <==> v == MaterialValueKind::Sampler),
        k.accepts(v) ==> (k.binds_uniform_data() <==> is_uniform_value(v)),
        k.accepts(v) && v == MaterialValueKind::Texture ==> k == MaterialPropertyKind::Texture,
        k.accepts(v) && v == MaterialValueKind::Sampler ==> k == MaterialPropertyKind::Sampler,
{
}

impl MaterialPropertyKind {
    /// The property is a uniform buffer or a member of one.
    pub open spec fn binds_uniform_data(self) -> bool {
        match self {
            MaterialPropertyKind::UniformBuffer { .. } => true,
            MaterialPropertyKind::UniformMember { .. } => true,
            _ => false,
        }
    }

    /// The sizes are not 0.
    pub open spec fn wf(self) -> bool {
        match self {
            MaterialPropertyKind::UniformMember { size, .. } => size != 0,
            MaterialPropertyKind::StorageBuffer { size } => size != 0,
            _ => true,
        }
    }

    /// A property accepts a value of a kind that its binding can hold: uniform
    /// data for a uniform buffer or member, a storage buffer range of the same
    /// size for a storage buffer, a texture for a texture and a sampler for a
    /// sampler.
    pub open spec fn accepts(self, value: MaterialValueKind) -> bool {
        match self {
            MaterialPropertyKind::UniformBuffer { .. } | MaterialPropertyKind::UniformMember { .. } => {
                ||| value is Float
                ||| value is Vec2
                ||| value is Vec3
                ||| value is Vec4
                ||| value is U32
            },
            MaterialPropertyKind::StorageBuffer { size } => value matches MaterialValueKind::StorageBuffer {
                size: source_size,
            } && source_size == size,
            MaterialPropertyKind::Texture => value is Texture,
            MaterialPropertyKind::Sampler => value is Sampler,
        }
    }

    pub fn is_compatible(&self, value: &MaterialValueKind) -> (r: bool)
        ensures
            r == self.accepts(*value),
            self.binds_uniform_data() ==> (r <==> is_uniform_value(*value)),
            *self == MaterialPropertyKind::Texture ==> (r <==> *value == MaterialValueKind::Texture),
            *self == MaterialPropertyKind::Sampler ==> (r <==> *value == MaterialValueKind::Sampler),
    {
        match self {
            MaterialPropertyKind::UniformBuffer { .. } | MaterialPropertyKind::UniformMember { .. } => {
                match value {
                    MaterialValueKind::Float | MaterialValueKind::Vec2 | MaterialValueKind::Vec3
                    | MaterialValueKind::Vec4 | MaterialValueKind::U32 => true,
                    _ => false,
                }
            },
            MaterialPropertyKind::StorageBuffer { size } => match value {
                MaterialValueKind::StorageBuffer { size: source_size } => *size == *source_size,
                _ => false,
            },
            MaterialPropertyKind::Texture => match value {
                MaterialValueKind::Texture => true,
                _ => false,
            },
            MaterialPropertyKind::Sampler => match value {
                MaterialValueKind::Sampler => true,
                _ => false,
            },
        }
    }
}

} // verus!
