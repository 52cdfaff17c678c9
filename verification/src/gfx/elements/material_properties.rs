use super::material::{MaterialPropertyKind, MaterialValueKind, UniformStruct};
use vstd::prelude::*;

verus! {

/// What a material reads of a shader binding's kind.
#[derive(Debug, Clone, Copy, PartialEq, Eq)]
pub enum ShaderBindingKindInfo {
    /// A uniform buffer backed by the material's buffer `index`; a struct
    /// buffer is filled member by member.
    UniformBuffer { index: u32, is_struct: bool },
    StorageBuffer { size: u64 },
    Texture,
    Sampler,
}

/// What a material reads of a shader binding.
#[derive(Debug, Clone)]
pub struct ShaderBindingInfo {
    pub name: String,
    pub group: u32,
    pub binding: u32,
    pub kind: ShaderBindingKindInfo,
}

/// What a material reads of a member of a uniform struct.
#[derive(Debug, Clone)]
pub struct UniformMemberInfo {
    pub name: String,
    pub offset: u64,
    pub size: u64,
    pub buffer_index: u32,
}

/// A property of a material: where it is bound, what it is bound to, and the
/// value it was given, if any, with that value's kind.
#[derive(Debug)]
pub struct MaterialProperty<V> {
    group: u32,
    binding: u32,
    kind: MaterialPropertyKind,
    value: Option<V>,
    value_kind: Option<MaterialValueKind>,
}

/// A property as the contracts see it.
pub struct PropertySlot {
    pub group: u32,
    pub binding: u32,
    pub kind: MaterialPropertyKind,
    pub name: Seq<char>,
}

/// The property a shader binding makes, if any (a struct uniform buffer makes
/// none: its members do).
pub open spec fn binding_property_kind(b: ShaderBindingInfo) -> Option<MaterialPropertyKind> {
    match b.kind {
        ShaderBindingKindInfo::UniformBuffer { index, is_struct } => if is_struct {
            None
        } else {
            Some(MaterialPropertyKind::UniformBuffer { group: b.group, binding: b.binding, buffer_index: index })
        },
        ShaderBindingKindInfo::StorageBuffer { size } => Some(MaterialPropertyKind::StorageBuffer { size }),
        ShaderBindingKindInfo::Texture => Some(MaterialPropertyKind::Texture),
        ShaderBindingKindInfo::Sampler => Some(MaterialPropertyKind::Sampler),
    }
}

/// The uniform structs of the bindings, in order: (group, binding, buffer index).
pub open spec fn binding_structs(bs: Seq<ShaderBindingInfo>) -> Seq<(u32, u32, u32)>
    decreases bs.len(),
{
    if bs.len() == 0 {
        Seq::empty()
    } else {
        let rest = binding_structs(bs.drop_last());
        let b = bs.last();
        match b.kind {
            ShaderBindingKindInfo::UniformBuffer { index, is_struct } => if is_struct {
                rest.push((b.group, b.binding, index))
            } else {
                rest
            },
            _ => rest,
        }
    }
}

/// The properties the bindings make, in order.
pub open spec fn binding_slots(bs: Seq<ShaderBindingInfo>) -> Seq<PropertySlot>
    decreases bs.len(),
{
    if bs.len() == 0 {
        Seq::empty()
    } else {
        let rest = binding_slots(bs.drop_last());
        let b = bs.last();
        match binding_property_kind(b) {
            Some(kind) => rest.push(PropertySlot { group: b.group, binding: b.binding, kind, name: b.name@ }),
            None => rest,
        }
    }
}

/// The property of a uniform struct member: bound where its struct is bound.
pub open spec fn member_slot(m: UniformMemberInfo, structs: Seq<(u32, u32, u32)>) -> PropertySlot {
    PropertySlot {
        group: structs[m.buffer_index as int].0,
        binding: structs[m.buffer_index as int].1,
        kind: MaterialPropertyKind::UniformMember { offset: m.offset, size: m.size, buffer_index: m.buffer_index },
        name: m.name@,
    }
}

/// The properties of a material for a shader: those of its bindings, then
/// those of its uniform struct members.
pub open spec fn shader_slots(bs: Seq<ShaderBindingInfo>, ms: Seq<UniformMemberInfo>) -> Seq<PropertySlot> {
    binding_slots(bs) + Seq::new(ms.len(), |k: int| member_slot(ms[k], binding_structs(bs)))
}

/// The place of the last property with the name, which is the one the name
/// finds (a later property takes a name over from an earlier one).
pub open spec fn last_named(slots: Seq<PropertySlot>, name: Seq<char>) -> Option<int>
    decreases slots.len(),
{
    if slots.len() == 0 {
        None
    } else if slots.last().name == name {
        Some(slots.len() - 1)
    } else {
        last_named(slots.drop_last(), name)
    }
}

/// The place `last_named` gives holds a property with the name.
pub proof fn lemma_last_named(slots: Seq<PropertySlot>, name: Seq<char>)
    ensures
        last_named(slots, name) matches Some(i) ==> 0 <= i < slots.len() && slots[i].name == name,
    decreases slots.len(),
{
    if slots.len() > 0 && slots.last().name != name {
        lemma_last_named(slots.drop_last(), name);
    }
}

/// The places, below `n`, of the uniform structs of group number `g`.
pub open spec fn struct_places(structs: Seq<(u32, u32, u32)>, g: int, n: int) -> Seq<int>
    decreases n,
{
    if n <= 0 {
        Seq::empty()
    } else if structs[n - 1].0 == g {
        struct_places(structs, g, n - 1).push(n - 1)
    } else {
        struct_places(structs, g, n - 1)
    }
}

/// The places, below `n`, of the uniform struct members of group number `g`
/// that hold a value.
pub open spec fn member_upload_places<V>(slots: Seq<PropertySlot>, values: Seq<Option<V>>, g: int, n: int) -> Seq<int>
    decreases n,
{
    if n <= 0 {
        Seq::empty()
    } else if slots[n - 1].group == g && slots[n - 1].kind is UniformMember && values[n - 1] is Some {
        member_upload_places(slots, values, g, n - 1).push(n - 1)
    } else {
        member_upload_places(slots, values, g, n - 1)
    }
}

/// The property at place `i` is bound, outside a uniform struct, in group
/// number `g` at binding number `b`.
pub open spec fn bound_at(slots: Seq<PropertySlot>, i: int, g: int, b: int) -> bool {
    &&& slots[i].group == g
    &&& !(slots[i].kind is UniformMember)
    &&& slots[i].binding == b
}

/// The first property bound in group number `g` at binding number `b`.
pub open spec fn first_bound_at(slots: Seq<PropertySlot>, g: int, b: int) -> Option<int> {
    if exists|i: int| 0 <= i < slots.len() && bound_at(slots, i, g, b) {
        Some(
            choose|i: int|
                0 <= i < slots.len() && bound_at(slots, i, g, b) && forall|j: int|
                    0 <= j < i ==> !bound_at(slots, j, g, b),
        )
    } else {
        None
    }
}

/// The properties of group number `g` whose binding numbers follow each other
/// from `b`: the first property at each number, up to the first number no
/// property has; `None` when one of them holds no value. (The run cannot be
/// longer than the properties, so it is followed that far at most.)
#[verifier::opaque]
pub open spec fn property_run<V>(slots: Seq<PropertySlot>, values: Seq<Option<V>>, g: int, b: int, fuel: nat) -> Option<
    Seq<int>,
>
    decreases fuel,
{
    if fuel == 0 {
        Some(Seq::empty())
    } else {
        match first_bound_at(slots, g, b) {
            None => Some(Seq::empty()),
            Some(i) => if values[i] is None {
                None
            } else {
                match property_run(slots, values, g, b + 1, (fuel - 1) as nat) {
                    Some(rest) => Some(seq![i] + rest),
                    None => None,
                }
            },
        }
    }
}

/// One step of a run.
pub proof fn lemma_run_step<V>(slots: Seq<PropertySlot>, values: Seq<Option<V>>, g: int, b: int, fuel: nat)
    requires
        fuel > 0,
    ensures
        property_run(slots, values, g, b, fuel) == match first_bound_at(slots, g, b) {
            None => Some(Seq::<int>::empty()),
            Some(i) => if values[i] is None {
                None
            } else {
                match property_run(slots, values, g, b + 1, (fuel - 1) as nat) {
                    Some(rest) => Some(seq![i] + rest),
                    None => None,
                }
            },
        },
{
    reveal(property_run);
}

/// A run with no steps left is empty.
pub proof fn lemma_run_end<V>(slots: Seq<PropertySlot>, values: Seq<Option<V>>, g: int, b: int)
    ensures
        property_run(slots, values, g, b, 0) == Some(Seq::<int>::empty()),
{
    reveal(property_run);
}

/// `run` after the places `front`.
pub open spec fn after(front: Seq<int>, run: Option<Seq<int>>) -> Option<Seq<int>> {
    match run {
        Some(rest) => Some(front + rest),
        None => None,
    }
}

/// The places as integers.
pub open spec fn places(v: Seq<usize>) -> Seq<int> {
    v.map_values(|x: usize| x as int)
}

/// Where the resources of a bind group come from.
#[derive(Debug, Clone, PartialEq, Eq)]
pub struct BindGroupPlan {
    /// The uniform structs of the group, in order; their buffers are bound first.
    pub structs: Vec<usize>,
    /// The uniform struct members of the group that hold a value, in order;
    /// their values are written to their buffers.
    pub member_uploads: Vec<usize>,
    /// The other properties, bound after the structs in the order of their
    /// binding numbers.
    pub properties: Vec<usize>,
}

/// The text of each string.
pub open spec fn texts(v: Seq<String>) -> Seq<Seq<char>> {
    Seq::new(v.len(), |j: int| v[j]@)
}

/// The first place in `names` that holds `name`.
pub open spec fn first_place(names: Seq<Seq<char>>, name: Seq<char>) -> Option<int>
    decreases names.len(),
{
    if names.len() == 0 {
        None
    } else {
        match first_place(names.drop_last(), name) {
            Some(j) => Some(j),
            None => if names.last() == name {
                Some(names.len() - 1)
            } else {
                None
            },
        }
    }
}

/// The first place in `names` that holds `name`, as an index.
fn find_first(names: &[String], name: &String) -> (r: Option<usize>)
    ensures
        r == match first_place(texts(names@), name@) {
            Some(j) => Some(j as usize),
            None => None::<usize>,
        },
        r matches Some(j) ==> j < names@.len(),
{
    let mut j: usize = 0;
    while j < names.len()
        invariant
            0 <= j <= names@.len(),
            first_place(texts(names@).take(j as int), name@) is None,
        decreases names@.len() - j,
    {
        proof {
            assert(texts(names@).take(j as int + 1).drop_last() =~= texts(names@).take(j as int));
            assert(texts(names@).take(j as int + 1).last() == names@[j as int]@);
        }
        if names[j] == *name {
            proof {
                lemma_first_place_prefix(texts(names@), name@, j as int + 1);
            }
            return Some(j);
        }
        j = j + 1;
    }
    proof {
        assert(texts(names@).take(j as int) =~= texts(names@));
    }
    None
}

/// A place found in a prefix is the place found in the whole.
proof fn lemma_first_place_prefix(names: Seq<Seq<char>>, name: Seq<char>, k: int)
    requires
        0 <= k <= names.len(),
        first_place(names.take(k), name) is Some,
    ensures
        first_place(names, name) == first_place(names.take(k), name),
        first_place(names, name).unwrap() < k,
    decreases names.len() - k,
{
    if k == names.len() {
        assert(names.take(k) =~= names);
        lemma_first_place_bound(names, name);
    } else {
        assert(names.take(k + 1).drop_last() =~= names.take(k));
        lemma_first_place_bound(names.take(k), name);
        lemma_first_place_prefix(names, name, k + 1);
    }
}

proof fn lemma_first_place_bound(names: Seq<Seq<char>>, name: Seq<char>)
    ensures
        first_place(names, name) matches Some(j) ==> 0 <= j < names.len(),
    decreases names.len(),
{
    if names.len() > 0 {
        lemma_first_place_bound(names.drop_last(), name);
    }
}

/// The places of the bind groups that are out of date, in order.
pub open spec fn missing_groups(built: Seq<bool>) -> Seq<int>
    decreases built.len(),
{
    if built.len() == 0 {
        Seq::empty()
    } else if built.last() {
        missing_groups(built.drop_last())
    } else {
        missing_groups(built.drop_last()).push(built.len() - 1)
    }
}

/// The property table of a material and which of its bind groups are up to
/// date.
#[derive(Debug)]
pub struct MaterialProperties<V> {
    uniform_structs: Vec<UniformStruct>,
    properties: Vec<MaterialProperty<V>>,
    names: Vec<String>,
    built: Vec<bool>,
}

impl<V> MaterialProperty<V> {
    pub closed spec fn spec_group(&self) -> u32 {
        self.group
    }

    pub closed spec fn spec_binding(&self) -> u32 {
        self.binding
    }

    pub closed spec fn spec_kind(&self) -> MaterialPropertyKind {
        self.kind
    }

    pub closed spec fn spec_value(&self) -> Option<V> {
        self.value
    }

    pub closed spec fn spec_value_kind(&self) -> Option<MaterialValueKind> {
        self.value_kind
    }

    /// A value is held exactly when its kind is, and the property accepts it.
    pub closed spec fn wf(&self) -> bool {
        &&& self.value.is_some() == self.value_kind.is_some()
        &&& self.value_kind matches Some(k) ==> self.kind.accepts(k)
    }

    pub fn value(&self) -> (r: Option<&V>)
        ensures
            r matches Some(v) ==> self.spec_value() == Some(*v),
            r is None ==> self.spec_value() is None,
    {
        match &self.value {
            Some(v) => Some(v),
            None => None,
        }
    }

    pub fn group(&self) -> (r: u32)
        ensures
            r == self.spec_group(),
    {
        self.group
    }

    pub fn binding(&self) -> (r: u32)
        ensures
            r == self.spec_binding(),
    {
        self.binding
    }

    pub fn kind(&self) -> (r: MaterialPropertyKind)
        ensures
            r == self.spec_kind(),
    {
        self.kind
    }
}

impl<V> MaterialProperties<V> {
    /// The uniform structs: (group, binding, buffer index).
    pub closed spec fn structs(&self) -> Seq<(u32, u32, u32)> {
        Seq::new(
            self.uniform_structs@.len(),
            |i: int|
                (
                    self.uniform_structs@[i].spec_group(),
                    self.uniform_structs@[i].spec_binding(),
                    self.uniform_structs@[i].spec_buffer_index(),
                ),
        )
    }

    pub closed spec fn slots(&self) -> Seq<PropertySlot> {
        Seq::new(
            self.properties@.len(),
            |i: int|
                PropertySlot {
                    group: self.properties@[i].group,
                    binding: self.properties@[i].binding,
                    kind: self.properties@[i].kind,
                    name: self.names@[i]@,
                },
        )
    }

    pub closed spec fn values(&self) -> Seq<Option<V>> {
        Seq::new(self.properties@.len(), |i: int| self.properties@[i].value)
    }

    pub closed spec fn value_kinds(&self) -> Seq<Option<MaterialValueKind>> {
        Seq::new(self.properties@.len(), |i: int| self.properties@[i].value_kind)
    }

    /// Which bind groups are up to date, by their places among the shader's
    /// layouts.
    pub closed spec fn built(&self) -> Seq<bool> {
        self.built@
    }

    pub closed spec fn wf(&self) -> bool {
        &&& self.names@.len() == self.properties@.len()
        &&& forall|i: int| 0 <= i < self.properties@.len() ==> (#[trigger] self.properties@[i]).wf()
    }
}

impl<V> MaterialProperties<V> {
    /// The property table for a shader: a uniform struct for each struct
    /// uniform buffer; a property, with no value yet, for each other binding
    /// and then for each uniform struct member; no bind group up to date yet.
    /// A member names its struct by its buffer index, which must be that of a
    /// struct.
    #[verifier::spinoff_prover]
    #[verifier::rlimit(30)]
    pub fn new(bindings: &[ShaderBindingInfo], members: &[UniformMemberInfo], layout_count: usize) -> (r: Self)
        requires
            forall|k: int|
                0 <= k < members@.len() ==> (#[trigger] members@[k]).buffer_index < binding_structs(bindings@).len(),
        ensures
            r.wf(),
            r.structs() == binding_structs(bindings@),
            r.slots() == shader_slots(bindings@, members@),
            r.values() == Seq::new(r.slots().len(), |i: int| None::<V>),
            r.value_kinds() == Seq::new(r.slots().len(), |i: int| None::<MaterialValueKind>),
            r.built() == Seq::new(layout_count as nat, |i: int| false),
    {
        let mut r = MaterialProperties::<V> {
            uniform_structs: Vec::new(),
            properties: Vec::new(),
            names: Vec::new(),
            built: Vec::new(),
        };
        let mut i: usize = 0;
        while i < bindings.len()
            invariant
                0 <= i <= bindings@.len(),
                r.structs() == binding_structs(bindings@.take(i as int)),
                r.properties@.len() == 0,
                r.names@.len() == 0,
                r.built@.len() == 0,
            decreases bindings@.len() - i,
        {
            proof {
                assert(bindings@.take(i as int + 1).drop_last() =~= bindings@.take(i as int));
            }
            let b = &bindings[i];
            match b.kind {
                ShaderBindingKindInfo::UniformBuffer { index, is_struct } => {
                    if is_struct {
                        r.uniform_structs.push(UniformStruct::new(b.group, b.binding, index));
                    }
                },
                _ => {},
            }
            proof {
                assert(r.structs() =~= binding_structs(bindings@.take(i as int + 1)));
            }
            i = i + 1;
        }
        proof {
            assert(bindings@.take(bindings@.len() as int) =~= bindings@);
        }
        let ghost structs = r.structs();
        let mut i: usize = 0;
        while i < bindings.len()
            invariant
                0 <= i <= bindings@.len(),
                r.structs() == structs,
                r.names@.len() == r.properties@.len(),
                r.slots() == binding_slots(bindings@.take(i as int)),
                forall|k: int| 0 <= k < r.properties@.len() ==> (#[trigger] r.properties@[k]).value is None
                    && r.properties@[k].value_kind is None,
                r.built@.len() == 0,
            decreases bindings@.len() - i,
        {
            proof {
                assert(bindings@.take(i as int + 1).drop_last() =~= bindings@.take(i as int));
                assert(bindings@.take(i as int + 1).last() == bindings@[i as int]);
            }
            let b = &bindings[i];
            let kind = match b.kind {
                ShaderBindingKindInfo::UniformBuffer { index, is_struct } => {
                    if is_struct {
                        None
                    } else {
                        Some(MaterialPropertyKind::UniformBuffer { group: b.group, binding: b.binding, buffer_index: index })
                    }
                },
                ShaderBindingKindInfo::StorageBuffer { size } => Some(MaterialPropertyKind::StorageBuffer { size }),
                ShaderBindingKindInfo::Texture => Some(MaterialPropertyKind::Texture),
                ShaderBindingKindInfo::Sampler => Some(MaterialPropertyKind::Sampler),
            };
            match kind {
                Some(kind) => {
                    r.properties.push(
                        MaterialProperty { group: b.group, binding: b.binding, kind, value: None, value_kind: None },
                    );
                    r.names.push(b.name.clone());
                },
                None => {},
            }
            proof {
                assert(r.slots() =~= binding_slots(bindings@.take(i as int + 1)));
            }
            i = i + 1;
        }
        proof {
            assert(bindings@.take(bindings@.len() as int) =~= bindings@);
        }
        let ghost base = r.slots();
        let mut k: usize = 0;
        while k < members.len()
            invariant
                0 <= k <= members@.len(),
                r.structs() == structs,
                structs == binding_structs(bindings@),
                r.uniform_structs@.len() == structs.len(),
                forall|j: int|
                    0 <= j < members@.len() ==> (#[trigger] members@[j]).buffer_index < structs.len(),
                r.names@.len() == r.properties@.len(),
                r.slots() == base + Seq::new(k as nat, |j: int| member_slot(members@[j], structs)),
                forall|j: int| 0 <= j < r.properties@.len() ==> (#[trigger] r.properties@[j]).value is None
                    && r.properties@[j].value_kind is None,
                r.built@.len() == 0,
            decreases members@.len() - k,
        {
            let m = &members[k];
            let s = &r.uniform_structs[m.buffer_index as usize];
            proof {
                assert(structs[m.buffer_index as int] == (s.spec_group(), s.spec_binding(), s.spec_buffer_index()));
            }
            let property = MaterialProperty {
                group: s.group(),
                binding: s.binding(),
                kind: MaterialPropertyKind::UniformMember { offset: m.offset, size: m.size, buffer_index: m.buffer_index },
                value: None,
                value_kind: None,
            };
            let ghost before = r.slots();
            let name = m.name.clone();
            r.properties.push(property);
            r.names.push(name);
            proof {
                let n = before.len() as int;
                assert(r.slots().len() == n + 1);
                assert forall|j: int| 0 <= j < n implies r.slots()[j] == before[j] by {}
                assert(r.slots()[n] == member_slot(members@[k as int], structs));
                assert(r.slots() =~= before.push(member_slot(members@[k as int], structs)));
                assert(base + Seq::new(k as nat + 1, |j: int| member_slot(members@[j], structs)) =~= (base
                    + Seq::new(k as nat, |j: int| member_slot(members@[j], structs))).push(
                    member_slot(members@[k as int], structs),
                ));
            }
            k = k + 1;
        }
        let mut g: usize = 0;
        while g < layout_count
            invariant
                0 <= g <= layout_count,
                r.built@ == Seq::new(g as nat, |i: int| false),
                r.structs() == binding_structs(bindings@),
                r.names@.len() == r.properties@.len(),
                r.slots() == base + Seq::new(members@.len(), |j: int| member_slot(members@[j], structs)),
                structs == binding_structs(bindings@),
                base == binding_slots(bindings@),
                forall|j: int| 0 <= j < r.properties@.len() ==> (#[trigger] r.properties@[j]).value is None
                    && r.properties@[j].value_kind is None,
            decreases layout_count - g,
        {
            r.built.push(false);
            proof {
                assert(r.built@ =~= Seq::new(g as nat + 1, |i: int| false));
            }
            g = g + 1;
        }
        proof {
            assert(r.slots() =~= shader_slots(bindings@, members@));
            assert(r.values() =~= Seq::new(r.slots().len(), |i: int| None::<V>));
            assert(r.value_kinds() =~= Seq::new(r.slots().len(), |i: int| None::<MaterialValueKind>));
        }
        r
    }
}

impl<V> MaterialProperties<V> {
    pub fn property_count(&self) -> (r: usize)
        ensures
            r == self.slots().len(),
    {
        self.properties.len()
    }

    /// The property at place `i`.
    pub fn property(&self, i: usize) -> (r: &MaterialProperty<V>)
        requires
            i < self.slots().len(),
        ensures
            r.spec_group() == self.slots()[i as int].group,
            r.spec_binding() == self.slots()[i as int].binding,
            r.spec_kind() == self.slots()[i as int].kind,
            r.spec_value() == self.values()[i as int],
            r.spec_value_kind() == self.value_kinds()[i as int],
    {
        &self.properties[i]
    }

    /// The name of the property at place `i`.
    pub fn property_name(&self, i: usize) -> (r: &str)
        requires
            self.wf(),
            i < self.slots().len(),
        ensures
            r@ == self.slots()[i as int].name,
    {
        self.names[i].as_str()
    }

    /// The uniform structs, in the order of their bindings.
    pub fn uniform_structs(&self) -> (r: &[UniformStruct])
        ensures
            r@.len() == self.structs().len(),
            forall|i: int|
                0 <= i < r@.len() ==> ((#[trigger] r@[i]).spec_group(), r@[i].spec_binding(), r@[i].spec_buffer_index())
                    == self.structs()[i],
    {
        self.uniform_structs.as_slice()
    }

    /// The number of bind group layouts of the shader.
    pub fn layout_count(&self) -> (r: usize)
        ensures
            r == self.built().len(),
    {
        self.built.len()
    }

    /// Whether the bind group at place `g` is up to date.
    pub fn is_built(&self, g: usize) -> (r: bool)
        requires
            g < self.built().len(),
        ensures
            r == self.built()[g as int],
    {
        self.built[g]
    }

    /// Records that the bind group at place `g` was made from the current values.
    pub fn mark_built(&mut self, g: usize)
        requires
            g < old(self).built().len(),
        ensures
            final(self).built() == old(self).built().update(g as int, true),
            final(self).structs() == old(self).structs(),
            final(self).slots() == old(self).slots(),
            final(self).values() == old(self).values(),
            final(self).value_kinds() == old(self).value_kinds(),
            old(self).wf() ==> final(self).wf(),
    {
        self.built.set(g, true);
        proof {
            assert(self.structs() =~= old(self).structs());
            assert(self.slots() =~= old(self).slots());
            assert(self.values() =~= old(self).values());
            assert(self.value_kinds() =~= old(self).value_kinds());
        }
    }

    /// The place of the property the name finds.
    fn find(&self, name: &str) -> (r: Option<usize>)
        requires
            self.wf(),
        ensures
            r matches Some(i) ==> last_named(self.slots(), name@) == Some(i as int),
            r is None ==> last_named(self.slots(), name@) is None,
    {
        let key = name.to_owned();
        let mut i: usize = self.names.len();
        proof {
            assert(self.slots().take(i as int) =~= self.slots());
        }
        while i > 0
            invariant
                0 <= i <= self.names@.len(),
                self.wf(),
                last_named(self.slots(), name@) == last_named(self.slots().take(i as int), name@),
                key@ == name@,
            decreases i,
        {
            let ghost t = self.slots().take(i as int);
            proof {
                assert(t.last() == self.slots()[i as int - 1]);
                assert(t.drop_last() =~= self.slots().take(i as int - 1));
            }
            if self.names[i - 1] == key {
                return Some(i - 1);
            }
            i = i - 1;
        }
        proof {
            assert(self.slots().take(0) =~= Seq::<PropertySlot>::empty());
        }
        None
    }

    /// The property the name finds, if any.
    pub fn get_property(&self, name: &str) -> (r: Option<&MaterialProperty<V>>)
        requires
            self.wf(),
        ensures
            r is Some <==> last_named(self.slots(), name@) is Some,
            r matches Some(p) ==> {
                let i = last_named(self.slots(), name@).unwrap();
                &&& p.spec_group() == self.slots()[i].group
                &&& p.spec_binding() == self.slots()[i].binding
                &&& p.spec_kind() == self.slots()[i].kind
                &&& p.spec_value() == self.values()[i]
                &&& p.spec_value_kind() == self.value_kinds()[i]
            },
    {
        proof {
            lemma_last_named(self.slots(), name@);
        }
        match self.find(name) {
            Some(i) => Some(&self.properties[i]),
            None => None,
        }
    }

    /// Gives the property at place `i` the value, of the given kind, when the
    /// property accepts that kind; else the value is dropped.
    pub fn offer_value(&mut self, i: usize, value: V, value_kind: MaterialValueKind) -> (r: bool)
        requires
            old(self).wf(),
            i < old(self).slots().len(),
        ensures
            final(self).wf(),
            r == old(self).slots()[i as int].kind.accepts(value_kind),
            final(self).structs() == old(self).structs(),
            final(self).slots() == old(self).slots(),
            final(self).built() == old(self).built(),
            r ==> final(self).values() == old(self).values().update(i as int, Some(value))
                && final(self).value_kinds() == old(self).value_kinds().update(i as int, Some(value_kind)),
            !r ==> final(self).values() == old(self).values() && final(self).value_kinds()
                == old(self).value_kinds(),
    {
        if !self.properties[i].kind.is_compatible(&value_kind) {
            return false;
        }
        self.put_value(i, value, value_kind);
        true
    }

    fn put_value(&mut self, i: usize, value: V, value_kind: MaterialValueKind)
        requires
            old(self).wf(),
            i < old(self).slots().len(),
            old(self).slots()[i as int].kind.accepts(value_kind),
        ensures
            final(self).wf(),
            final(self).structs() == old(self).structs(),
            final(self).slots() == old(self).slots(),
            final(self).built() == old(self).built(),
            final(self).values() == old(self).values().update(i as int, Some(value)),
            final(self).value_kinds() == old(self).value_kinds().update(i as int, Some(value_kind)),
    {
        let old_property = &self.properties[i];
        let property = MaterialProperty {
            group: old_property.group,
            binding: old_property.binding,
            kind: old_property.kind,
            value: Some(value),
            value_kind: Some(value_kind),
        };
        self.properties.set(i, property);
        proof {
            assert(self.structs() =~= old(self).structs());
            assert(self.slots() =~= old(self).slots());
            assert(self.values() =~= old(self).values().update(i as int, Some(value)));
            assert(self.value_kinds() =~= old(self).value_kinds().update(i as int, Some(value_kind)));
        }
    }

    /// Sets the property the name finds to the value, of the given kind, when
    /// the property accepts that kind, and marks the bind group at the place
    /// given by the property's group number out of date. Gives whether it did.
    /// (The place is the group number itself, so it must be below the number
    /// of layouts.)
    pub fn set_property(&mut self, name: &str, value: V, value_kind: MaterialValueKind) -> (r: bool)
        requires
            old(self).wf(),
            match last_named(old(self).slots(), name@) {
                Some(i) => old(self).slots()[i].kind.accepts(value_kind) ==> old(self).slots()[i].group
                    < old(self).built().len(),
                None => true,
            },
        ensures
            final(self).wf(),
            final(self).structs() == old(self).structs(),
            final(self).slots() == old(self).slots(),
            r == (last_named(old(self).slots(), name@) matches Some(i) && old(self).slots()[i].kind.accepts(
                value_kind,
            )),
            r ==> {
                let i = last_named(old(self).slots(), name@).unwrap();
                &&& final(self).values() == old(self).values().update(i, Some(value))
                &&& final(self).value_kinds() == old(self).value_kinds().update(i, Some(value_kind))
                &&& final(self).built() == old(self).built().update(old(self).slots()[i].group as int, false)
            },
            !r ==> final(self).values() == old(self).values() && final(self).value_kinds()
                == old(self).value_kinds() && final(self).built() == old(self).built(),
    {
        proof {
            lemma_last_named(old(self).slots(), name@);
        }
        let i = match self.find(name) {
            Some(i) => i,
            None => {
                return false;
            },
        };
        if !self.properties[i].kind.is_compatible(&value_kind) {
            return false;
        }
        let group = self.properties[i].group as usize;
        self.put_value(i, value, value_kind);
        self.built.set(group, false);
        proof {
            assert(self.structs() =~= old(self).structs());
        }
        true
    }
}

impl<V> MaterialProperties<V> {
    /// How the bind group at place `g` is made from the current values: the
    /// group number is `g + 1` (group 0 is the engine's). `None` when a
    /// property the group binds holds no value, so the group cannot be made.
    #[verifier::spinoff_prover]
    #[verifier::rlimit(30)]
    pub fn plan_bind_group(&self, g: usize) -> (r: Option<BindGroupPlan>)
        requires
            self.wf(),
            g < self.built().len(),
        ensures
            ({
                let structs = struct_places(self.structs(), g + 1, self.structs().len() as int);
                let run = property_run(
                    self.slots(),
                    self.values(),
                    g + 1,
                    structs.len() as int,
                    self.slots().len(),
                );
                &&& r is None <==> run is None
                &&& r matches Some(p) ==> {
                    &&& places(p.structs@) == structs
                    &&& places(p.member_uploads@) == member_upload_places(
                        self.slots(),
                        self.values(),
                        g + 1,
                        self.slots().len() as int,
                    )
                    &&& Some(places(p.properties@)) == run
                }
            }),
    {
        let group: u128 = g as u128 + 1;
        let ghost gi = g + 1;
        let mut structs: Vec<usize> = Vec::new();
        let mut i: usize = 0;
        while i < self.uniform_structs.len()
            invariant
                0 <= i <= self.uniform_structs@.len(),
                group == gi,
                places(structs@) == struct_places(self.structs(), gi, i as int),
            decreases self.uniform_structs@.len() - i,
        {
            if self.uniform_structs[i].group() as u128 == group {
                structs.push(i);
            }
            proof {
                assert(self.structs()[i as int].0 == self.uniform_structs@[i as int].spec_group());
                assert(places(structs@) =~= struct_places(self.structs(), gi, i as int + 1));
            }
            i = i + 1;
        }
        let member_uploads = self.member_uploads(g);
        let properties = self.run_from(group, structs.len());
        match properties {
            Some(properties) => Some(BindGroupPlan { structs, member_uploads, properties }),
            None => None,
        }
    }

    /// The properties the bind group at place `g` binds after its structs,
    /// from the current values (`None` when one of them holds no value).
    pub open spec fn group_run(&self, g: int) -> Option<Seq<int>> {
        property_run(
            self.slots(),
            self.values(),
            g + 1,
            struct_places(self.structs(), g + 1, self.structs().len() as int).len() as int,
            self.slots().len(),
        )
    }

    /// `p` is how the bind group at place `g` is made from the current values.
    pub open spec fn plans_group(&self, g: int, p: BindGroupPlan) -> bool {
        &&& places(p.structs@) == struct_places(self.structs(), g + 1, self.structs().len() as int)
        &&& places(p.member_uploads@) == member_upload_places(
            self.slots(),
            self.values(),
            g + 1,
            self.slots().len() as int,
        )
        &&& Some(places(p.properties@)) == self.group_run(g)
    }

    /// For each property, the place among the names of the material's preset
    /// values of the first one named like the property, if any: the preset the
    /// property starts with.
    pub fn preset_places(&self, preset_names: &[String]) -> (r: Vec<Option<usize>>)
        requires
            self.wf(),
        ensures
            r@.len() == self.slots().len(),
            forall|i: int|
                0 <= i < r@.len() ==> #[trigger] r@[i] == match first_place(texts(preset_names@), self.slots()[i].name) {
                    Some(j) => Some(j as usize),
                    None => None::<usize>,
                },
    {
        let mut r: Vec<Option<usize>> = Vec::new();
        let mut i: usize = 0;
        while i < self.names.len()
            invariant
                0 <= i <= self.names@.len(),
                self.wf(),
                r@.len() == i,
                forall|k: int|
                    0 <= k < i ==> #[trigger] r@[k] == match first_place(texts(preset_names@), self.slots()[k].name) {
                        Some(j) => Some(j as usize),
                        None => None::<usize>,
                    },
            decreases self.names@.len() - i,
        {
            assert(self.slots()[i as int].name == self.names@[i as int]@);
            r.push(find_first(preset_names, &self.names[i]));
            i = i + 1;
        }
        r
    }

    /// How each bind group that is out of date is made, in the order of their
    /// places, up to the first one that binds a property holding no value;
    /// the groups that are up to date are left as they are. That group, if
    /// any, comes second, with the members whose values are written before it
    /// turns out that it cannot be made.
    pub fn plan_missing_bind_groups(&self) -> (r: (Vec<(usize, BindGroupPlan)>, Option<(usize, Vec<usize>)>))
        requires
            self.wf(),
        ensures
            ({
                let (plans, failed) = r;
                let stop = match failed {
                    Some((g, _)) => g as int,
                    None => self.built().len() as int,
                };
                &&& failed matches Some((g, uploads)) ==> {
                    &&& g < self.built().len()
                    &&& !self.built()[g as int]
                    &&& self.group_run(g as int) is None
                    &&& places(uploads@) == member_upload_places(
                        self.slots(),
                        self.values(),
                        g + 1,
                        self.slots().len() as int,
                    )
                }
                &&& forall|h: int| 0 <= h < stop && !self.built()[h] ==> (#[trigger] self.group_run(h)) is Some
                &&& plans@.len() == missing_groups(self.built().take(stop)).len()
                &&& forall|k: int|
                    0 <= k < plans@.len() ==> (#[trigger] plans@[k]).0 as int == missing_groups(
                        self.built().take(stop),
                    )[k] && self.plans_group(plans@[k].0 as int, plans@[k].1)
            }),
    {
        let mut plans: Vec<(usize, BindGroupPlan)> = Vec::new();
        let mut g: usize = 0;
        let n = self.layout_count();
        while g < n
            invariant
                self.wf(),
                n == self.built().len(),
                0 <= g <= n,
                plans@.len() == missing_groups(self.built().take(g as int)).len(),
                forall|k: int|
                    0 <= k < plans@.len() ==> (#[trigger] plans@[k]).0 as int == missing_groups(
                        self.built().take(g as int),
                    )[k] && self.plans_group(plans@[k].0 as int, plans@[k].1),
                forall|h: int| 0 <= h < g && !self.built()[h] ==> (#[trigger] self.group_run(h)) is Some,
            decreases n - g,
        {
            let ghost before = self.built().take(g as int);
            let ghost now = self.built().take(g as int + 1);
            proof {
                assert(now.drop_last() =~= before);
                assert(now.last() == self.built()[g as int]);
            }
            if !self.is_built(g) {
                match self.plan_bind_group(g) {
                    Some(p) => {
                        plans.push((g, p));
                    },
                    None => {
                        assert(self.group_run(g as int) is None);
                        let uploads = self.member_uploads(g);
                        return (plans, Some((g, uploads)));
                    },
                }
            }
            proof {
                assert forall|k: int| 0 <= k < plans@.len() implies (#[trigger] plans@[k]).0 as int
                    == missing_groups(now)[k] && self.plans_group(plans@[k].0 as int, plans@[k].1) by {
                    if k < missing_groups(before).len() {
                    }
                }
            }
            g = g + 1;
        }
        (plans, None)
    }


    /// The uniform struct members of the bind group at place `g` that hold a
    /// value, in order: their values are written to their buffers when the
    /// group is made.
    pub fn member_uploads(&self, g: usize) -> (r: Vec<usize>)
        requires
            self.wf(),
        ensures
            places(r@) == member_upload_places(self.slots(), self.values(), g + 1, self.slots().len() as int),
    {
        let group: u128 = g as u128 + 1;
        let ghost gi = g + 1;
        let mut member_uploads: Vec<usize> = Vec::new();
        let mut i: usize = 0;
        while i < self.properties.len()
            invariant
                0 <= i <= self.properties@.len(),
                self.wf(),
                group == gi,
                places(member_uploads@) == member_upload_places(self.slots(), self.values(), gi, i as int),
            decreases self.properties@.len() - i,
        {
            let p = &self.properties[i];
            let is_member = match p.kind {
                MaterialPropertyKind::UniformMember { .. } => true,
                _ => false,
            };
            if p.group as u128 == group && is_member && p.value.is_some() {
                member_uploads.push(i);
            }
            proof {
                assert(places(member_uploads@) =~= member_upload_places(self.slots(), self.values(), gi, i as int + 1));
            }
            i = i + 1;
        }
        member_uploads
    }

    /// The properties of group number `group` whose binding numbers follow
    /// each other from `b0`, or `None` when one of them holds no value.
    #[verifier::spinoff_prover]
    #[verifier::rlimit(30)]
    fn run_from(&self, group: u128, b0: usize) -> (r: Option<Vec<usize>>)
        requires
            self.wf(),
        ensures
            r is None <==> property_run(self.slots(), self.values(), group as int, b0 as int, self.slots().len()) is None,
            r matches Some(v) ==> Some(places(v@)) == property_run(
                self.slots(),
                self.values(),
                group as int,
                b0 as int,
                self.slots().len(),
            ),
    {
        let ghost fuel0 = self.slots().len();
        let ghost gi = group as int;
        let mut properties: Vec<usize> = Vec::new();
        let mut b: u128 = b0 as u128;
        let mut k: usize = 0;
        while k < self.properties.len()
            invariant
                0 <= k <= self.properties@.len(),
                fuel0 == self.properties@.len(),
                self.wf(),
                gi == group,
                b == b0 + k,
                properties@.len() == k,
                property_run(self.slots(), self.values(), gi, b0 as int, fuel0) == after(
                    places(properties@),
                    property_run(self.slots(), self.values(), gi, b as int, (fuel0 - k) as nat),
                ),
            decreases self.properties@.len() - k,
        {
            let ghost before = places(properties@);
            let found = self.first_bound_at(group, b);
            match found {
                None => {
                    proof {
                        lemma_run_step(self.slots(), self.values(), gi, b as int, (fuel0 - k) as nat);
                        assert(before + Seq::<int>::empty() =~= before);
                    }
                    return Some(properties);
                },
                Some(i) => {
                    if self.properties[i].value.is_none() {
                        proof {
                            lemma_run_step(self.slots(), self.values(), gi, b as int, (fuel0 - k) as nat);
                            assert(self.values()[i as int] is None);
                        }
                        return None;
                    }
                    properties.push(i);
                    proof {
                        lemma_run_step(self.slots(), self.values(), gi, b as int, (fuel0 - k) as nat);
                        assert(self.values()[i as int] is Some);
                        assert(places(properties@) =~= before.push(i as int));
                        let next = property_run(self.slots(), self.values(), gi, b as int + 1, (fuel0 - k - 1) as nat);
                        match next {
                            Some(r2) => {
                                assert(before + (seq![i as int] + r2) =~= before.push(i as int) + r2);
                            },
                            None => {},
                        }
                    }
                    b = b + 1;
                },
            }
            k = k + 1;
        }
        proof {
            lemma_run_end(self.slots(), self.values(), gi, b as int);
            assert(places(properties@) + Seq::<int>::empty() =~= places(properties@));
        }
        Some(properties)
    }

    /// The first property bound in group number `group` at binding number `b`.
    fn first_bound_at(&self, group: u128, b: u128) -> (r: Option<usize>)
        requires
            self.wf(),
        ensures
            r matches Some(i) ==> i < self.slots().len() && first_bound_at(self.slots(), group as int, b as int) == Some(
                i as int,
            ),
            r is None ==> first_bound_at(self.slots(), group as int, b as int) is None,
    {
        let mut i: usize = 0;
        while i < self.properties.len()
            invariant
                0 <= i <= self.properties@.len(),
                self.wf(),
                forall|j: int| 0 <= j < i ==> !bound_at(self.slots(), j, group as int, b as int),
            decreases self.properties@.len() - i,
        {
            let p = &self.properties[i];
            let is_member = match p.kind {
                MaterialPropertyKind::UniformMember { .. } => true,
                _ => false,
            };
            if p.group as u128 == group && !is_member && p.binding as u128 == b {
                proof {
                    let slots = self.slots();
                    let g = group as int;
                    let bi = b as int;
                    assert(bound_at(slots, i as int, g, bi));
                    let c = choose|c: int|
                        0 <= c < slots.len() && bound_at(slots, c, g, bi) && forall|j: int|
                            0 <= j < c ==> !bound_at(slots, j, g, bi);
                    if c < i {
                    } else if c > i {
                        assert(!bound_at(slots, i as int, g, bi));
                    }
                }
                return Some(i);
            }
            i = i + 1;
        }
        None
    }
}

impl<V> MaterialProperties<V> {
    /// A property only ever holds a value of a kind its binding accepts, and
    /// holds a kind exactly when it holds a value.
    pub proof fn lemma_values_accepted(&self)
        requires
            self.wf(),
        ensures
            self.values().len() == self.slots().len(),
            self.value_kinds().len() == self.slots().len(),
            forall|i: int|
                0 <= i < self.slots().len() ==> (#[trigger] self.values()[i]).is_some()
                    == self.value_kinds()[i].is_some(),
            forall|i: int|
                0 <= i < self.slots().len() && (#[trigger] self.value_kinds()[i]) is Some ==> self.slots()[i].kind.accepts(
                    self.value_kinds()[i].unwrap(),
                ),
    {
        assert forall|i: int| 0 <= i < self.slots().len() implies (#[trigger] self.values()[i]).is_some()
            == self.value_kinds()[i].is_some() by {
            assert(self.properties@[i].wf());
        }
        assert forall|i: int|
            0 <= i < self.slots().len() && (#[trigger] self.value_kinds()[i]) is Some implies self.slots()[i].kind.accepts(
            self.value_kinds()[i].unwrap(),
        ) by {
            assert(self.properties@[i].wf());
        }
    }
}

/// What a successful `set_property` wrote is what the name then finds: the
/// property keeps its place and holds the value.
pub proof fn lemma_set_then_get<V>(slots: Seq<PropertySlot>, values: Seq<Option<V>>, name: Seq<char>, value: V)
    requires
        last_named(slots, name) is Some,
        values.len() == slots.len(),
    ensures
        values.update(last_named(slots, name).unwrap(), Some(value))[last_named(slots, name).unwrap()] == Some(value),
{
    lemma_last_named(slots, name);
}

/// The properties a bind group binds after its structs sit at the binding
/// numbers that follow the structs', one after another, in their group, and
/// each holds a value.
pub proof fn lemma_run_bound<V>(slots: Seq<PropertySlot>, values: Seq<Option<V>>, g: int, b: int, fuel: nat)
    requires
        values.len() == slots.len(),
    ensures
        property_run(slots, values, g, b, fuel) matches Some(run) ==> forall|t: int|
            0 <= t < run.len() ==> 0 <= #[trigger] run[t] < slots.len() && bound_at(slots, run[t], g, b + t)
                && values[run[t]] is Some,
    decreases fuel,
{
    if fuel == 0 {
        lemma_run_end(slots, values, g, b);
    } else {
        lemma_run_step(slots, values, g, b, fuel);
        lemma_run_bound(slots, values, g, b + 1, (fuel - 1) as nat);
        lemma_first_bound_at(slots, g, b);
        match first_bound_at(slots, g, b) {
            None => {},
            Some(i) => {
                if values[i] is Some {
                    match property_run(slots, values, g, b + 1, (fuel - 1) as nat) {
                        Some(rest) => {
                            let run = seq![i] + rest;
                            assert forall|t: int| 0 <= t < run.len() implies 0 <= #[trigger] run[t] < slots.len()
                                && bound_at(slots, run[t], g, b + t) && values[run[t]] is Some by {
                                if t > 0 {
                                    assert(run[t] == rest[t - 1]);
                                }
                            }
                        },
                        None => {},
                    }
                }
            },
        }
    }
}

/// `first_bound_at` names a property bound there.
proof fn lemma_first_bound_at(slots: Seq<PropertySlot>, g: int, b: int)
    ensures
        first_bound_at(slots, g, b) matches Some(i) ==> 0 <= i < slots.len() && bound_at(slots, i, g, b),
{
    if exists|i: int| 0 <= i < slots.len() && bound_at(slots, i, g, b) {
        let i0 = choose|i: int| 0 <= i < slots.len() && bound_at(slots, i, g, b);
        lemma_least_bound(slots, g, b, i0);
    }
}

/// Among the properties bound there, one comes first.
proof fn lemma_least_bound(slots: Seq<PropertySlot>, g: int, b: int, k: int)
    requires
        0 <= k < slots.len(),
        bound_at(slots, k, g, b),
    ensures
        exists|m: int|
            0 <= m < slots.len() && bound_at(slots, m, g, b) && forall|j: int| 0 <= j < m ==> !bound_at(slots, j, g, b),
    decreases k,
{
    if exists|j: int| 0 <= j < k && bound_at(slots, j, g, b) {
        let j = choose|j: int| 0 <= j < k && bound_at(slots, j, g, b);
        lemma_least_bound(slots, g, b, j);
    } else {
        assert(forall|j: int| 0 <= j < k ==> !bound_at(slots, j, g, b));
    }
}
} // verus!
