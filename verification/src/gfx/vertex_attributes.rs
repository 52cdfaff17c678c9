use vstd::prelude::*;

verus! {

/// The format of a vertex attribute.
#[derive(Debug, Clone, Copy, PartialEq, Eq, Hash)]
pub enum VertexFormatKind {
    Float32,
    Float32x2,
    Float32x3,
    Float32x4,
    Uint32,
    Uint32x4,
}

/// A vertex input a mesh offers: the shader input name it feeds, its format
/// and its byte offset within a vertex.
#[derive(Debug, Clone, PartialEq, Eq, Hash)]
pub struct VertexInput {
    pub name: String,
    pub format: VertexFormatKind,
    pub offset: u64,
}

/// A vertex attribute of a render pipeline.
#[derive(Debug, Clone, Copy, PartialEq, Eq, Hash)]
pub struct VertexAttributePlan {
    pub format: VertexFormatKind,
    pub offset: u64,
    pub shader_location: u32,
}

/// The names of the shader's inputs are distinct.
pub open spec fn distinct_names(locations: Seq<(String, u32)>) -> bool {
    forall|a: int, b: int| 0 <= a < b < locations.len() ==> (#[trigger] locations[a]).0@ != (#[trigger] locations[b]).0@
}

/// The location of the shader input with the name, if the shader has one.
pub open spec fn location_of(locations: Seq<(String, u32)>, name: Seq<char>) -> Option<u32> {
    if exists|k: int| 0 <= k < locations.len() && locations[k].0@ == name {
        Some(locations[choose|k: int| 0 <= k < locations.len() && locations[k].0@ == name].1)
    } else {
        None
    }
}

/// The attributes of the first `n` inputs: each input the shader reads, at
/// the shader's location for its name; the others are left out.
pub open spec fn attribute_plan(inputs: Seq<VertexInput>, locations: Seq<(String, u32)>, n: int) -> Seq<
    VertexAttributePlan,
>
    decreases n,
{
    if n <= 0 {
        Seq::empty()
    } else {
        let rest = attribute_plan(inputs, locations, n - 1);
        let input = inputs[n - 1];
        match location_of(locations, input.name@) {
            Some(location) => rest.push(
                VertexAttributePlan { format: input.format, offset: input.offset, shader_location: location },
            ),
            None => rest,
        }
    }
}

/// The location of the shader input with the name.
fn find_location(locations: &[(String, u32)], name: &String) -> (r: Option<u32>)
    requires
        distinct_names(locations@),
    ensures
        r == location_of(locations@, name@),
{
    let mut k: usize = 0;
    while k < locations.len()
        invariant
            0 <= k <= locations@.len(),
            distinct_names(locations@),
            forall|j: int| 0 <= j < k ==> (#[trigger] locations@[j]).0@ != name@,
        decreases locations@.len() - k,
    {
        if locations[k].0 == *name {
            proof {
                let c = choose|c: int| 0 <= c < locations@.len() && locations@[c].0@ == name@;
                if c != k {
                    if c < k {
                    } else {
                        assert(locations@[k as int].0@ != locations@[c].0@);
                    }
                }
            }
            return Some(locations[k].1);
        }
        k = k + 1;
    }
    None
}

/// The vertex attributes of a pipeline for a mesh's inputs and a shader's
/// input locations, in the order of the inputs; an input the shader does not
/// read gets no attribute.
pub fn plan_vertex_attributes(inputs: &[VertexInput], locations: &[(String, u32)]) -> (r: Vec<VertexAttributePlan>)
    requires
        distinct_names(locations@),
    ensures
        r@ == attribute_plan(inputs@, locations@, inputs@.len() as int),
{
    let mut r: Vec<VertexAttributePlan> = Vec::new();
    let mut i: usize = 0;
    while i < inputs.len()
        invariant
            0 <= i <= inputs@.len(),
            distinct_names(locations@),
            r@ == attribute_plan(inputs@, locations@, i as int),
        decreases inputs@.len() - i,
    {
        let input = &inputs[i];
        match find_location(locations, &input.name) {
            Some(shader_location) => {
                r.push(VertexAttributePlan { format: input.format, offset: input.offset, shader_location });
            },
            None => {},
        }
        i = i + 1;
    }
    r
}

} // verus!
