use std::collections::BTreeMap;
use vstd::prelude::*;

verus! {

/// What the engine reads out of a compiled shader: its entry points, the
/// locations of its vertex inputs and the group of its built-in uniforms.
#[derive(Debug)]
pub struct ShaderReflection {
    pub vertex_entry_point: String,
    pub fragment_entry_point: String,
    pub locations: BTreeMap<String, u32>,
    pub builtin_uniform_bind_group: Option<u32>,
}

} // verus!
