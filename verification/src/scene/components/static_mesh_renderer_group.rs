use vstd::prelude::*;

verus! {

/// Marks an object whose static mesh renderers are drawn as one group.
#[derive(Debug, Clone, Copy)]
pub struct StaticMeshRendererGroup;

} // verus!
