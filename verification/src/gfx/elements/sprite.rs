use vstd::prelude::*;

verus! {

/// The texel rectangle of a sprite within its texture.
#[derive(Debug, Clone, Copy, PartialEq, Eq, Hash)]
pub struct SpriteMapping {
    pub min: (u16, u16),
    pub max: (u16, u16),
}

} // verus!
