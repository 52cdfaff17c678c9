use vstd::prelude::*;

verus! {

/// Which depth and stencil attachment a render target carries.
#[derive(Debug, Clone, Copy, PartialEq, Eq, Hash)]
pub enum DepthStencilMode {
    /// No depth or stencil attachment.
    NoDepth,
    DepthOnly,
    DepthStencil,
}

impl DepthStencilMode {
    /// The label given to the texture created for this mode.
    pub open spec fn label(self) -> Seq<char> {
        match self {
            DepthStencilMode::NoDepth => ""@,
            DepthStencilMode::DepthOnly => "depth texture"@,
            DepthStencilMode::DepthStencil => "depth and stencil texture"@,
        }
    }

    pub fn as_label_str(self) -> (r: &'static str)
        ensures
            r@ == self.label(),
    {
        match self {
            DepthStencilMode::NoDepth => "",
            DepthStencilMode::DepthOnly => "depth texture",
            DepthStencilMode::DepthStencil => "depth and stencil texture",
        }
    }

    /// Whether this mode needs a texture at all (the modes other than `NoDepth`).
    pub fn has_texture(self) -> (r: bool)
        ensures
            r == !(self is NoDepth),
    {
        match self {
            DepthStencilMode::NoDepth => false,
            _ => true,
        }
    }
}

/// A texture is made for a requested size only when both sides are non-zero.
pub open spec fn spec_is_renderable_size(width: u32, height: u32) -> bool {
    width != 0 && height != 0
}

/// Whether a depth-stencil texture is made (or remade) for this size; for a
/// size with a zero side nothing is made and what was there is kept.
pub fn is_renderable_size(width: u32, height: u32) -> (r: bool)
    ensures
        r == spec_is_renderable_size(width, height),
{
    !(width == 0 || height == 0)
}

} // verus!
