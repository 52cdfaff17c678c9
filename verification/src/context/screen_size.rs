use vstd::prelude::*;

verus! {

/// The window's inner size in physical pixels, and whether it changed since
/// the last time the change was taken into account.
#[derive(Debug)]
pub struct ScreenSize {
    is_dirty: bool,
    width: u32,
    height: u32,
}

impl ScreenSize {
    pub closed spec fn spec_is_dirty(&self) -> bool {
        self.is_dirty
    }

    pub closed spec fn spec_size(&self) -> (u32, u32) {
        (self.width, self.height)
    }

    /// A new size counts as changed.
    pub fn new(width: u32, height: u32) -> (r: ScreenSize)
        ensures
            r.spec_is_dirty(),
            r.spec_size() == (width, height),
    {
        ScreenSize { is_dirty: true, width, height }
    }

    pub fn is_dirty(&self) -> (r: bool)
        ensures
            r == self.spec_is_dirty(),
    {
        self.is_dirty
    }

    /// Width and height.
    pub fn size(&self) -> (r: (u32, u32))
        ensures
            r == self.spec_size(),
    {
        (self.width, self.height)
    }

    /// Records a new size, which counts as changed (even when it is the same).
    pub fn set_size(&mut self, width: u32, height: u32)
        ensures
            final(self).spec_is_dirty(),
            final(self).spec_size() == (width, height),
    {
        self.is_dirty = true;
        self.width = width;
        self.height = height;
    }

    /// The change has been taken into account.
    pub fn reset_dirty(&mut self)
        ensures
            !final(self).spec_is_dirty(),
            final(self).spec_size() == old(self).spec_size(),
    {
        self.is_dirty = false;
    }
}

} // verus!
