use super::object_span::ObjectSpan;
use std::ops::Range;
use vstd::prelude::*;

verus! {

impl ObjectSpan {
    /// The places the span takes, as a range of list positions. The end is
    /// computed in `u32`, so it must fit there.
    pub fn to_range(self) -> (r: Range<usize>)
        requires
            self.index + self.count <= u32::MAX,
        ensures
            r.start == self.index,
            r.end == self.index + self.count,
    {
        (self.index as usize)..((self.index + self.count) as usize)
    }
}

} // verus!
