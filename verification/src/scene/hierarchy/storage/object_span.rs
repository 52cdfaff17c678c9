use vstd::prelude::*;
use vstd::std_specs::cmp::PartialEqSpecImpl;
use vstd::std_specs::cmp::PartialOrdSpecImpl;

verus! {

/// Where an object and its descendants lie in the ordered object list: they
/// take the `count` places that start at `index`. Two spans compare by their
/// index alone.
#[derive(Debug, Clone, Copy, Eq, Ord, Hash)]
pub struct ObjectSpan {
    pub index: u32,
    pub count: u32,
}

impl PartialEq for ObjectSpan {
    fn eq(&self, other: &Self) -> (r: bool) {
        self.index == other.index
    }
}

impl PartialEqSpecImpl for ObjectSpan {
    open spec fn obeys_eq_spec() -> bool {
        true
    }

    open spec fn eq_spec(&self, other: &Self) -> bool {
        self.index == other.index
    }
}

impl PartialOrd for ObjectSpan {
    fn partial_cmp(&self, other: &Self) -> (r: Option<std::cmp::Ordering>) {
        if self.index < other.index {
            Some(std::cmp::Ordering::Less)
        } else if self.index == other.index {
            Some(std::cmp::Ordering::Equal)
        } else {
            Some(std::cmp::Ordering::Greater)
        }
    }
}

impl PartialOrdSpecImpl for ObjectSpan {
    open spec fn obeys_partial_cmp_spec() -> bool {
        true
    }

    open spec fn partial_cmp_spec(&self, other: &Self) -> Option<std::cmp::Ordering> {
        if self.index < other.index {
            Some(std::cmp::Ordering::Less)
        } else if self.index == other.index {
            Some(std::cmp::Ordering::Equal)
        } else {
            Some(std::cmp::Ordering::Greater)
        }
    }
}

} // verus!
