use vstd::prelude::*;

verus! {

/// How a UI scaler sizes its subtree against the parent size.
#[derive(Debug, Clone, Copy, PartialEq, Eq, Hash)]
pub enum UIScaleMode {
    Constant,
    Stretch,
    Fit,
    Fill,
    MatchWidth,
    MatchHeight,
}

} // verus!
