use vstd::prelude::*;

verus! {

/// A rolling tick source shared by the whole program.
///
/// The hardware timer behind it is attached by the platform layer; the value
/// itself carries no state.
pub struct GlobalRollingTimer;

impl GlobalRollingTimer {
    pub fn new() -> (r: Self)
        ensures
            r == (GlobalRollingTimer),
    {
        GlobalRollingTimer
    }
}

} // verus!
