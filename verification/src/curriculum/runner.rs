use vstd::prelude::*;

verus! {

/// Tally of the trials run for one lecture.
#[derive(Debug, Clone, Copy, Default, PartialEq, Eq, Structural)]
pub struct TrialStats {
    pub trials: u32,
    pub successes: u32,
    pub failures: u32,
    pub timeouts: u32,
}

} // verus!
