use vstd::prelude::*;

verus! {

/// Dice policy a lecture runs under; only the engine's default behaviour exists so far.
#[derive(Debug, Clone, Copy, PartialEq, Eq, Structural)]
pub enum DicePolicy {
    /// Use whatever was queued as fixed dice, then fall back to the random generator.
    Default,
}

impl Default for DicePolicy {
    fn default() -> (r: Self)
        ensures
            r == DicePolicy::Default,
    {
        DicePolicy::Default
    }
}

} // verus!
