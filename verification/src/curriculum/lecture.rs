use vstd::prelude::*;

verus! {

/// How hard a lecture's scenario is.
#[derive(Debug, Clone, Copy, PartialEq, Eq, Structural)]
pub enum Difficulty {
    Easy,
    Medium,
    Hard,
}

/// Where a running lecture trial stands.
#[derive(Debug, Clone, Copy, PartialEq, Eq, Structural)]
pub enum LectureStatus {
    InProgress,
    Success,
    Failure,
}

/// The turn counters and half at the start of a trial, so a lecture can recognise that play
/// has come back around to the agent's next turn.
#[derive(Debug, Clone, Copy)]
pub struct LectureContext {
    pub initial_home_turn: u8,
    pub initial_away_turn: u8,
    pub initial_half: u8,
}

} // verus!
