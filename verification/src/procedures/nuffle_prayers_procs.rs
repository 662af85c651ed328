use vstd::prelude::*;

use crate::dice::D6Target;
use crate::model::PlayerID;
use crate::procedures::any_proc::AnyProc;

verus! {

#[derive(Clone, Copy, Debug, PartialEq, Eq, Structural, Hash)]
pub struct PrayersToNuffle {}

impl PrayersToNuffle {
    pub fn new() -> (r: AnyProc)
        ensures
            r == AnyProc::PrayersToNuffle(PrayersToNuffle {  }),
    {
        AnyProc::PrayersToNuffle(PrayersToNuffle {  })
    }
}

#[derive(Debug, PartialEq, Eq, Hash)]
pub struct TrapdoorCheck {
    pub id: PlayerID,
    pub target: D6Target,
    pub on_safe_procs: Vec<AnyProc>,
}

impl TrapdoorCheck {
    pub fn new(id: PlayerID, target: D6Target) -> (r: AnyProc)
        ensures
            r matches AnyProc::TrapdoorCheck(t) && t.id == id && t.target == target
                && t.on_safe_procs@.len() == 0,
    {
        AnyProc::TrapdoorCheck(TrapdoorCheck { id, target, on_safe_procs: Vec::new() })
    }
}

} // verus!
