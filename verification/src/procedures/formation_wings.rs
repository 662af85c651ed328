//! How many of a formation's slots land in the wings, on every board height.

use vstd::prelude::*;

use crate::board::spec_bands;
use crate::procedures::kickoff_procs::{slot_row, spec_formation_slots, Formation};

verus! {

/// Row `y` lies in the north wing of a board `h` rows high.
pub open spec fn north_row(h: int, y: int) -> bool {
    1 <= y <= spec_bands(h - 2).1
}

/// Row `y` lies in the south wing of a board `h` rows high.
pub open spec fn south_row(h: int, y: int) -> bool {
    spec_bands(h - 2).1 + spec_bands(h - 2).0 + 1 <= y <= h - 2
}

/// How many of the first `k` slots of formation `f` resolve to a row of the north (or the
/// south) wing on a board `h` rows high.
pub open spec fn wing_slot_count(h: int, f: Formation, north: bool, k: nat) -> int
    decreases k,
{
    if k == 0 {
        0
    } else {
        let prev = wing_slot_count(h, f, north, (k - 1) as nat);
        match slot_row(h, spec_formation_slots(f)[k - 1].2) {
            Some(y) => if (if north {
                north_row(h, y)
            } else {
                south_row(h, y)
            }) {
                prev + 1
            } else {
                prev
            },
            None => prev,
        }
    }
}

/// No formation sends more than two players to either wing on a board `h` rows high.
pub open spec fn wings_hold_two(h: int) -> bool {
    &&& wing_slot_count(h, Formation::Line, true, 11) <= 2
    &&& wing_slot_count(h, Formation::Line, false, 11) <= 2
    &&& wing_slot_count(h, Formation::Spread, true, 11) <= 2
    &&& wing_slot_count(h, Formation::Spread, false, 11) <= 2
    &&& wing_slot_count(h, Formation::Wedge, true, 11) <= 2
    &&& wing_slot_count(h, Formation::Wedge, false, 11) <= 2
    &&& wing_slot_count(h, Formation::Zone, true, 11) <= 2
    &&& wing_slot_count(h, Formation::Zone, false, 11) <= 2
}

/// On a board `h` rows high, the line formation sends at most two slots to each wing.
#[verifier::rlimit(50)]
#[verifier::spinoff_prover]
proof fn lemma_wings_line(h: int)
    requires
        5 <= h <= 17,
    ensures
        wing_slot_count(h, Formation::Line, true, 11) <= 2,
        wing_slot_count(h, Formation::Line, false, 11) <= 2,
{
    reveal_with_fuel(wing_slot_count, 12);
    if h == 5 {
    } else if h == 6 {
    } else if h == 7 {
    } else if h == 8 {
    } else if h == 9 {
    } else if h == 10 {
    } else if h == 11 {
    } else if h == 12 {
    } else if h == 13 {
    } else if h == 14 {
    } else if h == 15 {
    } else if h == 16 {
    } else {
        assert(h == 17);
    }
}

/// On a board `h` rows high, the spread formation sends at most two slots to each wing.
#[verifier::rlimit(50)]
#[verifier::spinoff_prover]
proof fn lemma_wings_spread(h: int)
    requires
        5 <= h <= 17,
    ensures
        wing_slot_count(h, Formation::Spread, true, 11) <= 2,
        wing_slot_count(h, Formation::Spread, false, 11) <= 2,
{
    reveal_with_fuel(wing_slot_count, 12);
    if h == 5 {
    } else if h == 6 {
    } else if h == 7 {
    } else if h == 8 {
    } else if h == 9 {
    } else if h == 10 {
    } else if h == 11 {
    } else if h == 12 {
    } else if h == 13 {
    } else if h == 14 {
    } else if h == 15 {
    } else if h == 16 {
    } else {
        assert(h == 17);
    }
}

/// On a board `h` rows high, the wedge formation sends at most two slots to each wing.
#[verifier::rlimit(50)]
#[verifier::spinoff_prover]
proof fn lemma_wings_wedge(h: int)
    requires
        5 <= h <= 17,
    ensures
        wing_slot_count(h, Formation::Wedge, true, 11) <= 2,
        wing_slot_count(h, Formation::Wedge, false, 11) <= 2,
{
    reveal_with_fuel(wing_slot_count, 12);
    if h == 5 {
    } else if h == 6 {
    } else if h == 7 {
    } else if h == 8 {
    } else if h == 9 {
    } else if h == 10 {
    } else if h == 11 {
    } else if h == 12 {
    } else if h == 13 {
    } else if h == 14 {
    } else if h == 15 {
    } else if h == 16 {
    } else {
        assert(h == 17);
    }
}

/// On a board `h` rows high, the zone formation sends at most two slots to each wing.
#[verifier::rlimit(50)]
#[verifier::spinoff_prover]
proof fn lemma_wings_zone(h: int)
    requires
        5 <= h <= 17,
    ensures
        wing_slot_count(h, Formation::Zone, true, 11) <= 2,
        wing_slot_count(h, Formation::Zone, false, 11) <= 2,
{
    reveal_with_fuel(wing_slot_count, 12);
    if h == 5 {
    } else if h == 6 {
    } else if h == 7 {
    } else if h == 8 {
    } else if h == 9 {
    } else if h == 10 {
    } else if h == 11 {
    } else if h == 12 {
    } else if h == 13 {
    } else if h == 14 {
    } else if h == 15 {
    } else if h == 16 {
    } else {
        assert(h == 17);
    }
}

/// On every board height the compiled capacity allows, no formation's slots put more than
/// two players in either wing.
pub proof fn lemma_formation_wings_hold_two(h: int)
    requires
        5 <= h <= 17,
    ensures
        wings_hold_two(h),
{
    lemma_wings_line(h);
    lemma_wings_spread(h);
    lemma_wings_wedge(h);
    lemma_wings_zone(h);
}

} // verus!
