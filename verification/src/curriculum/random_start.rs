use vstd::prelude::*;

use crate::board::BoardDims;
use crate::model::{Coord, Position, TeamType};

verus! {

/// What a generated player is placed for.
#[derive(Clone, Copy, Debug, PartialEq, Eq, Structural)]
pub enum Role {
    /// The front brawl on the engagement line.
    Line,
    /// Near the ball.
    Pocket,
    /// Anywhere.
    Wide,
}

/// Slot of a team in the per-team front columns.
pub fn front_x_index(team: TeamType) -> (r: usize)
    ensures
        r == (match team {
            TeamType::Home => 0usize,
            TeamType::Away => 1usize,
        }),
{
    match team {
        TeamType::Home => 0,
        TeamType::Away => 1,
    }
}

/// The first index of `Pocket` in `roles`, if there is one.
pub open spec fn first_pocket(roles: Seq<Role>) -> Option<int> {
    if exists|i: int| 0 <= i < roles.len() && roles[i] == Role::Pocket {
        Some(
            choose|i: int|
                0 <= i < roles.len() && roles[i] == Role::Pocket && (forall|j: int|
                    0 <= j < i ==> roles[j] != Role::Pocket),
        )
    } else {
        None
    }
}

/// The carrier takes the team's first pocket slot when there is one, and otherwise the last
/// slot of any role.
pub fn remove_carrier_role(roles: &mut Vec<Role>)
    ensures
        match first_pocket(old(roles)@) {
            Some(i) => final(roles)@ == old(roles)@.remove(i),
            None => if old(roles)@.len() > 0 {
                final(roles)@ == old(roles)@.drop_last()
            } else {
                final(roles)@ == old(roles)@
            },
        },
{
    let mut i: usize = 0;
    while i < roles.len()
        invariant
            i <= roles@.len(),
            roles@ == old(roles)@,
            forall|j: int| 0 <= j < i ==> roles@[j] != Role::Pocket,
        decreases roles@.len() - i,
    {
        if roles[i] == Role::Pocket {
            proof {
                let w = i as int;
                assert(0 <= w < roles@.len() && roles@[w] == Role::Pocket);
                let c = first_pocket(roles@)->0;
                assert(roles@[c] == Role::Pocket);
                assert(c == w) by {
                    if c < w {
                        assert(roles@[c] != Role::Pocket);
                    } else if w < c {
                        assert(roles@[w] != Role::Pocket);
                    }
                }
            }
            roles.remove(i);
            return;
        }
        i += 1;
    }
    proof {
        assert(!(exists|j: int| 0 <= j < roles@.len() && roles@[j] == Role::Pocket));
    }
    roles.pop();
}

/// The team's defended endzone is at high x for `Home` and low x for `Away`: `s` is strictly
/// on that side of every opponent placed so far, or, before any opponent is placed, on the
/// team's own half.
pub open spec fn spec_own_side_feature(
    dims: BoardDims,
    team: TeamType,
    s: Position,
    placed: Seq<(Position, TeamType)>,
) -> bool {
    if exists|i: int| 0 <= i < placed.len() && placed[i].1 != team {
        forall|i: int|
            0 <= i < placed.len() && placed[i].1 != team ==> match team {
                TeamType::Home => s.x > placed[i].0.x,
                TeamType::Away => s.x < placed[i].0.x,
            }
    } else {
        dims.spec_is_on_team_side(s, team)
    }
}

/// True if `s` lies strictly between the team's defended endzone and the opponent closest to
/// it; before any opponent is placed, whether `s` is on the team's own half.
pub fn own_side_feature(
    dims: BoardDims,
    team: TeamType,
    s: Position,
    placed: &[(Position, TeamType)],
) -> (r: bool)
    ensures
        r == spec_own_side_feature(dims, team, s, placed@),
{
    let mut threshold: Option<Coord> = None;
    let mut i: usize = 0;
    while i < placed.len()
        invariant
            i <= placed@.len(),
            threshold is None <==> !(exists|j: int| 0 <= j < i && placed@[j].1 != team),
            threshold matches Some(t) ==> {
                &&& exists|j: int| 0 <= j < i && placed@[j].1 != team && placed@[j].0.x == t
                &&& forall|j: int|
                    0 <= j < i && placed@[j].1 != team ==> match team {
                        TeamType::Home => placed@[j].0.x <= t,
                        TeamType::Away => placed@[j].0.x >= t,
                    }
            },
        decreases placed@.len() - i,
    {
        let (p, t) = placed[i];
        if t != team {
            threshold = match threshold {
                None => Some(p.x),
                Some(cur) => match team {
                    TeamType::Home => if p.x > cur {
                        Some(p.x)
                    } else {
                        Some(cur)
                    },
                    TeamType::Away => if p.x < cur {
                        Some(p.x)
                    } else {
                        Some(cur)
                    },
                },
            };
        }
        i += 1;
    }
    match threshold {
        Some(t) => match team {
            TeamType::Home => s.x > t,
            TeamType::Away => s.x < t,
        },
        None => dims.is_on_team_side(s, team),
    }
}

} // verus!
