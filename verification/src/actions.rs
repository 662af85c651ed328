//! The actions a decision point offers: simple action types, and positional action types per
//! square of the pitch.

use vstd::prelude::*;

use crate::model::{other_team, spec_other_team, Action, Coord, Position, TeamType, HEIGHT, WIDTH};
use crate::pitch::{in_pitch, FullPitch};
use crate::table::{lemma_simple_at_index_round_trip, simple_at_of_index, PosAT, SimpleAT};

verus! {

/// A set of simple action types.
#[derive(Debug, Clone, Copy, PartialEq, Eq, Hash)]
pub struct SimpleATSet {
    flags: [bool; 19],
}

impl View for SimpleATSet {
    type V = Set<SimpleAT>;

    closed spec fn view(&self) -> Set<SimpleAT> {
        Set::new(|a: SimpleAT| self.flags@[a.spec_index() as int])
    }
}

impl SimpleATSet {
    pub fn new() -> (r: SimpleATSet)
        ensures
            r@ == Set::<SimpleAT>::empty(),
    {
        let r = SimpleATSet { flags: [false; 19] };
        assert(r@ =~= Set::<SimpleAT>::empty());
        r
    }

    pub fn contains(&self, at: &SimpleAT) -> (r: bool)
        ensures
            r == self@.contains(*at),
    {
        self.flags[at.index()]
    }

    /// Add an action type; true if it was not there before.
    pub fn insert(&mut self, at: SimpleAT) -> (r: bool)
        ensures
            final(self)@ == old(self)@.insert(at),
            r == !old(self)@.contains(at),
    {
        let i = at.index();
        let was = self.flags[i];
        self.flags[i] = true;
        proof {
            assert forall|b: SimpleAT| #[trigger] final(self)@.contains(b) == old(self)@.insert(at).contains(b) by {
                lemma_simple_at_index_round_trip(b);
                lemma_simple_at_index_round_trip(at);
            }
            assert(final(self)@ =~= old(self)@.insert(at));
        }
        !was
    }

    pub fn is_empty(&self) -> (r: bool)
        ensures
            r == (self@ == Set::<SimpleAT>::empty()),
    {
        let mut i: usize = 0;
        while i < 19
            invariant
                i <= 19,
                forall|j: int| 0 <= j < i ==> !self.flags@[j],
            decreases 19 - i,
        {
            if self.flags[i] {
                proof {
                    let a = simple_at_of_index(i as int);
                    lemma_simple_at_index_round_trip(a);
                    assert(a.spec_index() == i);
                    assert(self@.contains(a));
                }
                return false;
            }
            i += 1;
        }
        proof {
            assert forall|a: SimpleAT| !#[trigger] self@.contains(a) by {
                lemma_simple_at_index_round_trip(a);
            }
            assert(self@ =~= Set::<SimpleAT>::empty());
        }
        true
    }
}

/// The simple actions among the first `k` action types, in index order.
pub open spec fn simple_actions_upto(set: Set<SimpleAT>, k: nat) -> Seq<Action>
    decreases k,
{
    if k == 0 {
        Seq::empty()
    } else {
        let a = simple_at_of_index(k - 1);
        let rest = simple_actions_upto(set, (k - 1) as nat);
        if set.contains(a) {
            rest.push(Action::Simple(a))
        } else {
            rest
        }
    }
}

/// The positional actions offered on one square.
pub open spec fn cell_actions(offered: Seq<PosAT>, x: int, y: int) -> Seq<Action> {
    offered.map_values(|at: PosAT| Action::Positional(at, Position { x: x as i8, y: y as i8 }))
}

/// The action types offered at a decision point.
#[derive(Debug, Clone, PartialEq, Eq, Hash)]
pub struct AvailableActions {
    pub team: Option<TeamType>,
    simple: SimpleATSet,
    positional: Option<FullPitch<Vec<PosAT>>>,
    /// Path offerings for this decision point are held by the game state.
    pub(crate) has_paths: bool,
}

impl AvailableActions {
    pub closed spec fn wf(&self) -> bool {
        self.positional matches Some(p) ==> p.wf()
    }

    pub closed spec fn spec_team(&self) -> Option<TeamType> {
        self.team
    }

    pub closed spec fn simple_set(&self) -> Set<SimpleAT> {
        self.simple@
    }

    pub closed spec fn has_positional(&self) -> bool {
        self.positional is Some
    }

    pub closed spec fn spec_has_paths(&self) -> bool {
        self.has_paths
    }

    /// The positional action types offered on square `(x, y)`.
    pub closed spec fn offered(&self, x: int, y: int) -> Seq<PosAT> {
        match self.positional {
            Some(p) => p.at(x, y)@,
            None => Seq::empty(),
        }
    }

    /// The positional actions of the first `k` squares, column by column.
    pub open spec fn positional_actions_upto(&self, k: nat) -> Seq<Action>
        decreases k,
    {
        if k == 0 {
            Seq::empty()
        } else {
            let x = (k - 1) / (HEIGHT as int);
            let y = (k - 1) % (HEIGHT as int);
            self.positional_actions_upto((k - 1) as nat) + cell_actions(self.offered(x, y), x, y)
        }
    }

    pub fn get_simple(&self) -> (r: &SimpleATSet)
        ensures
            r@ == self.simple_set(),
    {
        &self.simple
    }

    pub fn get_positional(&self) -> (r: &Option<FullPitch<Vec<PosAT>>>)
        requires
            self.wf(),
        ensures
            r is Some == self.has_positional(),
            r matches Some(p) ==> p.wf() && forall|x: int, y: int|
                in_pitch(x, y) ==> (#[trigger] p.at(x, y))@ == self.offered(x, y),
    {
        &self.positional
    }

    pub fn has_paths(&self) -> (r: bool)
        ensures
            r == self.spec_has_paths(),
    {
        self.has_paths
    }

    pub fn new_empty() -> (r: Box<Self>)
        ensures
            r.wf(),
            r.spec_team() is None,
            r.simple_set() == Set::<SimpleAT>::empty(),
            !r.has_positional(),
            !r.spec_has_paths(),
    {
        Box::new(AvailableActions {
            team: None,
            simple: SimpleATSet::new(),
            positional: None,
            has_paths: false,
        })
    }

    pub fn new(team: TeamType) -> (r: Box<Self>)
        ensures
            r.wf(),
            r.spec_team() == Some(team),
            r.simple_set() == Set::<SimpleAT>::empty(),
            !r.has_positional(),
            !r.spec_has_paths(),
            forall|x: int, y: int| #[trigger] r.offered(x, y) == Seq::<PosAT>::empty(),
    {
        let mut aa = AvailableActions::new_empty();
        aa.team = Some(team);
        aa
    }

    /// Nothing is offered: no simple action, no path and no positional table.
    pub fn is_empty(&self) -> (r: bool)
        ensures
            r == (self.simple_set() == Set::<SimpleAT>::empty() && !self.spec_has_paths()
                && !self.has_positional()),
    {
        self.simple.is_empty() && !self.has_paths && self.positional.is_none()
    }

    pub fn get_team(&self) -> (r: Option<TeamType>)
        ensures
            r == self.spec_team(),
    {
        self.team
    }

    pub fn insert_simple(&mut self, action_type: SimpleAT)
        requires
            old(self).spec_team() is Some,
        ensures
            final(self).spec_team() == old(self).spec_team(),
            final(self).simple_set() == old(self).simple_set().insert(action_type),
            final(self).has_positional() == old(self).has_positional(),
            forall|x: int, y: int| #[trigger] final(self).offered(x, y) == old(self).offered(x, y),
            final(self).spec_has_paths() == old(self).spec_has_paths(),
            final(self).wf() == old(self).wf(),
    {
        self.simple.insert(action_type);
    }

    /// Offer `action_type` on each of `positions`, once per time the square is listed.
    pub fn insert_positional(&mut self, action_type: PosAT, positions: Vec<Position>)
        requires
            old(self).wf(),
            old(self).spec_team() is Some,
            forall|i: int|
                0 <= i < positions@.len() ==> in_pitch(
                    #[trigger] positions@[i].x as int,
                    positions@[i].y as int,
                ),
        ensures
            final(self).wf(),
            final(self).spec_team() == old(self).spec_team(),
            final(self).simple_set() == old(self).simple_set(),
            final(self).spec_has_paths() == old(self).spec_has_paths(),
            final(self).has_positional() == (old(self).has_positional() || positions@.len() > 0),
            forall|x: int, y: int|
                in_pitch(x, y) ==> #[trigger] final(self).offered(x, y) == old(self).offered(x, y)
                    + Seq::new(
                    positions@.filter(|p: Position| p.x == x && p.y == y).len(),
                    |i: int| action_type,
                ),
    {
        if positions.len() == 0 {
            proof {
                assert forall|x: int, y: int| in_pitch(x, y) implies #[trigger] final(self).offered(
                    x,
                    y,
                ) == old(self).offered(x, y) + Seq::new(
                    positions@.filter(|p: Position| p.x == x && p.y == y).len(),
                    |i: int| action_type,
                ) by {
                    assert(positions@.filter(|p: Position| p.x == x && p.y == y) =~= Seq::empty());
                    assert(old(self).offered(x, y) + Seq::new(0, |i: int| action_type) =~= old(
                        self,
                    ).offered(x, y));
                }
            }
            return;
        }
        let mut pitch = match self.positional.take() {
            Some(p) => p,
            None => FullPitch::new_empty_lists(),
        };
        let ghost start = pitch;
        proof {
            assert forall|x: int, y: int| in_pitch(x, y) implies (#[trigger] start.at(x, y))@
                == old(self).offered(x, y) by {}
        }
        let mut i: usize = 0;
        while i < positions.len()
            invariant
                i <= positions@.len(),
                pitch.wf(),
                start.wf(),
                forall|k: int|
                    0 <= k < positions@.len() ==> in_pitch(
                        #[trigger] positions@[k].x as int,
                        positions@[k].y as int,
                    ),
                forall|x: int, y: int|
                    in_pitch(x, y) ==> (#[trigger] pitch.at(x, y))@ == start.at(x, y)@ + Seq::new(
                        positions@.take(i as int).filter(|p: Position| p.x == x && p.y == y).len(),
                        |j: int| action_type,
                    ),
            decreases positions@.len() - i,
        {
            let pos = positions[i];
            let ghost before = pitch;
            let cell = pitch.get_pos_mut(pos);
            cell.push(action_type);
            proof {
                assert(positions@.take(i + 1).drop_last() =~= positions@.take(i as int));
                assert forall|x: int, y: int| in_pitch(x, y) implies (#[trigger] pitch.at(x, y))@
                    == start.at(x, y)@ + Seq::new(
                    positions@.take(i + 1).filter(|p: Position| p.x == x && p.y == y).len(),
                    |j: int| action_type,
                ) by {
                    reveal_with_fuel(Seq::filter, 1);
                    let n0 = positions@.take(i as int).filter(|p: Position| p.x == x && p.y == y).len();
                    if x == pos.x && y == pos.y {
                        assert(Seq::new(n0, |j: int| action_type).push(action_type) =~= Seq::new(
                            n0 + 1,
                            |j: int| action_type,
                        ));
                        assert(start.at(x, y)@ + Seq::new(n0 + 1, |j: int| action_type) =~= (
                        start.at(x, y)@ + Seq::new(n0, |j: int| action_type)).push(action_type));
                    } else {
                        assert(pitch.at(x, y) == before.at(x, y));
                    }
                }
            }
            i += 1;
        }
        assert(positions@.take(positions@.len() as int) =~= positions@);
        self.positional = Some(pitch);
    }

    /// Appends every simple action and every positional action of the positional table:
    /// positional ones square by square, column by column, then simple ones in index order.
    pub fn collect_non_path_actions(&self, out: &mut Vec<Action>)
        requires
            self.wf(),
        ensures
            final(out)@ == old(out)@ + self.positional_actions_upto((WIDTH * HEIGHT) as nat)
                + simple_actions_upto(self.simple_set(), SimpleAT::COUNT as nat),
    {
        let ghost start = out@;
        if let Some(positional) = &self.positional {
            let mut x: usize = 0;
            while x < WIDTH
                invariant
                    x <= WIDTH,
                    positional.wf(),
                    self.positional == Some(*positional),
                    out@ == start + self.positional_actions_upto((x * HEIGHT) as nat),
                decreases WIDTH - x,
            {
                let mut y: usize = 0;
                while y < HEIGHT
                    invariant
                        x < WIDTH,
                        y <= HEIGHT,
                        positional.wf(),
                        self.positional == Some(*positional),
                        out@ == start + self.positional_actions_upto((x * HEIGHT + y) as nat),
                    decreases HEIGHT - y,
                {
                    let cell = positional.get(x, y);
                    let ghost before = out@;
                    let pos = Position { x: x as Coord, y: y as Coord };
                    let mut j: usize = 0;
                    while j < cell.len()
                        invariant
                            j <= cell@.len(),
                            pos == (Position { x: x as i8, y: y as i8 }),
                            out@ == before + cell_actions(cell@, x as int, y as int).take(j as int),
                        decreases cell@.len() - j,
                    {
                        out.push(Action::Positional(cell[j], pos));
                        assert(cell_actions(cell@, x as int, y as int).take(j + 1) =~= cell_actions(
                            cell@,
                            x as int,
                            y as int,
                        ).take(j as int).push(Action::Positional(cell@[j as int], pos)));
                        j += 1;
                    }
                    proof {
                        let k = (x * HEIGHT + y) as nat;
                        assert(cell_actions(cell@, x as int, y as int).take(cell@.len() as int)
                            =~= cell_actions(cell@, x as int, y as int));
                        assert(cell@ == self.offered(x as int, y as int));
                        assert((k + 1 - 1) / (HEIGHT as int) == x);
                        assert((k + 1 - 1) % (HEIGHT as int) == y);
                        assert(self.positional_actions_upto(k + 1) == self.positional_actions_upto(k)
                            + cell_actions(self.offered(x as int, y as int), x as int, y as int));
                        assert(out@ =~= start + self.positional_actions_upto(k + 1));
                    }
                    y += 1;
                }
                x += 1;
            }
        } else {
            proof {
                lemma_no_positional_actions(*self, (WIDTH * HEIGHT) as nat);
                assert(out@ =~= start + self.positional_actions_upto((WIDTH * HEIGHT) as nat));
            }
        }
        let ghost mid = out@;
        let mut i: usize = 0;
        while i < SimpleAT::COUNT
            invariant
                i <= SimpleAT::COUNT,
                out@ == mid + simple_actions_upto(self.simple_set(), i as nat),
            decreases SimpleAT::COUNT - i,
        {
            let ghost a = simple_at_of_index(i as int);
            let at = simple_at_from_index(i);
            if self.simple.contains(&at) {
                out.push(Action::Simple(at));
            }
            assert(simple_actions_upto(self.simple_set(), (i + 1) as nat) == if self.simple_set().contains(a) {
                simple_actions_upto(self.simple_set(), i as nat).push(Action::Simple(a))
            } else {
                simple_actions_upto(self.simple_set(), i as nat)
            });
            i += 1;
        }
        assert(out@ =~= start + self.positional_actions_upto((WIDTH * HEIGHT) as nat)
            + simple_actions_upto(self.simple_set(), SimpleAT::COUNT as nat));
    }

    /// What `mirrored(width)` offers on square `(x, y)`: the offering of the square reflected
    /// about `x -> width - 1 - x`, where that square lies on the pitch and offers anything.
    pub open spec fn mirrored_offer(&self, width: int, x: int, y: int) -> Seq<PosAT> {
        let sx = width - 1 - x;
        if in_pitch(sx, y) && self.offered(sx, y).len() > 0 {
            self.offered(sx, y)
        } else {
            Seq::empty()
        }
    }

    /// Every square that offers anything reflects onto the pitch about `x -> width - 1 - x`.
    pub open spec fn mirrors_onto_pitch(&self, width: int) -> bool {
        forall|x: int, y: int|
            in_pitch(x, y) && #[trigger] self.offered(x, y).len() > 0 ==> 0 <= width - 1 - x
                < WIDTH
    }

    /// The same decision reflected about `x -> width - 1 - x` and handed to the other team;
    /// simple actions carry no square and stay, path offerings are dropped.
    pub fn mirrored(&self, width: Coord) -> (r: AvailableActions)
        requires
            self.wf(),
            self.mirrors_onto_pitch(width as int),
        ensures
            r.wf(),
            r.spec_team() == match self.spec_team() {
                Some(t) => Some(spec_other_team(t)),
                None => None,
            },
            r.simple_set() == self.simple_set(),
            r.has_positional() == self.has_positional(),
            !r.spec_has_paths(),
            r.mirrors_onto_pitch(width as int),
            forall|x: int, y: int|
                in_pitch(x, y) ==> #[trigger] r.offered(x, y) == self.mirrored_offer(
                    width as int,
                    x,
                    y,
                ),
    {
        let positional = match &self.positional {
            Some(src) => {
                let mut dst: FullPitch<Vec<PosAT>> = FullPitch::new_empty_lists();
                let mut x: usize = 0;
                while x < WIDTH
                    invariant
                        x <= WIDTH,
                        src.wf(),
                        dst.wf(),
                        self.positional == Some(*src),
                        self.mirrors_onto_pitch(width as int),
                        forall|tx: int, ty: int|
                            in_pitch(tx, ty) ==> (#[trigger] dst.at(tx, ty))@ == {
                                let sx = width - 1 - tx;
                                if in_pitch(sx, ty) && sx < x && src.at(sx, ty)@.len() > 0 {
                                    src.at(sx, ty)@
                                } else {
                                    Seq::empty()
                                }
                            },
                    decreases WIDTH - x,
                {
                    let mut y: usize = 0;
                    while y < HEIGHT
                        invariant
                            x < WIDTH,
                            y <= HEIGHT,
                            src.wf(),
                            dst.wf(),
                            self.positional == Some(*src),
                            self.mirrors_onto_pitch(width as int),
                            forall|tx: int, ty: int|
                                in_pitch(tx, ty) ==> (#[trigger] dst.at(tx, ty))@ == {
                                    let sx = width - 1 - tx;
                                    if in_pitch(sx, ty) && (sx < x || (sx == x && ty < y)) && src.at(
                                        sx,
                                        ty,
                                    )@.len() > 0 {
                                        src.at(sx, ty)@
                                    } else {
                                        Seq::empty()
                                    }
                                },
                        decreases HEIGHT - y,
                    {
                        let sv = src.get(x, y);
                        if sv.len() > 0 {
                            proof {
                                assert(self.offered(x as int, y as int).len() > 0);
                            }
                            let tx: Coord = width - 1 - x as Coord;
                            let copy = copy_list(sv);
                            let ghost before = dst;
                            *dst.get_pos_mut(Position { x: tx, y: y as Coord }) = copy;
                            proof {
                                assert forall|a: int, b: int| in_pitch(a, b) implies (#[trigger] dst.at(
                                    a,
                                    b,
                                ))@ == {
                                    let sx = width - 1 - a;
                                    if in_pitch(sx, b) && (sx < x || (sx == x && b < y + 1)) && src.at(
                                        sx,
                                        b,
                                    )@.len() > 0 {
                                        src.at(sx, b)@
                                    } else {
                                        Seq::empty()
                                    }
                                } by {
                                    if a == tx && b == y {
                                    } else {
                                        assert(dst.at(a, b) == before.at(a, b));
                                    }
                                }
                            }
                        }
                        y += 1;
                    }
                    x += 1;
                }
                Some(dst)
            },
            None => None,
        };
        let team = match self.team {
            Some(t) => Some(other_team(t)),
            None => None,
        };
        let r = AvailableActions { team, simple: self.simple, positional, has_paths: false };
        proof {
            assert forall|x: int, y: int| in_pitch(x, y) implies #[trigger] r.offered(x, y)
                == self.mirrored_offer(width as int, x, y) by {}
            assert forall|x: int, y: int| in_pitch(x, y) && #[trigger] r.offered(x, y).len() > 0 implies 0
                <= width - 1 - x < WIDTH by {
                assert(r.offered(x, y) == self.mirrored_offer(width as int, x, y));
            }
        }
        r
    }

    /// `action` is offered, positional actions judged by the positional table alone.
    pub fn is_legal_non_path_action(&self, action: Action) -> (r: bool)
        requires
            self.wf(),
            action matches Action::Positional(_, pos) ==> in_pitch(pos.x as int, pos.y as int),
        ensures
            r == match action {
                Action::Simple(at) => self.simple_set().contains(at),
                Action::Positional(at, pos) => self.offered(pos.x as int, pos.y as int).contains(at),
            },
    {
        match action {
            Action::Simple(at) => self.simple.contains(&at),
            Action::Positional(at, pos) => {
                match &self.positional {
                    Some(positions) => {
                        let cell = positions.get_pos(pos);
                        let mut i: usize = 0;
                        while i < cell.len()
                            invariant
                                i <= cell@.len(),
                                cell@ == self.offered(pos.x as int, pos.y as int),
                                action == Action::Positional(at, pos),
                                forall|j: int| 0 <= j < i ==> cell@[j] != at,
                            decreases cell@.len() - i,
                        {
                            if cell[i] == at {
                                assert(cell@[i as int] == at);
                                return true;
                            }
                            i += 1;
                        }
                        false
                    },
                    None => false,
                }
            },
        }
    }
}

/// Without a positional table no square offers anything.
proof fn lemma_no_positional_actions(aa: AvailableActions, k: nat)
    requires
        !aa.has_positional(),
    ensures
        aa.positional_actions_upto(k) == Seq::<Action>::empty(),
    decreases k,
{
    if k > 0 {
        lemma_no_positional_actions(aa, (k - 1) as nat);
        let x = (k - 1) / (HEIGHT as int);
        let y = (k - 1) % (HEIGHT as int);
        assert(cell_actions(aa.offered(x, y), x, y) =~= Seq::<Action>::empty());
    }
}

/// The simple action type with dense index `i`.
fn simple_at_from_index(i: usize) -> (r: SimpleAT)
    requires
        i < SimpleAT::COUNT,
    ensures
        r == simple_at_of_index(i as int),
{
    if i == 0 {
        SimpleAT::SelectBothDown
    } else if i == 1 {
        SimpleAT::SelectPow
    } else if i == 2 {
        SimpleAT::SelectPush
    } else if i == 3 {
        SimpleAT::SelectPowPush
    } else if i == 4 {
        SimpleAT::SelectSkull
    } else if i == 5 {
        SimpleAT::UseReroll
    } else if i == 6 {
        SimpleAT::DontUseReroll
    } else if i == 7 {
        SimpleAT::EndPlayerTurn
    } else if i == 8 {
        SimpleAT::EndTurn
    } else if i == 9 {
        SimpleAT::Heads
    } else if i == 10 {
        SimpleAT::Tails
    } else if i == 11 {
        SimpleAT::Kick
    } else if i == 12 {
        SimpleAT::Receive
    } else if i == 13 {
        SimpleAT::SetupLine
    } else if i == 14 {
        SimpleAT::EndSetup
    } else if i == 15 {
        SimpleAT::KickoffAimMiddle
    } else if i == 16 {
        SimpleAT::SetupSpread
    } else if i == 17 {
        SimpleAT::SetupWedge
    } else {
        SimpleAT::SetupZone
    }
}


/// Reflecting twice about the same line gives every square its own offering back.
pub proof fn lemma_mirrored_twice(aa: AvailableActions, width: int, x: int, y: int)
    requires
        aa.wf(),
        aa.mirrors_onto_pitch(width),
        in_pitch(x, y),
    ensures
        ({
            let sx = width - 1 - x;
            if in_pitch(sx, y) && aa.mirrored_offer(width, sx, y).len() > 0 {
                aa.mirrored_offer(width, sx, y)
            } else {
                Seq::empty()
            }
        }) == aa.offered(x, y),
{
    if aa.offered(x, y).len() > 0 {
        assert(0 <= width - 1 - x < WIDTH);
    }
}


/// A copy of a list of positional action types.
fn copy_list(v: &Vec<PosAT>) -> (r: Vec<PosAT>)
    ensures
        r@ == v@,
{
    let mut r: Vec<PosAT> = Vec::new();
    let mut i: usize = 0;
    while i < v.len()
        invariant
            i <= v@.len(),
            r@ == v@.take(i as int),
        decreases v@.len() - i,
    {
        r.push(v[i]);
        assert(v@.take(i + 1) =~= v@.take(i as int).push(v@[i as int]));
        i += 1;
    }
    assert(v@.take(v@.len() as int) =~= v@);
    r
}

impl Default for AvailableActions {
    fn default() -> (r: Self)
        ensures
            r.wf(),
            r.spec_team() is None,
            r.simple_set() == Set::<SimpleAT>::empty(),
            !r.has_positional(),
            !r.spec_has_paths(),
    {
        AvailableActions { team: None, simple: SimpleATSet::new(), positional: None, has_paths: false }
    }
}

/// How many of `squares` are the square `(x, y)`.
pub open spec fn count_at(squares: Seq<Position>, x: int, y: int) -> nat {
    squares.filter(|p: Position| p.x == x && p.y == y).len()
}

/// `aa` offers `team` the positional action `at` once on each of `squares`, and nothing else.
pub open spec fn offers_only(aa: AvailableActions, team: TeamType, at: PosAT, squares: Seq<Position>) -> bool {
    &&& aa.wf()
    &&& aa.spec_team() == Some(team)
    &&& aa.simple_set() == Set::<SimpleAT>::empty()
    &&& !aa.spec_has_paths()
    &&& aa.has_positional() == (squares.len() > 0)
    &&& forall|x: int, y: int|
        in_pitch(x, y) ==> #[trigger] aa.offered(x, y) == Seq::new(count_at(squares, x, y), |i: int| at)
}

/// A decision for `team`: the positional action `at` on each of `positions`.
pub fn offer_positional(team: TeamType, at: PosAT, positions: Vec<Position>) -> (r: Box<AvailableActions>)
    requires
        forall|i: int|
            0 <= i < positions@.len() ==> in_pitch(#[trigger] positions@[i].x as int, positions@[i].y as int),
    ensures
        offers_only(*r, team, at, positions@),
{
    let ghost squares = positions@;
    let mut aa = AvailableActions::new(team);
    aa.insert_positional(at, positions);
    proof {
        assert forall|x: int, y: int| in_pitch(x, y) implies #[trigger] aa.offered(x, y) == Seq::new(
            count_at(squares, x, y),
            |i: int| at,
        ) by {
            assert(Seq::<PosAT>::empty() + Seq::new(count_at(squares, x, y), |i: int| at) =~= Seq::new(
                count_at(squares, x, y),
                |i: int| at,
            ));
        }
    }
    aa
}

/// `aa` offers `team` exactly the simple actions `simple`, and nothing on the pitch.
pub open spec fn offers_simple_only(aa: AvailableActions, team: TeamType, simple: Set<SimpleAT>) -> bool {
    &&& aa.wf()
    &&& aa.spec_team() == Some(team)
    &&& aa.simple_set() == simple
    &&& !aa.spec_has_paths()
    &&& !aa.has_positional()
    &&& forall|x: int, y: int| #[trigger] aa.offered(x, y) == Seq::<PosAT>::empty()
}

/// A decision for `team` among the simple action `a` and, when given, `b`.
pub fn offer_simple(team: TeamType, a: SimpleAT, b: Option<SimpleAT>) -> (r: Box<AvailableActions>)
    ensures
        offers_simple_only(
            *r,
            team,
            match b {
                Some(b) => set![a, b],
                None => set![a],
            },
        ),
{
    let mut aa = AvailableActions::new(team);
    aa.insert_simple(a);
    match b {
        Some(b) => {
            aa.insert_simple(b);
            assert(aa.simple_set() =~= set![a, b]);
        },
        None => {
            assert(aa.simple_set() =~= set![a]);
        },
    }
    aa
}

} // verus!
