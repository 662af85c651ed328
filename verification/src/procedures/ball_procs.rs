use vstd::prelude::*;

use crate::actions::{offer_positional, offers_only, AvailableActions};
use crate::board::BoardDims;
use crate::dice::{spec_truncate_to, D3, D6, D6Target, D8, RequestedRoll, RollResult, Sum2D6};
use crate::gamestate::{lemma_interception_positions_on_pitch, spec_interception_positions, GameInfo, GameState, FIELD_SLOTS};
use crate::model::{
    all_directions, Action, BallState, Coord, Direction, PlayerID, PlayerStatus, Position, ProcInput, TeamType, div_trunc, min_int,
    other_team, spec_other_team,
};
use crate::player::{FieldedPlayer, TeamState};
use crate::pitch::in_pitch;
use crate::procedures::any_proc::AnyProc;
use crate::procedures::game_procs::TurnoverIfPossessionLost;
use crate::procedures::procedure_tools::{roll_stepped, skill_left, skill_used, RollProcState, SimpleProc, SimpleProcContainer, ProcState};
use crate::procedures::setup_formation::{first_match, is_first_match, lemma_first_match};
use crate::rules::spec_kickoff_aim;
use crate::table::{PosAT, Skill};

verus! {

#[derive(Clone, Debug, PartialEq, Eq, Structural, Hash)]
pub struct PickupProc {
    pub target: D6Target,
    pub id: PlayerID,
}

impl PickupProc {
    pub fn new(id: PlayerID, target: D6Target) -> (r: AnyProc)
        ensures
            r == AnyProc::PickupProc(
                SimpleProcContainer { proc: PickupProc { target, id }, state: RollProcState::Init },
            ),
    {
        AnyProc::PickupProc(SimpleProcContainer::new(PickupProc { target, id }))
    }
}

#[derive(Clone, Debug, PartialEq, Eq, Structural, Hash)]
pub struct Bounce {
    pub kick: bool,
}

impl Bounce {
    pub fn new() -> (r: AnyProc)
        ensures
            r == AnyProc::Bounce(Bounce { kick: false }),
    {
        AnyProc::Bounce(Bounce { kick: false })
    }

    pub fn new_with_kick_arg(kick: bool) -> (r: AnyProc)
        ensures
            r == AnyProc::Bounce(Bounce { kick }),
    {
        AnyProc::Bounce(Bounce { kick })
    }
}

#[derive(Clone, Debug, PartialEq, Eq, Structural, Hash)]
pub struct ThrowIn {
    pub from: Position,
}

/// The three throw-in directions from a border square, in D3 order; `None` when the square
/// is not on the playable border.
pub open spec fn throw_in_directions(from: Position, max_x: int, max_y: int) -> Option<Seq<(int, int)>> {
    let x = from.x as int;
    let y = from.y as int;
    if x == 1 && y == 1 {
        Some(seq![(1, 0), (1, 1), (0, 1)])
    } else if x == 1 && y == max_y {
        Some(seq![(1, 0), (1, -1), (0, -1)])
    } else if x == max_x && y == 1 {
        Some(seq![(-1, 0), (-1, 1), (0, 1)])
    } else if x == max_x && y == max_y {
        Some(seq![(-1, 0), (-1, -1), (0, -1)])
    } else if x == 1 {
        Some(seq![(1, 1), (1, 0), (1, -1)])
    } else if x == max_x {
        Some(seq![(-1, 1), (-1, 0), (-1, -1)])
    } else if y == 1 {
        Some(seq![(1, 1), (0, 1), (-1, 1)])
    } else if y == max_y {
        Some(seq![(1, -1), (0, -1), (-1, -1)])
    } else {
        None
    }
}

impl ThrowIn {
    pub fn new(from: Position) -> (r: AnyProc)
        ensures
            r == AnyProc::ThrowIn(ThrowIn { from }),
    {
        AnyProc::ThrowIn(ThrowIn { from })
    }

    /// The square lies on the playable border of the board.
    pub open spec fn on_border(&self, dims: BoardDims) -> bool {
        throw_in_directions(self.from, dims.width - 2, dims.height - 2) is Some
    }

    /// The direction the ball is thrown back in from the border square, picked by the D3.
    pub fn get_throw_in_direction(&self, dice: D3, dims: BoardDims) -> (r: Direction)
        requires
            dims.width >= -126,
            dims.height >= -126,
            self.on_border(dims),
        ensures
            ({
                let d = throw_in_directions(self.from, dims.width - 2, dims.height - 2).unwrap()[dice.spec_value() - 1];
                r.dx == d.0 && r.dy == d.1
            }),
    {
        let max_x: Coord = dims.width - 2;
        let max_y: Coord = dims.height - 2;
        let x = self.from.x;
        let y = self.from.y;
        let directions: [(Coord, Coord); 3] = if x == 1 && y == 1 {
            [(1, 0), (1, 1), (0, 1)]
        } else if x == 1 && y == max_y {
            [(1, 0), (1, -1), (0, -1)]
        } else if x == max_x && y == 1 {
            [(-1, 0), (-1, 1), (0, 1)]
        } else if x == max_x && y == max_y {
            [(-1, 0), (-1, -1), (0, -1)]
        } else if x == 1 {
            [(1, 1), (1, 0), (1, -1)]
        } else if x == max_x {
            [(-1, 1), (-1, 0), (-1, -1)]
        } else if y == 1 {
            [(1, 1), (0, 1), (-1, 1)]
        } else {
            [(1, -1), (0, -1), (-1, -1)]
        };
        Direction::from_pair(directions[(dice.value() - 1) as usize])
    }

    /// Where the thrown-in ball lands, as unbounded integers.
    pub open spec fn spec_target_square(&self, direction: D3, distance: Sum2D6, dims: BoardDims) -> (int, int) {
        let d = throw_in_directions(self.from, dims.width - 2, dims.height - 2).unwrap()[direction.spec_value() - 1];
        let len = min_int(distance.spec_value(), div_trunc(dims.width as int, 2));
        (self.from.x + d.0 * len, self.from.y + d.1 * len)
    }

    /// Where the thrown-in ball lands: the roll's distance, capped at `max_scatter`, along
    /// the throw-in direction.
    pub fn target_square(&self, direction: D3, distance: Sum2D6, dims: BoardDims) -> (r: Position)
        requires
            dims.width >= -126,
            dims.height >= -126,
            self.on_border(dims),
            i8::MIN <= self.spec_target_square(direction, distance, dims).0 <= i8::MAX,
            i8::MIN <= self.spec_target_square(direction, distance, dims).1 <= i8::MAX,
        ensures
            r.x == self.spec_target_square(direction, distance, dims).0,
            r.y == self.spec_target_square(direction, distance, dims).1,
    {
        let dir = self.get_throw_in_direction(direction, dims);
        let m = dims.max_scatter();
        let d = distance.value() as i8;
        let length = if d <= m { d } else { m };
        assert(-64 <= length <= 12);
        assert(-64 <= dir.dx * length <= 64) by (nonlinear_arith)
            requires -1 <= dir.dx <= 1, -64 <= length <= 12;
        assert(-64 <= dir.dy * length <= 64) by (nonlinear_arith)
            requires -1 <= dir.dy <= 1, -64 <= length <= 12;
        self.from.add_direction(dir.scale(length))
    }
}

#[derive(Clone, Debug, PartialEq, Eq, Structural, Hash)]
pub struct Catch {
    pub id: PlayerID,
    pub target: D6Target,
    pub kick: bool,
}

impl Catch {
    pub fn new(id: PlayerID, target: D6Target) -> (r: AnyProc)
        ensures
            r == AnyProc::Catch(
                SimpleProcContainer { proc: Catch { id, target, kick: false }, state: RollProcState::Init },
            ),
    {
        AnyProc::Catch(SimpleProcContainer::new(Catch { id, target, kick: false }))
    }

    pub fn new_with_kick_arg(id: PlayerID, target: D6Target, kick: bool) -> (r: AnyProc)
        ensures
            r == AnyProc::Catch(
                SimpleProcContainer { proc: Catch { id, target, kick }, state: RollProcState::Init },
            ),
    {
        AnyProc::Catch(SimpleProcContainer::new(Catch { id, target, kick }))
    }
}

#[derive(Clone, Debug, PartialEq, Eq, Structural, Hash)]
pub struct Touchback {}

impl Touchback {
    pub fn new() -> (r: AnyProc)
        ensures
            r == AnyProc::Touchback(Touchback {  }),
    {
        AnyProc::Touchback(Touchback {  })
    }
}

#[derive(Clone, Debug, PartialEq, Eq, Structural, Hash)]
pub struct Touchdown {
    pub id: PlayerID,
}

impl Touchdown {
    pub fn new(id: PlayerID) -> (r: AnyProc)
        ensures
            r == AnyProc::Touchdown(Touchdown { id }),
    {
        AnyProc::Touchdown(Touchdown { id })
    }
}

#[derive(Clone, Copy, Debug, PartialEq, Eq, Structural, Hash)]
pub enum PassResult {
    Accurate,
    Inaccurate,
    WildlyInaccurate,
    Fumble,
}

#[derive(Clone, Debug, PartialEq, Eq, Structural, Hash)]
pub struct Pass {
    pub pos: Position,
    pub pass: D6Target,
    pub modifier: i8,
}

impl Pass {
    pub fn new(pos: Position, pass: D6Target, modifier: i8) -> (r: AnyProc)
        ensures
            r == AnyProc::Pass(Pass { pos, pass, modifier }),
    {
        AnyProc::Pass(Pass { pos, pass, modifier })
    }
}

#[derive(Clone, Debug, PartialEq, Eq, Hash)]
pub struct DeflectOrResolve {
    pub from: Position,
    pub to: Position,
    pub throw_in_pos: Option<Position>,
    pub result: PassResult,
    pub intercepters: Vec<(Position, D6Target)>,
}

impl DeflectOrResolve {
    pub fn new(from: Position, to: Position, result: PassResult, throw_in_pos: Option<Position>) -> (r: AnyProc)
        ensures
            r matches AnyProc::DeflectOrResolve(d) && d.from == from && d.to == to && d.result == result
                && d.throw_in_pos == throw_in_pos && d.intercepters@.len() == 0,
    {
        AnyProc::DeflectOrResolve(
            DeflectOrResolve { from, to, throw_in_pos, result, intercepters: Vec::new() },
        )
    }
}

#[derive(Debug, PartialEq, Eq, Hash)]
pub struct Deflect {
    pub id: PlayerID,
    pub target: D6Target,
    pub failed_deflect_proc: Option<Box<AnyProc>>,
}

impl Deflect {
    pub fn new(id: PlayerID, target: D6Target, failed_deflect_proc: AnyProc) -> (r: AnyProc)
        ensures
            r == AnyProc::Deflect(
                SimpleProcContainer {
                    proc: Deflect { id, target, failed_deflect_proc: Some(Box::new(failed_deflect_proc)) },
                    state: RollProcState::Init,
                },
            ),
    {
        AnyProc::Deflect(
            SimpleProcContainer::new(
                Deflect { id, target, failed_deflect_proc: Some(Box::new(failed_deflect_proc)) },
            ),
        )
    }
}

impl Touchdown {

    /// The inputs `step` takes in `gs`.
    pub open spec fn step_accepts(self, gs: GameState, input: ProcInput) -> bool {
        &&& (gs.wf())
        &&& (gs.spec_ball() == BallState::Carried(self.id) ==> gs.spec_team(
            gs.fielded()[self.id as int]->0.stats.team,
        ).score < 255)
    }

    /// `after`, `gs2` and `r` are what `step` makes of `self` in `gs` with `input`.
    pub open spec fn step_done(self, after: Self, gs: GameState, gs2: GameState, input: ProcInput, r: ProcState) -> bool {
        &&& (after == self)
        &&& (r is Done)
        &&& (gs2.wf())
        &&& (gs.spec_ball() != BallState::Carried(self.id) ==> gs2 == gs)
        &&& (gs.spec_ball() == BallState::Carried(self.id) ==> {
            let p = gs.fielded()[self.id as int]->0;
            let t = p.stats.team;
            &&& gs2.spec_team(t) == (TeamState {
                score: (gs.spec_team(t).score + 1) as u8,
                ..gs.spec_team(t)
            })
            &&& gs2.spec_team(spec_other_team(t)) == gs.spec_team(spec_other_team(t))
            &&& gs2.fielded() == gs.fielded().update(
                self.id as int,
                Some(FieldedPlayer { used: true, ..p }),
            )
            &&& gs2.spec_info() == (GameInfo {
                kickoff_by_team: Some(t),
                ..gs.spec_info()
            })
            &&& gs2.dugout() == gs.dugout()
            &&& gs2.same_board(&gs)
            &&& gs2.spec_ball() == gs.spec_ball()
            &&& gs2.spec_bounce_squares() == gs.spec_bounce_squares()
            &&& gs2.spec_proc_stack() == gs.spec_proc_stack()
            &&& gs2.spec_available_actions() == gs.spec_available_actions()
            &&& gs2.spec_dice_mode() == gs.spec_dice_mode()
        })
    }

    /// Score for the player `id` if it still carries the ball: one more point for its team,
    /// the player is done for the turn, and its team kicks off next.
    pub fn step(&mut self, game_state: &mut GameState, input: ProcInput) -> (r: ProcState)
        requires
            old(game_state).wf(),
            old(game_state).spec_ball() == BallState::Carried(old(self).id) ==> old(game_state).spec_team(
                old(game_state).fielded()[old(self).id as int]->0.stats.team,
            ).score < 255,
        ensures
            *final(self) == *old(self),
            r is Done,
            final(game_state).wf(),
            old(game_state).spec_ball() != BallState::Carried(old(self).id) ==> *final(game_state) == *old(game_state),
            old(game_state).spec_ball() == BallState::Carried(old(self).id) ==> {
                let p = old(game_state).fielded()[old(self).id as int]->0;
                let t = p.stats.team;
                &&& final(game_state).spec_team(t) == (TeamState {
                    score: (old(game_state).spec_team(t).score + 1) as u8,
                    ..old(game_state).spec_team(t)
                })
                &&& final(game_state).spec_team(spec_other_team(t)) == old(game_state).spec_team(spec_other_team(t))
                &&& final(game_state).fielded() == old(game_state).fielded().update(
                    old(self).id as int,
                    Some(FieldedPlayer { used: true, ..p }),
                )
                &&& final(game_state).spec_info() == (GameInfo {
                    kickoff_by_team: Some(t),
                    ..old(game_state).spec_info()
                })
                &&& final(game_state).dugout() == old(game_state).dugout()
                &&& final(game_state).same_board(&*old(game_state))
                &&& final(game_state).spec_ball() == old(game_state).spec_ball()
                &&& final(game_state).spec_bounce_squares() == old(game_state).spec_bounce_squares()
                &&& final(game_state).spec_proc_stack() == old(game_state).spec_proc_stack()
                &&& final(game_state).spec_available_actions() == old(game_state).spec_available_actions()
                &&& final(game_state).spec_dice_mode() == old(game_state).spec_dice_mode()
            },
    {
        let scores = match game_state.ball() {
            BallState::Carried(carrier_id) => carrier_id == self.id,
            _ => false,
        };
        if scores {
            let ghost before = *game_state;
            proof {
                before.lemma_board_agrees();
                before.lemma_slots();
            }
            let team = game_state.get_player_unsafe(self.id).stats.team;
            let t = game_state.get_mut_team(team);
            t.score = t.score + 1;
            let ghost mid = *game_state;
            proof {
                mid.lemma_slots();
            }
            game_state.get_mut_player_unsafe(self.id).used = true;
            proof {
                game_state.lemma_edit_in_place_keeps_wf(&mid);
            }
            game_state.info_mut().kickoff_by_team = Some(team);
        }
        ProcState::Done
    }
}

impl Touchback {

    /// The inputs `step` takes in `gs`.
    pub open spec fn step_accepts(self, gs: GameState, input: ProcInput) -> bool {
        &&& (gs.wf())
        &&& (input matches ProcInput::Action(Action::Positional(_, pos)) ==> {
            &&& in_pitch(pos.x as int, pos.y as int)
            &&& gs.board_at(pos.x as int, pos.y as int) is Some
        })
    }

    /// `after`, `gs2` and `r` are what `step` makes of `self` in `gs` with `input`.
    pub open spec fn step_done(self, after: Self, gs: GameState, gs2: GameState, input: ProcInput, r: ProcState) -> bool {
        &&& (after == self)
        &&& (gs2.wf())
        &&& (gs2.fielded() == gs.fielded())
        &&& (gs2.dugout() == gs.dugout())
        &&& (gs2.same_board(&gs))
        &&& (gs2.spec_info() == gs.spec_info())
        &&& (gs2.same_but_players_info_and_ball(&gs))
        &&& (match input {
            ProcInput::Action(Action::Positional(_, pos)) => {
                &&& r is Done
                &&& gs2.spec_ball() == BallState::Carried(
                    gs.board_at(pos.x as int, pos.y as int)->0,
                )
                &&& gs2.spec_bounce_squares() == Seq::<Position>::empty()
            },
            _ => {
                let kicking = gs.spec_info().kicking_this_drive;
                let team = spec_other_team(kicking);
                let squares = gs.team_squares(team);
                if squares.len() == 0 {
                    let aim = spec_kickoff_aim(gs.spec_dims(), kicking);
                    &&& r matches ProcState::DoneNew(p) && p == AnyProc::Bounce(Bounce { kick: false })
                    &&& gs2.spec_ball() matches BallState::InAir(b) && b.x == aim.0 && b.y
                        == aim.1
                    &&& gs2.spec_bounce_squares() == gs.spec_bounce_squares().push(
                        gs2.spec_ball()->InAir_0,
                    )
                } else {
                    &&& r matches ProcState::NeedAction(aa) && offers_only(*aa, team, PosAT::SelectPosition, squares)
                    &&& gs2.spec_ball() == gs.spec_ball()
                    &&& gs2.spec_bounce_squares() == gs.spec_bounce_squares()
                }
            },
        })
    }

    /// A kick that left the pitch or landed on the kicking side: the receiving team hands the
    /// ball to one of its players on the pitch; with nobody there the ball drops at the centre
    /// of the receiving half and bounces.
    pub fn step(&mut self, game_state: &mut GameState, action: ProcInput) -> (r: ProcState)
        requires
            old(game_state).wf(),
            action matches ProcInput::Action(Action::Positional(_, pos)) ==> {
                &&& in_pitch(pos.x as int, pos.y as int)
                &&& old(game_state).board_at(pos.x as int, pos.y as int) is Some
            },
        ensures
            *final(self) == *old(self),
            final(game_state).wf(),
            final(game_state).fielded() == old(game_state).fielded(),
            final(game_state).dugout() == old(game_state).dugout(),
            final(game_state).same_board(&*old(game_state)),
            final(game_state).spec_info() == old(game_state).spec_info(),
            final(game_state).same_but_players_info_and_ball(&*old(game_state)),
            match action {
                ProcInput::Action(Action::Positional(_, pos)) => {
                    &&& r is Done
                    &&& final(game_state).spec_ball() == BallState::Carried(
                        old(game_state).board_at(pos.x as int, pos.y as int)->0,
                    )
                    &&& final(game_state).spec_bounce_squares() == Seq::<Position>::empty()
                },
                _ => {
                    let kicking = old(game_state).spec_info().kicking_this_drive;
                    let team = spec_other_team(kicking);
                    let squares = old(game_state).team_squares(team);
                    if squares.len() == 0 {
                        let aim = spec_kickoff_aim(old(game_state).spec_dims(), kicking);
                        &&& r matches ProcState::DoneNew(p) && p == AnyProc::Bounce(Bounce { kick: false })
                        &&& final(game_state).spec_ball() matches BallState::InAir(b) && b.x == aim.0 && b.y
                            == aim.1
                        &&& final(game_state).spec_bounce_squares() == old(game_state).spec_bounce_squares().push(
                            final(game_state).spec_ball()->InAir_0,
                        )
                    } else {
                        &&& r matches ProcState::NeedAction(aa) && offers_only(*aa, team, PosAT::SelectPosition, squares)
                        &&& final(game_state).spec_ball() == old(game_state).spec_ball()
                        &&& final(game_state).spec_bounce_squares() == old(game_state).spec_bounce_squares()
                    }
                },
            },
    {
        proof {
            old(game_state).lemma_board_agrees();
        }
        match action {
            ProcInput::Action(Action::Positional(_, position)) => {
                let id = game_state.get_player_id_at(position).unwrap();
                game_state.set_ball(BallState::Carried(id));
                ProcState::Done
            },
            _ => {
                let kicking = game_state.info().kicking_this_drive;
                let team = other_team(kicking);
                let positions = game_state.team_positions(team);
                if positions.len() == 0 {
                    let aim = game_state.get_best_kickoff_aim_for(kicking);
                    game_state.set_ball(BallState::InAir(aim));
                    ProcState::DoneNew(Bounce::new())
                } else {
                    ProcState::NeedAction(offer_positional(team, PosAT::SelectPosition, positions))
                }
            },
        }
    }
}

/// The square the ball is on: its own square, or its carrier's.
pub open spec fn ball_square(gs: GameState) -> Position {
    match gs.spec_ball() {
        BallState::OnGround(p) => p,
        BallState::InAir(p) => p,
        BallState::Carried(c) => gs.fielded()[c as int]->0.position,
        BallState::OffPitch => Position { x: 0, y: 0 },
    }
}

/// The square `k` steps back from `p` against the step `d`.
pub open spec fn back(p: Position, d: Direction, k: nat) -> (int, int)
    decreases k,
{
    if k == 0 {
        (p.x as int, p.y as int)
    } else {
        let q = back(p, d, (k - 1) as nat);
        (q.0 - d.dx, q.1 - d.dy)
    }
}

pub open spec fn fits_i8(q: (int, int)) -> bool {
    i8::MIN <= q.0 <= i8::MAX && i8::MIN <= q.1 <= i8::MAX
}

pub open spec fn as_position(q: (int, int)) -> Position {
    Position { x: q.0 as i8, y: q.1 as i8 }
}

/// Walking back from `p` against `d`, the first square in bounds is `k` steps back.
pub open spec fn first_in_bounds_back(dims: BoardDims, p: Position, d: Direction, k: nat) -> bool {
    &&& forall|j: nat| j <= k ==> fits_i8(#[trigger] back(p, d, j))
    &&& forall|j: nat| j < k ==> dims.spec_is_out(as_position(#[trigger] back(p, d, j)))
    &&& !dims.spec_is_out(as_position(back(p, d, k)))
}

/// The square one step from `p` along `d`.
pub open spec fn stepped(p: Position, d: Direction) -> Position {
    Position { x: (p.x + d.dx) as i8, y: (p.y + d.dy) as i8 }
}

impl Bounce {

    /// The inputs `step` takes in `gs`.
    pub open spec fn step_accepts(self, gs: GameState, input: ProcInput) -> bool {
        &&& (gs.wf())
        &&& (input is Nothing || input matches ProcInput::Roll(RollResult::D8(_)))
        &&& (input matches ProcInput::Roll(RollResult::D8(d)) ==> {
            let gs = gs;
            let dims = gs.spec_dims();
            let cur = ball_square(gs);
            let dir = all_directions()[d.spec_value() - 1];
            let new = stepped(cur, dir);
            &&& !(gs.spec_ball() is OffPitch)
            &&& fits_i8((cur.x + dir.dx, cur.y + dir.dy))
            &&& !(self.kick && (dims.spec_is_out(new) || dims.spec_is_on_team_side(
                new,
                gs.spec_info().kicking_this_drive,
            ))) ==> {
                &&& dims.spec_is_out(new) ==> exists|k: nat| first_in_bounds_back(dims, cur, dir, k)
                &&& !dims.spec_is_out(new) ==> match gs.board_at(new.x as int, new.y as int) {
                    Some(c) => gs.fielded()[c as int]->0.status == PlayerStatus::Up ==> 1
                        <= gs.fielded()[c as int]->0.stats.ag <= 5,
                    None => true,
                }
            }
        })
    }

    /// `after`, `gs2` and `r` are what `step` makes of `self` in `gs` with `input`.
    pub open spec fn step_done(self, after: Self, gs: GameState, gs2: GameState, input: ProcInput, r: ProcState) -> bool {
        &&& (after == self)
        &&& (gs2.wf())
        &&& (gs2.fielded() == gs.fielded())
        &&& (gs2.dugout() == gs.dugout())
        &&& (gs2.same_board(&gs))
        &&& (gs2.spec_info() == gs.spec_info())
        &&& (gs2.same_but_players_info_and_ball(&gs))
        &&& (input is Nothing ==> {
            &&& r matches ProcState::NeedRoll(roll) && roll == RequestedRoll::D8
            &&& gs2 == gs
        })
        &&& (input matches ProcInput::Roll(RollResult::D8(d)) ==> {
            let gs = gs;
            let dims = gs.spec_dims();
            let cur = ball_square(gs);
            let dir = all_directions()[d.spec_value() - 1];
            let new = stepped(cur, dir);
            if self.kick && (dims.spec_is_out(new) || dims.spec_is_on_team_side(
                new,
                gs.spec_info().kicking_this_drive,
            )) {
                &&& r matches ProcState::DoneNew(p) && p == AnyProc::Touchback(Touchback {  })
                &&& gs2 == gs
            } else if dims.spec_is_out(new) {
                &&& r matches ProcState::DoneNew(AnyProc::ThrowIn(t)) && exists|k: nat|
                    first_in_bounds_back(dims, cur, dir, k) && t.from == as_position(back(cur, dir, k))
                &&& gs2 == gs
            } else {
                match gs.board_at(new.x as int, new.y as int) {
                    Some(c) => {
                        let p = gs.fielded()[c as int]->0;
                        &&& gs2.spec_ball() == BallState::InAir(new)
                        &&& gs2.spec_bounce_squares() == gs.spec_bounce_squares().push(new)
                        &&& p.status == PlayerStatus::Up ==> {
                            &&& r matches ProcState::DoneNew(AnyProc::Catch(cc))
                            &&& r->DoneNew_0->Catch_0.state == RollProcState::Init
                            &&& r->DoneNew_0->Catch_0.proc.id == c
                            &&& r->DoneNew_0->Catch_0.proc.kick == self.kick
                            &&& r->DoneNew_0->Catch_0.proc.target.spec_value() == gs.catch_roll(p)
                        }
                        &&& p.status != PlayerStatus::Up ==> r is NotDone
                    },
                    None => {
                        &&& gs2.spec_ball() == BallState::OnGround(new)
                        &&& gs2.spec_bounce_squares() == Seq::<Position>::empty()
                        &&& r is Done
                    },
                }
            }
        })
    }

    /// Ask for the scatter die, then move the ball one square that way: a kick leaving the
    /// pitch or landing on the kicking side is a touchback; a ball leaving the pitch is thrown
    /// in from the last square in bounds; a standing player tries to catch it; otherwise it
    /// comes to rest, or bounces again off a fallen player.
    pub fn step(&mut self, game_state: &mut GameState, input: ProcInput) -> (r: ProcState)
        requires
            old(game_state).wf(),
            input is Nothing || input matches ProcInput::Roll(RollResult::D8(_)),
            input matches ProcInput::Roll(RollResult::D8(d)) ==> {
                let gs = *old(game_state);
                let dims = gs.spec_dims();
                let cur = ball_square(gs);
                let dir = all_directions()[d.spec_value() - 1];
                let new = stepped(cur, dir);
                &&& !(gs.spec_ball() is OffPitch)
                &&& fits_i8((cur.x + dir.dx, cur.y + dir.dy))
                &&& !(old(self).kick && (dims.spec_is_out(new) || dims.spec_is_on_team_side(
                    new,
                    gs.spec_info().kicking_this_drive,
                ))) ==> {
                    &&& dims.spec_is_out(new) ==> exists|k: nat| first_in_bounds_back(dims, cur, dir, k)
                    &&& !dims.spec_is_out(new) ==> match gs.board_at(new.x as int, new.y as int) {
                        Some(c) => gs.fielded()[c as int]->0.status == PlayerStatus::Up ==> 1
                            <= gs.fielded()[c as int]->0.stats.ag <= 5,
                        None => true,
                    }
                }
            },
        ensures
            *final(self) == *old(self),
            final(game_state).wf(),
            final(game_state).fielded() == old(game_state).fielded(),
            final(game_state).dugout() == old(game_state).dugout(),
            final(game_state).same_board(&*old(game_state)),
            final(game_state).spec_info() == old(game_state).spec_info(),
            final(game_state).same_but_players_info_and_ball(&*old(game_state)),
            input is Nothing ==> {
                &&& r matches ProcState::NeedRoll(roll) && roll == RequestedRoll::D8
                &&& *final(game_state) == *old(game_state)
            },
            input matches ProcInput::Roll(RollResult::D8(d)) ==> {
                let gs = *old(game_state);
                let dims = gs.spec_dims();
                let cur = ball_square(gs);
                let dir = all_directions()[d.spec_value() - 1];
                let new = stepped(cur, dir);
                if old(self).kick && (dims.spec_is_out(new) || dims.spec_is_on_team_side(
                    new,
                    gs.spec_info().kicking_this_drive,
                )) {
                    &&& r matches ProcState::DoneNew(p) && p == AnyProc::Touchback(Touchback {  })
                    &&& *final(game_state) == *old(game_state)
                } else if dims.spec_is_out(new) {
                    &&& r matches ProcState::DoneNew(AnyProc::ThrowIn(t)) && exists|k: nat|
                        first_in_bounds_back(dims, cur, dir, k) && t.from == as_position(back(cur, dir, k))
                    &&& *final(game_state) == *old(game_state)
                } else {
                    match gs.board_at(new.x as int, new.y as int) {
                        Some(c) => {
                            let p = gs.fielded()[c as int]->0;
                            &&& final(game_state).spec_ball() == BallState::InAir(new)
                            &&& final(game_state).spec_bounce_squares() == gs.spec_bounce_squares().push(new)
                            &&& p.status == PlayerStatus::Up ==> {
                                &&& r matches ProcState::DoneNew(AnyProc::Catch(cc))
                                &&& r->DoneNew_0->Catch_0.state == RollProcState::Init
                                &&& r->DoneNew_0->Catch_0.proc.id == c
                                &&& r->DoneNew_0->Catch_0.proc.kick == old(self).kick
                                &&& r->DoneNew_0->Catch_0.proc.target.spec_value() == gs.catch_roll(p)
                            }
                            &&& p.status != PlayerStatus::Up ==> r is NotDone
                        },
                        None => {
                            &&& final(game_state).spec_ball() == BallState::OnGround(new)
                            &&& final(game_state).spec_bounce_squares() == Seq::<Position>::empty()
                            &&& r is Done
                        },
                    }
                }
            },
    {
        proof {
            old(game_state).lemma_board_agrees();
        }
        let dice = match input {
            ProcInput::Nothing => {
                return ProcState::NeedRoll(RequestedRoll::D8);
            },
            ProcInput::Roll(RollResult::D8(dice)) => dice,
            _ => {
                proof {
                    assert(false);
                }
                return ProcState::Done;
            },
        };
        let current_ball_pos = game_state.get_ball_position().unwrap();
        let direction = dice.to_direction();
        assert(-1 <= direction.dx <= 1 && -1 <= direction.dy <= 1);
        let new_pos = current_ball_pos.add_direction(direction);
        let kicking = game_state.info().kicking_this_drive;
        if self.kick && (game_state.is_out(new_pos) || game_state.is_on_team_side(new_pos, kicking)) {
            return ProcState::DoneNew(Touchback::new());
        }
        if game_state.is_out(new_pos) {
            let ghost dims = game_state.spec_dims();
            let ghost k = choose|k: nat| first_in_bounds_back(dims, current_ball_pos, direction, k);
            let mut from = current_ball_pos;
            let ghost mut i: nat = 0;
            while game_state.is_out(from)
                invariant
                    game_state.wf(),
                    dims == game_state.spec_dims(),
                    first_in_bounds_back(dims, current_ball_pos, direction, k),
                    i <= k,
                    from == as_position(back(current_ball_pos, direction, i)),
                    from.x == back(current_ball_pos, direction, i).0,
                    from.y == back(current_ball_pos, direction, i).1,
                    -1 <= direction.dx <= 1 && -1 <= direction.dy <= 1,
                decreases k - i,
            {
                assert(i != k);
                assert(fits_i8(back(current_ball_pos, direction, i + 1)));
                from = from.sub_direction(direction);
                proof {
                    i = i + 1;
                }
            }
            proof {
                if i < k {
                    assert(dims.spec_is_out(as_position(back(current_ball_pos, direction, i))));
                }
            }
            return ProcState::DoneNew(ThrowIn::new(from));
        }
        proof {
            old(game_state).lemma_board_agrees();
        }
        match game_state.get_player_at(new_pos) {
            Some(p) => {
                let catcher_id = p.id;
                let can_catch = p.can_catch();
                game_state.set_ball(BallState::InAir(new_pos));
                if can_catch {
                    let target = match game_state.get_catch_target(catcher_id) {
                        Ok(t) => t,
                        Err(_) => {
                            proof {
                                assert(false);
                            }
                            D6Target::TwoPlus
                        },
                    };
                    ProcState::DoneNew(Catch::new_with_kick_arg(catcher_id, target, self.kick))
                } else {
                    ProcState::NotDone
                }
            },
            None => {
                game_state.set_ball(BallState::OnGround(new_pos));
                ProcState::Done
            },
        }
    }
}

/// The step `(dx, dy)` as a direction.
pub open spec fn as_direction(d: (int, int)) -> Direction {
    Direction { dx: d.0 as i8, dy: d.1 as i8 }
}

impl ThrowIn {
    /// The throw-in of a roll: the direction the D3 picks from the border square, and the
    /// square the ball lands on.
    pub open spec fn throw_of(&self, dims: BoardDims, direction: D3, distance: Sum2D6) -> (Direction, Position) {
        let d = throw_in_directions(self.from, dims.width - 2, dims.height - 2).unwrap()[direction.spec_value() - 1];
        let t = self.spec_target_square(direction, distance, dims);
        (as_direction(d), as_position(t))
    }


    /// The inputs `step` takes in `gs`.
    pub open spec fn step_accepts(self, gs: GameState, input: ProcInput) -> bool {
        &&& (gs.wf())
        &&& (input is Nothing || input matches ProcInput::Roll(RollResult::ThrowIn { .. }))
        &&& (input matches ProcInput::Roll(RollResult::ThrowIn { direction, distance }) ==> {
            let gs = gs;
            let dims = gs.spec_dims();
            let t = self.spec_target_square(direction, distance, dims);
            let (dir, target) = self.throw_of(dims, direction, distance);
            &&& self.on_border(dims)
            &&& fits_i8(t)
            &&& dims.spec_is_out(target) ==> exists|k: nat| first_in_bounds_back(dims, target, dir, k)
            &&& !dims.spec_is_out(target) ==> match gs.board_at(target.x as int, target.y as int) {
                Some(c) => gs.fielded()[c as int]->0.status == PlayerStatus::Up ==> 1
                    <= gs.fielded()[c as int]->0.stats.ag <= 5,
                None => true,
            }
        })
    }

    /// `after`, `gs2` and `r` are what `step` makes of `self` in `gs` with `input`.
    pub open spec fn step_done(self, after: Self, gs: GameState, gs2: GameState, input: ProcInput, r: ProcState) -> bool {
        &&& (gs2.wf())
        &&& (gs2.fielded() == gs.fielded())
        &&& (gs2.dugout() == gs.dugout())
        &&& (gs2.same_board(&gs))
        &&& (gs2.spec_info() == gs.spec_info())
        &&& (gs2.same_but_players_info_and_ball(&gs))
        &&& (input is Nothing ==> {
            &&& r matches ProcState::NeedRoll(roll) && roll == RequestedRoll::ThrowIn
            &&& gs2 == gs
            &&& after == self
        })
        &&& (input matches ProcInput::Roll(RollResult::ThrowIn { direction, distance }) ==> {
            let gs = gs;
            let dims = gs.spec_dims();
            let (dir, target) = self.throw_of(dims, direction, distance);
            if dims.spec_is_out(target) {
                &&& r matches ProcState::NeedRoll(roll) && roll == RequestedRoll::ThrowIn
                &&& gs2 == gs
                &&& exists|k: nat|
                    first_in_bounds_back(dims, target, dir, k) && after.from == as_position(
                        back(target, dir, k),
                    )
            } else {
                &&& after == self
                &&& gs2.spec_ball() == BallState::InAir(target)
                &&& gs2.spec_bounce_squares() == gs.spec_bounce_squares().push(target)
                &&& match gs.board_at(target.x as int, target.y as int) {
                    Some(c) => {
                        let p = gs.fielded()[c as int]->0;
                        &&& p.status == PlayerStatus::Up ==> {
                            &&& r matches ProcState::DoneNew(AnyProc::Catch(cc))
                            &&& r->DoneNew_0->Catch_0.state == RollProcState::Init
                            &&& r->DoneNew_0->Catch_0.proc == (Catch { id: c, target: r->DoneNew_0->Catch_0.proc.target, kick: false })
                            &&& r->DoneNew_0->Catch_0.proc.target.spec_value() == gs.catch_roll(p)
                        }
                        &&& p.status != PlayerStatus::Up ==> r == ProcState::DoneNew(
                            AnyProc::Bounce(Bounce { kick: false }),
                        )
                    },
                    None => r == ProcState::DoneNew(AnyProc::Bounce(Bounce { kick: false })),
                }
            }
        })
    }

    /// Ask for the throw-in roll, then throw the ball back in: a throw that leaves the pitch
    /// again is retaken from the last square in bounds along its line; a standing player on
    /// the landing square tries to catch it, otherwise it bounces.
    pub fn step(&mut self, game_state: &mut GameState, input: ProcInput) -> (r: ProcState)
        requires
            old(game_state).wf(),
            input is Nothing || input matches ProcInput::Roll(RollResult::ThrowIn { .. }),
            input matches ProcInput::Roll(RollResult::ThrowIn { direction, distance }) ==> {
                let gs = *old(game_state);
                let dims = gs.spec_dims();
                let t = old(self).spec_target_square(direction, distance, dims);
                let (dir, target) = old(self).throw_of(dims, direction, distance);
                &&& old(self).on_border(dims)
                &&& fits_i8(t)
                &&& dims.spec_is_out(target) ==> exists|k: nat| first_in_bounds_back(dims, target, dir, k)
                &&& !dims.spec_is_out(target) ==> match gs.board_at(target.x as int, target.y as int) {
                    Some(c) => gs.fielded()[c as int]->0.status == PlayerStatus::Up ==> 1
                        <= gs.fielded()[c as int]->0.stats.ag <= 5,
                    None => true,
                }
            },
        ensures
            final(game_state).wf(),
            final(game_state).fielded() == old(game_state).fielded(),
            final(game_state).dugout() == old(game_state).dugout(),
            final(game_state).same_board(&*old(game_state)),
            final(game_state).spec_info() == old(game_state).spec_info(),
            final(game_state).same_but_players_info_and_ball(&*old(game_state)),
            input is Nothing ==> {
                &&& r matches ProcState::NeedRoll(roll) && roll == RequestedRoll::ThrowIn
                &&& *final(game_state) == *old(game_state)
                &&& *final(self) == *old(self)
            },
            input matches ProcInput::Roll(RollResult::ThrowIn { direction, distance }) ==> {
                let gs = *old(game_state);
                let dims = gs.spec_dims();
                let (dir, target) = old(self).throw_of(dims, direction, distance);
                if dims.spec_is_out(target) {
                    &&& r matches ProcState::NeedRoll(roll) && roll == RequestedRoll::ThrowIn
                    &&& *final(game_state) == *old(game_state)
                    &&& exists|k: nat|
                        first_in_bounds_back(dims, target, dir, k) && final(self).from == as_position(
                            back(target, dir, k),
                        )
                } else {
                    &&& *final(self) == *old(self)
                    &&& final(game_state).spec_ball() == BallState::InAir(target)
                    &&& final(game_state).spec_bounce_squares() == gs.spec_bounce_squares().push(target)
                    &&& match gs.board_at(target.x as int, target.y as int) {
                        Some(c) => {
                            let p = gs.fielded()[c as int]->0;
                            &&& p.status == PlayerStatus::Up ==> {
                                &&& r matches ProcState::DoneNew(AnyProc::Catch(cc))
                                &&& r->DoneNew_0->Catch_0.state == RollProcState::Init
                                &&& r->DoneNew_0->Catch_0.proc == (Catch { id: c, target: r->DoneNew_0->Catch_0.proc.target, kick: false })
                                &&& r->DoneNew_0->Catch_0.proc.target.spec_value() == gs.catch_roll(p)
                            }
                            &&& p.status != PlayerStatus::Up ==> r == ProcState::DoneNew(
                                AnyProc::Bounce(Bounce { kick: false }),
                            )
                        },
                        None => r == ProcState::DoneNew(AnyProc::Bounce(Bounce { kick: false })),
                    }
                }
            },
    {
        proof {
            old(game_state).lemma_board_agrees();
        }
        let (direction, distance) = match input {
            ProcInput::Nothing => {
                return ProcState::NeedRoll(RequestedRoll::ThrowIn);
            },
            ProcInput::Roll(RollResult::ThrowIn { direction, distance }) => (direction, distance),
            _ => {
                proof {
                    assert(false);
                }
                return ProcState::Done;
            },
        };
        let dims = game_state.dims();
        let dir = self.get_throw_in_direction(direction, dims);
        let target = self.target_square(direction, distance, dims);
        assert(-1 <= dir.dx <= 1 && -1 <= dir.dy <= 1);
        assert(target == self.throw_of(dims, direction, distance).1);
        assert(dir == self.throw_of(dims, direction, distance).0);
        if game_state.is_out(target) {
            let ghost k = choose|k: nat| first_in_bounds_back(dims, target, dir, k);
            assert(k != 0);
            assert(fits_i8(back(target, dir, 1)));
            assert(back(target, dir, 1) == (target.x - dir.dx, target.y - dir.dy)) by {
                reveal_with_fuel(back, 2);
            }
            let mut from = target.sub_direction(dir);
            let ghost mut i: nat = 1;
            while game_state.is_out(from)
                invariant
                    game_state.wf(),
                    dims == game_state.spec_dims(),
                    first_in_bounds_back(dims, target, dir, k),
                    1 <= i <= k,
                    from == as_position(back(target, dir, i)),
                    from.x == back(target, dir, i).0,
                    from.y == back(target, dir, i).1,
                    -1 <= dir.dx <= 1 && -1 <= dir.dy <= 1,
                decreases k - i,
            {
                assert(i != k);
                assert(fits_i8(back(target, dir, i + 1)));
                from = from.sub_direction(dir);
                proof {
                    i = i + 1;
                }
            }
            proof {
                if i < k {
                    assert(dims.spec_is_out(as_position(back(target, dir, i))));
                }
            }
            self.from = from;
            return ProcState::NeedRoll(RequestedRoll::ThrowIn);
        }
        match game_state.get_player_at(target) {
            Some(p) => {
                let catcher_id = p.id;
                let can_catch = p.can_catch();
                game_state.set_ball(BallState::InAir(target));
                if can_catch {
                    let t = match game_state.get_catch_target(catcher_id) {
                        Ok(t) => t,
                        Err(_) => {
                            proof {
                                assert(false);
                            }
                            D6Target::TwoPlus
                        },
                    };
                    ProcState::DoneNew(Catch::new(catcher_id, t))
                } else {
                    ProcState::DoneNew(Bounce::new())
                }
            },
            None => {
                game_state.set_ball(BallState::InAir(target));
                ProcState::DoneNew(Bounce::new())
            },
        }
    }
}

/// `gs` after the ball went to the fielded player `id`, who scores on reaching the opposing
/// endzone: `info` is the information the procedure started from.
pub open spec fn takes_ball(after: GameState, before: GameState, id: PlayerID, info: GameInfo) -> bool {
    let p = before.fielded()[id as int]->0;
    &&& after.wf()
    &&& after.spec_ball() == BallState::Carried(id)
    &&& after.spec_bounce_squares() == Seq::<Position>::empty()
    &&& after.fielded() == before.fielded()
    &&& after.dugout() == before.dugout()
    &&& after.same_board(&before)
    &&& after.same_but_players_info_and_ball(&before)
    &&& after.spec_info() == if p.position.x == before.spec_dims().spec_endzone_x(p.stats.team) {
        GameInfo { handle_td_by: Some(id), ..info }
    } else {
        info
    }
}

impl SimpleProc for PickupProc {
    open spec fn spec_target(&self) -> D6Target {
        self.target
    }

    /// Sure Hands rerolls a failed pick-up.
    open spec fn spec_reroll_skill(&self) -> Option<Skill> {
        Some(Skill::SureHands)
    }

    open spec fn spec_player_id(&self) -> PlayerID {
        self.id
    }

    open spec fn success_ready(&self, gs: GameState) -> bool {
        gs.wf() && gs.is_fielded(self.id as int)
    }

    /// The player picks the ball up; it is owed a follow-up move this activation, and scores
    /// if it stands in the opposing endzone.
    open spec fn success_done(&self, before: GameState, after: GameState, procs: Seq<AnyProc>) -> bool {
        &&& procs.len() == 0
        &&& takes_ball(after, before, self.id, GameInfo { pickup_this_activation: true, ..before.spec_info() })
    }

    open spec fn failure_ready(&self, gs: GameState) -> bool {
        gs.wf() && gs.is_fielded(self.id as int)
    }

    /// A failed pick-up ends the player's action and the turn; the ball bounces.
    open spec fn failure_done(&self, after_self: Self, before: GameState, after: GameState, procs: Seq<AnyProc>) -> bool {
        &&& after_self == *self
        &&& procs == seq![AnyProc::Bounce(Bounce { kick: false })]
        &&& after.wf()
        &&& after.fielded() == before.fielded().update(
            self.id as int,
            Some(FieldedPlayer { used: true, ..before.fielded()[self.id as int]->0 }),
        )
        &&& after.spec_info() == (GameInfo { turnover: true, ..before.spec_info() })
        &&& after.dugout() == before.dugout()
        &&& after.same_board(&before)
        &&& after.same_but_players_and_info(&before)
    }

    fn d6_target(&self) -> (r: D6Target) {
        self.target
    }

    fn reroll_skill(&self) -> (r: Option<Skill>) {
        Some(Skill::SureHands)
    }

    fn player_id(&self) -> (r: PlayerID) {
        self.id
    }

    fn apply_success(&self, game_state: &mut GameState) -> (r: Vec<AnyProc>) {
        game_state.set_ball(BallState::Carried(self.id));
        game_state.info_mut().pickup_this_activation = true;
        let player = *game_state.get_player_unsafe(self.id);
        if player.position.x == game_state.get_endzone_x(player.stats.team) {
            game_state.info_mut().handle_td_by = Some(self.id);
        }
        Vec::new()
    }

    fn apply_failure(&mut self, game_state: &mut GameState) -> (r: Vec<AnyProc>) {
        let ghost before = *game_state;
        proof {
            before.lemma_slots();
        }
        match game_state.get_mut_player(self.id) {
            Ok(p) => {
                p.used = true;
            },
            Err(_) => {},
        }
        proof {
            game_state.lemma_edit_in_place_keeps_wf(&before);
        }
        game_state.info_mut().turnover = true;
        let mut procs: Vec<AnyProc> = Vec::new();
        procs.push(Bounce::new());
        procs
    }
}

impl Catch {
    /// The ball is in the air over the catcher's square during the attempt, so that a failed
    /// catch bounces from there.
    pub fn on_start(&self, game_state: &mut GameState)
        requires
            old(game_state).wf(),
            old(game_state).is_fielded(self.id as int),
        ensures
            final(game_state).wf(),
            ({
                let pos = old(game_state).fielded()[self.id as int]->0.position;
                if old(game_state).spec_ball() == BallState::InAir(pos) {
                    *final(game_state) == *old(game_state)
                } else {
                    &&& final(game_state).spec_ball() == BallState::InAir(pos)
                    &&& final(game_state).spec_bounce_squares() == old(game_state).spec_bounce_squares().push(pos)
                    &&& final(game_state).fielded() == old(game_state).fielded()
                    &&& final(game_state).dugout() == old(game_state).dugout()
                    &&& final(game_state).same_board(&*old(game_state))
                    &&& final(game_state).spec_info() == old(game_state).spec_info()
                    &&& final(game_state).same_but_players_info_and_ball(&*old(game_state))
                }
            }),
    {
        let pos = game_state.get_player_unsafe(self.id).position;
        let in_air_there = match game_state.ball() {
            BallState::InAir(p) => p == pos,
            _ => false,
        };
        if !in_air_there {
            game_state.set_ball(BallState::InAir(pos));
        }
    }
}

impl SimpleProc for Catch {
    open spec fn spec_target(&self) -> D6Target {
        self.target
    }

    /// The Catch skill rerolls a failed catch.
    open spec fn spec_reroll_skill(&self) -> Option<Skill> {
        Some(Skill::Catch)
    }

    open spec fn spec_player_id(&self) -> PlayerID {
        self.id
    }

    open spec fn success_ready(&self, gs: GameState) -> bool {
        gs.wf() && gs.is_fielded(self.id as int)
    }

    /// The player holds the ball, and scores if it stands in the opposing endzone.
    open spec fn success_done(&self, before: GameState, after: GameState, procs: Seq<AnyProc>) -> bool {
        procs.len() == 0 && takes_ball(after, before, self.id, before.spec_info())
    }

    open spec fn failure_ready(&self, gs: GameState) -> bool {
        true
    }

    /// A dropped catch bounces; a dropped kick still bounces as a kick.
    open spec fn failure_done(&self, after_self: Self, before: GameState, after: GameState, procs: Seq<AnyProc>) -> bool {
        &&& after_self == *self
        &&& after == before
        &&& procs == seq![AnyProc::Bounce(Bounce { kick: self.kick })]
    }

    fn d6_target(&self) -> (r: D6Target) {
        self.target
    }

    fn reroll_skill(&self) -> (r: Option<Skill>) {
        Some(Skill::Catch)
    }

    fn player_id(&self) -> (r: PlayerID) {
        self.id
    }

    fn apply_success(&self, game_state: &mut GameState) -> (r: Vec<AnyProc>) {
        game_state.set_ball(BallState::Carried(self.id));
        let player = *game_state.get_player_unsafe(self.id);
        if player.position.x == game_state.get_endzone_x(player.stats.team) {
            game_state.info_mut().handle_td_by = Some(self.id);
        }
        Vec::new()
    }

    fn apply_failure(&mut self, game_state: &mut GameState) -> (r: Vec<AnyProc>) {
        let mut procs: Vec<AnyProc> = Vec::new();
        procs.push(Bounce::new_with_kick_arg(self.kick));
        procs
    }
}

impl SimpleProc for Deflect {
    open spec fn spec_target(&self) -> D6Target {
        self.target
    }

    /// No skill rerolls a deflection.
    open spec fn spec_reroll_skill(&self) -> Option<Skill> {
        None
    }

    open spec fn spec_player_id(&self) -> PlayerID {
        self.id
    }

    open spec fn success_ready(&self, gs: GameState) -> bool {
        true
    }

    /// A deflection changes nothing by itself.
    open spec fn success_done(&self, before: GameState, after: GameState, procs: Seq<AnyProc>) -> bool {
        after == before && procs.len() == 0
    }

    open spec fn failure_ready(&self, gs: GameState) -> bool {
        self.failed_deflect_proc is Some
    }

    /// A missed deflection lets the pass go on: the procedure that was waiting for it runs.
    open spec fn failure_done(&self, after_self: Self, before: GameState, after: GameState, procs: Seq<AnyProc>) -> bool {
        &&& after_self.failed_deflect_proc is None
        &&& after_self.id == self.id
        &&& after_self.target == self.target
        &&& after == before
        &&& procs == seq![*self.failed_deflect_proc->0]
    }

    fn d6_target(&self) -> (r: D6Target) {
        self.target
    }

    fn reroll_skill(&self) -> (r: Option<Skill>) {
        None
    }

    fn player_id(&self) -> (r: PlayerID) {
        self.id
    }

    fn apply_success(&self, game_state: &mut GameState) -> (r: Vec<AnyProc>) {
        Vec::new()
    }

    fn apply_failure(&mut self, game_state: &mut GameState) -> (r: Vec<AnyProc>) {
        let mut procs: Vec<AnyProc> = Vec::new();
        match self.failed_deflect_proc.take() {
            Some(p) => procs.push(*p),
            None => {},
        }
        procs
    }
}

/// Where a ball moved along `dirs` from `start` ends, and the last square in bounds it left
/// from when a step would leave the pitch: the walk stops there.
pub open spec fn walk(dims: BoardDims, start: Position, dirs: Seq<Direction>) -> (Position, Option<Position>)
    decreases dirs.len(),
{
    if dirs.len() == 0 {
        (start, None)
    } else {
        let next = stepped(start, dirs[0]);
        if dims.spec_is_out(next) {
            (start, Some(start))
        } else {
            walk(dims, next, dirs.skip(1))
        }
    }
}

/// Every step the walk takes stays within the coordinates a square can have.
pub open spec fn walk_fits(dims: BoardDims, start: Position, dirs: Seq<Direction>) -> bool
    decreases dirs.len(),
{
    if dirs.len() == 0 {
        true
    } else {
        let next = stepped(start, dirs[0]);
        &&& fits_i8((start.x + dirs[0].dx, start.y + dirs[0].dy))
        &&& (dims.spec_is_out(next) || walk_fits(dims, next, dirs.skip(1)))
    }
}

/// Move the ball along `dirs` from `start`, stopping at the last square in bounds.
fn walk_ball(game_state: &GameState, start: Position, dirs: Vec<Direction>) -> (r: (Position, Option<Position>))
    requires
        game_state.wf(),
        walk_fits(game_state.spec_dims(), start, dirs@),
        forall|i: int| 0 <= i < dirs@.len() ==> -1 <= (#[trigger] dirs@[i]).dx <= 1 && -1 <= dirs@[i].dy <= 1,
    ensures
        r == walk(game_state.spec_dims(), start, dirs@),
{
    let ghost dims = game_state.spec_dims();
    let mut target = start;
    let mut k: usize = 0;
    assert(dirs@.skip(0) =~= dirs@);
    while k < dirs.len()
        invariant
            game_state.wf(),
            dims == game_state.spec_dims(),
            k <= dirs@.len(),
            walk(dims, target, dirs@.skip(k as int)) == walk(dims, start, dirs@),
            walk_fits(dims, target, dirs@.skip(k as int)),
            forall|i: int| 0 <= i < dirs@.len() ==> -1 <= (#[trigger] dirs@[i]).dx <= 1 && -1 <= dirs@[i].dy <= 1,
        decreases dirs@.len() - k,
    {
        let d = dirs[k];
        assert(dirs@.skip(k as int)[0] == d);
        let next = target.add_direction(d);
        assert(next == stepped(target, d));
        if game_state.is_out(next) {
            return (target, Some(target));
        }
        assert(dirs@.skip(k as int).skip(1) =~= dirs@.skip(k + 1));
        target = next;
        k += 1;
    }
    assert(dirs@.skip(k as int) =~= Seq::<Direction>::empty());
    (target, None)
}

/// What follows a completed pass roll: a turnover should the passing team lose the ball,
/// and the interference check before the ball lands.
pub open spec fn pass_follow_up(d: DeflectOrResolve, from: Position, to: Position, result: PassResult, throw_in: Option<Position>) -> bool {
    &&& d.from == from
    &&& d.to == to
    &&& d.result == result
    &&& d.throw_in_pos == throw_in
    &&& d.intercepters@.len() == 0
}

/// The accuracy outcomes of a pass roll.
pub open spec fn pass_roll_outcome(pass: Pass, roll: D6) -> int {
    if pass.pass.spec_is_success(roll) {
        0
    } else if roll == D6::One {
        3
    } else if spec_truncate_to(1, 6, roll.spec_value() + pass.modifier) == 1 {
        2
    } else {
        1
    }
}

impl Pass {

    /// The inputs `step` takes in `gs`.
    pub open spec fn step_accepts(self, gs: GameState, input: ProcInput) -> bool {
        &&& (gs.wf())
        &&& (input is Nothing || input matches ProcInput::Roll(RollResult::D6(_)) || input matches ProcInput::Roll(
            RollResult::Scatter(_, _, _),
        ) || input matches ProcInput::Roll(RollResult::Deviate(_, _)))
        &&& (!(input is Nothing) ==> !(gs.spec_ball() is OffPitch))
        &&& (input matches ProcInput::Roll(RollResult::D6(roll)) ==> roll.spec_value() + self.modifier <= i8::MAX)
        &&& (input matches ProcInput::Roll(RollResult::Scatter(a, b, c)) ==> walk_fits(
            gs.spec_dims(),
            self.pos,
            seq![
                all_directions()[a.spec_value() - 1],
                all_directions()[b.spec_value() - 1],
                all_directions()[c.spec_value() - 1],
            ],
        ))
        &&& (input matches ProcInput::Roll(RollResult::Deviate(n, d)) ==> walk_fits(
            gs.spec_dims(),
            ball_square(gs),
            Seq::new(n.spec_value() as nat, |i: int| all_directions()[d.spec_value() - 1]),
        ))
    }

    /// `after`, `gs2` and `r` are what `step` makes of `self` in `gs` with `input`.
    pub open spec fn step_done(self, after: Self, gs: GameState, gs2: GameState, input: ProcInput, r: ProcState) -> bool {
        &&& (after == self)
        &&& (gs2.wf())
        &&& (gs2.same_but_info(&gs))
        &&& (({
            let gs = gs;
            let from = ball_square(gs);
            let tipl = AnyProc::TurnoverIfPossessionLost(TurnoverIfPossessionLost {  });
            match input {
                ProcInput::Nothing => {
                    &&& gs2.spec_info() == gs.spec_info()
                    &&& r == ProcState::NeedRoll(RequestedRoll::D6)
                },
                ProcInput::Roll(RollResult::D6(roll)) => {
                    let o = pass_roll_outcome(self, roll);
                    &&& o == 3 ==> gs2.spec_info() == (GameInfo { turnover: true, ..gs.spec_info() })
                        && r == ProcState::DoneNew(AnyProc::Bounce(Bounce { kick: false }))
                    &&& o != 3 ==> gs2.spec_info() == gs.spec_info()
                    &&& o == 2 ==> r == ProcState::NeedRoll(RequestedRoll::Deviate)
                    &&& o == 1 ==> r == ProcState::NeedRoll(RequestedRoll::Scatter)
                    &&& o == 0 ==> {
                        &&& r is DoneNewProcs
                        &&& r->DoneNewProcs_0@.len() == 2
                        &&& r->DoneNewProcs_0@[0] == tipl
                        &&& r->DoneNewProcs_0@[1] is DeflectOrResolve
                        &&& pass_follow_up(
                            r->DoneNewProcs_0@[1]->DeflectOrResolve_0,
                            from,
                            self.pos,
                            PassResult::Accurate,
                            None,
                        )
                    }
                },
                ProcInput::Roll(RollResult::Scatter(a, b, c)) => {
                    let w = walk(
                        gs.spec_dims(),
                        self.pos,
                        seq![
                            all_directions()[a.spec_value() - 1],
                            all_directions()[b.spec_value() - 1],
                            all_directions()[c.spec_value() - 1],
                        ],
                    );
                    &&& gs2.spec_info() == gs.spec_info()
                    &&& r is DoneNewProcs
                    &&& r->DoneNewProcs_0@.len() == 2
                    &&& r->DoneNewProcs_0@[0] == tipl
                    &&& r->DoneNewProcs_0@[1] is DeflectOrResolve
                    &&& pass_follow_up(r->DoneNewProcs_0@[1]->DeflectOrResolve_0, from, w.0, PassResult::Inaccurate, w.1)
                },
                ProcInput::Roll(RollResult::Deviate(n, d)) => {
                    let w = walk(
                        gs.spec_dims(),
                        from,
                        Seq::new(n.spec_value() as nat, |i: int| all_directions()[d.spec_value() - 1]),
                    );
                    &&& gs2.spec_info() == gs.spec_info()
                    &&& r is DoneNewProcs
                    &&& r->DoneNewProcs_0@.len() == 2
                    &&& r->DoneNewProcs_0@[0] == tipl
                    &&& r->DoneNewProcs_0@[1] is DeflectOrResolve
                    &&& pass_follow_up(
                        r->DoneNewProcs_0@[1]->DeflectOrResolve_0,
                        from,
                        w.0,
                        PassResult::WildlyInaccurate,
                        w.1,
                    )
                },
                _ => false,
            }
        }))
    }

    /// Roll the pass: a success is accurate; a natural one is a fumble and a turnover; a
    /// roll that the modifier drags to one is wildly inaccurate and deviates from the passer;
    /// any other miss is inaccurate and scatters three times from the target. A ball that
    /// would leave the pitch stops at the edge, to be thrown in.
    pub fn step(&mut self, game_state: &mut GameState, input: ProcInput) -> (r: ProcState)
        requires
            old(game_state).wf(),
            input is Nothing || input matches ProcInput::Roll(RollResult::D6(_)) || input matches ProcInput::Roll(
                RollResult::Scatter(_, _, _),
            ) || input matches ProcInput::Roll(RollResult::Deviate(_, _)),
            !(input is Nothing) ==> !(old(game_state).spec_ball() is OffPitch),
            input matches ProcInput::Roll(RollResult::D6(roll)) ==> roll.spec_value() + old(self).modifier <= i8::MAX,
            input matches ProcInput::Roll(RollResult::Scatter(a, b, c)) ==> walk_fits(
                old(game_state).spec_dims(),
                old(self).pos,
                seq![
                    all_directions()[a.spec_value() - 1],
                    all_directions()[b.spec_value() - 1],
                    all_directions()[c.spec_value() - 1],
                ],
            ),
            input matches ProcInput::Roll(RollResult::Deviate(n, d)) ==> walk_fits(
                old(game_state).spec_dims(),
                ball_square(*old(game_state)),
                Seq::new(n.spec_value() as nat, |i: int| all_directions()[d.spec_value() - 1]),
            ),
        ensures
            *final(self) == *old(self),
            final(game_state).wf(),
            final(game_state).same_but_info(&*old(game_state)),
            ({
                let gs = *old(game_state);
                let from = ball_square(gs);
                let tipl = AnyProc::TurnoverIfPossessionLost(TurnoverIfPossessionLost {  });
                match input {
                    ProcInput::Nothing => {
                        &&& final(game_state).spec_info() == gs.spec_info()
                        &&& r == ProcState::NeedRoll(RequestedRoll::D6)
                    },
                    ProcInput::Roll(RollResult::D6(roll)) => {
                        let o = pass_roll_outcome(*old(self), roll);
                        &&& o == 3 ==> final(game_state).spec_info() == (GameInfo { turnover: true, ..gs.spec_info() })
                            && r == ProcState::DoneNew(AnyProc::Bounce(Bounce { kick: false }))
                        &&& o != 3 ==> final(game_state).spec_info() == gs.spec_info()
                        &&& o == 2 ==> r == ProcState::NeedRoll(RequestedRoll::Deviate)
                        &&& o == 1 ==> r == ProcState::NeedRoll(RequestedRoll::Scatter)
                        &&& o == 0 ==> {
                            &&& r is DoneNewProcs
                            &&& r->DoneNewProcs_0@.len() == 2
                            &&& r->DoneNewProcs_0@[0] == tipl
                            &&& r->DoneNewProcs_0@[1] is DeflectOrResolve
                            &&& pass_follow_up(
                                r->DoneNewProcs_0@[1]->DeflectOrResolve_0,
                                from,
                                old(self).pos,
                                PassResult::Accurate,
                                None,
                            )
                        }
                    },
                    ProcInput::Roll(RollResult::Scatter(a, b, c)) => {
                        let w = walk(
                            gs.spec_dims(),
                            old(self).pos,
                            seq![
                                all_directions()[a.spec_value() - 1],
                                all_directions()[b.spec_value() - 1],
                                all_directions()[c.spec_value() - 1],
                            ],
                        );
                        &&& final(game_state).spec_info() == gs.spec_info()
                        &&& r is DoneNewProcs
                        &&& r->DoneNewProcs_0@.len() == 2
                        &&& r->DoneNewProcs_0@[0] == tipl
                        &&& r->DoneNewProcs_0@[1] is DeflectOrResolve
                        &&& pass_follow_up(r->DoneNewProcs_0@[1]->DeflectOrResolve_0, from, w.0, PassResult::Inaccurate, w.1)
                    },
                    ProcInput::Roll(RollResult::Deviate(n, d)) => {
                        let w = walk(
                            gs.spec_dims(),
                            from,
                            Seq::new(n.spec_value() as nat, |i: int| all_directions()[d.spec_value() - 1]),
                        );
                        &&& final(game_state).spec_info() == gs.spec_info()
                        &&& r is DoneNewProcs
                        &&& r->DoneNewProcs_0@.len() == 2
                        &&& r->DoneNewProcs_0@[0] == tipl
                        &&& r->DoneNewProcs_0@[1] is DeflectOrResolve
                        &&& pass_follow_up(
                            r->DoneNewProcs_0@[1]->DeflectOrResolve_0,
                            from,
                            w.0,
                            PassResult::WildlyInaccurate,
                            w.1,
                        )
                    },
                    _ => false,
                }
            }),
    {
        proof {
            old(game_state).lemma_board_agrees();
        }
        match input {
            ProcInput::Nothing => ProcState::NeedRoll(RequestedRoll::D6),
            ProcInput::Roll(RollResult::D6(roll)) => {
                if self.pass.is_success(roll) {
                    let from = game_state.get_ball_position().unwrap();
                    let mut procs: Vec<AnyProc> = Vec::new();
                    procs.push(AnyProc::TurnoverIfPossessionLost(TurnoverIfPossessionLost {  }));
                    procs.push(DeflectOrResolve::new(from, self.pos, PassResult::Accurate, None));
                    ProcState::DoneNewProcs(procs)
                } else if roll == D6::One {
                    game_state.info_mut().turnover = true;
                    ProcState::DoneNew(Bounce::new())
                } else if roll.add_i8(self.modifier) == D6::One {
                    ProcState::NeedRoll(RequestedRoll::Deviate)
                } else {
                    ProcState::NeedRoll(RequestedRoll::Scatter)
                }
            },
            ProcInput::Roll(RollResult::Scatter(r1, r2, r3)) => {
                let from = game_state.get_ball_position().unwrap();
                let mut dirs: Vec<Direction> = Vec::new();
                dirs.push(r1.to_direction());
                dirs.push(r2.to_direction());
                dirs.push(r3.to_direction());
                assert(dirs@ =~= seq![
                    all_directions()[r1.spec_value() - 1],
                    all_directions()[r2.spec_value() - 1],
                    all_directions()[r3.spec_value() - 1],
                ]);
                let (target, throwin_pos) = walk_ball(game_state, self.pos, dirs);
                let mut procs: Vec<AnyProc> = Vec::new();
                procs.push(AnyProc::TurnoverIfPossessionLost(TurnoverIfPossessionLost {  }));
                procs.push(DeflectOrResolve::new(from, target, PassResult::Inaccurate, throwin_pos));
                ProcState::DoneNewProcs(procs)
            },
            ProcInput::Roll(RollResult::Deviate(distance, direction)) => {
                let from = game_state.get_ball_position().unwrap();
                let dir = direction.to_direction();
                let n = distance.value();
                let mut dirs: Vec<Direction> = Vec::new();
                let mut i: u8 = 0;
                while i < n
                    invariant
                        i <= n,
                        n == distance.spec_value(),
                        dir == all_directions()[direction.spec_value() - 1],
                        dirs@ == Seq::new(i as nat, |k: int| all_directions()[direction.spec_value() - 1]),
                    decreases n - i,
                {
                    dirs.push(dir);
                    i += 1;
                    assert(dirs@ =~= Seq::new(i as nat, |k: int| all_directions()[direction.spec_value() - 1]));
                }
                let (target, throwin_pos) = walk_ball(game_state, from, dirs);
                let mut procs: Vec<AnyProc> = Vec::new();
                procs.push(AnyProc::TurnoverIfPossessionLost(TurnoverIfPossessionLost {  }));
                procs.push(DeflectOrResolve::new(from, target, PassResult::WildlyInaccurate, throwin_pos));
                ProcState::DoneNewProcs(procs)
            },
            _ => {
                proof {
                    assert(false);
                }
                ProcState::Done
            },
        }
    }
}

/// How the pass result makes a catch or a deflection harder: nothing for an accurate pass,
/// one more for each grade worse.
pub open spec fn pass_result_modifier(r: PassResult) -> int {
    match r {
        PassResult::Accurate => 0,
        PassResult::Inaccurate => -1,
        PassResult::WildlyInaccurate => -2,
        PassResult::Fumble => -3,
    }
}

fn result_modifier(r: PassResult) -> (m: i8)
    ensures
        m == pass_result_modifier(r),
{
    match r {
        PassResult::Accurate => 0,
        PassResult::Inaccurate => -1,
        PassResult::WildlyInaccurate => -2,
        PassResult::Fumble => -3,
    }
}

/// `p` is what the pass `d` comes to when nobody deflects it: a throw-in from the edge when
/// it went off the pitch, else a catch by the player on the target square at the catch roll
/// made harder by the pass result, else a bounce.
pub open spec fn undeflected(d: DeflectOrResolve, gs: GameState, p: AnyProc) -> bool {
    match d.throw_in_pos {
        Some(t) => p == AnyProc::ThrowIn(ThrowIn { from: t }),
        None => match gs.board_at(d.to.x as int, d.to.y as int) {
            Some(id) => p matches AnyProc::Catch(c) && c.state == RollProcState::Init && c.proc.id == id
                && !c.proc.kick && c.proc.target.spec_value() == spec_truncate_to(
                2,
                6,
                gs.catch_roll(gs.fielded()[id as int]->0) - pass_result_modifier(d.result),
            ),
            None => p == AnyProc::Bounce(Bounce { kick: false }),
        },
    }
}

/// The interceptor an input picks from `list`: for a chosen square, the first one on it;
/// otherwise the only one, when there is exactly one.
pub open spec fn picked_interceptor(list: Seq<(Position, D6Target)>, input: ProcInput) -> Option<
    (Position, D6Target),
> {
    match input {
        ProcInput::Action(Action::Positional(_, pos)) => match first_match(
            list,
            |e: (Position, D6Target)| e.0 == pos,
        ) {
            Some(i) => Some(list[i]),
            None => None,
        },
        _ => if list.len() == 1 {
            Some(list[0])
        } else {
            None
        },
    }
}

/// `gs2` and `r` are what the pass `d` in `gs` comes to with `interceptor`: a deflection
/// roll by the interceptor, harder by the pass result, that falls back on what the pass
/// comes to undeflected; or, with no interceptor, the ball in the air over the target square
/// and what the pass comes to undeflected.
pub open spec fn pass_resolved(
    d: DeflectOrResolve,
    gs: GameState,
    gs2: GameState,
    interceptor: Option<(Position, D6Target)>,
    r: ProcState,
) -> bool {
    match interceptor {
        Some(e) => {
            &&& gs2 == gs
            &&& r matches ProcState::DoneNew(AnyProc::Deflect(c))
            &&& r->DoneNew_0->Deflect_0.state == RollProcState::Init
            &&& Some(r->DoneNew_0->Deflect_0.proc.id) == gs.board_at(e.0.x as int, e.0.y as int)
            &&& r->DoneNew_0->Deflect_0.proc.target.spec_value() == spec_truncate_to(
                2,
                6,
                e.1.spec_value() - pass_result_modifier(d.result),
            )
            &&& r->DoneNew_0->Deflect_0.proc.failed_deflect_proc is Some
            &&& undeflected(d, gs, *r->DoneNew_0->Deflect_0.proc.failed_deflect_proc->0)
        },
        None => {
            &&& gs2.wf()
            &&& gs2.spec_ball() == BallState::InAir(d.to)
            &&& gs2.spec_bounce_squares() == gs.spec_bounce_squares().push(d.to)
            &&& gs2.fielded() == gs.fielded()
            &&& gs2.dugout() == gs.dugout()
            &&& gs2.same_board(&gs)
            &&& gs2.spec_info() == gs.spec_info()
            &&& gs2.same_but_players_info_and_ball(&gs)
            &&& r matches ProcState::DoneNew(p) && undeflected(d, gs, p)
        },
    }
}

impl DeflectOrResolve {
    /// The inputs `step` takes in `gs`.
    pub open spec fn step_accepts(self, gs: GameState, input: ProcInput) -> bool {
        let a = gs.spec_info().active_player->0;
        let team = spec_other_team(gs.fielded()[a as int]->0.stats.team);
        &&& gs.wf()
        &&& gs.spec_info().active_player is Some
        &&& gs.is_fielded(a as int)
        &&& (input is Nothing || input matches ProcInput::Action(Action::Positional(PosAT::SelectPosition, _)))
        &&& (self.throw_in_pos is None ==> in_pitch(self.to.x as int, self.to.y as int) && (gs.board_at(
            self.to.x as int,
            self.to.y as int,
        ) matches Some(id) ==> 1 <= gs.fielded()[id as int]->0.stats.ag <= 5))
        &&& (input is Nothing ==> forall|i: int|
            0 <= i < spec_interception_positions(self.from, self.to).len() && gs.catcher_of_team_at(
                team,
                #[trigger] spec_interception_positions(self.from, self.to)[i],
            ) ==> {
                let p = spec_interception_positions(self.from, self.to)[i];
                1 <= gs.fielded()[gs.board_at(p.x as int, p.y as int)->0 as int]->0.stats.ag <= 5
            })
        &&& (input is Action ==> forall|k: int|
            0 <= k < self.intercepters@.len() ==> in_pitch(
                (#[trigger] self.intercepters@[k]).0.x as int,
                self.intercepters@[k].0.y as int,
            ) && gs.board_at(self.intercepters@[k].0.x as int, self.intercepters@[k].0.y as int) is Some)
    }

    /// `after`, `gs2` and `r` are what `step` makes of `self` in `gs` with `input`.
    pub open spec fn step_done(self, after: Self, gs: GameState, gs2: GameState, input: ProcInput, r: ProcState) -> bool {
        let a = gs.spec_info().active_player->0;
        let team = spec_other_team(gs.fielded()[a as int]->0.stats.team);
        &&& after.from == self.from
        &&& after.to == self.to
        &&& after.throw_in_pos == self.throw_in_pos
        &&& after.result == self.result
        &&& match input {
            ProcInput::Nothing => {
                let sq = gs.intercepting_squares(team, self.from, self.to);
                &&& after.intercepters@.len() == sq.len()
                &&& forall|i: int|
                    0 <= i < sq.len() ==> {
                        let p = sq[i];
                        &&& (#[trigger] after.intercepters@[i]).0 == p
                        &&& after.intercepters@[i].1.spec_value() == gs.catch_roll(
                            gs.fielded()[gs.board_at(p.x as int, p.y as int)->0 as int]->0,
                        )
                    }
                &&& if sq.len() > 1 {
                    &&& gs2 == gs
                    &&& r matches ProcState::NeedAction(aa) && offers_only(*aa, team, PosAT::SelectPosition, sq)
                } else {
                    pass_resolved(self, gs, gs2, picked_interceptor(after.intercepters@, input), r)
                }
            },
            _ => {
                &&& after.intercepters@ == self.intercepters@
                &&& pass_resolved(self, gs, gs2, picked_interceptor(self.intercepters@, input), r)
            },
        }
    }

    /// The defending team may try to deflect the pass: with several players who could, it
    /// chooses one; with one, that player tries; with none, the ball flies on to its target.
    /// What the pass comes to if it is not deflected is a throw-in, a catch or a bounce.
    pub fn step(&mut self, game_state: &mut GameState, input: ProcInput) -> (r: ProcState)
        requires
            old(self).step_accepts(*old(game_state), input),
        ensures
            old(self).step_done(*final(self), *old(game_state), *final(game_state), input, r),
    {
        let active = *game_state.get_active_player().unwrap();
        let deflect_team = other_team(active.stats.team);
        proof {
            game_state.lemma_board_agrees();
        }
        let interceptor: Option<(Position, D6Target)> = match input {
            ProcInput::Nothing => {
                self.intercepters = game_state.get_intercepters(deflect_team, self.from, self.to);
                if self.intercepters.len() == 0 {
                    None
                } else if self.intercepters.len() == 1 {
                    Some(self.intercepters[0])
                } else {
                    let ghost sq = game_state.intercepting_squares(deflect_team, self.from, self.to);
                    let mut positions: Vec<Position> = Vec::new();
                    let mut k: usize = 0;
                    while k < self.intercepters.len()
                        invariant
                            k <= self.intercepters@.len(),
                            self.intercepters@.len() == sq.len(),
                            sq == game_state.intercepting_squares(deflect_team, self.from, self.to),
                            forall|i: int| 0 <= i < sq.len() ==> (#[trigger] self.intercepters@[i]).0 == sq[i],
                            positions@ == sq.take(k as int),
                        decreases self.intercepters@.len() - k,
                    {
                        positions.push(self.intercepters[k].0);
                        proof {
                            assert(positions@ =~= sq.take(k + 1));
                        }
                        k = k + 1;
                    }
                    proof {
                        assert(positions@ =~= sq);
                        assert forall|i: int| 0 <= i < positions@.len() implies in_pitch(
                            #[trigger] positions@[i].x as int,
                            positions@[i].y as int,
                        ) by {
                            let ps = spec_interception_positions(self.from, self.to);
                            let f = |p: Position| game_state.catcher_of_team_at(deflect_team, p);
                            assert(ps.filter(f)[i] == positions@[i]);
                            assert(ps.filter(f).contains(positions@[i]));
                            ps.lemma_filter_contains_rev(f, positions@[i]);
                            lemma_interception_positions_on_pitch(self.from, self.to);
                        }
                    }
                    return ProcState::NeedAction(offer_positional(deflect_team, PosAT::SelectPosition, positions));
                }
            },
            ProcInput::Action(Action::Positional(_, pos)) => {
                let ghost list = self.intercepters@;
                let ghost f = |e: (Position, D6Target)| e.0 == pos;
                proof {
                    lemma_first_match(list, f);
                }
                let mut found: Option<(Position, D6Target)> = None;
                let mut k: usize = 0;
                while k < self.intercepters.len()
                    invariant
                        k <= list.len(),
                        list == self.intercepters@,
                        f == (|e: (Position, D6Target)| e.0 == pos),
                        found is None ==> forall|j: int| 0 <= j < k ==> !f(#[trigger] list[j]),
                        found matches Some(e) ==> exists|i: int| is_first_match(list, f, i) && e == list[i],
                    decreases list.len() - k,
                {
                    if found.is_none() && self.intercepters[k].0 == pos {
                        proof {
                            assert(is_first_match(list, f, k as int));
                        }
                        found = Some(self.intercepters[k]);
                    }
                    k = k + 1;
                }
                proof {
                    if let Some(e) = found {
                        let i = choose|i: int| is_first_match(list, f, i) && e == list[i];
                        let m = first_match(list, f)->0;
                        if i < m {
                            assert(!f(list[i]));
                        } else if m < i {
                            assert(!f(list[m]));
                        }
                    }
                }
                found
            },
            _ => {
                proof {
                    assert(false);
                }
                None
            },
        };
        proof {
            if let Some(e) = interceptor {
                if input is Nothing {
                    let ps = spec_interception_positions(self.from, self.to);
                    let f = |p: Position| game_state.catcher_of_team_at(deflect_team, p);
                    let sq = ps.filter(f);
                    assert(sq[0] == e.0);
                    ps.lemma_filter_pred(f, 0);
                    assert(sq.contains(e.0));
                    ps.lemma_filter_contains_rev(f, e.0);
                    lemma_interception_positions_on_pitch(self.from, self.to);
                } else {
                    let list = self.intercepters@;
                    let i = choose|i: int| 0 <= i < list.len() && e == list[i];
                }
            }
        }
        let failed_deflect_proc: AnyProc = match self.throw_in_pos {
            Some(throw_in_pos) => ThrowIn::new(throw_in_pos),
            None => match game_state.get_player_at(self.to) {
                Some(player) => {
                    let id = player.id;
                    let mut target = match game_state.get_catch_target(id) {
                        Ok(t) => t,
                        Err(_) => {
                            proof {
                                assert(false);
                            }
                            D6Target::TwoPlus
                        },
                    };
                    target.add_modifer(result_modifier(self.result));
                    Catch::new(id, target)
                },
                None => Bounce::new(),
            },
        };
        match interceptor {
            Some((pos, t)) => {
                let mut target = t;
                target.add_modifer(result_modifier(self.result));
                let id = match game_state.get_player_id_at(pos) {
                    Some(id) => id,
                    None => {
                        proof {
                            assert(false);
                        }
                        0
                    },
                };
                ProcState::DoneNew(Deflect::new(id, target, failed_deflect_proc))
            },
            None => {
                game_state.set_ball(BallState::InAir(self.to));
                ProcState::DoneNew(failed_deflect_proc)
            },
        }
    }
}

/// From any square on the playable border of a board at least two squares wide and high, the
/// three throw-in directions are three different king's steps, none leading off the pitch
/// across the border the square lies on. From a square on one side but not in a corner, the
/// D3's middle face throws straight across the pitch and the other two diagonally to either
/// side.
pub proof fn lemma_throw_in_directions(from: Position, max_x: int, max_y: int)
    requires
        1 < max_x,
        1 < max_y,
        throw_in_directions(from, max_x, max_y) is Some,
    ensures
        ({
            let d = throw_in_directions(from, max_x, max_y)->0;
            let x = from.x as int;
            let y = from.y as int;
            &&& d.len() == 3
            &&& d[0] != d[1] && d[1] != d[2] && d[0] != d[2]
            &&& forall|i: int|
                0 <= i < 3 ==> {
                    &&& -1 <= (#[trigger] d[i]).0 <= 1
                    &&& -1 <= d[i].1 <= 1
                    &&& d[i] != (0int, 0int)
                    &&& x == 1 ==> d[i].0 >= 0
                    &&& x == max_x ==> d[i].0 <= 0
                    &&& y == 1 ==> d[i].1 >= 0
                    &&& y == max_y ==> d[i].1 <= 0
                }
            &&& (y == 1 && 1 < x < max_x) ==> d[1] == (0int, 1int) && d[0].1 == 1 && d[2].1 == 1
            &&& (y == max_y && 1 < x < max_x) ==> d[1] == (0int, -1int) && d[0].1 == -1 && d[2].1 == -1
            &&& (x == 1 && 1 < y < max_y) ==> d[1] == (1int, 0int) && d[0].0 == 1 && d[2].0 == 1
            &&& (x == max_x && 1 < y < max_y) ==> d[1] == (-1int, 0int) && d[0].0 == -1 && d[2].0 == -1
        }),
{
}

/// A failed catch by a player who still has the Catch skill this turn, and has not been
/// rerolled yet, is rerolled through the skill: the skill is marked used and the same catch
/// roll is asked for again.
pub proof fn lemma_catch_skill_rerolls(
    before: SimpleProcContainer<Catch>,
    after: SimpleProcContainer<Catch>,
    gs: GameState,
    gs2: GameState,
    r: ProcState,
)
    requires
        roll_stepped(before, after, gs, gs2, ProcInput::Roll(RollResult::Fail), r),
        before.state != RollProcState::RerollUsed,
        skill_left(gs.fielded()[before.proc.id as int]->0, Skill::Catch),
    ensures
        after.proc == before.proc,
        after.state == RollProcState::RerollUsed,
        skill_used(gs2, gs, before.proc.id, Skill::Catch),
        r == ProcState::NeedRoll(RequestedRoll::D6PassFail(before.proc.target)),
{
}

/// A failed pick-up by a player who still has Sure Hands this turn, and has not been
/// rerolled yet, is rerolled through the skill.
pub proof fn lemma_pickup_sure_hands_rerolls(
    before: SimpleProcContainer<PickupProc>,
    after: SimpleProcContainer<PickupProc>,
    gs: GameState,
    gs2: GameState,
    r: ProcState,
)
    requires
        roll_stepped(before, after, gs, gs2, ProcInput::Roll(RollResult::Fail), r),
        before.state != RollProcState::RerollUsed,
        skill_left(gs.fielded()[before.proc.id as int]->0, Skill::SureHands),
    ensures
        after.proc == before.proc,
        after.state == RollProcState::RerollUsed,
        skill_used(gs2, gs, before.proc.id, Skill::SureHands),
        r == ProcState::NeedRoll(RequestedRoll::D6PassFail(before.proc.target)),
{
}

} // verus!
