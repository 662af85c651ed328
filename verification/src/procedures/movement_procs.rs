use vstd::prelude::*;

use crate::dice::{D6Target, RequestedRoll, RollResult};
use crate::gamestate::{GameInfo, GameState, FIELD_SLOTS};
use crate::model::{PlayerID, PlayerStatus, Position, ProcInput};
use crate::pathing::{event_ends_player_action, spec_event_ends_player_action, NodeIterator, PathingEvent, PositionOrEvent};
use crate::pitch::in_pitch;
use crate::player::FieldedPlayer;
use crate::procedures::block_procs::KnockDown;
use crate::procedures::procedure_tools::ProcState;
use crate::table::Skill;
use crate::procedures::any_proc::AnyProc;
use crate::procedures::ball_procs::{Catch, PickupProc, Touchdown, Pass};
use crate::procedures::block_procs::{Block, BlockProcState};
use crate::table::NumBlockDices;
use crate::procedures::casualty_procs::Armor;
use crate::procedures::procedure_tools::{roll_stepped, skill_left, skill_used, RollProcState, SimpleProc, SimpleProcContainer};

verus! {

#[derive(Clone, Debug, PartialEq, Eq, Structural, Hash)]
pub struct GfiProc {
    pub target: D6Target,
    pub id: PlayerID,
}

impl GfiProc {
    fn new(id: PlayerID, target: D6Target) -> (r: AnyProc)
        ensures
            r == AnyProc::GfiProc(
                SimpleProcContainer { proc: GfiProc { target, id }, state: RollProcState::Init },
            ),
    {
        AnyProc::GfiProc(SimpleProcContainer::new(GfiProc { target, id }))
    }
}

#[derive(Clone, Debug, PartialEq, Eq, Structural, Hash)]
pub struct StandUp {
    pub id: PlayerID,
}

impl StandUp {
    pub fn new(id: PlayerID) -> (r: AnyProc)
        ensures
            r == AnyProc::StandUp(StandUp { id }),
    {
        AnyProc::StandUp(StandUp { id })
    }
}

#[derive(Clone, Debug, PartialEq, Eq, Structural, Hash)]
pub struct DodgeProc {
    pub target: D6Target,
    pub id: PlayerID,
}

impl DodgeProc {
    fn new(id: PlayerID, target: D6Target) -> (r: AnyProc)
        ensures
            r == AnyProc::DodgeProc(
                SimpleProcContainer { proc: DodgeProc { target, id }, state: RollProcState::Init },
            ),
    {
        AnyProc::DodgeProc(SimpleProcContainer::new(DodgeProc { target, id }))
    }
}

/// The procedure that resolves an event met along a path, acted on by `active_player`.
pub open spec fn spec_proc_from_roll(roll: PathingEvent, active_player: PlayerID) -> AnyProc {
    match roll {
        PathingEvent::Dodge(target) => AnyProc::DodgeProc(
            SimpleProcContainer { proc: DodgeProc { target, id: active_player }, state: RollProcState::Init },
        ),
        PathingEvent::GFI(target) => AnyProc::GfiProc(
            SimpleProcContainer { proc: GfiProc { target, id: active_player }, state: RollProcState::Init },
        ),
        PathingEvent::Pickup(target) => AnyProc::PickupProc(
            SimpleProcContainer { proc: PickupProc { target, id: active_player }, state: RollProcState::Init },
        ),
        PathingEvent::Handoff(id, target) => AnyProc::Catch(
            SimpleProcContainer { proc: Catch { id, target, kick: false }, state: RollProcState::Init },
        ),
        PathingEvent::Touchdown(id) => AnyProc::Touchdown(Touchdown { id }),
        PathingEvent::Foul(victim, target) => AnyProc::Armor(
            Armor { id: victim, foul_target: Some((active_player, target)) },
        ),
        PathingEvent::StandUp => AnyProc::StandUp(StandUp { id: active_player }),
        PathingEvent::Pass { to, pass, modifer } => AnyProc::Pass(Pass { pos: to, pass, modifier: modifer }),
        PathingEvent::Block(id, dices) => AnyProc::Block(
            Block {
                dices,
                defender: id,
                state: BlockProcState::Init,
                roll: [None, None, None],
                is_uphill: dices == NumBlockDices::TwoUphill || dices == NumBlockDices::ThreeUphill,
            },
        ),
    }
}

/// The procedure that resolves an event met along a path.
pub fn proc_from_roll(roll: PathingEvent, active_player: PlayerID) -> (r: AnyProc)
    ensures
        r == spec_proc_from_roll(roll, active_player),
{
    match roll {
        PathingEvent::Dodge(target) => DodgeProc::new(active_player, target),
        PathingEvent::GFI(target) => GfiProc::new(active_player, target),
        PathingEvent::Pickup(target) => PickupProc::new(active_player, target),
        PathingEvent::Block(id, dices) => Block::new(dices, id),
        PathingEvent::Handoff(id, target) => Catch::new(id, target),
        PathingEvent::Touchdown(id) => Touchdown::new(id),
        PathingEvent::Foul(victim, target) => Armor::new_foul(victim, target, active_player),
        PathingEvent::StandUp => StandUp::new(active_player),
        PathingEvent::Pass { to, pass, modifer } => Pass::new(to, pass, modifer),
    }
}

#[derive(Clone, Debug, PartialEq, Eq, Hash)]
pub enum MoveActionState {
    Init,
    ActivePath(NodeIterator),
    SelectPath,
}

#[derive(Clone, Debug, PartialEq, Eq, Hash)]
pub struct MoveAction {
    pub player_id: PlayerID,
    pub state: MoveActionState,
}

impl MoveAction {
    pub fn new(id: PlayerID) -> (r: AnyProc)
        ensures
            r == AnyProc::MoveAction(MoveAction { player_id: id, state: MoveActionState::Init }),
    {
        AnyProc::MoveAction(MoveAction { state: MoveActionState::Init, player_id: id })
    }
}

/// A failed dodge or go-for-it: the turn is over and the player goes down.
pub open spec fn falls_over(after: GameState, before: GameState, id: PlayerID) -> bool {
    &&& after.wf()
    &&& after.spec_info() == (GameInfo { turnover: true, ..before.spec_info() })
    &&& after.same_but_info(&before)
}

impl SimpleProc for GfiProc {
    open spec fn spec_target(&self) -> D6Target {
        self.target
    }

    /// Sure Feet rerolls a failed go-for-it.
    open spec fn spec_reroll_skill(&self) -> Option<Skill> {
        Some(Skill::SureFeet)
    }

    open spec fn spec_player_id(&self) -> PlayerID {
        self.id
    }

    open spec fn success_ready(&self, gs: GameState) -> bool {
        true
    }

    /// A go-for-it that succeeds changes nothing by itself.
    open spec fn success_done(&self, before: GameState, after: GameState, procs: Seq<AnyProc>) -> bool {
        after == before && procs.len() == 0
    }

    open spec fn failure_ready(&self, gs: GameState) -> bool {
        gs.wf()
    }

    /// The player trips: a turnover, and the player is knocked down.
    open spec fn failure_done(&self, after_self: Self, before: GameState, after: GameState, procs: Seq<AnyProc>) -> bool {
        &&& after_self == *self
        &&& falls_over(after, before, self.id)
        &&& procs == seq![AnyProc::KnockDown(KnockDown { id: Some(self.id), second_id: None })]
    }

    fn d6_target(&self) -> (r: D6Target) {
        self.target
    }

    fn reroll_skill(&self) -> (r: Option<Skill>) {
        Some(Skill::SureFeet)
    }

    fn player_id(&self) -> (r: PlayerID) {
        self.id
    }

    fn apply_success(&self, game_state: &mut GameState) -> (r: Vec<AnyProc>) {
        Vec::new()
    }

    fn apply_failure(&mut self, game_state: &mut GameState) -> (r: Vec<AnyProc>) {
        game_state.info_mut().turnover = true;
        let mut procs: Vec<AnyProc> = Vec::new();
        procs.push(KnockDown::new(self.id));
        procs
    }
}

impl SimpleProc for DodgeProc {
    open spec fn spec_target(&self) -> D6Target {
        self.target
    }

    /// The Dodge skill rerolls a failed dodge.
    open spec fn spec_reroll_skill(&self) -> Option<Skill> {
        Some(Skill::Dodge)
    }

    open spec fn spec_player_id(&self) -> PlayerID {
        self.id
    }

    open spec fn success_ready(&self, gs: GameState) -> bool {
        true
    }

    /// A dodge that succeeds changes nothing by itself.
    open spec fn success_done(&self, before: GameState, after: GameState, procs: Seq<AnyProc>) -> bool {
        after == before && procs.len() == 0
    }

    open spec fn failure_ready(&self, gs: GameState) -> bool {
        gs.wf()
    }

    /// The player trips: a turnover, and the player is knocked down.
    open spec fn failure_done(&self, after_self: Self, before: GameState, after: GameState, procs: Seq<AnyProc>) -> bool {
        &&& after_self == *self
        &&& falls_over(after, before, self.id)
        &&& procs == seq![AnyProc::KnockDown(KnockDown { id: Some(self.id), second_id: None })]
    }

    fn d6_target(&self) -> (r: D6Target) {
        self.target
    }

    fn reroll_skill(&self) -> (r: Option<Skill>) {
        Some(Skill::Dodge)
    }

    fn player_id(&self) -> (r: PlayerID) {
        self.id
    }

    fn apply_success(&self, game_state: &mut GameState) -> (r: Vec<AnyProc>) {
        Vec::new()
    }

    fn apply_failure(&mut self, game_state: &mut GameState) -> (r: Vec<AnyProc>) {
        game_state.info_mut().turnover = true;
        let mut procs: Vec<AnyProc> = Vec::new();
        procs.push(KnockDown::new(self.id));
        procs
    }
}

impl StandUp {

    /// The inputs `step` takes in `gs`.
    pub open spec fn step_accepts(self, gs: GameState, input: ProcInput) -> bool {
        &&& (gs.wf())
        &&& (gs.is_fielded(self.id as int))
        &&& (gs.fielded()[self.id as int]->0.moves_in_range())
        &&& (gs.fielded()[self.id as int]->0.spec_total_movement_left() >= 3)
    }

    /// `after`, `gs2` and `r` are what `step` makes of `self` in `gs` with `input`.
    pub open spec fn step_done(self, after: Self, gs: GameState, gs2: GameState, input: ProcInput, r: ProcState) -> bool {
        &&& (after == self)
        &&& (r is Done)
        &&& (gs2.wf())
        &&& (gs2.players_edited_in_place(&gs))
        &&& (({
            let p = gs.fielded()[self.id as int]->0;
            gs2.fielded() == gs.fielded().update(
                self.id as int,
                Some(FieldedPlayer { status: PlayerStatus::Up, moves: (p.moves + 3) as u8, ..p }),
            )
        }))
    }

    /// A lying player stands up, which costs three squares of movement.
    pub fn step(&mut self, game_state: &mut GameState, input: ProcInput) -> (r: ProcState)
        requires
            old(game_state).wf(),
            old(game_state).is_fielded(old(self).id as int),
            old(game_state).fielded()[old(self).id as int]->0.moves_in_range(),
            old(game_state).fielded()[old(self).id as int]->0.spec_total_movement_left() >= 3,
        ensures
            *final(self) == *old(self),
            r is Done,
            final(game_state).wf(),
            final(game_state).players_edited_in_place(&*old(game_state)),
            ({
                let p = old(game_state).fielded()[old(self).id as int]->0;
                final(game_state).fielded() == old(game_state).fielded().update(
                    old(self).id as int,
                    Some(FieldedPlayer { status: PlayerStatus::Up, moves: (p.moves + 3) as u8, ..p }),
                )
            }),
    {
        let ghost before = *game_state;
        proof {
            before.lemma_slots();
        }
        let p = game_state.get_mut_player_unsafe(self.id);
        p.status = PlayerStatus::Up;
        p.add_move(3);
        proof {
            game_state.lemma_edit_in_place_keeps_wf(&before);
        }
        ProcState::Done
    }
}

/// How many squares lie on top of a path's stack before its first event.
pub open spec fn leading_moves(s: Seq<PositionOrEvent>) -> nat
    decreases s.len(),
{
    if s.len() == 0 {
        0
    } else if s.last() is Position {
        1 + leading_moves(s.drop_last())
    } else {
        0
    }
}

/// The `k`-th step handed out by a path's stack.
pub open spec fn popped(s: Seq<PositionOrEvent>, k: int) -> PositionOrEvent {
    s[s.len() - 1 - k]
}

/// The square the player stands on before the `k`-th step along the path.
pub open spec fn square_before(s: Seq<PositionOrEvent>, start: Position, k: int) -> Position {
    if k == 0 {
        start
    } else {
        popped(s, k - 1)->Position_0
    }
}

/// The first `leading_moves` steps are squares, and an event follows them if anything does.
pub proof fn lemma_leading_moves(s: Seq<PositionOrEvent>)
    ensures
        leading_moves(s) <= s.len(),
        forall|k: int| 0 <= k < leading_moves(s) ==> #[trigger] popped(s, k) is Position,
        leading_moves(s) < s.len() ==> popped(s, leading_moves(s) as int) is Event,
    decreases s.len(),
{
    if s.len() > 0 && s.last() is Position {
        lemma_leading_moves(s.drop_last());
        assert forall|k: int| 0 <= k < leading_moves(s) implies #[trigger] popped(s, k) is Position by {
            if k > 0 {
                assert(popped(s, k) == popped(s.drop_last(), k - 1));
            }
        }
        if leading_moves(s) < s.len() {
            assert(popped(s, leading_moves(s) as int) == popped(s.drop_last(), leading_moves(s.drop_last()) as int));
        }
    }
}

/// The path can be walked: each square is on the pitch, differs from the one before, and is
/// free but for the walking player itself; and the player has the movement for all of them.
pub open spec fn walkable(gs: GameState, s: Seq<PositionOrEvent>, id: PlayerID) -> bool {
    let p = gs.fielded()[id as int]->0;
    &&& p.moves_in_range()
    &&& leading_moves(s) <= p.spec_total_movement_left()
    &&& forall|k: int|
        #![trigger popped(s, k)]
        0 <= k < leading_moves(s) ==> {
            let q = popped(s, k)->Position_0;
            &&& in_pitch(q.x as int, q.y as int)
            &&& q != square_before(s, p.position, k)
            &&& (gs.board_at(q.x as int, q.y as int) is None || gs.board_at(q.x as int, q.y as int)
                == Some(id))
        }
}

/// The board after the player `id` moved from wherever it stood to `at`.
pub open spec fn board_after_walk(gs: GameState, id: PlayerID, at: Position, x: int, y: int) -> Option<PlayerID> {
    if x == at.x && y == at.y {
        Some(id)
    } else if gs.board_at(x, y) == Some(id) {
        None
    } else {
        gs.board_at(x, y)
    }
}

/// One step of a walk keeps the board as the walk so far describes it.
proof fn lemma_walk_step(
    before: GameState,
    here: GameState,
    moved: GameState,
    after: GameState,
    id: PlayerID,
    cur: Position,
    next: Position,
)
    requires
        forall|x: int, y: int|
            in_pitch(x, y) ==> #[trigger] here.board_at(x, y) == board_after_walk(before, id, cur, x, y),
        before.board_at(cur.x as int, cur.y as int) is None || before.board_at(cur.x as int, cur.y as int) == Some(id),
        moved.board_at(next.x as int, next.y as int) == Some(id),
        moved.board_at(cur.x as int, cur.y as int) is None,
        forall|x: int, y: int|
            in_pitch(x, y) && !(x == next.x && y == next.y) && !(x == cur.x && y == cur.y)
                ==> #[trigger] moved.board_at(x, y) == here.board_at(x, y),
        after.same_board(&moved),
    ensures
        forall|x: int, y: int|
            in_pitch(x, y) ==> #[trigger] after.board_at(x, y) == board_after_walk(before, id, next, x, y),
{
    assert forall|x: int, y: int| in_pitch(x, y) implies #[trigger] after.board_at(x, y) == board_after_walk(
        before,
        id,
        next,
        x,
        y,
    ) by {
        assert(after.board_at(x, y) == moved.board_at(x, y));
        if !(x == next.x && y == next.y) && !(x == cur.x && y == cur.y) {
            assert(moved.board_at(x, y) == here.board_at(x, y));
        }
    }
}

impl MoveAction {
    /// Walk the active player along its path: take each square on top of the stack, one
    /// square of movement each, until an event comes up; the event's procedure is started,
    /// and an event that ends the action marks the player as used.
    #[verifier::rlimit(60)]
    #[verifier::spinoff_prover]
    pub fn continue_along_path(path: &mut NodeIterator, game_state: &mut GameState) -> (r: ProcState)
        requires
            old(game_state).wf(),
            old(game_state).spec_info().active_player matches Some(a) && old(game_state).is_fielded(a as int),
            walkable(*old(game_state), old(path)@, old(game_state).spec_info().active_player->0),
        ensures
            final(game_state).wf(),
            final(game_state).same_but_players_and_info(&*old(game_state)),
            final(game_state).spec_info() == old(game_state).spec_info(),
            final(game_state).dugout() == old(game_state).dugout(),
            ({
                let s = old(path)@;
                let m = leading_moves(s);
                let id = old(game_state).spec_info().active_player->0;
                let p = old(game_state).fielded()[id as int]->0;
                let at = square_before(s, p.position, m as int);
                let ends = m < s.len() && spec_event_ends_player_action(popped(s, m as int)->Event_0);
                &&& final(game_state).fielded() == old(game_state).fielded().update(
                    id as int,
                    Some(FieldedPlayer { position: at, moves: (p.moves + m) as u8, used: p.used || ends, ..p }),
                )
                &&& forall|x: int, y: int|
                    in_pitch(x, y) ==> #[trigger] final(game_state).board_at(x, y) == board_after_walk(
                        *old(game_state),
                        id,
                        at,
                        x,
                        y,
                    )
                &&& m < s.len() ==> {
                    &&& final(path)@ == s.take(s.len() - m - 1)
                    &&& r matches ProcState::NotDoneNew(np) && np == spec_proc_from_roll(popped(s, m as int)->Event_0, id)
                }
                &&& m == s.len() ==> final(path)@.len() == 0 && r is NotDone
            }),
    {
        let player_id = game_state.info().active_player.unwrap();
        let ghost s = path@;
        let ghost before = *game_state;
        let ghost p0 = before.fielded()[player_id as int]->0;
        let ghost mut i: nat = 0;
        proof {
            lemma_leading_moves(s);
            before.lemma_board_agrees();
            before.lemma_slots();
        }
        loop
            invariant
                game_state.wf(),
                before.wf(),
                before.is_fielded(player_id as int),
                before.fielded().len() == FIELD_SLOTS,
                before.spec_info().active_player == Some(player_id),
                s == old(path)@,
                before == *old(game_state),
                p0 == before.fielded()[player_id as int]->0,
                walkable(before, s, player_id),
                leading_moves(s) <= s.len(),
                forall|k: int| 0 <= k < leading_moves(s) ==> #[trigger] popped(s, k) is Position,
                leading_moves(s) < s.len() ==> popped(s, leading_moves(s) as int) is Event,
                i <= leading_moves(s),
                path@ == s.take(s.len() - i),
                game_state.same_but_players_and_info(&before),
                game_state.spec_info() == before.spec_info(),
                game_state.dugout() == before.dugout(),
                game_state.fielded() == before.fielded().update(
                    player_id as int,
                    Some(
                        FieldedPlayer {
                            position: square_before(s, p0.position, i as int),
                            moves: (p0.moves + i) as u8,
                            ..p0
                        },
                    ),
                ),
                forall|x: int, y: int|
                    in_pitch(x, y) ==> #[trigger] game_state.board_at(x, y) == board_after_walk(
                        before,
                        player_id,
                        square_before(s, p0.position, i as int),
                        x,
                        y,
                    ),
            decreases s.len() - i,
        {
            let ghost here = *game_state;
            proof {
                here.lemma_slots();
                here.lemma_board_agrees();
            }
            match path.next() {
                None => {
                    return ProcState::NotDone;
                },
                Some(PositionOrEvent::Position(position)) => {
                    proof {
                        if i == leading_moves(s) && i < s.len() {
                            assert(popped(s, i as int) == s[s.len() - 1 - i]);
                        }
                    }
                    assert(i < leading_moves(s));
                    assert(popped(s, i as int) == PositionOrEvent::Position(position));
                    let ghost cur = square_before(s, p0.position, i as int);
                    assert(here.board_at(position.x as int, position.y as int) is None) by {
                        assert(board_after_walk(before, player_id, cur, position.x as int, position.y as int) is None);
                    }
                    assert(here.fielded()[player_id as int] is Some);
                    let _ = game_state.move_player(player_id, position);
                    let ghost moved = *game_state;
                    assert(moved.fielded()[player_id as int] == Some(
                        FieldedPlayer {
                            position,
                            moves: (p0.moves + i) as u8,
                            ..p0
                        },
                    ));
                    assert(moved.is_fielded(player_id as int));
                    proof {
                        moved.lemma_slots();
                    }
                    game_state.get_mut_player_unsafe(player_id).add_move(1);
                    proof {
                        game_state.lemma_edit_in_place_keeps_wf(&moved);
                        if i > 0 {
                            let q = popped(s, i - 1)->Position_0;
                            assert(q == cur);
                        } else {
                            before.lemma_board_agrees();
                            assert(before.board_at(p0.position.x as int, p0.position.y as int) == Some(player_id));
                        }
                        lemma_walk_step(before, here, moved, *game_state, player_id, cur, position);
                        i = i + 1;
                        assert(square_before(s, p0.position, i as int) == position);
                    }
                },
                Some(PositionOrEvent::Event(roll)) => {
                    assert(i == leading_moves(s));
                    assert(popped(s, i as int) == PositionOrEvent::Event(roll));
                    assert(path@ =~= s.take(s.len() - i - 1));
                    let ghost at_event = *game_state;
                    if event_ends_player_action(&roll) {
                        game_state.get_mut_player_unsafe(player_id).used = true;
                        proof {
                            game_state.lemma_edit_in_place_keeps_wf(&at_event);
                        }
                    }
                    assert forall|x: int, y: int| #[trigger] game_state.board_at(x, y) == at_event.board_at(x, y) by {}
                    return ProcState::NotDoneNew(proc_from_roll(roll, player_id));
                },
            }
        }
    }
}

/// A failed dodge by a player who still has the Dodge skill this turn, and has not been
/// rerolled yet, is rerolled through the skill.
pub proof fn lemma_dodge_skill_rerolls(
    before: SimpleProcContainer<DodgeProc>,
    after: SimpleProcContainer<DodgeProc>,
    gs: GameState,
    gs2: GameState,
    r: ProcState,
)
    requires
        roll_stepped(before, after, gs, gs2, ProcInput::Roll(RollResult::Fail), r),
        before.state != RollProcState::RerollUsed,
        skill_left(gs.fielded()[before.proc.id as int]->0, Skill::Dodge),
    ensures
        after.proc == before.proc,
        after.state == RollProcState::RerollUsed,
        skill_used(gs2, gs, before.proc.id, Skill::Dodge),
        r == ProcState::NeedRoll(RequestedRoll::D6PassFail(before.proc.target)),
{
}

/// A failed go-for-it by a player who still has Sure Feet this turn, and has not been
/// rerolled yet, is rerolled through the skill.
pub proof fn lemma_gfi_sure_feet_rerolls(
    before: SimpleProcContainer<GfiProc>,
    after: SimpleProcContainer<GfiProc>,
    gs: GameState,
    gs2: GameState,
    r: ProcState,
)
    requires
        roll_stepped(before, after, gs, gs2, ProcInput::Roll(RollResult::Fail), r),
        before.state != RollProcState::RerollUsed,
        skill_left(gs.fielded()[before.proc.id as int]->0, Skill::SureFeet),
    ensures
        after.proc == before.proc,
        after.state == RollProcState::RerollUsed,
        skill_used(gs2, gs, before.proc.id, Skill::SureFeet),
        r == ProcState::NeedRoll(RequestedRoll::D6PassFail(before.proc.target)),
{
}

/// Each roll met along a path starts the roll procedure of its kind, fresh, for the right
/// player and with the event's target: a dodge for the active player, rerolled by Dodge; a
/// go-for-it, rerolled by Sure Feet; a pick-up, rerolled by Sure Hands; and a hand-off's catch
/// by the receiver, rerolled by Catch.
pub proof fn lemma_path_rolls_start_their_procedures(target: D6Target, active_player: PlayerID, receiver: PlayerID)
    ensures
        spec_proc_from_roll(PathingEvent::Dodge(target), active_player) matches AnyProc::DodgeProc(c) && c.state
            == RollProcState::Init && c.proc.spec_player_id() == active_player && c.proc.spec_target() == target
            && c.proc.spec_reroll_skill() == Some(Skill::Dodge),
        spec_proc_from_roll(PathingEvent::GFI(target), active_player) matches AnyProc::GfiProc(c) && c.state
            == RollProcState::Init && c.proc.spec_player_id() == active_player && c.proc.spec_target() == target
            && c.proc.spec_reroll_skill() == Some(Skill::SureFeet),
        spec_proc_from_roll(PathingEvent::Pickup(target), active_player) matches AnyProc::PickupProc(c) && c.state
            == RollProcState::Init && c.proc.spec_player_id() == active_player && c.proc.spec_target() == target
            && c.proc.spec_reroll_skill() == Some(Skill::SureHands),
        spec_proc_from_roll(PathingEvent::Handoff(receiver, target), active_player) matches AnyProc::Catch(c)
            && c.state == RollProcState::Init && c.proc.spec_player_id() == receiver && c.proc.spec_target()
            == target && c.proc.spec_reroll_skill() == Some(Skill::Catch) && !c.proc.kick,
{
}

} // verus!
