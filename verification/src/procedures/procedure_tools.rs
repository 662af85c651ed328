use vstd::prelude::*;

use crate::actions::{offer_simple, offers_simple_only, AvailableActions};
use crate::dice::{D6Target, RequestedRoll, RollResult};
use crate::gamestate::GameState;
use crate::model::{spec_other_team, Action, PlayerID, ProcInput, TeamType};
use crate::player::FieldedPlayer;
use crate::procedures::any_proc::AnyProc;
use crate::table::{SimpleAT, Skill};

verus! {

/// A procedure that makes one pass/fail D6 roll for a player, which a skill of that player
/// or a team reroll may reroll once.
pub trait SimpleProc: Sized {
    /// The roll's target.
    spec fn spec_target(&self) -> D6Target;

    /// The skill that rerolls a failed roll, if any.
    spec fn spec_reroll_skill(&self) -> Option<Skill>;

    /// The player who rolls.
    spec fn spec_player_id(&self) -> PlayerID;

    /// The states in which a success can be applied.
    spec fn success_ready(&self, gs: GameState) -> bool;

    /// Applying a success turns `before` into `after` and starts `procs`.
    spec fn success_done(&self, before: GameState, after: GameState, procs: Seq<AnyProc>) -> bool;

    /// The states in which a failure can be applied.
    spec fn failure_ready(&self, gs: GameState) -> bool;

    /// Applying a failure leaves the procedure as `after_self`, turns `before` into `after`,
    /// and starts `procs`.
    spec fn failure_done(&self, after_self: Self, before: GameState, after: GameState, procs: Seq<AnyProc>) -> bool;

    fn d6_target(&self) -> (r: D6Target)
        ensures
            r == self.spec_target(),
    ;

    fn reroll_skill(&self) -> (r: Option<Skill>)
        ensures
            r == self.spec_reroll_skill(),
    ;

    fn player_id(&self) -> (r: PlayerID)
        ensures
            r == self.spec_player_id(),
    ;

    fn apply_success(&self, game_state: &mut GameState) -> (r: Vec<AnyProc>)
        requires
            self.success_ready(*old(game_state)),
        ensures
            self.success_done(*old(game_state), *final(game_state), r@),
    ;

    fn apply_failure(&mut self, game_state: &mut GameState) -> (r: Vec<AnyProc>)
        requires
            old(self).failure_ready(*old(game_state)),
        ensures
            old(self).failure_done(*final(self), *old(game_state), *final(game_state), r@),
    ;
}

/// Whether the reroll of a simple roll procedure has been spent.
#[derive(Clone, Copy, Debug, PartialEq, Eq, Structural, Hash)]
pub enum RollProcState {
    Init,
    RerollUsed,
}

/// A single pass/fail roll procedure together with its reroll state.
#[derive(Clone, Debug, PartialEq, Eq, Hash)]
pub struct SimpleProcContainer<T> {
    pub proc: T,
    pub state: RollProcState,
}

impl<T> SimpleProcContainer<T> {
    pub fn new(proc: T) -> (r: Self)
        ensures
            r.proc == proc,
            r.state == RollProcState::Init,
    {
        SimpleProcContainer { proc, state: RollProcState::Init }
    }
}

/// What a procedure's step asks of the procedure stack.
#[derive(Debug)]
pub enum ProcState {
    /// Done; push these procedures.
    DoneNewProcs(Vec<AnyProc>),
    /// Not done; push these procedures above it.
    NotDoneNewProcs(Vec<AnyProc>),
    /// Not done; push this procedure above it.
    NotDoneNew(AnyProc),
    /// Done; push this procedure.
    DoneNew(AnyProc),
    Done,
    NotDone,
    /// Not done; it waits for this roll.
    NeedRoll(RequestedRoll),
    /// Not done; it waits for one of these actions.
    NeedAction(Box<AvailableActions>),
    /// Not done; it waits for an action among those it already wrote into the game state.
    NeedActionInPlace,
}

/// `r` finishes the procedure and starts `procs`: plain `Done` when there are none.
pub open spec fn finishes_with(r: ProcState, procs: Seq<AnyProc>) -> bool {
    if procs.len() == 0 {
        r is Done
    } else {
        r matches ProcState::DoneNewProcs(v) && v@ == procs
    }
}

pub open spec fn proc_state_of_procs(procs: Vec<AnyProc>) -> ProcState {
    if procs@.len() == 0 {
        ProcState::Done
    } else {
        ProcState::DoneNewProcs(procs)
    }
}

impl From<Vec<AnyProc>> for ProcState {
    fn from(procs: Vec<AnyProc>) -> (r: Self) {
        if procs.len() == 0 {
            ProcState::Done
        } else {
            ProcState::DoneNewProcs(procs)
        }
    }
}

impl vstd::std_specs::convert::FromSpecImpl<Vec<AnyProc>> for ProcState {
    open spec fn obeys_from_spec() -> bool {
        true
    }

    open spec fn from_spec(procs: Vec<AnyProc>) -> ProcState {
        proc_state_of_procs(procs)
    }
}

/// The procedures a finished step starts.
pub open spec fn started_procs(r: ProcState) -> Seq<AnyProc> {
    match r {
        ProcState::DoneNewProcs(v) => v@,
        _ => Seq::empty(),
    }
}

/// The player can still use `skill` this turn.
pub open spec fn skill_left(p: FieldedPlayer, skill: Skill) -> bool {
    p.stats.skills@.contains(skill) && !p.used_skills@.contains(skill)
}

/// `after` is `before` once the player `id` has used `skill`.
pub open spec fn skill_used(after: GameState, before: GameState, id: PlayerID, skill: Skill) -> bool {
    let p = before.fielded()[id as int]->0;
    let q = after.fielded()[id as int]->0;
    &&& after.wf()
    &&& after.fielded()[id as int] is Some
    &&& q.used_skills@ == p.used_skills@.insert(skill)
    &&& q == FieldedPlayer { used_skills: q.used_skills, ..p }
    &&& after.fielded() == before.fielded().update(id as int, Some(q))
    &&& after.dugout() == before.dugout()
    &&& after.same_but_players(&before)
    &&& after.same_board(&before)
}

/// `after` is `before` once `team` has spent a reroll.
pub open spec fn reroll_spent(after: GameState, before: GameState, team: TeamType) -> bool {
    &&& after.wf()
    &&& after.spec_team(team).spec_reroll_used()
    &&& after.spec_team(team).rerolls == before.spec_team(team).rerolls - 1
    &&& after.spec_team(team).score == before.spec_team(team).score
    &&& after.spec_team(team).bribes == before.spec_team(team).bribes
    &&& after.spec_team(spec_other_team(team)) == before.spec_team(spec_other_team(team))
    &&& after.fielded() == before.fielded()
    &&& after.dugout() == before.dugout()
    &&& after.same_board(&before)
    &&& after.spec_info() == before.spec_info()
    &&& after.spec_ball() == before.spec_ball()
    &&& after.spec_bounce_squares() == before.spec_bounce_squares()
    &&& after.spec_dims() == before.spec_dims()
    &&& after.spec_proc_stack() == before.spec_proc_stack()
    &&& after.spec_available_actions() == before.spec_available_actions()
    &&& after.spec_dice_mode() == before.spec_dice_mode()
    &&& after.spec_pending_roll() == before.spec_pending_roll()
    &&& after.spec_registered_roll() == before.spec_registered_roll()
}

/// An input a roll procedure can take in `gs`: nothing, to ask for the roll; the roll; or,
/// after a failure, whether to spend the team reroll of the active player's team.
pub open spec fn roll_input_ok<T: SimpleProc>(c: SimpleProcContainer<T>, gs: GameState, input: ProcInput) -> bool {
    let id = c.proc.spec_player_id();
    match input {
        ProcInput::Nothing => true,
        ProcInput::Roll(RollResult::Pass) => c.proc.success_ready(gs),
        ProcInput::Roll(RollResult::Fail) => gs.wf() && gs.is_fielded(id as int) && c.proc.failure_ready(gs),
        ProcInput::Action(Action::Simple(SimpleAT::DontUseReroll)) => c.proc.failure_ready(gs),
        ProcInput::Action(Action::Simple(SimpleAT::UseReroll)) => {
            &&& gs.wf()
            &&& gs.spec_info().active_player matches Some(a)
            &&& gs.is_fielded(a as int)
            &&& gs.spec_team(gs.fielded()[a as int]->0.stats.team).spec_can_use_reroll()
        },
        _ => false,
    }
}

/// What a roll procedure's step does. It asks for the roll; a success is applied; a failure
/// is rerolled by the player's skill if it has one left, else the player's team is asked
/// whether to spend a team reroll if it has one, else the failure is applied. A failure
/// after a reroll is applied. Spending a team reroll rolls again.
pub open spec fn roll_stepped<T: SimpleProc>(
    before: SimpleProcContainer<T>,
    after: SimpleProcContainer<T>,
    gs: GameState,
    gs2: GameState,
    input: ProcInput,
    r: ProcState,
) -> bool {
    let proc = before.proc;
    let id = proc.spec_player_id();
    let again = r == ProcState::NeedRoll(RequestedRoll::D6PassFail(proc.spec_target()));
    let fails = {
        &&& after.state == before.state
        &&& proc.failure_done(after.proc, gs, gs2, started_procs(r))
        &&& finishes_with(r, started_procs(r))
    };
    match input {
        ProcInput::Nothing => after == before && gs2 == gs && again,
        ProcInput::Roll(RollResult::Pass) => {
            &&& after == before
            &&& proc.success_done(gs, gs2, started_procs(r))
            &&& finishes_with(r, started_procs(r))
        },
        ProcInput::Roll(RollResult::Fail) => {
            let p = gs.fielded()[id as int]->0;
            if before.state == RollProcState::RerollUsed {
                fails
            } else if proc.spec_reroll_skill() is Some && skill_left(p, proc.spec_reroll_skill()->0) {
                &&& after.proc == before.proc
                &&& after.state == RollProcState::RerollUsed
                &&& skill_used(gs2, gs, id, proc.spec_reroll_skill()->0)
                &&& again
            } else if gs.spec_team(p.stats.team).spec_can_use_reroll() {
                &&& after == before
                &&& gs2 == gs
                &&& r matches ProcState::NeedAction(aa) && offers_simple_only(
                    *aa,
                    p.stats.team,
                    set![SimpleAT::UseReroll, SimpleAT::DontUseReroll],
                )
            } else {
                fails
            }
        },
        ProcInput::Action(Action::Simple(SimpleAT::UseReroll)) => {
            let a = gs.spec_info().active_player->0;
            &&& after.proc == before.proc
            &&& after.state == RollProcState::RerollUsed
            &&& reroll_spent(gs2, gs, gs.fielded()[a as int]->0.stats.team)
            &&& again
        },
        _ => fails,
    }
}

/// Finish a procedure, starting `procs`.
fn finish(procs: Vec<AnyProc>) -> (r: ProcState)
    ensures
        finishes_with(r, procs@),
        started_procs(r) == procs@,
{
    if procs.len() == 0 {
        assert(procs@ =~= Seq::<AnyProc>::empty());
        ProcState::Done
    } else {
        ProcState::DoneNewProcs(procs)
    }
}

impl<T: SimpleProc> SimpleProcContainer<T> {
    /// The player who rolls.
    pub fn id(&self) -> (r: PlayerID)
        ensures
            r == self.proc.spec_player_id(),
    {
        self.proc.player_id()
    }

    /// Take one input: ask for the roll, apply a success, and after a failure use the
    /// player's reroll skill, else offer the team reroll, else apply the failure.
    pub fn step(&mut self, game_state: &mut GameState, input: ProcInput) -> (r: ProcState)
        requires
            roll_input_ok(*old(self), *old(game_state), input),
        ensures
            roll_stepped(*old(self), *final(self), *old(game_state), *final(game_state), input, r),
    {
        match input {
            ProcInput::Nothing => {
                return ProcState::NeedRoll(RequestedRoll::D6PassFail(self.proc.d6_target()));
            },
            ProcInput::Roll(RollResult::Pass) => {
                return finish(self.proc.apply_success(game_state));
            },
            ProcInput::Roll(RollResult::Fail) => {
                match self.state {
                    RollProcState::RerollUsed => {
                        return finish(self.proc.apply_failure(game_state));
                    },
                    RollProcState::Init => {},
                }
            },
            ProcInput::Action(Action::Simple(SimpleAT::UseReroll)) => {
                let active = game_state.info().active_player.unwrap();
                let team = game_state.get_player_unsafe(active).stats.team;
                game_state.get_mut_team(team).use_reroll();
                self.state = RollProcState::RerollUsed;
                return ProcState::NeedRoll(RequestedRoll::D6PassFail(self.proc.d6_target()));
            },
            _ => {
                return finish(self.proc.apply_failure(game_state));
            },
        }
        let id = self.id();
        let p = *game_state.get_player_unsafe(id);
        match self.proc.reroll_skill() {
            Some(skill) => {
                if p.can_use_skill(skill) {
                    let ghost before = *game_state;
                    proof {
                        before.lemma_slots();
                    }
                    game_state.get_mut_player_unsafe(id).use_skill(skill);
                    proof {
                        assert forall|j: int|
                            0 <= j < before.fielded().len() && #[trigger] game_state.fielded()[j] is Some implies {
                            &&& game_state.fielded()[j]->0.id == before.fielded()[j]->0.id
                            &&& game_state.fielded()[j]->0.position == before.fielded()[j]->0.position
                        } by {
                            if j != id {
                                assert(game_state.fielded()[j] == before.fielded()[j]);
                            }
                        }
                        game_state.lemma_edit_in_place_keeps_wf(&before);
                    }
                    self.state = RollProcState::RerollUsed;
                    return ProcState::NeedRoll(RequestedRoll::D6PassFail(self.proc.d6_target()));
                }
            },
            None => {},
        }
        let team = p.stats.team;
        if game_state.get_team(team).can_use_reroll() {
            return ProcState::NeedAction(offer_simple(team, SimpleAT::UseReroll, Some(SimpleAT::DontUseReroll)));
        }
        finish(self.proc.apply_failure(game_state))
    }
}

} // verus!
