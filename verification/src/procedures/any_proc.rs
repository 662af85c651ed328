use vstd::prelude::*;

use crate::procedures::ball_procs::{
    Bounce, Catch, Deflect, DeflectOrResolve, Pass, PickupProc, ThrowIn, Touchback, Touchdown,
};
use crate::procedures::block_procs::{Block, BlockAction, FollowUp, KnockDown, Push};
use crate::procedures::casualty_procs::{Armor, Ejection, Injury};
use crate::procedures::game_procs::{
    CoinToss, GameOver, Half, KOWakeUp, Turn, TurnStunned, TurnoverIfPossessionLost,
};
use crate::procedures::kickoff_procs::{ChangingWeather, Kickoff, KickoffTable, LandKickoff, Setup};
use crate::procedures::movement_procs::{DodgeProc, GfiProc, MoveAction, StandUp};
use crate::procedures::nuffle_prayers_procs::{PrayersToNuffle, TrapdoorCheck};
use crate::gamestate::GameState;
use crate::model::ProcInput;
use crate::procedures::procedure_tools::{roll_input_ok, roll_stepped, ProcState, SimpleProcContainer};

verus! {

/// Every procedure that can stand on the procedure stack.
#[derive(Debug, PartialEq, Eq, Hash)]
pub enum AnyProc {
    Armor(Armor),
    Block(Block),
    BlockAction(BlockAction),
    Bounce(Bounce),
    Catch(SimpleProcContainer<Catch>),
    ChangingWeather(ChangingWeather),
    CoinToss(CoinToss),
    Deflect(SimpleProcContainer<Deflect>),
    DeflectOrResolve(DeflectOrResolve),
    DodgeProc(SimpleProcContainer<DodgeProc>),
    Ejection(Ejection),
    FollowUp(FollowUp),
    GameOver(GameOver),
    GfiProc(SimpleProcContainer<GfiProc>),
    Half(Half),
    Injury(Injury),
    KOWakeUp(KOWakeUp),
    Kickoff(Kickoff),
    KickoffTable(KickoffTable),
    KnockDown(KnockDown),
    LandKickoff(LandKickoff),
    MoveAction(MoveAction),
    Pass(Pass),
    PickupProc(SimpleProcContainer<PickupProc>),
    PrayersToNuffle(PrayersToNuffle),
    Push(Push),
    Setup(Setup),
    StandUp(StandUp),
    ThrowIn(ThrowIn),
    Touchback(Touchback),
    Touchdown(Touchdown),
    TrapdoorCheck(TrapdoorCheck),
    Turn(Turn),
    TurnStunned(TurnStunned),
    TurnoverIfPossessionLost(TurnoverIfPossessionLost),
}

impl AnyProc {
    /// The name of the procedure's kind.
    pub open spec fn spec_name(&self) -> Seq<char> {
        match self {
            AnyProc::Armor(_) => "Armor"@,
            AnyProc::Block(_) => "Block"@,
            AnyProc::BlockAction(_) => "BlockAction"@,
            AnyProc::Bounce(_) => "Bounce"@,
            AnyProc::Catch(_) => "Catch"@,
            AnyProc::ChangingWeather(_) => "ChangingWeather"@,
            AnyProc::CoinToss(_) => "CoinToss"@,
            AnyProc::Deflect(_) => "Deflect"@,
            AnyProc::DeflectOrResolve(_) => "DeflectOrResolve"@,
            AnyProc::DodgeProc(_) => "DodgeProc"@,
            AnyProc::Ejection(_) => "Ejection"@,
            AnyProc::FollowUp(_) => "FollowUp"@,
            AnyProc::GameOver(_) => "GameOver"@,
            AnyProc::GfiProc(_) => "GfiProc"@,
            AnyProc::Half(_) => "Half"@,
            AnyProc::Injury(_) => "Injury"@,
            AnyProc::KOWakeUp(_) => "KOWakeUp"@,
            AnyProc::Kickoff(_) => "Kickoff"@,
            AnyProc::KickoffTable(_) => "KickoffTable"@,
            AnyProc::KnockDown(_) => "KnockDown"@,
            AnyProc::LandKickoff(_) => "LandKickoff"@,
            AnyProc::MoveAction(_) => "MoveAction"@,
            AnyProc::Pass(_) => "Pass"@,
            AnyProc::PickupProc(_) => "PickupProc"@,
            AnyProc::PrayersToNuffle(_) => "PrayersToNuffle"@,
            AnyProc::Push(_) => "Push"@,
            AnyProc::Setup(_) => "Setup"@,
            AnyProc::StandUp(_) => "StandUp"@,
            AnyProc::ThrowIn(_) => "ThrowIn"@,
            AnyProc::Touchback(_) => "Touchback"@,
            AnyProc::Touchdown(_) => "Touchdown"@,
            AnyProc::TrapdoorCheck(_) => "TrapdoorCheck"@,
            AnyProc::Turn(_) => "Turn"@,
            AnyProc::TurnStunned(_) => "TurnStunned"@,
            AnyProc::TurnoverIfPossessionLost(_) => "TurnoverIfPossessionLost"@,
        }
    }

    /// The name of the procedure's kind.
    pub fn name(&self) -> (r: &'static str)
        ensures
            r@ == self.spec_name(),
    {
        match self {
            AnyProc::Armor(_) => "Armor",
            AnyProc::Block(_) => "Block",
            AnyProc::BlockAction(_) => "BlockAction",
            AnyProc::Bounce(_) => "Bounce",
            AnyProc::Catch(_) => "Catch",
            AnyProc::ChangingWeather(_) => "ChangingWeather",
            AnyProc::CoinToss(_) => "CoinToss",
            AnyProc::Deflect(_) => "Deflect",
            AnyProc::DeflectOrResolve(_) => "DeflectOrResolve",
            AnyProc::DodgeProc(_) => "DodgeProc",
            AnyProc::Ejection(_) => "Ejection",
            AnyProc::FollowUp(_) => "FollowUp",
            AnyProc::GameOver(_) => "GameOver",
            AnyProc::GfiProc(_) => "GfiProc",
            AnyProc::Half(_) => "Half",
            AnyProc::Injury(_) => "Injury",
            AnyProc::KOWakeUp(_) => "KOWakeUp",
            AnyProc::Kickoff(_) => "Kickoff",
            AnyProc::KickoffTable(_) => "KickoffTable",
            AnyProc::KnockDown(_) => "KnockDown",
            AnyProc::LandKickoff(_) => "LandKickoff",
            AnyProc::MoveAction(_) => "MoveAction",
            AnyProc::Pass(_) => "Pass",
            AnyProc::PickupProc(_) => "PickupProc",
            AnyProc::PrayersToNuffle(_) => "PrayersToNuffle",
            AnyProc::Push(_) => "Push",
            AnyProc::Setup(_) => "Setup",
            AnyProc::StandUp(_) => "StandUp",
            AnyProc::ThrowIn(_) => "ThrowIn",
            AnyProc::Touchback(_) => "Touchback",
            AnyProc::Touchdown(_) => "Touchdown",
            AnyProc::TrapdoorCheck(_) => "TrapdoorCheck",
            AnyProc::Turn(_) => "Turn",
            AnyProc::TurnStunned(_) => "TurnStunned",
            AnyProc::TurnoverIfPossessionLost(_) => "TurnoverIfPossessionLost",
        }
    }
}

/// The inputs the procedure `p` takes in `gs`: those of its kind's step. A procedure whose
/// kind has no step here takes none.
pub open spec fn proc_accepts(p: AnyProc, gs: GameState, input: ProcInput) -> bool {
    match p {
        AnyProc::Armor(p) => p.step_accepts(gs, input),
        AnyProc::Block(p) => p.step_accepts(gs, input),
        AnyProc::Bounce(p) => p.step_accepts(gs, input),
        AnyProc::Catch(c) => roll_input_ok(c, gs, input),
        AnyProc::ChangingWeather(p) => p.step_accepts(gs, input),
        AnyProc::Deflect(c) => roll_input_ok(c, gs, input),
        AnyProc::DeflectOrResolve(p) => p.step_accepts(gs, input),
        AnyProc::DodgeProc(c) => roll_input_ok(c, gs, input),
        AnyProc::FollowUp(p) => p.step_accepts(gs, input),
        AnyProc::CoinToss(p) => p.step_accepts(gs, input),
        AnyProc::GameOver(p) => p.step_accepts(gs, input),
        AnyProc::GfiProc(c) => roll_input_ok(c, gs, input),
        AnyProc::Turn(p) => p.step_accepts(gs, input),
        AnyProc::TurnStunned(p) => p.step_accepts(gs, input),
        AnyProc::TurnoverIfPossessionLost(p) => p.step_accepts(gs, input),
        AnyProc::Half(p) => p.step_accepts(gs, input),
        AnyProc::Injury(p) => p.step_accepts(gs, input),
        AnyProc::Kickoff(p) => p.step_accepts(gs, input),
        AnyProc::KickoffTable(p) => p.step_accepts(gs, input),
        AnyProc::KnockDown(p) => p.step_accepts(gs, input),
        AnyProc::LandKickoff(p) => p.step_accepts(gs, input),
        AnyProc::Pass(p) => p.step_accepts(gs, input),
        AnyProc::PickupProc(c) => roll_input_ok(c, gs, input),
        AnyProc::Push(p) => p.step_accepts(gs, input),
        AnyProc::StandUp(p) => p.step_accepts(gs, input),
        AnyProc::ThrowIn(p) => p.step_accepts(gs, input),
        AnyProc::Touchback(p) => p.step_accepts(gs, input),
        AnyProc::Touchdown(p) => p.step_accepts(gs, input),
        _ => false,
    }
}

/// `after`, `gs2` and `r` are what stepping the procedure `p` in `gs` with `input` gives:
/// its kind's step, which keeps the kind.
pub open spec fn proc_step_done(
    p: AnyProc,
    after: AnyProc,
    gs: GameState,
    gs2: GameState,
    input: ProcInput,
    r: ProcState,
) -> bool {
    match p {
        AnyProc::Armor(p) => after matches AnyProc::Armor(q) && p.step_done(q, gs, gs2, input, r),
        AnyProc::Block(p) => after matches AnyProc::Block(q) && p.step_done(q, gs, gs2, input, r),
        AnyProc::Bounce(p) => after matches AnyProc::Bounce(q) && p.step_done(q, gs, gs2, input, r),
        AnyProc::Catch(c) => after matches AnyProc::Catch(d) && roll_stepped(c, d, gs, gs2, input, r),
        AnyProc::ChangingWeather(p) => after matches AnyProc::ChangingWeather(q) && p.step_done(q, gs, gs2, input, r),
        AnyProc::Deflect(c) => after matches AnyProc::Deflect(d) && roll_stepped(c, d, gs, gs2, input, r),
        AnyProc::DeflectOrResolve(p) => after matches AnyProc::DeflectOrResolve(q) && p.step_done(q, gs, gs2, input, r),
        AnyProc::DodgeProc(c) => after matches AnyProc::DodgeProc(d) && roll_stepped(c, d, gs, gs2, input, r),
        AnyProc::FollowUp(p) => after matches AnyProc::FollowUp(q) && p.step_done(q, gs, gs2, input, r),
        AnyProc::CoinToss(p) => after matches AnyProc::CoinToss(q) && p.step_done(q, gs, gs2, input, r),
        AnyProc::GameOver(p) => after matches AnyProc::GameOver(q) && p.step_done(q, gs, gs2, input, r),
        AnyProc::GfiProc(c) => after matches AnyProc::GfiProc(d) && roll_stepped(c, d, gs, gs2, input, r),
        AnyProc::Turn(p) => after matches AnyProc::Turn(q) && p.step_done(q, gs, gs2, input, r),
        AnyProc::TurnStunned(p) => after matches AnyProc::TurnStunned(q) && p.step_done(q, gs, gs2, input, r),
        AnyProc::TurnoverIfPossessionLost(p) => after matches AnyProc::TurnoverIfPossessionLost(q) && p.step_done(q, gs, gs2, input, r),
        AnyProc::Half(p) => after matches AnyProc::Half(q) && p.step_done(q, gs, gs2, input, r),
        AnyProc::Injury(p) => after matches AnyProc::Injury(q) && p.step_done(q, gs, gs2, input, r),
        AnyProc::Kickoff(p) => after matches AnyProc::Kickoff(q) && p.step_done(q, gs, gs2, input, r),
        AnyProc::KickoffTable(p) => after matches AnyProc::KickoffTable(q) && p.step_done(q, gs, gs2, input, r),
        AnyProc::KnockDown(p) => after matches AnyProc::KnockDown(q) && p.step_done(q, gs, gs2, input, r),
        AnyProc::LandKickoff(p) => after matches AnyProc::LandKickoff(q) && p.step_done(q, gs, gs2, input, r),
        AnyProc::Pass(p) => after matches AnyProc::Pass(q) && p.step_done(q, gs, gs2, input, r),
        AnyProc::PickupProc(c) => after matches AnyProc::PickupProc(d) && roll_stepped(c, d, gs, gs2, input, r),
        AnyProc::Push(p) => after matches AnyProc::Push(q) && p.step_done(q, gs, gs2, input, r),
        AnyProc::StandUp(p) => after matches AnyProc::StandUp(q) && p.step_done(q, gs, gs2, input, r),
        AnyProc::ThrowIn(p) => after matches AnyProc::ThrowIn(q) && p.step_done(q, gs, gs2, input, r),
        AnyProc::Touchback(p) => after matches AnyProc::Touchback(q) && p.step_done(q, gs, gs2, input, r),
        AnyProc::Touchdown(p) => after matches AnyProc::Touchdown(q) && p.step_done(q, gs, gs2, input, r),
        _ => false,
    }
}

impl AnyProc {
    /// Step the procedure with `input`: the step of its kind.
    pub fn step(&mut self, game_state: &mut GameState, input: ProcInput) -> (r: ProcState)
        requires
            proc_accepts(*old(self), *old(game_state), input),
        ensures
            proc_step_done(*old(self), *final(self), *old(game_state), *final(game_state), input, r),
    {
        match self {
            AnyProc::Armor(p) => p.step(game_state, input),
            AnyProc::Block(p) => p.step(game_state, input),
            AnyProc::Bounce(p) => p.step(game_state, input),
            AnyProc::Catch(p) => p.step(game_state, input),
            AnyProc::ChangingWeather(p) => p.step(game_state, input),
            AnyProc::Deflect(p) => p.step(game_state, input),
            AnyProc::DeflectOrResolve(p) => p.step(game_state, input),
            AnyProc::DodgeProc(p) => p.step(game_state, input),
            AnyProc::FollowUp(p) => p.step(game_state, input),
            AnyProc::CoinToss(p) => p.step(game_state, input),
            AnyProc::GameOver(p) => p.step(game_state, input),
            AnyProc::GfiProc(p) => p.step(game_state, input),
            AnyProc::Turn(p) => p.step(game_state, input),
            AnyProc::TurnStunned(p) => p.step(game_state, input),
            AnyProc::TurnoverIfPossessionLost(p) => p.step(game_state, input),
            AnyProc::Half(p) => p.step(game_state, input),
            AnyProc::Injury(p) => p.step(game_state, input),
            AnyProc::Kickoff(p) => p.step(game_state, input),
            AnyProc::KickoffTable(p) => p.step(game_state, input),
            AnyProc::KnockDown(p) => p.step(game_state, input),
            AnyProc::LandKickoff(p) => p.step(game_state, input),
            AnyProc::Pass(p) => p.step(game_state, input),
            AnyProc::PickupProc(p) => p.step(game_state, input),
            AnyProc::Push(p) => p.step(game_state, input),
            AnyProc::StandUp(p) => p.step(game_state, input),
            AnyProc::ThrowIn(p) => p.step(game_state, input),
            AnyProc::Touchback(p) => p.step(game_state, input),
            AnyProc::Touchdown(p) => p.step(game_state, input),
            _ => {
                proof {
                    assert(false);
                }
                ProcState::NotDone
            },
        }
    }
}

} // verus!
