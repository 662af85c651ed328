use vstd::prelude::*;

use crate::dice::{RequestedRoll, RollResult, Sum2D6Target};
use crate::gamestate::{has_free_slot, GameState};
use crate::model::{BallState, DugoutPlace, InjuryOutcome, PlayerID, PlayerStatus, ProcInput};
use crate::player::FieldedPlayer;
use crate::procedures::any_proc::AnyProc;
use crate::procedures::procedure_tools::{finishes_with, ProcState};

verus! {

#[derive(Clone, Debug, PartialEq, Eq, Hash)]
pub struct Armor {
    pub id: PlayerID,
    pub foul_target: Option<(PlayerID, Sum2D6Target)>,
}

impl Armor {
    pub fn new(id: PlayerID) -> (r: AnyProc)
        ensures
            r == AnyProc::Armor(Armor { id, foul_target: None }),
    {
        AnyProc::Armor(Armor { id, foul_target: None })
    }

    /// The armour roll of a foul by `fouler_id` on `id`.
    pub fn new_foul(id: PlayerID, target: Sum2D6Target, fouler_id: PlayerID) -> (r: AnyProc)
        ensures
            r == AnyProc::Armor(Armor { id, foul_target: Some((fouler_id, target)) }),
    {
        AnyProc::Armor(Armor { id, foul_target: Some((fouler_id, target)) })
    }
}

#[derive(Clone, Copy, Debug, PartialEq, Eq, Structural, Hash)]
pub enum EjectionState {
    Init,
    AwaitArgument,
    AwaitRoll,
}

#[derive(Clone, Debug, PartialEq, Eq, Structural, Hash)]
pub struct Ejection {
    pub id: PlayerID,
    pub foul: bool,
    pub state: EjectionState,
}

impl Ejection {
    pub fn new(id: PlayerID) -> (r: AnyProc)
        ensures
            r == AnyProc::Ejection(Ejection { id, foul: false, state: EjectionState::Init }),
    {
        AnyProc::Ejection(Ejection { id, foul: false, state: EjectionState::Init })
    }

    pub fn new_foul(id: PlayerID) -> (r: AnyProc)
        ensures
            r == AnyProc::Ejection(Ejection { id, foul: true, state: EjectionState::Init }),
    {
        AnyProc::Ejection(Ejection { id, foul: true, state: EjectionState::Init })
    }
}

#[derive(Clone, Debug, PartialEq, Eq, Structural, Hash)]
pub struct Injury {
    pub id: PlayerID,
    pub crowd: bool,
    pub fouler: Option<PlayerID>,
}

impl Injury {
    pub fn new(id: PlayerID) -> (r: AnyProc)
        ensures
            r == AnyProc::Injury(Injury { id, crowd: false, fouler: None }),
    {
        AnyProc::Injury(Injury { id, crowd: false, fouler: None })
    }

    /// The injury of a player pushed into the crowd.
    pub fn new_crowd(id: PlayerID) -> (r: AnyProc)
        ensures
            r == AnyProc::Injury(Injury { id, crowd: true, fouler: None }),
    {
        AnyProc::Injury(Injury { id, crowd: true, fouler: None })
    }

    pub fn new_pure(id: PlayerID) -> (r: Injury)
        ensures
            r == (Injury { id, crowd: false, fouler: None }),
    {
        Injury { id, crowd: false, fouler: None }
    }
}

/// The injury an input reports; `None` for an input the injury procedure does not take.
pub open spec fn injury_outcome_of(input: ProcInput) -> Option<InjuryOutcome> {
    match input {
        ProcInput::Roll(RollResult::FoulInjury { outcome, .. }) => Some(outcome),
        ProcInput::Roll(RollResult::Fail) => Some(InjuryOutcome::Stunned),
        ProcInput::Roll(RollResult::MiddleOutcome) => Some(InjuryOutcome::KO),
        ProcInput::Roll(RollResult::Pass) => Some(InjuryOutcome::Casualty),
        _ => None,
    }
}

/// Where an injured player goes: casualties and knock-outs to their boxes, a stunned player
/// pushed into the crowd to the reserves; a stunned player on the pitch stays.
pub open spec fn injury_place(outcome: InjuryOutcome, crowd: bool) -> Option<DugoutPlace> {
    match outcome {
        InjuryOutcome::Casualty => Some(DugoutPlace::Injuried),
        InjuryOutcome::KO => Some(DugoutPlace::KnockOut),
        InjuryOutcome::Stunned => if crowd {
            Some(DugoutPlace::Reserves)
        } else {
            None
        },
    }
}

/// The foul that an injury roll reports also got the fouler sent off.
pub open spec fn reports_ejection(input: ProcInput) -> bool {
    input matches ProcInput::Roll(RollResult::FoulInjury { ejected, .. }) && ejected
}

impl Injury {

    /// The inputs `step` takes in `gs`.
    pub open spec fn step_accepts(self, gs: GameState, input: ProcInput) -> bool {
        &&& (gs.wf())
        &&& (input is Nothing || injury_outcome_of(input) is Some)
        &&& (reports_ejection(input) ==> self.fouler is Some)
        &&& (injury_outcome_of(input) is Some ==> gs.is_fielded(self.id as int))
        &&& (injury_outcome_of(input) matches Some(o) && injury_place(o, self.crowd) is Some ==> {
            &&& gs.spec_ball() != BallState::Carried(self.id)
            &&& has_free_slot(gs.dugout())
        })
    }

    /// `after`, `gs2` and `r` are what `step` makes of `self` in `gs` with `input`.
    pub open spec fn step_done(self, after: Self, gs: GameState, gs2: GameState, input: ProcInput, r: ProcState) -> bool {
        &&& (after == self)
        &&& (gs2.wf())
        &&& (input is Nothing ==> {
            &&& gs2 == gs
            &&& r matches ProcState::NeedRoll(roll) && roll == if self.fouler is Some {
                RequestedRoll::FoulInjury(Sum2D6Target::EightPlus, Sum2D6Target::TenPlus)
            } else {
                RequestedRoll::Sum2D6ThreeOutcomes(Sum2D6Target::EightPlus, Sum2D6Target::TenPlus)
            }
        })
        &&& (injury_outcome_of(input) matches Some(o) ==> {
            &&& match injury_place(o, self.crowd) {
                Some(place) => gs2.unfielded(&gs, self.id, place),
                None => {
                    &&& gs2.players_edited_in_place(&gs)
                    &&& gs2.fielded() == gs.fielded().update(
                        self.id as int,
                        Some(
                            FieldedPlayer {
                                status: PlayerStatus::Stunned,
                                ..gs.fielded()[self.id as int]->0
                            },
                        ),
                    )
                },
            }
            &&& finishes_with(
                r,
                if reports_ejection(input) {
                    seq![
                        AnyProc::Ejection(
                            Ejection { id: self.fouler->0, foul: true, state: EjectionState::Init },
                        ),
                    ]
                } else {
                    Seq::empty()
                },
            )
        })
    }

    /// Ask for the injury roll, then apply it: the player is stunned where it lies, or goes
    /// to the dugout box the roll names; a fouler caught by the roll is sent off.
    pub fn step(&mut self, game_state: &mut GameState, input: ProcInput) -> (r: ProcState)
        requires
            old(game_state).wf(),
            input is Nothing || injury_outcome_of(input) is Some,
            reports_ejection(input) ==> old(self).fouler is Some,
            injury_outcome_of(input) is Some ==> old(game_state).is_fielded(old(self).id as int),
            injury_outcome_of(input) matches Some(o) && injury_place(o, old(self).crowd) is Some ==> {
                &&& old(game_state).spec_ball() != BallState::Carried(old(self).id)
                &&& has_free_slot(old(game_state).dugout())
            },
        ensures
            *final(self) == *old(self),
            final(game_state).wf(),
            input is Nothing ==> {
                &&& *final(game_state) == *old(game_state)
                &&& r matches ProcState::NeedRoll(roll) && roll == if old(self).fouler is Some {
                    RequestedRoll::FoulInjury(Sum2D6Target::EightPlus, Sum2D6Target::TenPlus)
                } else {
                    RequestedRoll::Sum2D6ThreeOutcomes(Sum2D6Target::EightPlus, Sum2D6Target::TenPlus)
                }
            },
            injury_outcome_of(input) matches Some(o) ==> {
                &&& match injury_place(o, old(self).crowd) {
                    Some(place) => final(game_state).unfielded(&*old(game_state), old(self).id, place),
                    None => {
                        &&& final(game_state).players_edited_in_place(&*old(game_state))
                        &&& final(game_state).fielded() == old(game_state).fielded().update(
                            old(self).id as int,
                            Some(
                                FieldedPlayer {
                                    status: PlayerStatus::Stunned,
                                    ..old(game_state).fielded()[old(self).id as int]->0
                                },
                            ),
                        )
                    },
                }
                &&& finishes_with(
                    r,
                    if reports_ejection(input) {
                        seq![
                            AnyProc::Ejection(
                                Ejection { id: old(self).fouler->0, foul: true, state: EjectionState::Init },
                            ),
                        ]
                    } else {
                        Seq::empty()
                    },
                )
            },
    {
        let mut procs: Vec<AnyProc> = Vec::new();
        let injury_outcome = match input {
            ProcInput::Nothing => {
                if self.fouler.is_some() {
                    return ProcState::NeedRoll(
                        RequestedRoll::FoulInjury(Sum2D6Target::EightPlus, Sum2D6Target::TenPlus),
                    );
                }
                return ProcState::NeedRoll(
                    RequestedRoll::Sum2D6ThreeOutcomes(Sum2D6Target::EightPlus, Sum2D6Target::TenPlus),
                );
            },
            ProcInput::Roll(RollResult::FoulInjury { outcome, ejected }) => {
                if ejected {
                    procs.push(Ejection::new_foul(self.fouler.unwrap()));
                }
                outcome
            },
            ProcInput::Roll(RollResult::Fail) => InjuryOutcome::Stunned,
            ProcInput::Roll(RollResult::MiddleOutcome) => InjuryOutcome::KO,
            ProcInput::Roll(RollResult::Pass) => InjuryOutcome::Casualty,
            _ => {
                proof {
                    assert(false);
                }
                InjuryOutcome::Stunned
            },
        };
        let dugout_place = match injury_outcome {
            InjuryOutcome::Casualty => Some(DugoutPlace::Injuried),
            InjuryOutcome::KO => Some(DugoutPlace::KnockOut),
            InjuryOutcome::Stunned => {
                if self.crowd {
                    Some(DugoutPlace::Reserves)
                } else {
                    let ghost before = *game_state;
                    proof {
                        before.lemma_slots();
                    }
                    game_state.get_mut_player_unsafe(self.id).status = PlayerStatus::Stunned;
                    proof {
                        game_state.lemma_edit_in_place_keeps_wf(&before);
                    }
                    None
                }
            },
        };
        match dugout_place {
            Some(place) => {
                let _ = game_state.unfield_player(self.id, place);
            },
            None => {},
        }
        let r = ProcState::from(procs);
        assert(finishes_with(r, procs@));
        r
    }
}

/// What a broken or an unbroken armour leads to: a foul's fouler may be sent off, and a
/// broken armour calls for the injury roll, one that also checks the fouler when the
/// armour roll did not already send it off.
pub open spec fn armor_follow_ups(armor: Armor, input: ProcInput) -> Seq<AnyProc> {
    let injury = |fouler: Option<PlayerID>| AnyProc::Injury(Injury { id: armor.id, crowd: false, fouler });
    match input {
        ProcInput::Roll(RollResult::FoulArmor { broken, ejected }) => {
            let fouler = (armor.foul_target->0).0;
            if ejected {
                seq![AnyProc::Ejection(Ejection { id: fouler, foul: true, state: EjectionState::Init })] + if broken {
                    seq![injury(None)]
                } else {
                    Seq::empty()
                }
            } else if broken {
                seq![injury(Some(fouler))]
            } else {
                Seq::empty()
            }
        },
        ProcInput::Roll(RollResult::Pass) => seq![injury(None)],
        _ => Seq::empty(),
    }
}

/// The inputs the armour procedure takes.
pub open spec fn armor_accepts(armor: Armor, input: ProcInput) -> bool {
    match input {
        ProcInput::Nothing => true,
        ProcInput::Roll(RollResult::FoulArmor { .. }) => armor.foul_target is Some,
        ProcInput::Roll(RollResult::Pass) => true,
        ProcInput::Roll(RollResult::Fail) => true,
        _ => false,
    }
}

impl Armor {

    /// The inputs `step` takes in `gs`.
    pub open spec fn step_accepts(self, gs: GameState, input: ProcInput) -> bool {
        &&& (gs.wf())
        &&& (armor_accepts(self, input))
        &&& (input is Nothing && self.foul_target is None ==> {
            &&& gs.is_fielded(self.id as int)
            &&& 1 <= gs.fielded()[self.id as int]->0.stats.av <= 11
        })
    }

    /// `after`, `gs2` and `r` are what `step` makes of `self` in `gs` with `input`.
    pub open spec fn step_done(self, after: Self, gs: GameState, gs2: GameState, input: ProcInput, r: ProcState) -> bool {
        &&& (after == self)
        &&& (gs2 == gs)
        &&& (input is Nothing ==> match self.foul_target {
            Some((_, target)) => r matches ProcState::NeedRoll(roll) && roll == RequestedRoll::FoulArmor(target),
            None => r matches ProcState::NeedRoll(RequestedRoll::Sum2D6PassFail(t)) && t.spec_value()
                == gs.fielded()[self.id as int]->0.stats.av + 1,
        })
        &&& (!(input is Nothing) ==> finishes_with(r, armor_follow_ups(self, input)))
    }

    /// Ask for the armour roll (a foul's own roll, or the player's armour value plus one),
    /// then start what the roll leads to.
    pub fn step(&mut self, game_state: &mut GameState, input: ProcInput) -> (r: ProcState)
        requires
            old(game_state).wf(),
            armor_accepts(*old(self), input),
            input is Nothing && old(self).foul_target is None ==> {
                &&& old(game_state).is_fielded(old(self).id as int)
                &&& 1 <= old(game_state).fielded()[old(self).id as int]->0.stats.av <= 11
            },
        ensures
            *final(self) == *old(self),
            *final(game_state) == *old(game_state),
            input is Nothing ==> match old(self).foul_target {
                Some((_, target)) => r matches ProcState::NeedRoll(roll) && roll == RequestedRoll::FoulArmor(target),
                None => r matches ProcState::NeedRoll(RequestedRoll::Sum2D6PassFail(t)) && t.spec_value()
                    == old(game_state).fielded()[old(self).id as int]->0.stats.av + 1,
            },
            !(input is Nothing) ==> finishes_with(r, armor_follow_ups(*old(self), input)),
    {
        let mut procs: Vec<AnyProc> = Vec::new();
        let mut injury_proc = Injury::new_pure(self.id);
        let armor_broken = match input {
            ProcInput::Nothing => {
                match self.foul_target {
                    Some((_, target)) => {
                        return ProcState::NeedRoll(RequestedRoll::FoulArmor(target));
                    },
                    None => {
                        let target = game_state.get_player_unsafe(self.id).armor_target();
                        return ProcState::NeedRoll(RequestedRoll::Sum2D6PassFail(target));
                    },
                }
            },
            ProcInput::Roll(RollResult::FoulArmor { broken, ejected }) => {
                let fouler = self.foul_target.unwrap().0;
                if ejected {
                    procs.push(Ejection::new_foul(fouler));
                } else if broken {
                    injury_proc.fouler = Some(fouler);
                }
                broken
            },
            ProcInput::Roll(RollResult::Pass) => true,
            ProcInput::Roll(RollResult::Fail) => false,
            _ => {
                proof {
                    assert(false);
                }
                false
            },
        };
        if armor_broken {
            procs.push(AnyProc::Injury(injury_proc));
        }
        let r = ProcState::from(procs);
        proof {
            assert(procs@ =~= armor_follow_ups(*old(self), input));
        }
        r
    }
}

} // verus!
