use vstd::prelude::*;

use crate::actions::{offer_positional, offers_only, offers_simple_only, AvailableActions};
use crate::board::BoardDims;
use crate::dice::{BlockDice, RequestedRoll, RollResult};
use crate::gamestate::GameInfo;
use crate::model::{spec_other_team, other_team, Action, TeamType};
use crate::pitch::in_pitch;
use crate::table::{PosAT, SimpleAT, Skill};
use crate::gamestate::{GameState, FIELD_SLOTS};
use crate::model::{BallState, PlayerID, PlayerStatus, Position, ProcInput};
use crate::player::{FieldedPlayer, TeamState};
use crate::procedures::any_proc::AnyProc;
use crate::procedures::ball_procs::{Bounce, ThrowIn};
use crate::procedures::casualty_procs::{Armor, Injury};
use crate::procedures::procedure_tools::{finishes_with, ProcState};
use crate::table::NumBlockDices;

verus! {

#[derive(Clone, Debug, PartialEq, Eq, Hash)]
pub struct Push {
    pub from: Position,
    pub on: Position,
    pub knockdown_proc: Option<KnockDown>,
    pub moves_to_make: Vec<(Position, Position)>,
    pub follow_up_pos: Position,
}

impl Push {
    pub fn new(from: Position, on: Position) -> (r: AnyProc)
        ensures
            r matches AnyProc::Push(p) && p.from == from && p.on == on && p.knockdown_proc is None
                && p.moves_to_make@.len() == 0 && p.follow_up_pos == on,
    {
        AnyProc::Push(Push::new_pure(from, on))
    }

    pub fn new_pure(from: Position, on: Position) -> (r: Push)
        ensures
            r.from == from,
            r.on == on,
            r.knockdown_proc is None,
            r.moves_to_make@.len() == 0,
            r.follow_up_pos == on,
    {
        Push {
            from,
            on,
            moves_to_make: Vec::with_capacity(1),
            knockdown_proc: None,
            follow_up_pos: on,
        }
    }
}

#[derive(Clone, Debug, PartialEq, Eq, Structural, Hash)]
pub struct FollowUp {
    pub to: Position,
}

impl FollowUp {
    pub fn new(to: Position) -> (r: AnyProc)
        ensures
            r == AnyProc::FollowUp(FollowUp { to }),
    {
        AnyProc::FollowUp(FollowUp { to })
    }
}

#[derive(Clone, Debug, PartialEq, Eq, Structural, Hash)]
pub struct KnockDown {
    pub id: Option<PlayerID>,
    pub second_id: Option<PlayerID>,
}

impl KnockDown {
    pub fn new(id: PlayerID) -> (r: AnyProc)
        ensures
            r == AnyProc::KnockDown(KnockDown { id: Some(id), second_id: None }),
    {
        AnyProc::KnockDown(KnockDown { id: Some(id), second_id: None })
    }

    pub fn new_pure(id: PlayerID) -> (r: KnockDown)
        ensures
            r == (KnockDown { id: Some(id), second_id: None }),
    {
        KnockDown { id: Some(id), second_id: None }
    }

    pub fn new_empty() -> (r: AnyProc)
        ensures
            r == AnyProc::KnockDown(KnockDown { id: None, second_id: None }),
    {
        AnyProc::KnockDown(KnockDown { id: None, second_id: None })
    }
}

#[derive(Clone, Debug, PartialEq, Eq, Structural, Hash)]
pub struct BlockAction {}

impl BlockAction {
    pub fn new() -> (r: AnyProc)
        ensures
            r == AnyProc::BlockAction(BlockAction {  }),
    {
        AnyProc::BlockAction(BlockAction {  })
    }
}

#[derive(Debug, Clone, Copy, PartialEq, Eq, Structural, Hash)]
pub enum BlockProcState {
    Init,
    SelectDice,
    SelectDiceOrReroll,
    UphillSelectReroll,
}

#[derive(Clone, Debug, PartialEq, Eq, Hash)]
pub struct Block {
    pub dices: NumBlockDices,
    pub defender: PlayerID,
    pub state: BlockProcState,
    pub roll: [Option<BlockDice>; 3],
    pub is_uphill: bool,
}

impl Block {
    /// A block with the dice count already worked out; uphill counts let the defender pick.
    pub fn new(dices: NumBlockDices, defender: PlayerID) -> (r: AnyProc)
        ensures
            r == AnyProc::Block(
                Block {
                    dices,
                    defender,
                    state: BlockProcState::Init,
                    roll: [None, None, None],
                    is_uphill: dices == NumBlockDices::TwoUphill || dices == NumBlockDices::ThreeUphill,
                },
            ),
    {
        let is_uphill = match dices {
            NumBlockDices::TwoUphill | NumBlockDices::ThreeUphill => true,
            _ => false,
        };
        let roll: [Option<BlockDice>; 3] = [None, None, None];
        proof {
            let expected: [Option<BlockDice>; 3] = [None, None, None];
            assert(roll@ =~= expected@);
            vstd::array::axiom_array_ext_equal(roll, expected);
        }
        AnyProc::Block(Block { dices, defender, state: BlockProcState::Init, roll, is_uphill })
    }

    pub fn defender(&self) -> (r: PlayerID)
        ensures
            r == self.defender,
    {
        self.defender
    }

    pub fn num_dices(&self) -> (r: NumBlockDices)
        ensures
            r == self.dices,
    {
        self.dices
    }
}

/// A player knocked down: lying down, and done for the turn.
pub open spec fn downed(p: FieldedPlayer) -> FieldedPlayer {
    FieldedPlayer { status: PlayerStatus::Down, used: true, ..p }
}

/// The players a knock-down names, in order.
pub open spec fn knocked_ids(kd: KnockDown) -> Seq<PlayerID> {
    (if kd.id is Some { seq![kd.id->0] } else { Seq::empty() }) + (if kd.second_id is Some {
        seq![kd.second_id->0]
    } else {
        Seq::empty()
    })
}

/// The armour rolls a knock-down starts: one for each named player still on the pitch.
pub open spec fn knockdown_armor_rolls(kd: KnockDown, gs: GameState) -> Seq<AnyProc> {
    knocked_ids(kd).filter(|id: PlayerID| gs.is_fielded(id as int)).map_values(
        |id: PlayerID| AnyProc::Armor(Armor { id, foul_target: None }),
    )
}

/// The ball is carried by one of the knocked-down players.
pub open spec fn knockdown_drops_ball(kd: KnockDown, gs: GameState) -> bool {
    gs.spec_ball() matches BallState::Carried(c) && knocked_ids(kd).contains(c) && gs.is_fielded(c as int)
}

/// Knock `id` down if it is still on the pitch; a carried ball goes up in the air from its
/// square. Answers whether it was knocked down and whether it dropped the ball.
fn knock_down_player(game_state: &mut GameState, id: PlayerID) -> (r: (bool, bool))
    requires
        old(game_state).wf(),
        id < FIELD_SLOTS,
    ensures
        final(game_state).wf(),
        r.0 == old(game_state).is_fielded(id as int),
        r.1 == (r.0 && old(game_state).spec_ball() == BallState::Carried(id)),
        final(game_state).fielded() == if r.0 {
            old(game_state).fielded().update(id as int, Some(downed(old(game_state).fielded()[id as int]->0)))
        } else {
            old(game_state).fielded()
        },
        final(game_state).dugout() == old(game_state).dugout(),
        final(game_state).same_board(&*old(game_state)),
        final(game_state).spec_info() == old(game_state).spec_info(),
        final(game_state).same_but_players_info_and_ball(&*old(game_state)),
        r.1 ==> {
            &&& final(game_state).spec_ball() == BallState::InAir(old(game_state).fielded()[id as int]->0.position)
            &&& final(game_state).spec_bounce_squares() == old(game_state).spec_bounce_squares().push(
                old(game_state).fielded()[id as int]->0.position,
            )
        },
        !r.1 ==> {
            &&& final(game_state).spec_ball() == old(game_state).spec_ball()
            &&& final(game_state).spec_bounce_squares() == old(game_state).spec_bounce_squares()
        },
{
    let ghost before = *game_state;
    proof {
        before.lemma_slots();
    }
    let player_position = match game_state.get_mut_player(id) {
        Ok(player) => {
            player.status = PlayerStatus::Down;
            player.used = true;
            player.position
        },
        Err(_) => {
            proof {
                game_state.lemma_edit_in_place_keeps_wf(&before);
            }
            return (false, false);
        },
    };
    proof {
        game_state.lemma_edit_in_place_keeps_wf(&before);
    }
    let carried = match game_state.ball() {
        BallState::Carried(carrier_id) => carrier_id == id,
        _ => false,
    };
    if carried {
        game_state.set_ball(BallState::InAir(player_position));
        (true, true)
    } else {
        (true, false)
    }
}

impl KnockDown {

    /// The inputs `step` takes in `gs`.
    pub open spec fn step_accepts(self, gs: GameState, input: ProcInput) -> bool {
        &&& (gs.wf())
        &&& (self.id matches Some(i) ==> i < FIELD_SLOTS)
        &&& (self.second_id matches Some(i) ==> i < FIELD_SLOTS)
    }

    /// `after`, `gs2` and `r` are what `step` makes of `self` in `gs` with `input`.
    pub open spec fn step_done(self, after: Self, gs: GameState, gs2: GameState, input: ProcInput, r: ProcState) -> bool {
        &&& (after == self)
        &&& (gs2.wf())
        &&& (gs2.dugout() == gs.dugout())
        &&& (gs2.same_board(&gs))
        &&& (gs2.spec_info() == gs.spec_info())
        &&& (gs2.same_but_players_info_and_ball(&gs))
        &&& (gs2.fielded().len() == gs.fielded().len())
        &&& (forall|j: int|
            0 <= j < gs.fielded().len() ==> #[trigger] gs2.fielded()[j] == if knocked_ids(
                self,
            ).contains(j as PlayerID) && gs.fielded()[j] is Some {
                Some(downed(gs.fielded()[j]->0))
            } else {
                gs.fielded()[j]
            })
        &&& (knockdown_drops_ball(self, gs) ==> {
            let c = gs.spec_ball()->Carried_0;
            &&& gs2.spec_ball() == BallState::InAir(gs.fielded()[c as int]->0.position)
            &&& gs2.spec_bounce_squares() == gs.spec_bounce_squares().push(
                gs.fielded()[c as int]->0.position,
            )
        })
        &&& (!knockdown_drops_ball(self, gs) ==> {
            &&& gs2.spec_ball() == gs.spec_ball()
            &&& gs2.spec_bounce_squares() == gs.spec_bounce_squares()
        })
        &&& (finishes_with(
            r,
            (if knockdown_drops_ball(self, gs) {
                seq![AnyProc::Bounce(Bounce { kick: false })]
            } else {
                Seq::empty()
            }) + knockdown_armor_rolls(self, gs),
        ))
    }

    /// Knock down the named players still on the pitch; a dropped ball bounces after their
    /// armour rolls.
    pub fn step(&mut self, game_state: &mut GameState, input: ProcInput) -> (r: ProcState)
        requires
            old(game_state).wf(),
            old(self).id matches Some(i) ==> i < FIELD_SLOTS,
            old(self).second_id matches Some(i) ==> i < FIELD_SLOTS,
        ensures
            *final(self) == *old(self),
            final(game_state).wf(),
            final(game_state).dugout() == old(game_state).dugout(),
            final(game_state).same_board(&*old(game_state)),
            final(game_state).spec_info() == old(game_state).spec_info(),
            final(game_state).same_but_players_info_and_ball(&*old(game_state)),
            final(game_state).fielded().len() == old(game_state).fielded().len(),
            forall|j: int|
                0 <= j < old(game_state).fielded().len() ==> #[trigger] final(game_state).fielded()[j] == if knocked_ids(
                    *old(self),
                ).contains(j as PlayerID) && old(game_state).fielded()[j] is Some {
                    Some(downed(old(game_state).fielded()[j]->0))
                } else {
                    old(game_state).fielded()[j]
                },
            knockdown_drops_ball(*old(self), *old(game_state)) ==> {
                let c = old(game_state).spec_ball()->Carried_0;
                &&& final(game_state).spec_ball() == BallState::InAir(old(game_state).fielded()[c as int]->0.position)
                &&& final(game_state).spec_bounce_squares() == old(game_state).spec_bounce_squares().push(
                    old(game_state).fielded()[c as int]->0.position,
                )
            },
            !knockdown_drops_ball(*old(self), *old(game_state)) ==> {
                &&& final(game_state).spec_ball() == old(game_state).spec_ball()
                &&& final(game_state).spec_bounce_squares() == old(game_state).spec_bounce_squares()
            },
            finishes_with(
                r,
                (if knockdown_drops_ball(*old(self), *old(game_state)) {
                    seq![AnyProc::Bounce(Bounce { kick: false })]
                } else {
                    Seq::empty()
                }) + knockdown_armor_rolls(*old(self), *old(game_state)),
            ),
    {
        let ghost before = *game_state;
        proof {
            before.lemma_slots();
        }
        let (k1, air1) = match self.id {
            Some(id) => knock_down_player(game_state, id),
            None => (false, false),
        };
        let ghost mid = *game_state;
        proof {
            mid.lemma_slots();
        }
        let (k2, air2) = match self.second_id {
            Some(id) => knock_down_player(game_state, id),
            None => (false, false),
        };
        let mut procs: Vec<AnyProc> = Vec::new();
        if air1 || air2 {
            procs.push(Bounce::new());
        }
        if k1 {
            procs.push(Armor::new(self.id.unwrap()));
        }
        if k2 {
            procs.push(Armor::new(self.second_id.unwrap()));
        }
        proof {
            let kd = *self;
            let ids = knocked_ids(kd);
            let f = |id: PlayerID| before.is_fielded(id as int);
            reveal_with_fuel(Seq::filter, 3);
            let mut expected: Seq<PlayerID> = Seq::empty();
            if kd.id is Some {
                if k1 {
                    expected = expected.push(kd.id->0);
                }
            }
            if kd.second_id is Some {
                if k2 {
                    expected = expected.push(kd.second_id->0);
                }
            }
            if kd.id is Some && kd.second_id is Some {
                assert(ids =~= seq![kd.id->0, kd.second_id->0]);
                assert(ids.drop_last() =~= seq![kd.id->0]);
                assert(ids.drop_last().drop_last() =~= Seq::<PlayerID>::empty());
            } else if kd.id is Some {
                assert(ids =~= seq![kd.id->0]);
                assert(ids.drop_last() =~= Seq::<PlayerID>::empty());
            } else if kd.second_id is Some {
                assert(ids =~= seq![kd.second_id->0]);
                assert(ids.drop_last() =~= Seq::<PlayerID>::empty());
            } else {
                assert(ids =~= Seq::<PlayerID>::empty());
            }
            assert(ids.filter(f) =~= expected);
            assert(knockdown_drops_ball(kd, before) == (air1 || air2));
            let lead: Seq<AnyProc> = if air1 || air2 {
                seq![AnyProc::Bounce(Bounce { kick: false })]
            } else {
                Seq::empty()
            };
            assert(procs@ =~= lead + expected.map_values(
                |id: PlayerID| AnyProc::Armor(Armor { id, foul_target: None }),
            ));
        }
        let r = ProcState::from(procs);
        r
    }
}

impl FollowUp {

    /// The inputs `step` takes in `gs`.
    pub open spec fn step_accepts(self, gs: GameState, input: ProcInput) -> bool {
        &&& (gs.wf())
        &&& (gs.spec_info().active_player matches Some(a) && gs.is_fielded(a as int))
        &&& (in_pitch(self.to.x as int, self.to.y as int))
        &&& (input is Nothing || input matches ProcInput::Action(Action::Positional(PosAT::FollowUp, _)))
        &&& (input matches ProcInput::Action(Action::Positional(_, pos)) ==> {
            let a = gs.fielded()[gs.spec_info().active_player->0 as int]->0;
            &&& in_pitch(pos.x as int, pos.y as int)
            &&& pos != a.position ==> gs.board_at(pos.x as int, pos.y as int) is None
        })
    }

    /// `after`, `gs2` and `r` are what `step` makes of `self` in `gs` with `input`.
    pub open spec fn step_done(self, after: Self, gs: GameState, gs2: GameState, input: ProcInput, r: ProcState) -> bool {
        &&& (after == self)
        &&& (gs2.wf())
        &&& (({
            let id = gs.spec_info().active_player->0;
            let a = gs.fielded()[id as int]->0;
            match input {
                ProcInput::Action(Action::Positional(_, pos)) => {
                    &&& r is Done
                    &&& pos == a.position ==> gs2 == gs
                    &&& pos != a.position ==> {
                        &&& gs2.same_but_players_and_info(&gs)
                        &&& gs2.dugout() == gs.dugout()
                        &&& gs2.fielded() == gs.fielded().update(
                            id as int,
                            Some(FieldedPlayer { position: pos, ..a }),
                        )
                        &&& gs2.board_at(pos.x as int, pos.y as int) == Some(id)
                        &&& gs2.board_at(a.position.x as int, a.position.y as int) is None
                        &&& forall|x: int, y: int|
                            in_pitch(x, y) && !(x == pos.x && y == pos.y) && !(x == a.position.x
                                && y == a.position.y)
                                ==> #[trigger] gs2.board_at(x, y) == gs.board_at(x, y)
                        &&& gs2.spec_info() == if gs.spec_ball()
                            == BallState::Carried(id) && pos.x == gs.spec_dims().spec_endzone_x(
                            a.stats.team,
                        ) {
                            GameInfo { handle_td_by: Some(id), ..gs.spec_info() }
                        } else {
                            gs.spec_info()
                        }
                    }
                },
                _ => {
                    &&& gs2 == gs
                    &&& r matches ProcState::NeedAction(aa) && offers_only(
                        *aa,
                        a.stats.team,
                        PosAT::FollowUp,
                        seq![a.position, self.to],
                    )
                },
            }
        }))
    }

    /// The active player may follow the pushed player into the square it left: offer both
    /// squares, then move there if chosen. A carrier who follows into the opposing endzone
    /// scores.
    pub fn step(&mut self, game_state: &mut GameState, input: ProcInput) -> (r: ProcState)
        requires
            old(game_state).wf(),
            old(game_state).spec_info().active_player matches Some(a) && old(game_state).is_fielded(a as int),
            in_pitch(old(self).to.x as int, old(self).to.y as int),
            input is Nothing || input matches ProcInput::Action(Action::Positional(PosAT::FollowUp, _)),
            input matches ProcInput::Action(Action::Positional(_, pos)) ==> {
                let a = old(game_state).fielded()[old(game_state).spec_info().active_player->0 as int]->0;
                &&& in_pitch(pos.x as int, pos.y as int)
                &&& pos != a.position ==> old(game_state).board_at(pos.x as int, pos.y as int) is None
            },
        ensures
            *final(self) == *old(self),
            final(game_state).wf(),
            ({
                let id = old(game_state).spec_info().active_player->0;
                let a = old(game_state).fielded()[id as int]->0;
                match input {
                    ProcInput::Action(Action::Positional(_, pos)) => {
                        &&& r is Done
                        &&& pos == a.position ==> *final(game_state) == *old(game_state)
                        &&& pos != a.position ==> {
                            &&& final(game_state).same_but_players_and_info(&*old(game_state))
                            &&& final(game_state).dugout() == old(game_state).dugout()
                            &&& final(game_state).fielded() == old(game_state).fielded().update(
                                id as int,
                                Some(FieldedPlayer { position: pos, ..a }),
                            )
                            &&& final(game_state).board_at(pos.x as int, pos.y as int) == Some(id)
                            &&& final(game_state).board_at(a.position.x as int, a.position.y as int) is None
                            &&& forall|x: int, y: int|
                                in_pitch(x, y) && !(x == pos.x && y == pos.y) && !(x == a.position.x
                                    && y == a.position.y)
                                    ==> #[trigger] final(game_state).board_at(x, y) == old(game_state).board_at(x, y)
                            &&& final(game_state).spec_info() == if old(game_state).spec_ball()
                                == BallState::Carried(id) && pos.x == old(game_state).spec_dims().spec_endzone_x(
                                a.stats.team,
                            ) {
                                GameInfo { handle_td_by: Some(id), ..old(game_state).spec_info() }
                            } else {
                                old(game_state).spec_info()
                            }
                        }
                    },
                    _ => {
                        &&& *final(game_state) == *old(game_state)
                        &&& r matches ProcState::NeedAction(aa) && offers_only(
                            *aa,
                            a.stats.team,
                            PosAT::FollowUp,
                            seq![a.position, old(self).to],
                        )
                    },
                }
            }),
    {
        proof {
            old(game_state).lemma_board_agrees();
        }
        let player = *game_state.get_active_player().unwrap();
        match input {
            ProcInput::Action(Action::Positional(_, position)) => {
                if player.position != position {
                    let id = player.id;
                    let team = player.stats.team;
                    let _ = game_state.move_player(id, position);
                    let scores = match game_state.ball() {
                        BallState::Carried(carrier_id) => carrier_id == id,
                        _ => false,
                    };
                    let ghost moved = *game_state;
                    if scores && game_state.get_endzone_x(team) == position.x {
                        game_state.info_mut().handle_td_by = Some(id);
                    }
                    assert forall|x: int, y: int| #[trigger] game_state.board_at(x, y) == moved.board_at(x, y) by {}
                }
                ProcState::Done
            },
            _ => {
                let mut squares: Vec<Position> = Vec::new();
                squares.push(player.position);
                squares.push(self.to);
                assert(squares@ =~= seq![player.position, self.to]);
                ProcState::NeedAction(offer_positional(player.stats.team, PosAT::FollowUp, squares))
            },
        }
    }
}

/// The action that picks a block-dice face.
pub open spec fn face_action(d: BlockDice) -> SimpleAT {
    match d {
        BlockDice::Skull => SimpleAT::SelectSkull,
        BlockDice::BothDown => SimpleAT::SelectBothDown,
        BlockDice::Push => SimpleAT::SelectPush,
        BlockDice::PowPush => SimpleAT::SelectPowPush,
        BlockDice::Pow => SimpleAT::SelectPow,
    }
}

pub open spec fn face_choice(d: Option<BlockDice>) -> Set<SimpleAT> {
    match d {
        Some(f) => set![face_action(f)],
        None => Set::empty(),
    }
}

/// The faces of a block roll, as the actions that pick them.
pub open spec fn roll_choices(roll: [Option<BlockDice>; 3]) -> Set<SimpleAT> {
    face_choice(roll[0]).union(face_choice(roll[1])).union(face_choice(roll[2]))
}

/// Who decides after a block roll and among what, for the attacker's team `team`.
pub open spec fn block_offer(b: Block, team: TeamType) -> (TeamType, Set<SimpleAT>) {
    match b.state {
        BlockProcState::SelectDice => (if b.is_uphill { spec_other_team(team) } else { team }, roll_choices(b.roll)),
        BlockProcState::SelectDiceOrReroll => (team, roll_choices(b.roll).insert(SimpleAT::UseReroll)),
        _ => (team, set![SimpleAT::UseReroll, SimpleAT::DontUseReroll]),
    }
}

/// The block dice faces a player can pick.
pub open spec fn is_face_choice(a: SimpleAT) -> bool {
    a == SimpleAT::SelectBothDown || a == SimpleAT::SelectPow || a == SimpleAT::SelectPush || a
        == SimpleAT::SelectPowPush || a == SimpleAT::SelectSkull
}

/// Who a picked face knocks down: the defender in `id`, the attacker in `second_id`. Block
/// saves either from both down, Dodge saves the defender from a pow-push.
pub open spec fn face_knockdown(
    a: SimpleAT,
    attacker: FieldedPlayer,
    defender: FieldedPlayer,
) -> KnockDown {
    if a == SimpleAT::SelectBothDown {
        KnockDown {
            id: if defender.stats.skills@.contains(Skill::Block) { None } else { Some(defender.id) },
            second_id: if attacker.stats.skills@.contains(Skill::Block) { None } else { Some(attacker.id) },
        }
    } else if a == SimpleAT::SelectPow {
        KnockDown { id: Some(defender.id), second_id: None }
    } else if a == SimpleAT::SelectPowPush {
        KnockDown { id: if defender.stats.skills@.contains(Skill::Dodge) { None } else { Some(defender.id) }, second_id: None }
    } else if a == SimpleAT::SelectSkull {
        KnockDown { id: None, second_id: Some(attacker.id) }
    } else {
        KnockDown { id: None, second_id: None }
    }
}

/// The picked face pushes the defender back.
pub open spec fn face_pushes(a: SimpleAT) -> bool {
    a == SimpleAT::SelectPow || a == SimpleAT::SelectPush || a == SimpleAT::SelectPowPush
}

impl Block {
    fn add_choices(&self, aa: &mut Box<AvailableActions>)
        requires
            old(aa).spec_team() is Some,
        ensures
            final(aa).spec_team() == old(aa).spec_team(),
            final(aa).simple_set() == old(aa).simple_set().union(roll_choices(self.roll)),
            final(aa).has_positional() == old(aa).has_positional(),
            forall|x: int, y: int| #[trigger] final(aa).offered(x, y) == old(aa).offered(x, y),
            final(aa).spec_has_paths() == old(aa).spec_has_paths(),
            final(aa).wf() == old(aa).wf(),
    {
        let mut i: usize = 0;
        while i < 3
            invariant
                i <= 3,
                old(aa).spec_team() is Some,
                aa.spec_team() == old(aa).spec_team(),
                aa.simple_set() == old(aa).simple_set().union(
                    if i == 0 {
                        Set::empty()
                    } else if i == 1 {
                        face_choice(self.roll[0])
                    } else if i == 2 {
                        face_choice(self.roll[0]).union(face_choice(self.roll[1]))
                    } else {
                        roll_choices(self.roll)
                    },
                ),
                aa.has_positional() == old(aa).has_positional(),
                forall|x: int, y: int| #[trigger] aa.offered(x, y) == old(aa).offered(x, y),
                aa.spec_has_paths() == old(aa).spec_has_paths(),
                aa.wf() == old(aa).wf(),
            decreases 3 - i,
        {
            match self.roll[i] {
                Some(d) => {
                    aa.insert_simple(d.to_action());
                },
                None => {},
            }
            i += 1;
            proof {
                assert(aa.simple_set() =~= old(aa).simple_set().union(
                    if i == 1 {
                        face_choice(self.roll[0])
                    } else if i == 2 {
                        face_choice(self.roll[0]).union(face_choice(self.roll[1]))
                    } else {
                        roll_choices(self.roll)
                    },
                ));
            }
        }
    }

    /// The decision after a block roll, for the attacker's team `team`.
    fn available_actions(&self, team: TeamType) -> (r: Box<AvailableActions>)
        requires
            self.state != BlockProcState::Init,
        ensures
            offers_simple_only(*r, block_offer(*self, team).0, block_offer(*self, team).1),
    {
        match self.state {
            BlockProcState::SelectDice => {
                let t = if self.is_uphill { other_team(team) } else { team };
                let mut aa = AvailableActions::new(t);
                self.add_choices(&mut aa);
                assert(aa.simple_set() =~= roll_choices(self.roll));
                aa
            },
            BlockProcState::SelectDiceOrReroll => {
                let mut aa = AvailableActions::new(team);
                self.add_choices(&mut aa);
                aa.insert_simple(SimpleAT::UseReroll);
                assert(aa.simple_set() =~= roll_choices(self.roll).insert(SimpleAT::UseReroll));
                aa
            },
            _ => {
                let mut aa = AvailableActions::new(team);
                aa.insert_simple(SimpleAT::UseReroll);
                aa.insert_simple(SimpleAT::DontUseReroll);
                assert(aa.simple_set() =~= set![SimpleAT::UseReroll, SimpleAT::DontUseReroll]);
                aa
            },
        }
    }
}

/// The turn information and the players after the blitz bookkeeping that opens a block's
/// step: a blitzer's block costs a square of movement and ends the blitz.
pub open spec fn blitz_info(gs: GameState) -> GameInfo {
    if gs.spec_info().player_action_type == Some(PosAT::StartBlitz) {
        GameInfo { player_action_type: Some(PosAT::StartMove), ..gs.spec_info() }
    } else {
        gs.spec_info()
    }
}

pub open spec fn blitz_fielded(gs: GameState) -> Seq<Option<FieldedPlayer>> {
    let a = gs.spec_info().active_player->0;
    let p = gs.fielded()[a as int]->0;
    if gs.spec_info().player_action_type == Some(PosAT::StartBlitz) {
        gs.fielded().update(a as int, Some(FieldedPlayer { moves: (p.moves + 1) as u8, ..p }))
    } else {
        gs.fielded()
    }
}


/// A blitzer's block costs a square of movement and ends the blitz.
fn blitz_bookkeeping(game_state: &mut GameState)
    requires
        old(game_state).wf(),
        old(game_state).spec_info().player_action_type == Some(PosAT::StartBlitz) ==> {
            let a = old(game_state).spec_info().active_player;
            &&& a matches Some(i) && old(game_state).is_fielded(i as int)
            &&& old(game_state).fielded()[a->0 as int]->0.moves_in_range()
            &&& old(game_state).fielded()[a->0 as int]->0.spec_total_movement_left() >= 1
        },
    ensures
        final(game_state).wf(),
        final(game_state).fielded() == blitz_fielded(*old(game_state)),
        final(game_state).spec_info() == blitz_info(*old(game_state)),
        final(game_state).dugout() == old(game_state).dugout(),
        final(game_state).same_board(&*old(game_state)),
        final(game_state).same_but_players_info_and_ball(&*old(game_state)),
        final(game_state).spec_ball() == old(game_state).spec_ball(),
        final(game_state).spec_bounce_squares() == old(game_state).spec_bounce_squares(),
        final(game_state).fielded().len() == old(game_state).fielded().len(),
        forall|j: int|
            0 <= j < old(game_state).fielded().len() ==> (#[trigger] final(game_state).fielded()[j] is Some
                <==> old(game_state).fielded()[j] is Some),
        forall|j: int|
            0 <= j < old(game_state).fielded().len() && #[trigger] final(game_state).fielded()[j] is Some ==> {
                &&& final(game_state).fielded()[j]->0.stats == old(game_state).fielded()[j]->0.stats
                &&& final(game_state).fielded()[j]->0.position == old(game_state).fielded()[j]->0.position
            },
{
    proof {
        old(game_state).lemma_slots();
    }
    if game_state.info().player_action_type == Some(PosAT::StartBlitz) {
        game_state.info_mut().player_action_type = Some(PosAT::StartMove);
        let ghost mid = *game_state;
        proof {
            mid.lemma_slots();
        }
        let a = game_state.info().active_player.unwrap();
        game_state.get_mut_player_unsafe(a).add_move(1);
        proof {
            game_state.lemma_edit_in_place_keeps_wf(&mid);
        }
    }
}

/// The inputs a block takes: nothing, its roll, the reroll decision, or a face.
pub open spec fn block_accepts(input: ProcInput) -> bool {
    match input {
        ProcInput::Nothing => true,
        ProcInput::Roll(RollResult::BlockDice(_)) => true,
        ProcInput::Action(Action::Simple(a)) => a == SimpleAT::UseReroll || a == SimpleAT::DontUseReroll
            || is_face_choice(a),
        _ => false,
    }
}

/// The state a block moves to after its roll: a reroll offer when the team has one left.
pub open spec fn state_after_roll(b: Block, can_reroll: bool) -> BlockProcState {
    if can_reroll {
        if b.is_uphill {
            BlockProcState::UphillSelectReroll
        } else {
            BlockProcState::SelectDiceOrReroll
        }
    } else {
        BlockProcState::SelectDice
    }
}

impl Block {

    /// The inputs `step` takes in `gs`.
    pub open spec fn step_accepts(self, gs: GameState, input: ProcInput) -> bool {
        &&& (gs.wf())
        &&& (gs.spec_info().player_action_type is Some)
        &&& (({
            let info = gs.spec_info();
            let blitz = info.player_action_type == Some(PosAT::StartBlitz);
            (blitz || !(input is Nothing)) ==> {
                &&& info.active_player matches Some(a) && gs.is_fielded(a as int)
                &&& blitz ==> {
                    let p = gs.fielded()[info.active_player->0 as int]->0;
                    p.moves_in_range() && p.spec_total_movement_left() >= 1
                }
            }
        }))
        &&& (block_accepts(input))
        &&& (input == ProcInput::Action(Action::Simple(SimpleAT::UseReroll)) ==> gs.spec_team(
            gs.fielded()[gs.spec_info().active_player->0 as int]->0.stats.team,
        ).spec_can_use_reroll())
        &&& (input matches ProcInput::Action(Action::Simple(a)) && is_face_choice(a) ==> gs.is_fielded(self.defender as int))
    }

    /// `after`, `gs2` and `r` are what `step` makes of `self` in `gs` with `input`.
    pub open spec fn step_done(self, after: Self, gs: GameState, gs2: GameState, input: ProcInput, r: ProcState) -> bool {
        &&& (gs2.wf())
        &&& (gs2.dugout() == gs.dugout())
        &&& (gs2.same_board(&gs))
        &&& (gs2.same_machinery(&gs))
        &&& (gs2.spec_ball() == gs.spec_ball())
        &&& (gs2.spec_bounce_squares() == gs.spec_bounce_squares())
        &&& (gs2.fielded() == blitz_fielded(gs))
        &&& (({
            let gs = gs;
            let a = gs.spec_info().active_player->0;
            let team = gs.fielded()[a as int]->0.stats.team;
            match input {
                ProcInput::Nothing => {
                    &&& after == self
                    &&& gs2.spec_info() == blitz_info(gs)
                    &&& gs2.spec_team(TeamType::Home) == gs.spec_team(TeamType::Home)
                    &&& gs2.spec_team(TeamType::Away) == gs.spec_team(TeamType::Away)
                    &&& r == ProcState::NeedRoll(RequestedRoll::BlockDice(self.dices))
                },
                ProcInput::Roll(RollResult::BlockDice(rolls)) => {
                    let b = Block {
                        roll: rolls,
                        state: state_after_roll(self, gs.spec_team(team).spec_can_use_reroll()),
                        ..self
                    };
                    &&& after == b
                    &&& gs2.spec_info() == blitz_info(gs)
                    &&& gs2.spec_team(TeamType::Home) == gs.spec_team(TeamType::Home)
                    &&& gs2.spec_team(TeamType::Away) == gs.spec_team(TeamType::Away)
                    &&& r matches ProcState::NeedAction(aa) && offers_simple_only(
                        *aa,
                        block_offer(b, team).0,
                        block_offer(b, team).1,
                    )
                },
                ProcInput::Action(Action::Simple(SimpleAT::UseReroll)) => {
                    &&& after == self
                    &&& gs2.spec_info() == blitz_info(gs)
                    &&& gs2.spec_team(team) == (TeamState {
                        reroll_used: true,
                        rerolls: (gs.spec_team(team).rerolls - 1) as u8,
                        ..gs.spec_team(team)
                    })
                    &&& gs2.spec_team(spec_other_team(team)) == gs.spec_team(spec_other_team(team))
                    &&& r == ProcState::NeedRoll(RequestedRoll::BlockDice(self.dices))
                },
                ProcInput::Action(Action::Simple(SimpleAT::DontUseReroll)) => {
                    let b = Block { state: BlockProcState::SelectDice, ..self };
                    &&& after == b
                    &&& gs2.spec_info() == blitz_info(gs)
                    &&& gs2.spec_team(TeamType::Home) == gs.spec_team(TeamType::Home)
                    &&& gs2.spec_team(TeamType::Away) == gs.spec_team(TeamType::Away)
                    &&& r matches ProcState::NeedAction(aa) && offers_simple_only(
                        *aa,
                        block_offer(b, team).0,
                        block_offer(b, team).1,
                    )
                },
                ProcInput::Action(Action::Simple(choice)) => {
                    let attacker = blitz_fielded(gs)[a as int]->0;
                    let defender = blitz_fielded(gs)[self.defender as int]->0;
                    let kd = face_knockdown(choice, attacker, defender);
                    let knocks = kd.id is Some || kd.second_id is Some;
                    let n = (if knocks { 1int } else { 0int }) + (if face_pushes(choice) { 1int } else { 0int });
                    &&& after == self
                    &&& gs2.spec_info() == if kd.second_id is Some {
                        GameInfo { turnover: true, ..blitz_info(gs) }
                    } else {
                        blitz_info(gs)
                    }
                    &&& gs2.spec_team(TeamType::Home) == gs.spec_team(TeamType::Home)
                    &&& gs2.spec_team(TeamType::Away) == gs.spec_team(TeamType::Away)
                    &&& n == 0 ==> r is Done
                    &&& n > 0 ==> (r is DoneNewProcs && r->DoneNewProcs_0@.len() == n)
                    &&& knocks ==> r->DoneNewProcs_0@[0] == AnyProc::KnockDown(kd)
                    &&& face_pushes(choice) ==> {
                        &&& r->DoneNewProcs_0@[n - 1] matches AnyProc::Push(p)
                        &&& r->DoneNewProcs_0@[n - 1]->Push_0.from == attacker.position
                        &&& r->DoneNewProcs_0@[n - 1]->Push_0.on == defender.position
                        &&& r->DoneNewProcs_0@[n - 1]->Push_0.follow_up_pos == defender.position
                        &&& r->DoneNewProcs_0@[n - 1]->Push_0.knockdown_proc is None
                        &&& r->DoneNewProcs_0@[n - 1]->Push_0.moves_to_make@.len() == 0
                    }
                },
                _ => false,
            }
        }))
    }

    /// Roll the block dice, offer a reroll when the team has one, let the right coach pick a
    /// face, then start what the face does: knock-downs (the attacker's one a turnover) and
    /// the push.
    #[verifier::rlimit(100)]
    #[verifier::spinoff_prover]
    pub fn step(&mut self, game_state: &mut GameState, input: ProcInput) -> (r: ProcState)
        requires
            old(game_state).wf(),
            old(game_state).spec_info().player_action_type is Some,
            ({
                let info = old(game_state).spec_info();
                let blitz = info.player_action_type == Some(PosAT::StartBlitz);
                (blitz || !(input is Nothing)) ==> {
                    &&& info.active_player matches Some(a) && old(game_state).is_fielded(a as int)
                    &&& blitz ==> {
                        let p = old(game_state).fielded()[info.active_player->0 as int]->0;
                        p.moves_in_range() && p.spec_total_movement_left() >= 1
                    }
                }
            }),
            block_accepts(input),
            input == ProcInput::Action(Action::Simple(SimpleAT::UseReroll)) ==> old(game_state).spec_team(
                old(game_state).fielded()[old(game_state).spec_info().active_player->0 as int]->0.stats.team,
            ).spec_can_use_reroll(),
            input matches ProcInput::Action(Action::Simple(a)) && is_face_choice(a) ==> old(game_state).is_fielded(old(self).defender as int),
        ensures
            final(game_state).wf(),
            final(game_state).dugout() == old(game_state).dugout(),
            final(game_state).same_board(&*old(game_state)),
            final(game_state).same_machinery(&*old(game_state)),
            final(game_state).spec_ball() == old(game_state).spec_ball(),
            final(game_state).spec_bounce_squares() == old(game_state).spec_bounce_squares(),
            final(game_state).fielded() == blitz_fielded(*old(game_state)),
            ({
                let gs = *old(game_state);
                let a = gs.spec_info().active_player->0;
                let team = gs.fielded()[a as int]->0.stats.team;
                match input {
                    ProcInput::Nothing => {
                        &&& *final(self) == *old(self)
                        &&& final(game_state).spec_info() == blitz_info(gs)
                        &&& final(game_state).spec_team(TeamType::Home) == gs.spec_team(TeamType::Home)
                        &&& final(game_state).spec_team(TeamType::Away) == gs.spec_team(TeamType::Away)
                        &&& r == ProcState::NeedRoll(RequestedRoll::BlockDice(old(self).dices))
                    },
                    ProcInput::Roll(RollResult::BlockDice(rolls)) => {
                        let b = Block {
                            roll: rolls,
                            state: state_after_roll(*old(self), gs.spec_team(team).spec_can_use_reroll()),
                            ..*old(self)
                        };
                        &&& *final(self) == b
                        &&& final(game_state).spec_info() == blitz_info(gs)
                        &&& final(game_state).spec_team(TeamType::Home) == gs.spec_team(TeamType::Home)
                        &&& final(game_state).spec_team(TeamType::Away) == gs.spec_team(TeamType::Away)
                        &&& r matches ProcState::NeedAction(aa) && offers_simple_only(
                            *aa,
                            block_offer(b, team).0,
                            block_offer(b, team).1,
                        )
                    },
                    ProcInput::Action(Action::Simple(SimpleAT::UseReroll)) => {
                        &&& *final(self) == *old(self)
                        &&& final(game_state).spec_info() == blitz_info(gs)
                        &&& final(game_state).spec_team(team) == (TeamState {
                            reroll_used: true,
                            rerolls: (gs.spec_team(team).rerolls - 1) as u8,
                            ..gs.spec_team(team)
                        })
                        &&& final(game_state).spec_team(spec_other_team(team)) == gs.spec_team(spec_other_team(team))
                        &&& r == ProcState::NeedRoll(RequestedRoll::BlockDice(old(self).dices))
                    },
                    ProcInput::Action(Action::Simple(SimpleAT::DontUseReroll)) => {
                        let b = Block { state: BlockProcState::SelectDice, ..*old(self) };
                        &&& *final(self) == b
                        &&& final(game_state).spec_info() == blitz_info(gs)
                        &&& final(game_state).spec_team(TeamType::Home) == gs.spec_team(TeamType::Home)
                        &&& final(game_state).spec_team(TeamType::Away) == gs.spec_team(TeamType::Away)
                        &&& r matches ProcState::NeedAction(aa) && offers_simple_only(
                            *aa,
                            block_offer(b, team).0,
                            block_offer(b, team).1,
                        )
                    },
                    ProcInput::Action(Action::Simple(choice)) => {
                        let attacker = blitz_fielded(gs)[a as int]->0;
                        let defender = blitz_fielded(gs)[old(self).defender as int]->0;
                        let kd = face_knockdown(choice, attacker, defender);
                        let knocks = kd.id is Some || kd.second_id is Some;
                        let n = (if knocks { 1int } else { 0int }) + (if face_pushes(choice) { 1int } else { 0int });
                        &&& *final(self) == *old(self)
                        &&& final(game_state).spec_info() == if kd.second_id is Some {
                            GameInfo { turnover: true, ..blitz_info(gs) }
                        } else {
                            blitz_info(gs)
                        }
                        &&& final(game_state).spec_team(TeamType::Home) == gs.spec_team(TeamType::Home)
                        &&& final(game_state).spec_team(TeamType::Away) == gs.spec_team(TeamType::Away)
                        &&& n == 0 ==> r is Done
                        &&& n > 0 ==> (r is DoneNewProcs && r->DoneNewProcs_0@.len() == n)
                        &&& knocks ==> r->DoneNewProcs_0@[0] == AnyProc::KnockDown(kd)
                        &&& face_pushes(choice) ==> {
                            &&& r->DoneNewProcs_0@[n - 1] matches AnyProc::Push(p)
                            &&& r->DoneNewProcs_0@[n - 1]->Push_0.from == attacker.position
                            &&& r->DoneNewProcs_0@[n - 1]->Push_0.on == defender.position
                            &&& r->DoneNewProcs_0@[n - 1]->Push_0.follow_up_pos == defender.position
                            &&& r->DoneNewProcs_0@[n - 1]->Push_0.knockdown_proc is None
                            &&& r->DoneNewProcs_0@[n - 1]->Push_0.moves_to_make@.len() == 0
                        }
                    },
                    _ => false,
                }
            }),
    {
        proof {
            old(game_state).lemma_slots();
        }
        blitz_bookkeeping(game_state);
        match input {
            ProcInput::Nothing => ProcState::NeedRoll(RequestedRoll::BlockDice(self.dices)),
            ProcInput::Roll(RollResult::BlockDice(rolls)) => {
                self.roll = rolls;
                let a = game_state.info().active_player.unwrap();
                assert(game_state.fielded()[a as int] is Some);
                let team = game_state.get_player_unsafe(a).stats.team;
                let reroll_available = game_state.get_team(team).can_use_reroll();
                self.state = if reroll_available {
                    if self.is_uphill {
                        BlockProcState::UphillSelectReroll
                    } else {
                        BlockProcState::SelectDiceOrReroll
                    }
                } else {
                    BlockProcState::SelectDice
                };
                ProcState::NeedAction(self.available_actions(team))
            },
            ProcInput::Action(Action::Simple(SimpleAT::UseReroll)) => {
                let a = game_state.info().active_player.unwrap();
                assert(game_state.fielded()[a as int] is Some);
                let team = game_state.get_player_unsafe(a).stats.team;
                game_state.get_mut_team(team).use_reroll();
                ProcState::NeedRoll(RequestedRoll::BlockDice(self.dices))
            },
            ProcInput::Action(Action::Simple(SimpleAT::DontUseReroll)) => {
                self.state = BlockProcState::SelectDice;
                let a = game_state.info().active_player.unwrap();
                assert(game_state.fielded()[a as int] is Some);
                let team = game_state.get_player_unsafe(a).stats.team;
                ProcState::NeedAction(self.available_actions(team))
            },
            ProcInput::Action(Action::Simple(dice_action_type)) => self.resolve_face(game_state, dice_action_type),
            _ => {
                proof {
                    assert(false);
                }
                ProcState::Done
            },
        }
    }
}

impl Block {
    /// The procedures a picked face starts: the knock-down first, then the push; an attacker
    /// knocked down is a turnover.
    fn resolve_face(&self, game_state: &mut GameState, choice: SimpleAT) -> (r: ProcState)
        requires
            old(game_state).wf(),
            is_face_choice(choice),
            old(game_state).spec_info().active_player matches Some(a) && old(game_state).is_fielded(a as int),
            old(game_state).is_fielded(self.defender as int),
        ensures
            final(game_state).wf(),
            final(game_state).same_but_info(&*old(game_state)),
            ({
                let gs = *old(game_state);
                let a = gs.spec_info().active_player->0;
                let attacker = gs.fielded()[a as int]->0;
                let defender = gs.fielded()[self.defender as int]->0;
                let kd = face_knockdown(choice, attacker, defender);
                let knocks = kd.id is Some || kd.second_id is Some;
                let n = (if knocks { 1int } else { 0int }) + (if face_pushes(choice) { 1int } else { 0int });
                &&& final(game_state).spec_info() == if kd.second_id is Some {
                    GameInfo { turnover: true, ..gs.spec_info() }
                } else {
                    gs.spec_info()
                }
                &&& n == 0 ==> r is Done
                &&& n > 0 ==> (r is DoneNewProcs && r->DoneNewProcs_0@.len() == n)
                &&& knocks ==> r->DoneNewProcs_0@[0] == AnyProc::KnockDown(kd)
                &&& face_pushes(choice) ==> {
                    &&& r->DoneNewProcs_0@[n - 1] matches AnyProc::Push(p)
                    &&& r->DoneNewProcs_0@[n - 1]->Push_0.from == attacker.position
                    &&& r->DoneNewProcs_0@[n - 1]->Push_0.on == defender.position
                    &&& r->DoneNewProcs_0@[n - 1]->Push_0.follow_up_pos == defender.position
                    &&& r->DoneNewProcs_0@[n - 1]->Push_0.knockdown_proc is None
                    &&& r->DoneNewProcs_0@[n - 1]->Push_0.moves_to_make@.len() == 0
                }
            }),
    {
        let attacker_id = game_state.info().active_player.unwrap();
        let attacker = *game_state.get_player_unsafe(attacker_id);
        let defender = *game_state.get_player_unsafe(self.defender);
        proof {
            old(game_state).lemma_board_agrees();
        }
        let mut push = false;
        let mut knockdown_proc = KnockDown { id: None, second_id: None };
        match choice {
            SimpleAT::SelectBothDown => {
                if !attacker.has_skill(Skill::Block) {
                    knockdown_proc.second_id = Some(attacker_id);
                }
                if !defender.has_skill(Skill::Block) {
                    knockdown_proc.id = Some(self.defender);
                }
            },
            SimpleAT::SelectPow => {
                knockdown_proc.id = Some(self.defender);
                push = true;
            },
            SimpleAT::SelectPush => {
                push = true;
            },
            SimpleAT::SelectPowPush => {
                if !defender.has_skill(Skill::Dodge) {
                    knockdown_proc.id = Some(self.defender);
                }
                push = true;
            },
            _ => {
                knockdown_proc.second_id = Some(attacker_id);
            },
        }
        assert(knockdown_proc == face_knockdown(choice, attacker, defender));
        let mut procs: Vec<AnyProc> = Vec::new();
        if knockdown_proc.second_id.is_some() {
            game_state.info_mut().turnover = true;
        }
        if knockdown_proc.id.is_some() || knockdown_proc.second_id.is_some() {
            procs.push(AnyProc::KnockDown(knockdown_proc));
        }
        if push {
            procs.push(Push::new(attacker.position, defender.position));
        }
        ProcState::from(procs)
    }
}

/// The square `(x, y)`.
pub open spec fn square(x: int, y: int) -> Position {
    Position { x: x as i8, y: y as i8 }
}

/// The squares a player on `on` can be pushed to by a player on `from`: the two beside the
/// square straight behind it, then that square itself.
pub open spec fn push_candidates(on: Position, from: Position) -> Seq<Position> {
    let dx = on.x - from.x;
    let dy = on.y - from.y;
    let ox = on.x + dx;
    let oy = on.y + dy;
    if dx == 0 {
        seq![square(ox + 1, oy), square(ox - 1, oy), square(ox, oy)]
    } else if dy == 0 {
        seq![square(ox, oy + 1), square(ox, oy - 1), square(ox, oy)]
    } else {
        seq![square(ox - dx, oy), square(ox, oy - dy), square(ox, oy)]
    }
}

/// A push square is free: on the pitch and empty.
pub open spec fn push_free(gs: GameState) -> spec_fn(Position) -> bool {
    |p: Position| !gs.spec_dims().spec_is_out(p) && gs.board_at(p.x as int, p.y as int) is None
}

/// The last of the candidates that lies off the pitch, if any: the square the pushed player
/// goes into the crowd through, straight behind preferred.
pub open spec fn crowd_square(dims: BoardDims, c: Seq<Position>) -> Option<Position> {
    if dims.spec_is_out(c[2]) {
        Some(c[2])
    } else if dims.spec_is_out(c[1]) {
        Some(c[1])
    } else if dims.spec_is_out(c[0]) {
        Some(c[0])
    } else {
        None
    }
}

/// Where a push can send its victim.
#[derive(Clone, Debug, PartialEq, Eq, Hash)]
pub enum PushSquares {
    /// Into the crowd, through this square.
    Crowd(Position),
    /// Every square is taken: the victim pushes one of these players on in turn.
    ChainPush(Vec<Position>),
    /// Onto one of these free squares.
    FreeSquares(Vec<Position>),
}

/// One player stands next to the other.
pub open spec fn next_to(a: Position, b: Position) -> bool {
    &&& -1 <= a.x - b.x <= 1
    &&& -1 <= a.y - b.y <= 1
    &&& a != b
}

impl Push {
    /// Where the player on `on`, pushed from `from`, can go: the free push squares if there
    /// are any, else into the crowd if a push square is off the pitch, else on into a chain
    /// push.
    pub fn get_push_squares(on: Position, from: Position, game_state: &GameState) -> (r: PushSquares)
        requires
            game_state.wf(),
            in_pitch(on.x as int, on.y as int),
            next_to(on, from),
        ensures
            ({
                let c = push_candidates(on, from);
                let f = c.filter(push_free(*game_state));
                match r {
                    PushSquares::FreeSquares(v) => f.len() > 0 && v@ == f,
                    PushSquares::Crowd(p) => f.len() == 0 && crowd_square(game_state.spec_dims(), c) == Some(p),
                    PushSquares::ChainPush(v) => f.len() == 0 && crowd_square(game_state.spec_dims(), c) is None
                        && v@ == c,
                }
            }),
    {
        proof {
            game_state.lemma_board_agrees();
        }
        let dx = on.x - from.x;
        let dy = on.y - from.y;
        let ox = on.x + dx;
        let oy = on.y + dy;
        let mut cands: Vec<Position> = Vec::new();
        if dx == 0 {
            cands.push(Position::new((ox + 1, oy)));
            cands.push(Position::new((ox - 1, oy)));
        } else if dy == 0 {
            cands.push(Position::new((ox, oy + 1)));
            cands.push(Position::new((ox, oy - 1)));
        } else {
            cands.push(Position::new((ox - dx, oy)));
            cands.push(Position::new((ox, oy - dy)));
        }
        cands.push(Position::new((ox, oy)));
        assert(cands@ =~= push_candidates(on, from));
        let ghost pf = push_free(*game_state);
        let mut free: Vec<Position> = Vec::new();
        let mut i: usize = 0;
        while i < 3
            invariant
                i <= 3,
                game_state.wf(),
                game_state.spec_dims().valid(),
                cands@ == push_candidates(on, from),
                cands@.len() == 3,
                pf == push_free(*game_state),
                free@ == cands@.take(i as int).filter(pf),
            decreases 3 - i,
        {
            let p = cands[i];
            if !game_state.is_out(p) {
                assert(in_pitch(p.x as int, p.y as int));
                if game_state.get_player_at(p).is_none() {
                    free.push(p);
                }
            }
            proof {
                assert(cands@.take(i + 1).drop_last() =~= cands@.take(i as int));
                reveal_with_fuel(Seq::filter, 1);
            }
            i += 1;
        }
        assert(cands@.take(3) =~= cands@);
        if free.len() > 0 {
            PushSquares::FreeSquares(free)
        } else if game_state.is_out(cands[2]) {
            PushSquares::Crowd(cands[2])
        } else if game_state.is_out(cands[1]) {
            PushSquares::Crowd(cands[1])
        } else if game_state.is_out(cands[0]) {
            PushSquares::Crowd(cands[0])
        } else {
            PushSquares::ChainPush(cands)
        }
    }

    /// Pushing the player on `on` away from `from` sends it into the crowd.
    pub fn is_crowd_push(from: Position, on: Position, game_state: &GameState) -> (r: bool)
        requires
            game_state.wf(),
            in_pitch(on.x as int, on.y as int),
            next_to(on, from),
        ensures
            r == (push_candidates(on, from).filter(push_free(*game_state)).len() == 0 && crowd_square(
                game_state.spec_dims(),
                push_candidates(on, from),
            ) is Some),
    {
        match Push::get_push_squares(on, from, game_state) {
            PushSquares::Crowd(_) => true,
            _ => false,
        }
    }
}

/// Each push of a chain starts on the square the one before it sends its player to.
pub open spec fn is_chain(moves: Seq<(Position, Position)>) -> bool {
    forall|i: int| 0 <= i < moves.len() - 1 ==> #[trigger] moves[i].1 == moves[i + 1].0
}

/// The pushes of a chain can be carried out from the last to the first: every square is on
/// the pitch, every push starts on a different occupied square, and the last push ends on a
/// free square that starts no push.
pub open spec fn movable(gs: GameState, moves: Seq<(Position, Position)>) -> bool {
    &&& moves.len() > 0
    &&& is_chain(moves)
    &&& forall|i: int|
        #![trigger moves[i]]
        0 <= i < moves.len() ==> in_pitch(moves[i].0.x as int, moves[i].0.y as int) && in_pitch(
            moves[i].1.x as int,
            moves[i].1.y as int,
        ) && gs.board_at(moves[i].0.x as int, moves[i].0.y as int) is Some
    &&& forall|i: int, j: int| 0 <= i < j < moves.len() ==> #[trigger] moves[i].0 != #[trigger] moves[j].0
    &&& forall|i: int| 0 <= i < moves.len() ==> #[trigger] moves[i].0 != moves.last().1
    &&& gs.board_at(moves.last().1.x as int, moves.last().1.y as int) is None
}

/// The player a push of the chain moves.
pub open spec fn pushed_player(gs: GameState, moves: Seq<(Position, Position)>, i: int) -> PlayerID {
    gs.board_at(moves[i].0.x as int, moves[i].0.y as int)->0
}

/// The board once the pushes from the `j`-th on are made: each of their players on its new
/// square, the square the `j`-th push left empty.
pub open spec fn board_after_pushes(
    gs: GameState,
    moves: Seq<(Position, Position)>,
    j: int,
    x: int,
    y: int,
) -> Option<PlayerID> {
    if exists|i: int| j <= i < moves.len() && moves[i].1.x == x && moves[i].1.y == y {
        Some(pushed_player(gs, moves, choose|i: int| j <= i < moves.len() && moves[i].1.x == x && moves[i].1.y == y))
    } else if j < moves.len() && moves[j].0.x == x && moves[j].0.y == y {
        None
    } else {
        gs.board_at(x, y)
    }
}

/// The players once the pushes from the `j`-th on are made.
pub open spec fn fielded_after_pushes(
    gs: GameState,
    moves: Seq<(Position, Position)>,
    j: int,
    k: int,
) -> Option<FieldedPlayer> {
    if exists|i: int| j <= i < moves.len() && pushed_player(gs, moves, i) == k {
        let i = choose|i: int| j <= i < moves.len() && pushed_player(gs, moves, i) == k;
        Some(FieldedPlayer { position: moves[i].1, ..gs.fielded()[k]->0 })
    } else {
        gs.fielded()[k]
    }
}

/// The carrier's push, if one of the pushes from the `j`-th on moves the ball carrier onto
/// its opposing endzone.
pub open spec fn pushed_into_endzone(gs: GameState, moves: Seq<(Position, Position)>, j: int) -> bool {
    exists|i: int|
        j <= i < moves.len() && gs.spec_ball() == BallState::Carried(pushed_player(gs, moves, i))
            && moves[i].1.x == gs.spec_dims().spec_endzone_x(
            gs.fielded()[pushed_player(gs, moves, i) as int]->0.stats.team,
        )
}


/// `after` is `before` once the pushes of the chain `m` are made; a ball carrier pushed into
/// the opposing endzone scores.
pub open spec fn pushes_made(after: GameState, before: GameState, m: Seq<(Position, Position)>) -> bool {
    &&& after.wf()
    &&& after.same_but_players_and_info(&before)
    &&& after.dugout() == before.dugout()
    &&& forall|x: int, y: int|
        in_pitch(x, y) ==> #[trigger] after.board_at(x, y) == board_after_pushes(before, m, 0, x, y)
    &&& after.fielded().len() == before.fielded().len()
    &&& forall|k: int|
        0 <= k < before.fielded().len() ==> #[trigger] after.fielded()[k] == fielded_after_pushes(before, m, 0, k)
    &&& after.spec_info() == if pushed_into_endzone(before, m, 0) {
        GameInfo { handle_td_by: Some(before.spec_ball()->Carried_0), ..before.spec_info() }
    } else {
        before.spec_info()
    }
}

/// Pushed players are told apart by the squares they start on.
proof fn lemma_pushed_players_distinct(before: GameState, m: Seq<(Position, Position)>, i: int, j: int)
    requires
        before.wf(),
        movable(before, m),
        0 <= i < m.len(),
        0 <= j < m.len(),
        i != j,
    ensures
        pushed_player(before, m, i) != pushed_player(before, m, j),
{
    before.lemma_board_agrees();
    let a = m[i].0;
    let b = m[j].0;
    assert(m[i] == m[i]);
    assert(m[j] == m[j]);
    if i < j {
        assert(m[i].0 != m[j].0);
    } else {
        assert(m[j].0 != m[i].0);
    }
    let pa = pushed_player(before, m, i);
    let pb = pushed_player(before, m, j);
    assert(before.board_at(a.x as int, a.y as int) is Some);
    assert(before.board_at(b.x as int, b.y as int) is Some);
    assert(before.fielded()[pa as int]->0.position.x == a.x);
    assert(before.fielded()[pb as int]->0.position.x == b.x);
    assert(before.fielded()[pa as int]->0.position.y == a.y);
    assert(before.fielded()[pb as int]->0.position.y == b.y);
}

/// No push of the chain ends on the square the `j`-th push starts from, but the one before
/// it.
proof fn lemma_no_target_on_source(m: Seq<(Position, Position)>, gs: GameState, i: int, j: int)
    requires
        movable(gs, m),
        0 <= i < m.len(),
        0 <= j < m.len(),
        i != j - 1,
    ensures
        m[i].1 != m[j].0,
{
    if i == m.len() - 1 {
        assert(m[j] == m[j]);
    } else {
        assert(m[i].1 == m[i + 1].0);
        if i + 1 < j {
            assert(m[i + 1].0 != m[j].0);
        } else if i + 1 > j {
            assert(m[j].0 != m[i + 1].0);
        }
    }
}

/// Before the `j`-th push is made, its player still stands on its first square and the
/// square it goes to is free.
proof fn lemma_push_step_ready(before: GameState, here: GameState, m: Seq<(Position, Position)>, j: int)
    requires
        before.wf(),
        movable(before, m),
        0 <= j < m.len(),
        here.wf(),
        forall|x: int, y: int|
            in_pitch(x, y) ==> #[trigger] here.board_at(x, y) == board_after_pushes(before, m, j + 1, x, y),
        here.fielded().len() == before.fielded().len(),
        forall|k: int|
            0 <= k < before.fielded().len() ==> #[trigger] here.fielded()[k] == fielded_after_pushes(
                before,
                m,
                j + 1,
                k,
            ),
    ensures
        in_pitch(m[j].0.x as int, m[j].0.y as int),
        in_pitch(m[j].1.x as int, m[j].1.y as int),
        here.board_at(m[j].0.x as int, m[j].0.y as int) == Some(pushed_player(before, m, j)),
        here.board_at(m[j].1.x as int, m[j].1.y as int) is None,
        here.fielded()[pushed_player(before, m, j) as int] == before.fielded()[pushed_player(before, m, j) as int],
{
    before.lemma_board_agrees();
    before.lemma_slots();
    assert(m[j] == m[j]);
    let a = m[j].0;
    let b = m[j].1;
    assert(!exists|i: int| j + 1 <= i < m.len() && m[i].1.x == a.x && m[i].1.y == a.y) by {
        assert forall|i: int| j + 1 <= i < m.len() implies !(m[i].1.x == a.x && m[i].1.y == a.y) by {
            lemma_no_target_on_source(m, before, i, j);
        }
    }
    if j + 1 < m.len() {
        assert(m[j + 1].0 != a);
    }
    assert(here.board_at(a.x as int, a.y as int) == before.board_at(a.x as int, a.y as int));
    assert(!exists|i: int| j + 1 <= i < m.len() && m[i].1.x == b.x && m[i].1.y == b.y) by {
        assert forall|i: int| j + 1 <= i < m.len() implies !(m[i].1.x == b.x && m[i].1.y == b.y) by {
            if j < m.len() - 1 {
                assert(b == m[j + 1].0);
                lemma_no_target_on_source(m, before, i, j + 1);
            } else {
                assert(false);
            }
        }
    }
    if j < m.len() - 1 {
        assert(b == m[j + 1].0);
    }
    let id = pushed_player(before, m, j);
    assert(!exists|i: int| j + 1 <= i < m.len() && pushed_player(before, m, i) == id) by {
        assert forall|i: int| j + 1 <= i < m.len() implies pushed_player(before, m, i) != id by {
            lemma_pushed_players_distinct(before, m, i, j);
        }
    }
    assert(here.fielded()[id as int] == fielded_after_pushes(before, m, j + 1, id as int));
}

/// Making the `j`-th push of the chain extends the pushes already made.
#[verifier::spinoff_prover]
#[verifier::rlimit(60)]
proof fn lemma_push_step_done(
    before: GameState,
    here: GameState,
    moved: GameState,
    after: GameState,
    m: Seq<(Position, Position)>,
    j: int,
)
    requires
        before.wf(),
        movable(before, m),
        0 <= j < m.len(),
        here.wf(),
        forall|x: int, y: int|
            in_pitch(x, y) ==> #[trigger] here.board_at(x, y) == board_after_pushes(before, m, j + 1, x, y),
        here.fielded().len() == before.fielded().len(),
        forall|k: int|
            0 <= k < before.fielded().len() ==> #[trigger] here.fielded()[k] == fielded_after_pushes(
                before,
                m,
                j + 1,
                k,
            ),
        ({
            let id = pushed_player(before, m, j);
            let p = here.fielded()[id as int]->0;
            &&& here.fielded()[id as int] is Some
            &&& p.position == m[j].0
            &&& moved.fielded() == here.fielded().update(id as int, Some(FieldedPlayer { position: m[j].1, ..p }))
            &&& moved.board_at(m[j].1.x as int, m[j].1.y as int) == Some(id)
            &&& moved.board_at(m[j].0.x as int, m[j].0.y as int) is None
            &&& forall|x: int, y: int|
                in_pitch(x, y) && !(x == m[j].1.x && y == m[j].1.y) && !(x == m[j].0.x && y == m[j].0.y)
                    ==> #[trigger] moved.board_at(x, y) == here.board_at(x, y)
        }),
        forall|x: int, y: int| #[trigger] after.board_at(x, y) == moved.board_at(x, y),
        after.fielded() == moved.fielded(),
    ensures
        forall|x: int, y: int|
            in_pitch(x, y) ==> #[trigger] after.board_at(x, y) == board_after_pushes(before, m, j, x, y),
        after.fielded().len() == before.fielded().len(),
        forall|k: int|
            0 <= k < before.fielded().len() ==> #[trigger] after.fielded()[k] == fielded_after_pushes(
                before,
                m,
                j,
                k,
            ),
{
    before.lemma_board_agrees();
    before.lemma_slots();
    let id = pushed_player(before, m, j);
    assert(m[j] == m[j]);
    assert forall|x: int, y: int| in_pitch(x, y) implies #[trigger] after.board_at(x, y) == board_after_pushes(
        before,
        m,
        j,
        x,
        y,
    ) by {
        if x == m[j].1.x && y == m[j].1.y {
            assert(exists|i: int| j <= i < m.len() && m[i].1.x == x && m[i].1.y == y);
            let i = choose|i: int| j <= i < m.len() && m[i].1.x == x && m[i].1.y == y;
            if i != j {
                if i == m.len() - 1 {
                    assert(m[i].1 == m[j].1);
                    if j < m.len() - 1 {
                        assert(m[j].1 == m[j + 1].0);
                        assert(m[j + 1] == m[j + 1]);
                    }
                } else {
                    assert(m[i].1 == m[i + 1].0);
                    if j < m.len() - 1 {
                        assert(m[j].1 == m[j + 1].0);
                        assert(m[i + 1].0 != m[j + 1].0);
                    } else {
                        assert(m[i + 1] == m[i + 1]);
                    }
                }
            }
        } else if x == m[j].0.x && y == m[j].0.y {
            assert(!exists|i: int| j <= i < m.len() && m[i].1.x == x && m[i].1.y == y) by {
                assert forall|i: int| j <= i < m.len() implies !(m[i].1.x == x && m[i].1.y == y) by {
                    lemma_no_target_on_source(m, before, i, j);
                }
            }
        } else {
            assert(after.board_at(x, y) == here.board_at(x, y));
            if exists|i: int| j <= i < m.len() && m[i].1.x == x && m[i].1.y == y {
                let i = choose|i: int| j <= i < m.len() && m[i].1.x == x && m[i].1.y == y;
                assert(i != j);
                assert(exists|i2: int| j + 1 <= i2 < m.len() && m[i2].1.x == x && m[i2].1.y == y);
            } else if j + 1 < m.len() && m[j + 1].0.x == x && m[j + 1].0.y == y {
                assert(m[j].1 == m[j + 1].0);
            }
        }
    }
    assert forall|k: int| 0 <= k < before.fielded().len() implies #[trigger] after.fielded()[k]
        == fielded_after_pushes(before, m, j, k) by {
        if k == id {
            assert(exists|i: int| j <= i < m.len() && pushed_player(before, m, i) == k);
            let i = choose|i: int| j <= i < m.len() && pushed_player(before, m, i) == k;
            if i != j {
                lemma_pushed_players_distinct(before, m, i, j);
            }
            assert(!exists|i2: int| j + 1 <= i2 < m.len() && pushed_player(before, m, i2) == id) by {
                assert forall|i2: int| j + 1 <= i2 < m.len() implies pushed_player(before, m, i2) != id by {
                    lemma_pushed_players_distinct(before, m, i2, j);
                }
            }
        } else {
            if exists|i: int| j <= i < m.len() && pushed_player(before, m, i) == k {
                let i = choose|i: int| j <= i < m.len() && pushed_player(before, m, i) == k;
                assert(i != j);
                assert(exists|i2: int| j + 1 <= i2 < m.len() && pushed_player(before, m, i2) == k);
            }
        }
    }
}

impl Push {
    /// Make the pushes of the chain from the last to the first; a ball carrier pushed into
    /// the opposing endzone scores.
    #[verifier::spinoff_prover]
    #[verifier::rlimit(80)]
    pub fn do_moves(&self, game_state: &mut GameState)
        requires
            old(game_state).wf(),
            movable(*old(game_state), self.moves_to_make@),
        ensures
            pushes_made(*final(game_state), *old(game_state), self.moves_to_make@),
    {
        let ghost before = *game_state;
        let ghost m = self.moves_to_make@;
        proof {
            before.lemma_board_agrees();
            before.lemma_slots();
        }
        let mut j: usize = self.moves_to_make.len();
        while j > 0
            invariant
                j <= m.len(),
                m == self.moves_to_make@,
                before == *old(game_state),
                before.wf(),
                before.fielded().len() == crate::gamestate::FIELD_SLOTS,
                movable(before, m),
                game_state.wf(),
                game_state.same_but_players_and_info(&before),
                game_state.dugout() == before.dugout(),
                forall|x: int, y: int|
                    in_pitch(x, y) ==> #[trigger] game_state.board_at(x, y) == board_after_pushes(
                        before,
                        m,
                        j as int,
                        x,
                        y,
                    ),
                game_state.fielded().len() == before.fielded().len(),
                forall|k: int|
                    0 <= k < before.fielded().len() ==> #[trigger] game_state.fielded()[k]
                        == fielded_after_pushes(before, m, j as int, k),
                game_state.spec_info() == if pushed_into_endzone(before, m, j as int) {
                    GameInfo { handle_td_by: Some(before.spec_ball()->Carried_0), ..before.spec_info() }
                } else {
                    before.spec_info()
                },
            decreases j,
        {
            j -= 1;
            let (from, to) = self.moves_to_make[j];
            proof {
                lemma_push_step_ready(before, *game_state, m, j as int);
            }
            let id = game_state.get_player_id_at(from).unwrap();
            let ghost here = *game_state;
            proof {
                here.lemma_board_agrees();
                here.lemma_slots();
            }
            let _ = game_state.move_player(id, to);
            proof {
                game_state.lemma_slots();
                assert(game_state.fielded()[id as int] is Some);
            }
            let scores = match game_state.ball() {
                BallState::Carried(carrier_id) => carrier_id == id,
                _ => false,
            };
            let ghost moved = *game_state;
            if scores {
                let team = game_state.get_player_unsafe(id).stats.team;
                if to.x == game_state.get_endzone_x(team) {
                    game_state.info_mut().handle_td_by = Some(id);
                }
            }
            proof {
                assert forall|x: int, y: int| #[trigger] game_state.board_at(x, y) == moved.board_at(x, y) by {}
                lemma_push_step_done(before, here, moved, *game_state, m, j as int);
            }
        }
    }
}


/// No player stands off the board.
pub open spec fn off_board_clear(gs: GameState) -> bool {
    forall|x: int, y: int|
        in_pitch(x, y) && gs.spec_dims().spec_is_out(square(x, y)) ==> #[trigger] gs.board_at(x, y) is None
}

/// The squares a push offers to choose from: the free push squares, else every push square
/// for a chain push; none when the push goes into the crowd.
pub open spec fn push_choices(gs: GameState, on: Position, from: Position) -> Seq<Position> {
    let c = push_candidates(on, from);
    let f = c.filter(push_free(gs));
    if f.len() > 0 {
        f
    } else if crowd_square(gs.spec_dims(), c) is None {
        c
    } else {
        Seq::empty()
    }
}

/// A push that can be worked out: the player being pushed stands on the board, on `on`,
/// next to the square `from` it is pushed from, no player stands off the board, and the
/// pushes chosen so far, `m`, form a chain from different occupied squares on the board that
/// ends on `on`.
pub open spec fn chain_ready(from: Position, on: Position, m: Seq<(Position, Position)>, gs: GameState) -> bool {
    &&& gs.wf()
    &&& off_board_clear(gs)
    &&& next_to(on, from)
    &&& !gs.spec_dims().spec_is_out(on)
    &&& gs.board_at(on.x as int, on.y as int) is Some
    &&& is_chain(m)
    &&& m.len() > 0 ==> m.last() == (from, on)
    &&& forall|i: int|
        #![trigger m[i]]
        0 <= i < m.len() ==> !gs.spec_dims().spec_is_out(m[i].0) && gs.board_at(m[i].0.x as int, m[i].0.y as int)
            is Some && m[i].0 != on
    &&& forall|i: int, j: int| 0 <= i < j < m.len() ==> #[trigger] m[i].0 != #[trigger] m[j].0
}

impl Push {
    /// The push can be worked out in `gs`.
    pub open spec fn ready(self, gs: GameState) -> bool {
        chain_ready(self.from, self.on, self.moves_to_make@, gs)
    }
}

/// A square on the board lies on the physical pitch.
proof fn lemma_on_board_in_pitch(gs: GameState, p: Position)
    requires
        gs.wf(),
        !gs.spec_dims().spec_is_out(p),
    ensures
        in_pitch(p.x as int, p.y as int),
{
    gs.lemma_board_agrees();
}

/// The push squares of a player on the board lie on the physical pitch, next to it.
proof fn lemma_candidates_near(gs: GameState, on: Position, from: Position)
    requires
        gs.wf(),
        !gs.spec_dims().spec_is_out(on),
        next_to(on, from),
    ensures
        push_candidates(on, from).len() == 3,
        forall|i: int|
            0 <= i < 3 ==> in_pitch(#[trigger] push_candidates(on, from)[i].x as int, push_candidates(on, from)[i].y as int)
                && next_to(push_candidates(on, from)[i], on),
{
    gs.lemma_board_agrees();
}

/// A push into the crowd goes through one of the push squares that lies off the board, and
/// so never onto a player when nobody stands off the board.
pub proof fn lemma_crowd_push_lands_free(gs: GameState, on: Position, from: Position)
    requires
        gs.wf(),
        off_board_clear(gs),
        !gs.spec_dims().spec_is_out(on),
        next_to(on, from),
        crowd_square(gs.spec_dims(), push_candidates(on, from)) is Some,
    ensures
        ({
            let p = crowd_square(gs.spec_dims(), push_candidates(on, from))->0;
            &&& push_candidates(on, from).contains(p)
            &&& gs.spec_dims().spec_is_out(p)
            &&& gs.board_at(p.x as int, p.y as int) is None
        }),
{
    lemma_candidates_near(gs, on, from);
    let c = push_candidates(on, from);
    let p = crowd_square(gs.spec_dims(), c)->0;
    assert(c[0] == c[0] && c[1] == c[1] && c[2] == c[2]);
    assert(square(p.x as int, p.y as int) == p);
}

/// Adding the push `(on, to)` to a ready push's chain gives a chain that can be made, when
/// `to` is a square off the pitch's edge or an empty one.
proof fn lemma_extend_movable(push: Push, gs: GameState, to: Position)
    requires
        push.ready(gs),
        in_pitch(to.x as int, to.y as int),
        gs.board_at(to.x as int, to.y as int) is None,
    ensures
        movable(gs, push.moves_to_make@.push((push.on, to))),
{
    gs.lemma_board_agrees();
    let m = push.moves_to_make@;
    let m2 = m.push((push.on, to));
    assert forall|i: int| 0 <= i < m2.len() - 1 implies #[trigger] m2[i].1 == m2[i + 1].0 by {
        if i < m.len() - 1 {
            assert(m[i].1 == m[i + 1].0);
        } else {
            assert(m.last() == (push.from, push.on));
        }
    }
    assert forall|i: int|
        #![trigger m2[i]]
        0 <= i < m2.len() implies in_pitch(m2[i].0.x as int, m2[i].0.y as int) && in_pitch(
        m2[i].1.x as int,
        m2[i].1.y as int,
    ) && gs.board_at(m2[i].0.x as int, m2[i].0.y as int) is Some by {
        if i < m.len() {
            assert(m[i] == m2[i]);
            lemma_on_board_in_pitch(gs, m[i].0);
            if i < m.len() - 1 {
                assert(m[i].1 == m[i + 1].0);
                assert(m[i + 1] == m[i + 1]);
                lemma_on_board_in_pitch(gs, m[i + 1].0);
            } else {
                assert(m.last() == (push.from, push.on));
                lemma_on_board_in_pitch(gs, push.on);
            }
        } else {
            lemma_on_board_in_pitch(gs, push.on);
        }
    }
    assert forall|i: int, j: int| 0 <= i < j < m2.len() implies #[trigger] m2[i].0 != #[trigger] m2[j].0 by {
        assert(m[i] == m2[i]);
        if j < m.len() {
            assert(m[j] == m2[j]);
        }
    }
    assert forall|i: int| 0 <= i < m2.len() implies #[trigger] m2[i].0 != m2.last().1 by {
        if i < m.len() {
            assert(m[i] == m2[i]);
            assert(gs.board_at(m[i].0.x as int, m[i].0.y as int) is Some);
        } else {
            assert(gs.board_at(push.on.x as int, push.on.y as int) is Some);
        }
    }
}

/// `after`, `gs2` and `r` are what working out in `gs` the push of the player on `on` from
/// `from`, after the chain `m`, gives. With no free push square and one off the pitch, the
/// player goes into the crowd at once: the pushes are made and the attacker may follow up.
/// Otherwise the team whose turn it is chooses among the push squares.
pub open spec fn worked_out(
    from: Position,
    on: Position,
    m: Seq<(Position, Position)>,
    after: Push,
    gs: GameState,
    gs2: GameState,
    r: ProcState,
) -> bool {
    let c = push_candidates(on, from);
    let f = c.filter(push_free(gs));
    &&& after.from == from
    &&& after.on == on
    &&& if f.len() == 0 && crowd_square(gs.spec_dims(), c) is Some {
        &&& after.moves_to_make@ == m.push((on, crowd_square(gs.spec_dims(), c)->0))
        &&& pushes_made(gs2, gs, after.moves_to_make@)
        &&& r == ProcState::NotDoneNew(AnyProc::FollowUp(FollowUp { to: after.follow_up_pos }))
    } else {
        &&& after.moves_to_make@ == m
        &&& gs2 == gs
        &&& r matches ProcState::NeedAction(aa) && offers_only(
            *aa,
            gs.spec_info().team_turn,
            PosAT::Push,
            push_choices(gs, on, from),
        )
    }
}

impl Push {
    /// Work out where the player being pushed can go. With no free push square and one off
    /// the pitch, it goes into the crowd at once: the pushes are made and the attacker may
    /// follow up. Otherwise the team whose turn it is chooses among the push squares.
    fn calculate_next_state(&mut self, game_state: &mut GameState) -> (r: ProcState)
        requires
            old(self).ready(*old(game_state)),
        ensures
            worked_out(
                old(self).from,
                old(self).on,
                old(self).moves_to_make@,
                *final(self),
                *old(game_state),
                *final(game_state),
                r,
            ),
            final(self).knockdown_proc == old(self).knockdown_proc,
            final(self).follow_up_pos == old(self).follow_up_pos,
    {
        proof {
            lemma_candidates_near(*game_state, self.on, self.from);
            lemma_on_board_in_pitch(*game_state, self.on);
        }
        let team = game_state.info().team_turn;
        match Push::get_push_squares(self.on, self.from, game_state) {
            PushSquares::Crowd(position_in_crowd) => {
                proof {
                    let c = push_candidates(self.on, self.from);
                    assert(c[0] == c[0] && c[1] == c[1] && c[2] == c[2]);
                    assert(game_state.board_at(position_in_crowd.x as int, position_in_crowd.y as int) is None) by {
                        assert(square(position_in_crowd.x as int, position_in_crowd.y as int) == position_in_crowd);
                    }
                    lemma_extend_movable(*self, *game_state, position_in_crowd);
                }
                self.moves_to_make.push((self.on, position_in_crowd));
                self.do_moves(game_state);
                ProcState::NotDoneNew(FollowUp::new(self.follow_up_pos))
            },
            PushSquares::ChainPush(positions) => {
                proof {
                    let c = push_candidates(self.on, self.from);
                    assert(c[0] == c[0] && c[1] == c[1] && c[2] == c[2]);
                }
                ProcState::NeedAction(offer_positional(team, PosAT::Push, positions))
            },
            PushSquares::FreeSquares(positions) => {
                proof {
                    let c = push_candidates(self.on, self.from);
                    let f = c.filter(push_free(*game_state));
                    assert forall|i: int| 0 <= i < f.len() implies in_pitch(#[trigger] f[i].x as int, f[i].y as int) by {
                        c.lemma_filter_pred(push_free(*game_state), i);
                        lemma_on_board_in_pitch(*game_state, f[i]);
                    }
                }
                ProcState::NeedAction(offer_positional(team, PosAT::Push, positions))
            },
        }
    }
}

/// The player a chain's last push sent off the pitch carried the ball.
pub open spec fn crowd_takes_ball(gs: GameState, last: (Position, Position)) -> bool {
    gs.spec_dims().spec_is_out(last.1) && gs.spec_ball() == BallState::Carried(
        gs.board_at(last.1.x as int, last.1.y as int)->0,
    )
}

/// What follows a chain of pushes whose last push is `last`, in the order they are pushed:
/// a throw-in from the edge when the player sent into the crowd carried the ball, then that
/// player's injury (or a bounce when the last push landed on the loose ball), then the
/// knock-down `kd`.
pub open spec fn aftermath_procs(gs: GameState, last: (Position, Position), kd: Option<KnockDown>) -> Seq<
    AnyProc,
> {
    let out = gs.spec_dims().spec_is_out(last.1);
    let id = gs.board_at(last.1.x as int, last.1.y as int)->0;
    (if crowd_takes_ball(gs, last) {
        seq![AnyProc::ThrowIn(ThrowIn { from: last.0 })]
    } else {
        Seq::empty()
    }) + (if out {
        seq![AnyProc::Injury(Injury { id, crowd: true, fouler: None })]
    } else if gs.spec_ball() == BallState::OnGround(last.1) {
        seq![AnyProc::Bounce(Bounce { kick: false })]
    } else {
        Seq::empty()
    }) + (if kd is Some {
        seq![AnyProc::KnockDown(kd->0)]
    } else {
        Seq::empty()
    })
}

/// A push whose pushes are made can deal with what follows them: its last push ends on the
/// physical pitch, with a player on it if it is off the board.
pub open spec fn aftermath_ready(push: Push, gs: GameState) -> bool {
    let m = push.moves_to_make@;
    &&& gs.wf()
    &&& m.len() > 0
    &&& in_pitch(m.last().1.x as int, m.last().1.y as int)
    &&& gs.spec_dims().spec_is_out(m.last().1) ==> gs.board_at(m.last().1.x as int, m.last().1.y as int) is Some
}

/// `after`, `gs2` and `r` are what dealing with the aftermath of the pushes of `before` in
/// `gs` gives: the last push is dropped, the knock-down is handed on (forgotten after a lone
/// push into the crowd), and a ball carried into the crowd goes up from the edge.
pub open spec fn aftermath_done(before: Push, after: Push, gs: GameState, gs2: GameState, r: ProcState) -> bool {
    let m = before.moves_to_make@;
    let kd = if gs.spec_dims().spec_is_out(m.last().1) && m.len() == 1 {
        None
    } else {
        before.knockdown_proc
    };
    &&& after.from == before.from
    &&& after.on == before.on
    &&& after.follow_up_pos == before.follow_up_pos
    &&& after.knockdown_proc is None
    &&& after.moves_to_make@ == m.drop_last()
    &&& finishes_with(r, aftermath_procs(gs, m.last(), kd))
    &&& if crowd_takes_ball(gs, m.last()) {
        &&& gs2.wf()
        &&& gs2.spec_ball() == BallState::InAir(m.last().0)
        &&& gs2.spec_bounce_squares() == gs.spec_bounce_squares().push(m.last().0)
        &&& gs2.fielded() == gs.fielded()
        &&& gs2.dugout() == gs.dugout()
        &&& gs2.same_board(&gs)
        &&& gs2.spec_info() == gs.spec_info()
        &&& gs2.same_but_players_info_and_ball(&gs)
    } else {
        gs2 == gs
    }
}

impl Push {
    /// Once the pushes are made: a player sent into the crowd is hurt there and throws the
    /// ball in from the edge if it carried it, a player pushed onto the loose ball makes it
    /// bounce, and the knock-down, if any, follows. A lone push into the crowd forgets the
    /// knock-down.
    fn handle_aftermath(&mut self, game_state: &mut GameState) -> (r: ProcState)
        requires
            aftermath_ready(*old(self), *old(game_state)),
        ensures
            aftermath_done(*old(self), *final(self), *old(game_state), *final(game_state), r),
    {
        let ghost gs = *game_state;
        let mut procs: Vec<AnyProc> = Vec::new();
        let (last_push_from, last_push_to) = self.moves_to_make.pop().unwrap();
        if game_state.is_out(last_push_to) {
            let id = game_state.get_player_id_at(last_push_to).unwrap();
            let carried = match game_state.ball() {
                BallState::Carried(carrier) => carrier == id,
                _ => false,
            };
            if carried {
                game_state.set_ball(BallState::InAir(last_push_from));
                procs.push(ThrowIn::new(last_push_from));
            }
            procs.push(Injury::new_crowd(id));
            if self.moves_to_make.len() == 0 {
                self.knockdown_proc = None;
            }
        } else {
            let on_ball = match game_state.ball() {
                BallState::OnGround(ball_pos) => ball_pos == last_push_to,
                _ => false,
            };
            if on_ball {
                procs.push(Bounce::new());
            }
        }
        let ghost before_kd = procs@;
        let kd = self.knockdown_proc.take();
        if let Some(proc) = kd {
            procs.push(AnyProc::KnockDown(proc));
        }
        proof {
            let m = old(self).moves_to_make@;
            let kd2 = if gs.spec_dims().spec_is_out(m.last().1) && m.len() == 1 {
                None
            } else {
                old(self).knockdown_proc
            };
            assert(kd == kd2);
            assert(procs@ =~= aftermath_procs(gs, m.last(), kd2));
        }
        ProcState::from(procs)
    }
}

/// An input the push can take in `gs`: nothing, to work out the push or, once its pushes
/// are made, to deal with what follows them; or a push onto one of the squares it offered
/// that no push of its chain started from.
pub open spec fn push_input_ok(push: Push, gs: GameState, input: ProcInput) -> bool {
    match input {
        ProcInput::Nothing => if push.moves_to_make@.len() == 0 {
            push.ready(gs)
        } else {
            aftermath_ready(push, gs)
        },
        ProcInput::Action(Action::Positional(PosAT::Push, pos)) => {
            &&& push.ready(gs)
            &&& push_choices(gs, push.on, push.from).contains(pos)
            &&& forall|i: int| 0 <= i < push.moves_to_make@.len() ==> #[trigger] push.moves_to_make@[i].0 != pos
        },
        _ => false,
    }
}

/// A push square chosen for a chain push lies on the board, next to the pushed player, and
/// the push onto it keeps the chain ready to be worked out from there.
proof fn lemma_extend_ready(push: Push, gs: GameState, pos: Position)
    requires
        push.ready(gs),
        push_choices(gs, push.on, push.from).contains(pos),
        forall|i: int| 0 <= i < push.moves_to_make@.len() ==> #[trigger] push.moves_to_make@[i].0 != pos,
        gs.board_at(pos.x as int, pos.y as int) is Some,
    ensures
        chain_ready(push.on, pos, push.moves_to_make@.push((push.on, pos)), gs),
{
    gs.lemma_board_agrees();
    lemma_candidates_near(gs, push.on, push.from);
    let c = push_candidates(push.on, push.from);
    let f = c.filter(push_free(gs));
    if f.len() > 0 {
        let k = choose|k: int| 0 <= k < f.len() && f[k] == pos;
        c.lemma_filter_pred(push_free(gs), k);
        assert(false);
    }
    assert(crowd_square(gs.spec_dims(), c) is None);
    let k = choose|k: int| 0 <= k < c.len() && c[k] == pos;
    assert(c[0] == c[0] && c[1] == c[1] && c[2] == c[2]);
    assert(!gs.spec_dims().spec_is_out(pos));
    assert(next_to(pos, push.on));
    let m = push.moves_to_make@;
    let m2 = m.push((push.on, pos));
    assert forall|i: int| 0 <= i < m2.len() - 1 implies #[trigger] m2[i].1 == m2[i + 1].0 by {
        if i < m.len() - 1 {
            assert(m[i].1 == m[i + 1].0);
        } else {
            assert(m.last() == (push.from, push.on));
        }
    }
    assert forall|i: int|
        #![trigger m2[i]]
        0 <= i < m2.len() implies !gs.spec_dims().spec_is_out(m2[i].0) && gs.board_at(
        m2[i].0.x as int,
        m2[i].0.y as int,
    ) is Some && m2[i].0 != pos by {
        if i < m.len() {
            assert(m[i] == m2[i]);
        }
    }
    assert forall|i: int, j: int| 0 <= i < j < m2.len() implies #[trigger] m2[i].0 != #[trigger] m2[j].0 by {
        assert(m[i] == m2[i]);
        if j < m.len() {
            assert(m[j] == m2[j]);
        }
    }
}

impl Push {

    /// The inputs `step` takes in `gs`.
    pub open spec fn step_accepts(self, gs: GameState, input: ProcInput) -> bool {
        &&& (push_input_ok(self, gs, input))
    }

    /// `after`, `gs2` and `r` are what `step` makes of `self` in `gs` with `input`.
    pub open spec fn step_done(self, after: Self, gs: GameState, gs2: GameState, input: ProcInput, r: ProcState) -> bool {
        &&& (after.follow_up_pos == self.follow_up_pos)
        &&& (after.knockdown_proc == if input is Nothing && self.moves_to_make@.len() > 0 {
            None
        } else {
            self.knockdown_proc
        })
        &&& (({
            let gs = gs;
            let m = self.moves_to_make@;
            match input {
                ProcInput::Nothing => if m.len() == 0 {
                    worked_out(self.from, self.on, m, after, gs, gs2, r)
                } else {
                    aftermath_done(self, after, gs, gs2, r)
                },
                ProcInput::Action(Action::Positional(_, pos)) => if gs.board_at(pos.x as int, pos.y as int) is Some {
                    worked_out(
                        self.on,
                        pos,
                        m.push((self.on, pos)),
                        after,
                        gs,
                        gs2,
                        r,
                    )
                } else {
                    &&& after.from == self.from
                    &&& after.on == self.on
                    &&& after.moves_to_make@ == m.push((self.on, pos))
                    &&& pushes_made(gs2, gs, after.moves_to_make@)
                    &&& r == ProcState::NotDoneNew(AnyProc::FollowUp(FollowUp { to: self.follow_up_pos }))
                },
                _ => true,
            }
        }))
    }

    /// Take one input. Nothing works the push out, or deals with what follows once its
    /// pushes are made. A push onto an occupied square pushes that player on in turn; a
    /// push onto a free square makes the pushes, and the attacker may follow up.
    pub fn step(&mut self, game_state: &mut GameState, input: ProcInput) -> (r: ProcState)
        requires
            push_input_ok(*old(self), *old(game_state), input),
        ensures
            final(self).follow_up_pos == old(self).follow_up_pos,
            final(self).knockdown_proc == if input is Nothing && old(self).moves_to_make@.len() > 0 {
                None
            } else {
                old(self).knockdown_proc
            },
            ({
                let gs = *old(game_state);
                let m = old(self).moves_to_make@;
                match input {
                    ProcInput::Nothing => if m.len() == 0 {
                        worked_out(old(self).from, old(self).on, m, *final(self), gs, *final(game_state), r)
                    } else {
                        aftermath_done(*old(self), *final(self), gs, *final(game_state), r)
                    },
                    ProcInput::Action(Action::Positional(_, pos)) => if gs.board_at(pos.x as int, pos.y as int) is Some {
                        worked_out(
                            old(self).on,
                            pos,
                            m.push((old(self).on, pos)),
                            *final(self),
                            gs,
                            *final(game_state),
                            r,
                        )
                    } else {
                        &&& final(self).from == old(self).from
                        &&& final(self).on == old(self).on
                        &&& final(self).moves_to_make@ == m.push((old(self).on, pos))
                        &&& pushes_made(*final(game_state), gs, final(self).moves_to_make@)
                        &&& r == ProcState::NotDoneNew(AnyProc::FollowUp(FollowUp { to: old(self).follow_up_pos }))
                    },
                    _ => true,
                }
            }),
    {
        match input {
            ProcInput::Nothing => {
                if self.moves_to_make.len() == 0 {
                    self.calculate_next_state(game_state)
                } else {
                    self.handle_aftermath(game_state)
                }
            },
            ProcInput::Action(Action::Positional(_, position_to)) => {
                proof {
                    lemma_candidates_near(*game_state, self.on, self.from);
                    let c = push_candidates(self.on, self.from);
                    let f = c.filter(push_free(*game_state));
                    let k = choose|k: int|
                        0 <= k < push_choices(*game_state, self.on, self.from).len() && push_choices(
                            *game_state,
                            self.on,
                            self.from,
                        )[k] == position_to;
                    if f.len() > 0 {
                        c.lemma_filter_pred(push_free(*game_state), k);
                        lemma_on_board_in_pitch(*game_state, position_to);
                    } else {
                        assert(c[k] == position_to);
                    }
                }
                if game_state.get_player_id_at(position_to).is_some() {
                    proof {
                        lemma_extend_ready(*self, *game_state, position_to);
                    }
                    self.moves_to_make.push((self.on, position_to));
                    self.from = self.on;
                    self.on = position_to;
                    self.calculate_next_state(game_state)
                } else {
                    proof {
                        lemma_extend_movable(*self, *game_state, position_to);
                    }
                    self.moves_to_make.push((self.on, position_to));
                    self.do_moves(game_state);
                    ProcState::NotDoneNew(FollowUp::new(self.follow_up_pos))
                }
            },
            _ => {
                proof {
                    assert(false);
                }
                ProcState::NotDone
            },
        }
    }
}

/// What each block face does to the two players. Pow knocks the defender down; pow-push
/// knocks it down unless it has Dodge, and a Dodge defender is only pushed; push knocks nobody
/// down; skull knocks the attacker down; both down knocks each player down unless that player
/// has Block. Pow, pow-push and push push the defender back; both down and skull do not.
pub proof fn lemma_block_faces(attacker: FieldedPlayer, defender: FieldedPlayer)
    ensures
        face_knockdown(SimpleAT::SelectPow, attacker, defender).id == Some(defender.id),
        face_knockdown(SimpleAT::SelectPow, attacker, defender).second_id is None,
        defender.stats.skills@.contains(Skill::Dodge) ==> face_knockdown(
            SimpleAT::SelectPowPush,
            attacker,
            defender,
        ).id is None,
        !defender.stats.skills@.contains(Skill::Dodge) ==> face_knockdown(
            SimpleAT::SelectPowPush,
            attacker,
            defender,
        ).id == Some(defender.id),
        face_knockdown(SimpleAT::SelectPowPush, attacker, defender).second_id is None,
        face_knockdown(SimpleAT::SelectPush, attacker, defender).id is None,
        face_knockdown(SimpleAT::SelectPush, attacker, defender).second_id is None,
        face_knockdown(SimpleAT::SelectSkull, attacker, defender).id is None,
        face_knockdown(SimpleAT::SelectSkull, attacker, defender).second_id == Some(attacker.id),
        face_knockdown(SimpleAT::SelectBothDown, attacker, defender).id is None
            <==> defender.stats.skills@.contains(Skill::Block),
        face_knockdown(SimpleAT::SelectBothDown, attacker, defender).id is Some ==> face_knockdown(
            SimpleAT::SelectBothDown,
            attacker,
            defender,
        ).id == Some(defender.id),
        face_knockdown(SimpleAT::SelectBothDown, attacker, defender).second_id is None
            <==> attacker.stats.skills@.contains(Skill::Block),
        face_knockdown(SimpleAT::SelectBothDown, attacker, defender).second_id is Some ==> face_knockdown(
            SimpleAT::SelectBothDown,
            attacker,
            defender,
        ).second_id == Some(attacker.id),
        face_pushes(SimpleAT::SelectPow),
        face_pushes(SimpleAT::SelectPowPush),
        face_pushes(SimpleAT::SelectPush),
        !face_pushes(SimpleAT::SelectBothDown),
        !face_pushes(SimpleAT::SelectSkull),
{
}

} // verus!
