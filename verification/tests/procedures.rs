use botbowl::board::BoardDims;
use botbowl::dice::{BlockDice, RequestedRoll, RollResult, Sum2D6, Sum2D6Target, D3, D6, D6Target, D8};
use botbowl::gamestate::GameState;
use botbowl::model::{
    Action, BallState, DugoutPlace, InjuryOutcome, PlayerID, PlayerStatus, Position, ProcInput, TeamType,
    Weather,
};
use botbowl::pathing::{NodeIterator, PathingEvent, PositionOrEvent};
use botbowl::player::PlayerStats;
use botbowl::procedures::any_proc::AnyProc;
use botbowl::procedures::ball_procs::{
    Bounce, Catch, DeflectOrResolve, Pass, PassResult, PickupProc, ThrowIn, Touchback, Touchdown,
};
use botbowl::procedures::block_procs::{Block, BlockAction, BlockProcState, FollowUp, KnockDown, Push, PushSquares};
use botbowl::procedures::casualty_procs::{Armor, Ejection, EjectionState, Injury};
use botbowl::procedures::game_procs::{GameOver, Half, Turn, TurnStunned, TurnoverIfPossessionLost};
use botbowl::procedures::kickoff_procs::{ChangingWeather, Kickoff, KickoffTable, LandKickoff, Setup};
use botbowl::procedures::movement_procs::{DodgeProc, GfiProc, MoveAction, MoveActionState, StandUp};
use botbowl::procedures::procedure_tools::{ProcState, RollProcState, SimpleProc, SimpleProcContainer};
use botbowl::table::{NumBlockDices, PosAT, SimpleAT, Skill};

fn full_board() -> GameState {
    GameState::empty_state_with(BoardDims::new(28, 17, 11))
}

fn field(state: &mut GameState, team: TeamType, x: i8, y: i8) -> PlayerID {
    state.add_new_player_to_field(PlayerStats::new_lineman(team), Position::new((x, y))).unwrap()
}

fn pos(x: i8, y: i8) -> Position {
    Position::new((x, y))
}

#[test]
fn injury_stuns_a_player_left_on_the_pitch() {
    let mut state = full_board();
    let id = field(&mut state, TeamType::Home, 5, 5);
    let mut injury = Injury::new_pure(id);
    assert!(matches!(
        injury.step(&mut state, ProcInput::Nothing),
        ProcState::NeedRoll(RequestedRoll::Sum2D6ThreeOutcomes(Sum2D6Target::EightPlus, Sum2D6Target::TenPlus))
    ));
    assert!(matches!(injury.step(&mut state, ProcInput::Roll(RollResult::Fail)), ProcState::Done));
    assert_eq!(state.get_player(id).unwrap().status, PlayerStatus::Stunned);
}

#[test]
fn injury_knock_out_goes_to_the_dugout() {
    let mut state = full_board();
    let id = field(&mut state, TeamType::Home, 5, 5);
    let mut injury = Injury::new_pure(id);
    assert!(matches!(injury.step(&mut state, ProcInput::Roll(RollResult::MiddleOutcome)), ProcState::Done));
    assert!(state.get_player_id_at(pos(5, 5)).is_none());
    assert_eq!(state.get_dugout()[0].place, DugoutPlace::KnockOut);
}

#[test]
fn a_stunned_player_pushed_into_the_crowd_goes_to_the_reserves() {
    let mut state = full_board();
    let id = field(&mut state, TeamType::Away, 26, 5);
    let mut injury = Injury { id, crowd: true, fouler: None };
    assert!(matches!(injury.step(&mut state, ProcInput::Roll(RollResult::Fail)), ProcState::Done));
    assert_eq!(state.get_players_on_pitch().len(), 0);
    assert_eq!(state.get_dugout()[0].place, DugoutPlace::Reserves);
}

#[test]
fn a_foul_injury_can_send_the_fouler_off() {
    let mut state = full_board();
    let victim = field(&mut state, TeamType::Home, 5, 5);
    let fouler = field(&mut state, TeamType::Away, 6, 5);
    let mut injury = Injury { id: victim, crowd: false, fouler: Some(fouler) };
    assert!(matches!(
        injury.step(&mut state, ProcInput::Nothing),
        ProcState::NeedRoll(RequestedRoll::FoulInjury(Sum2D6Target::EightPlus, Sum2D6Target::TenPlus))
    ));
    match injury.step(
        &mut state,
        ProcInput::Roll(RollResult::FoulInjury { outcome: InjuryOutcome::Casualty, ejected: true }),
    ) {
        ProcState::DoneNewProcs(procs) => {
            assert_eq!(procs, vec![AnyProc::Ejection(Ejection { id: fouler, foul: true, state: EjectionState::Init })]);
        },
        other => panic!("unexpected {:?}", other),
    }
    assert_eq!(state.get_dugout()[0].place, DugoutPlace::Injuried);
}

#[test]
fn armour_is_broken_by_armour_value_plus_one() {
    let mut state = full_board();
    let id = field(&mut state, TeamType::Home, 5, 5);
    let mut armor = Armor { id, foul_target: None };
    assert!(matches!(
        armor.step(&mut state, ProcInput::Nothing),
        ProcState::NeedRoll(RequestedRoll::Sum2D6PassFail(Sum2D6Target::NinePlus))
    ));
    match armor.step(&mut state, ProcInput::Roll(RollResult::Pass)) {
        ProcState::DoneNewProcs(procs) => {
            assert_eq!(procs, vec![AnyProc::Injury(Injury { id, crowd: false, fouler: None })]);
        },
        other => panic!("unexpected {:?}", other),
    }
    assert!(matches!(armor.step(&mut state, ProcInput::Roll(RollResult::Fail)), ProcState::Done));
}

#[test]
fn a_foul_armour_roll_names_the_fouler() {
    let mut state = full_board();
    let victim = field(&mut state, TeamType::Home, 5, 5);
    let fouler = field(&mut state, TeamType::Away, 6, 5);
    let mut armor = Armor { id: victim, foul_target: Some((fouler, Sum2D6Target::EightPlus)) };
    assert!(matches!(
        armor.step(&mut state, ProcInput::Nothing),
        ProcState::NeedRoll(RequestedRoll::FoulArmor(Sum2D6Target::EightPlus))
    ));
    match armor.step(&mut state, ProcInput::Roll(RollResult::FoulArmor { broken: true, ejected: true })) {
        ProcState::DoneNewProcs(procs) => assert_eq!(
            procs,
            vec![
                AnyProc::Ejection(Ejection { id: fouler, foul: true, state: EjectionState::Init }),
                AnyProc::Injury(Injury { id: victim, crowd: false, fouler: None }),
            ]
        ),
        other => panic!("unexpected {:?}", other),
    }
    match armor.step(&mut state, ProcInput::Roll(RollResult::FoulArmor { broken: true, ejected: false })) {
        ProcState::DoneNewProcs(procs) => {
            assert_eq!(procs, vec![AnyProc::Injury(Injury { id: victim, crowd: false, fouler: Some(fouler) })]);
        },
        other => panic!("unexpected {:?}", other),
    }
}

#[test]
fn a_knocked_down_carrier_drops_the_ball() {
    let mut state = full_board();
    let carrier = field(&mut state, TeamType::Home, 5, 5);
    let other = field(&mut state, TeamType::Away, 6, 5);
    state.set_ball(BallState::Carried(carrier));
    let mut kd = KnockDown { id: Some(carrier), second_id: Some(other) };
    match kd.step(&mut state, ProcInput::Nothing) {
        ProcState::DoneNewProcs(procs) => assert_eq!(
            procs,
            vec![
                AnyProc::Bounce(Bounce { kick: false }),
                AnyProc::Armor(Armor { id: carrier, foul_target: None }),
                AnyProc::Armor(Armor { id: other, foul_target: None }),
            ]
        ),
        other => panic!("unexpected {:?}", other),
    }
    assert_eq!(state.ball(), BallState::InAir(pos(5, 5)));
    for id in [carrier, other] {
        let p = state.get_player(id).unwrap();
        assert_eq!(p.status, PlayerStatus::Down);
        assert!(p.used);
    }
}

#[test]
fn only_the_carrier_scores_a_touchdown() {
    let mut state = full_board();
    let carrier = field(&mut state, TeamType::Home, 26, 5);
    let other = field(&mut state, TeamType::Home, 20, 5);
    state.set_ball(BallState::Carried(carrier));
    let mut td = Touchdown { id: other };
    assert!(matches!(td.step(&mut state, ProcInput::Nothing), ProcState::Done));
    assert_eq!(state.home.score, 0);
    let mut td = Touchdown { id: carrier };
    assert!(matches!(td.step(&mut state, ProcInput::Nothing), ProcState::Done));
    assert_eq!(state.home.score, 1);
    assert!(state.get_player(carrier).unwrap().used);
    assert_eq!(state.info.kickoff_by_team, Some(TeamType::Home));
}

#[test]
fn a_touchback_goes_to_a_receiver() {
    let mut state = full_board();
    let receiver = field(&mut state, TeamType::Home, 20, 5);
    let mut tb = Touchback {};
    match tb.step(&mut state, ProcInput::Nothing) {
        ProcState::NeedAction(aa) => {
            assert_eq!(aa.get_team(), Some(TeamType::Home));
            assert!(aa.is_legal_non_path_action(Action::Positional(PosAT::SelectPosition, pos(20, 5))));
            assert!(!aa.is_legal_non_path_action(Action::Positional(PosAT::SelectPosition, pos(21, 5))));
        },
        other => panic!("unexpected {:?}", other),
    }
    assert!(matches!(
        tb.step(&mut state, ProcInput::Action(Action::Positional(PosAT::SelectPosition, pos(20, 5)))),
        ProcState::Done
    ));
    assert_eq!(state.ball(), BallState::Carried(receiver));
}

#[test]
fn a_touchback_with_nobody_to_take_it_drops_mid_half() {
    let mut state = full_board();
    field(&mut state, TeamType::Away, 5, 5);
    let mut tb = Touchback {};
    assert!(matches!(
        tb.step(&mut state, ProcInput::Nothing),
        ProcState::DoneNew(AnyProc::Bounce(Bounce { kick: false }))
    ));
    assert_eq!(state.ball(), BallState::InAir(pos(20, 7)));
}

#[test]
fn following_up_offers_both_squares() {
    let mut state = full_board();
    let attacker = field(&mut state, TeamType::Home, 5, 5);
    state.set_active_player(attacker);
    let mut fu = FollowUp { to: pos(6, 5) };
    match fu.step(&mut state, ProcInput::Nothing) {
        ProcState::NeedAction(aa) => {
            assert!(aa.is_legal_non_path_action(Action::Positional(PosAT::FollowUp, pos(5, 5))));
            assert!(aa.is_legal_non_path_action(Action::Positional(PosAT::FollowUp, pos(6, 5))));
        },
        other => panic!("unexpected {:?}", other),
    }
    assert!(matches!(
        fu.step(&mut state, ProcInput::Action(Action::Positional(PosAT::FollowUp, pos(6, 5)))),
        ProcState::Done
    ));
    assert_eq!(state.get_player(attacker).unwrap().position, pos(6, 5));
}

#[test]
fn a_bounce_comes_to_rest_or_is_caught() {
    let mut state = full_board();
    let catcher = field(&mut state, TeamType::Home, 9, 9);
    state.set_ball(BallState::OnGround(pos(7, 7)));
    let mut bounce = Bounce { kick: false };
    assert!(matches!(bounce.step(&mut state, ProcInput::Nothing), ProcState::NeedRoll(RequestedRoll::D8)));
    assert!(matches!(bounce.step(&mut state, ProcInput::Roll(RollResult::D8(D8::One))), ProcState::Done));
    assert_eq!(state.ball(), BallState::OnGround(pos(8, 8)));
    match bounce.step(&mut state, ProcInput::Roll(RollResult::D8(D8::One))) {
        ProcState::DoneNew(AnyProc::Catch(c)) => {
            assert_eq!(c.proc, Catch { id: catcher, target: D6Target::FourPlus, kick: false });
            assert_eq!(c.state, RollProcState::Init);
        },
        other => panic!("unexpected {:?}", other),
    }
    assert_eq!(state.ball(), BallState::InAir(pos(9, 9)));
}

#[test]
fn a_bounce_off_the_pitch_is_thrown_in_and_a_kick_into_the_wrong_half_is_a_touchback() {
    let mut state = full_board();
    state.set_ball(BallState::OnGround(pos(1, 7)));
    let mut bounce = Bounce { kick: false };
    assert!(matches!(
        bounce.step(&mut state, ProcInput::Roll(RollResult::D8(D8::Five))),
        ProcState::DoneNew(AnyProc::ThrowIn(ThrowIn { from })) if from == pos(1, 7)
    ));
    state.set_ball(BallState::InAir(pos(5, 7)));
    let mut kick = Bounce { kick: true };
    assert!(matches!(
        kick.step(&mut state, ProcInput::Roll(RollResult::D8(D8::One))),
        ProcState::DoneNew(AnyProc::Touchback(_))
    ));
}

#[test]
fn a_throw_in_lands_on_the_pitch() {
    let mut state = full_board();
    let mut throw = ThrowIn { from: pos(1, 7) };
    assert!(matches!(throw.step(&mut state, ProcInput::Nothing), ProcState::NeedRoll(RequestedRoll::ThrowIn)));
    let r = throw.step(
        &mut state,
        ProcInput::Roll(RollResult::ThrowIn { direction: D3::Two, distance: Sum2D6::Four }),
    );
    assert!(matches!(r, ProcState::DoneNew(AnyProc::Bounce(Bounce { kick: false }))));
    assert_eq!(state.ball(), BallState::InAir(pos(5, 7)));
}

#[test]
fn a_throw_in_that_leaves_the_pitch_is_retaken_from_the_edge() {
    let mut state = GameState::empty_state_with(BoardDims::new(12, 7, 3));
    let mut throw = ThrowIn { from: pos(1, 3) };
    let r = throw.step(
        &mut state,
        ProcInput::Roll(RollResult::ThrowIn { direction: D3::One, distance: Sum2D6::Twelve }),
    );
    assert!(matches!(r, ProcState::NeedRoll(RequestedRoll::ThrowIn)));
    assert_eq!(throw.from, pos(3, 5));
}

#[test]
fn picking_up_the_ball_in_the_endzone_scores() {
    let mut state = full_board();
    let id = field(&mut state, TeamType::Home, 1, 5);
    let pickup = PickupProc { target: D6Target::ThreePlus, id };
    assert!(pickup.apply_success(&mut state).is_empty());
    assert_eq!(state.ball(), BallState::Carried(id));
    assert!(state.info.pickup_this_activation);
    assert_eq!(state.info.handle_td_by, Some(id));
}

#[test]
fn a_failed_pick_up_is_a_turnover_and_bounces() {
    let mut state = full_board();
    let id = field(&mut state, TeamType::Home, 5, 5);
    state.set_ball(BallState::OnGround(pos(5, 5)));
    let mut pickup = PickupProc { target: D6Target::ThreePlus, id };
    assert_eq!(pickup.apply_failure(&mut state), vec![AnyProc::Bounce(Bounce { kick: false })]);
    assert!(state.info.turnover);
    assert!(state.get_player(id).unwrap().used);
}

#[test]
fn tripping_knocks_the_player_down() {
    let mut state = full_board();
    let id = field(&mut state, TeamType::Home, 5, 5);
    let mut gfi = GfiProc { target: D6Target::TwoPlus, id };
    assert_eq!(gfi.apply_failure(&mut state), vec![AnyProc::KnockDown(KnockDown { id: Some(id), second_id: None })]);
    assert!(state.info.turnover);
    let mut dodge = DodgeProc { target: D6Target::FourPlus, id };
    assert_eq!(dodge.d6_target(), D6Target::FourPlus);
    assert_eq!(dodge.apply_failure(&mut state), vec![AnyProc::KnockDown(KnockDown { id: Some(id), second_id: None })]);
}

#[test]
fn standing_up_costs_three_squares() {
    let mut state = full_board();
    let id = field(&mut state, TeamType::Home, 5, 5);
    state.get_mut_player(id).unwrap().status = PlayerStatus::Down;
    let mut up = StandUp { id };
    assert!(matches!(up.step(&mut state, ProcInput::Nothing), ProcState::Done));
    let p = state.get_player(id).unwrap();
    assert_eq!(p.status, PlayerStatus::Up);
    assert_eq!(p.moves, 3);
}

#[test]
fn walking_a_path_stops_at_its_first_event() {
    let mut state = full_board();
    let id = field(&mut state, TeamType::Home, 5, 5);
    state.set_active_player(id);
    let mut path = NodeIterator::from_stack(vec![
        PositionOrEvent::Event(PathingEvent::GFI(D6Target::TwoPlus)),
        PositionOrEvent::Position(pos(7, 5)),
        PositionOrEvent::Position(pos(6, 5)),
    ]);
    let r = MoveAction::continue_along_path(&mut path, &mut state);
    assert!(matches!(
        r,
        ProcState::NotDoneNew(AnyProc::GfiProc(SimpleProcContainer {
            proc: GfiProc { target: D6Target::TwoPlus, id: 0 },
            state: RollProcState::Init
        }))
    ));
    assert!(path.is_empty());
    let p = state.get_player(id).unwrap();
    assert_eq!(p.position, pos(7, 5));
    assert_eq!(p.moves, 2);
    assert!(!p.used);
    assert!(state.get_player_id_at(pos(5, 5)).is_none());
}

#[test]
fn a_kickoff_is_aimed_then_deviates() {
    let mut state = full_board();
    let mut kickoff = Kickoff { aim: pos(0, 0) };
    match kickoff.step(&mut state, ProcInput::Nothing) {
        ProcState::NeedAction(aa) => {
            assert_eq!(aa.get_team(), Some(TeamType::Away));
            assert!(aa.is_legal_non_path_action(Action::Simple(SimpleAT::KickoffAimMiddle)));
        },
        other => panic!("unexpected {:?}", other),
    }
    assert!(matches!(
        kickoff.step(&mut state, ProcInput::Action(Action::Simple(SimpleAT::KickoffAimMiddle))),
        ProcState::NeedRoll(RequestedRoll::Deviate)
    ));
    assert_eq!(kickoff.aim, pos(20, 7));
    assert!(matches!(
        kickoff.step(&mut state, ProcInput::Roll(RollResult::Deviate(D6::Three, D8::Five))),
        ProcState::DoneNew(AnyProc::KickoffTable(_))
    ));
    assert_eq!(state.ball(), BallState::InAir(pos(17, 7)));
}

#[test]
fn the_kickoff_table_applies_its_events() {
    let mut state = full_board();
    let mut table = KickoffTable {};
    match table.step(&mut state, ProcInput::Roll(RollResult::Sum2D6(Sum2D6::Two))) {
        ProcState::DoneNewProcs(procs) => assert_eq!(procs, vec![AnyProc::LandKickoff(LandKickoff {})]),
        other => panic!("unexpected {:?}", other),
    }
    assert_eq!((state.home.bribes, state.away.bribes), (1, 1));
    match table.step(&mut state, ProcInput::Roll(RollResult::Sum2D6(Sum2D6::Eight))) {
        ProcState::DoneNewProcs(procs) => assert_eq!(
            procs,
            vec![AnyProc::LandKickoff(LandKickoff {}), AnyProc::ChangingWeather(ChangingWeather {})]
        ),
        other => panic!("unexpected {:?}", other),
    }
    table.step(&mut state, ProcInput::Roll(RollResult::Sum2D6(Sum2D6::Three)));
    assert_eq!((state.info.home_turn, state.info.away_turn), (1, 1));
}

#[test]
fn changing_weather_may_bring_a_gust() {
    let mut state = full_board();
    state.set_ball(BallState::InAir(pos(20, 7)));
    let mut weather = ChangingWeather {};
    assert!(matches!(
        weather.step(&mut state, ProcInput::Roll(RollResult::Sum2D6(Sum2D6::Two))),
        ProcState::Done
    ));
    assert_eq!(state.info.weather, Weather::Sweltering);
    assert!(matches!(
        weather.step(&mut state, ProcInput::Roll(RollResult::Sum2D6(Sum2D6::Seven))),
        ProcState::NeedRoll(RequestedRoll::D8)
    ));
    assert_eq!(state.info.weather, Weather::Nice);
    assert!(matches!(weather.step(&mut state, ProcInput::Roll(RollResult::D8(D8::Four))), ProcState::Done));
    assert_eq!(state.ball(), BallState::InAir(pos(21, 7)));
}

#[test]
fn a_landing_kick_is_caught_or_bounces_or_goes_back() {
    let mut state = full_board();
    let catcher = field(&mut state, TeamType::Home, 20, 7);
    state.set_ball(BallState::InAir(pos(20, 7)));
    let mut land = LandKickoff {};
    match land.step(&mut state, ProcInput::Nothing) {
        ProcState::DoneNew(AnyProc::Catch(c)) => {
            assert_eq!(c.proc, Catch { id: catcher, target: D6Target::FourPlus, kick: true })
        },
        other => panic!("unexpected {:?}", other),
    }
    state.set_ball(BallState::InAir(pos(21, 7)));
    assert!(matches!(
        land.step(&mut state, ProcInput::Nothing),
        ProcState::DoneNew(AnyProc::Bounce(Bounce { kick: true }))
    ));
    state.set_ball(BallState::InAir(pos(5, 7)));
    assert!(matches!(land.step(&mut state, ProcInput::Nothing), ProcState::DoneNew(AnyProc::Touchback(_))));
}

fn block_scene() -> (GameState, PlayerID, PlayerID, Block) {
    let mut state = full_board();
    let attacker = field(&mut state, TeamType::Home, 5, 5);
    let defender = field(&mut state, TeamType::Away, 6, 5);
    state.set_active_player(attacker);
    state.info.player_action_type = Some(PosAT::StartBlock);
    let block = Block {
        dices: NumBlockDices::Two,
        defender,
        state: BlockProcState::Init,
        roll: [None, None, None],
        is_uphill: false,
    };
    (state, attacker, defender, block)
}

#[test]
fn a_block_rolls_and_offers_the_faces_and_a_reroll() {
    let (mut state, _, _, mut block) = block_scene();
    assert!(matches!(
        block.step(&mut state, ProcInput::Nothing),
        ProcState::NeedRoll(RequestedRoll::BlockDice(NumBlockDices::Two))
    ));
    let roll = [Some(BlockDice::Pow), Some(BlockDice::Skull), None];
    match block.step(&mut state, ProcInput::Roll(RollResult::BlockDice(roll))) {
        ProcState::NeedAction(aa) => {
            assert_eq!(aa.get_team(), Some(TeamType::Home));
            assert!(aa.is_legal_non_path_action(Action::Simple(SimpleAT::SelectPow)));
            assert!(aa.is_legal_non_path_action(Action::Simple(SimpleAT::SelectSkull)));
            assert!(aa.is_legal_non_path_action(Action::Simple(SimpleAT::UseReroll)));
            assert!(!aa.is_legal_non_path_action(Action::Simple(SimpleAT::SelectPush)));
        },
        other => panic!("unexpected {:?}", other),
    }
    assert_eq!(block.state, BlockProcState::SelectDiceOrReroll);
    assert!(matches!(
        block.step(&mut state, ProcInput::Action(Action::Simple(SimpleAT::UseReroll))),
        ProcState::NeedRoll(RequestedRoll::BlockDice(NumBlockDices::Two))
    ));
    assert_eq!(state.home.rerolls, 2);
    assert!(state.home.reroll_used);
}

#[test]
fn a_pow_knocks_down_and_pushes() {
    let (mut state, _, defender, mut block) = block_scene();
    match block.step(&mut state, ProcInput::Action(Action::Simple(SimpleAT::SelectPow))) {
        ProcState::DoneNewProcs(procs) => {
            assert_eq!(procs.len(), 2);
            assert_eq!(procs[0], AnyProc::KnockDown(KnockDown { id: Some(defender), second_id: None }));
            match &procs[1] {
                AnyProc::Push(p) => {
                    assert_eq!((p.from, p.on, p.follow_up_pos), (pos(5, 5), pos(6, 5), pos(6, 5)));
                    assert!(p.moves_to_make.is_empty() && p.knockdown_proc.is_none());
                },
                other => panic!("unexpected {:?}", other),
            }
        },
        other => panic!("unexpected {:?}", other),
    }
    assert!(!state.info.turnover);
}

#[test]
fn a_skull_is_a_turnover() {
    let (mut state, attacker, _, mut block) = block_scene();
    match block.step(&mut state, ProcInput::Action(Action::Simple(SimpleAT::SelectSkull))) {
        ProcState::DoneNewProcs(procs) => {
            assert_eq!(procs, vec![AnyProc::KnockDown(KnockDown { id: None, second_id: Some(attacker) })])
        },
        other => panic!("unexpected {:?}", other),
    }
    assert!(state.info.turnover);
}

#[test]
fn a_blitzer_pays_a_square_to_block() {
    let (mut state, attacker, _, mut block) = block_scene();
    state.info.player_action_type = Some(PosAT::StartBlitz);
    block.step(&mut state, ProcInput::Nothing);
    assert_eq!(state.info.player_action_type, Some(PosAT::StartMove));
    assert_eq!(state.get_player(attacker).unwrap().moves, 1);
}

fn pass_scene(modifier: i8) -> (GameState, Pass) {
    let mut state = full_board();
    let passer = field(&mut state, TeamType::Home, 5, 5);
    state.set_ball(BallState::Carried(passer));
    (state, Pass { pos: pos(10, 5), pass: D6Target::FourPlus, modifier })
}

#[test]
fn an_accurate_pass_checks_for_interference() {
    let (mut state, mut pass) = pass_scene(0);
    assert!(matches!(pass.step(&mut state, ProcInput::Nothing), ProcState::NeedRoll(RequestedRoll::D6)));
    match pass.step(&mut state, ProcInput::Roll(RollResult::D6(D6::Four))) {
        ProcState::DoneNewProcs(procs) => {
            assert_eq!(procs[0], AnyProc::TurnoverIfPossessionLost(TurnoverIfPossessionLost {}));
            match &procs[1] {
                AnyProc::DeflectOrResolve(d) => {
                    assert_eq!((d.from, d.to, d.result, d.throw_in_pos), (pos(5, 5), pos(10, 5), PassResult::Accurate, None));
                },
                other => panic!("unexpected {:?}", other),
            }
        },
        other => panic!("unexpected {:?}", other),
    }
}

#[test]
fn a_missed_pass_fumbles_deviates_or_scatters() {
    let (mut state, mut pass) = pass_scene(-1);
    assert!(matches!(
        pass.step(&mut state, ProcInput::Roll(RollResult::D6(D6::Two))),
        ProcState::NeedRoll(RequestedRoll::Deviate)
    ));
    assert!(matches!(
        pass.step(&mut state, ProcInput::Roll(RollResult::D6(D6::Three))),
        ProcState::NeedRoll(RequestedRoll::Scatter)
    ));
    assert!(!state.info.turnover);
    assert!(matches!(
        pass.step(&mut state, ProcInput::Roll(RollResult::D6(D6::One))),
        ProcState::DoneNew(AnyProc::Bounce(Bounce { kick: false }))
    ));
    assert!(state.info.turnover);
}

#[test]
fn a_scattered_pass_stops_at_the_edge() {
    let (mut state, mut pass) = pass_scene(0);
    match pass.step(&mut state, ProcInput::Roll(RollResult::Scatter(D8::Four, D8::Four, D8::Four))) {
        ProcState::DoneNewProcs(procs) => match &procs[1] {
            AnyProc::DeflectOrResolve(d) => {
                assert_eq!((d.to, d.result, d.throw_in_pos), (pos(13, 5), PassResult::Inaccurate, None))
            },
            other => panic!("unexpected {:?}", other),
        },
        other => panic!("unexpected {:?}", other),
    }
    pass.pos = pos(26, 5);
    match pass.step(&mut state, ProcInput::Roll(RollResult::Scatter(D8::Four, D8::Four, D8::Four))) {
        ProcState::DoneNewProcs(procs) => match &procs[1] {
            AnyProc::DeflectOrResolve(d) => assert_eq!((d.to, d.throw_in_pos), (pos(26, 5), Some(pos(26, 5)))),
            other => panic!("unexpected {:?}", other),
        },
        other => panic!("unexpected {:?}", other),
    }
}

fn offered_push(aa: &botbowl::actions::AvailableActions, x: i8, y: i8) -> bool {
    aa.is_legal_non_path_action(Action::Positional(PosAT::Push, pos(x, y)))
}

#[test]
fn a_push_offers_the_free_squares_behind_the_victim() {
    let mut state = full_board();
    field(&mut state, TeamType::Home, 5, 5);
    field(&mut state, TeamType::Away, 6, 6);
    field(&mut state, TeamType::Away, 7, 7);
    state.info.team_turn = TeamType::Home;
    let mut push = Push::new_pure(pos(5, 5), pos(6, 6));
    match push.step(&mut state, ProcInput::Nothing) {
        ProcState::NeedAction(aa) => {
            assert_eq!(aa.get_team(), Some(TeamType::Home));
            assert!(offered_push(&aa, 6, 7));
            assert!(offered_push(&aa, 7, 6));
            assert!(!offered_push(&aa, 7, 7));
        },
        other => panic!("unexpected {:?}", other),
    }
    assert!(push.moves_to_make.is_empty());
}

#[test]
fn pushing_onto_a_free_square_moves_the_victim_and_offers_the_follow_up() {
    let mut state = full_board();
    field(&mut state, TeamType::Home, 5, 5);
    let victim = field(&mut state, TeamType::Away, 6, 5);
    let mut push = Push::new_pure(pos(5, 5), pos(6, 5));
    push.step(&mut state, ProcInput::Nothing);
    match push.step(&mut state, ProcInput::Action(Action::Positional(PosAT::Push, pos(7, 6)))) {
        ProcState::NotDoneNew(p) => assert_eq!(p, AnyProc::FollowUp(FollowUp { to: pos(6, 5) })),
        other => panic!("unexpected {:?}", other),
    }
    assert_eq!(state.get_player(victim).unwrap().position, pos(7, 6));
    assert!(state.get_player_id_at(pos(6, 5)).is_none());
    assert!(matches!(push.step(&mut state, ProcInput::Nothing), ProcState::Done));
    assert!(push.moves_to_make.is_empty());
}

#[test]
fn a_chain_push_moves_every_player_of_the_chain() {
    let mut state = full_board();
    field(&mut state, TeamType::Home, 5, 5);
    let victim = field(&mut state, TeamType::Away, 6, 5);
    let a = field(&mut state, TeamType::Away, 7, 4);
    let b = field(&mut state, TeamType::Away, 7, 5);
    let c = field(&mut state, TeamType::Home, 7, 6);
    let mut push = Push::new_pure(pos(5, 5), pos(6, 5));
    match push.step(&mut state, ProcInput::Nothing) {
        ProcState::NeedAction(aa) => {
            assert!(offered_push(&aa, 7, 4) && offered_push(&aa, 7, 5) && offered_push(&aa, 7, 6));
        },
        other => panic!("unexpected {:?}", other),
    }
    match push.step(&mut state, ProcInput::Action(Action::Positional(PosAT::Push, pos(7, 5)))) {
        ProcState::NeedAction(aa) => {
            assert!(offered_push(&aa, 8, 4) && offered_push(&aa, 8, 5) && offered_push(&aa, 8, 6));
        },
        other => panic!("unexpected {:?}", other),
    }
    assert_eq!((push.from, push.on), (pos(6, 5), pos(7, 5)));
    match push.step(&mut state, ProcInput::Action(Action::Positional(PosAT::Push, pos(8, 5)))) {
        ProcState::NotDoneNew(p) => assert_eq!(p, AnyProc::FollowUp(FollowUp { to: pos(6, 5) })),
        other => panic!("unexpected {:?}", other),
    }
    assert_eq!(state.get_player(victim).unwrap().position, pos(7, 5));
    assert_eq!(state.get_player(b).unwrap().position, pos(8, 5));
    assert_eq!(state.get_player(a).unwrap().position, pos(7, 4));
    assert_eq!(state.get_player(c).unwrap().position, pos(7, 6));
    assert!(state.get_player_id_at(pos(6, 5)).is_none());
    assert!(matches!(push.step(&mut state, ProcInput::Nothing), ProcState::Done));
    assert_eq!(push.moves_to_make.len(), 1);
    assert!(matches!(push.step(&mut state, ProcInput::Nothing), ProcState::Done));
    assert!(push.moves_to_make.is_empty());
}

#[test]
fn crowd_push_picks_the_oob_square_not_the_occupied_straight_one() {
    let mut state = full_board();
    field(&mut state, TeamType::Home, 5, 1);
    let victim = field(&mut state, TeamType::Away, 6, 1);
    field(&mut state, TeamType::Away, 7, 1);
    field(&mut state, TeamType::Home, 7, 2);
    assert_eq!(Push::get_push_squares(pos(6, 1), pos(5, 1), &state), PushSquares::Crowd(pos(7, 0)));
    assert!(Push::is_crowd_push(pos(5, 1), pos(6, 1), &state));
    let mut push = Push::new_pure(pos(5, 1), pos(6, 1));
    push.knockdown_proc = Some(KnockDown::new_pure(victim));
    match push.step(&mut state, ProcInput::Nothing) {
        ProcState::NotDoneNew(p) => assert_eq!(p, AnyProc::FollowUp(FollowUp { to: pos(6, 1) })),
        other => panic!("unexpected {:?}", other),
    }
    assert!(state.get_player_id_at(pos(7, 1)).is_some(), "the straight-ahead blocker must not be displaced");
    assert_eq!(state.get_player_id_at(pos(7, 0)), Some(victim));
    match push.step(&mut state, ProcInput::Nothing) {
        ProcState::DoneNewProcs(procs) => {
            assert_eq!(procs, vec![AnyProc::Injury(Injury { id: victim, crowd: true, fouler: None })])
        },
        other => panic!("unexpected {:?}", other),
    }
    assert!(push.knockdown_proc.is_none());
}

#[test]
fn a_carrier_pushed_into_the_crowd_throws_the_ball_in() {
    let mut state = full_board();
    field(&mut state, TeamType::Home, 5, 2);
    let victim = field(&mut state, TeamType::Away, 5, 1);
    state.set_ball(BallState::Carried(victim));
    let mut push = Push::new_pure(pos(5, 2), pos(5, 1));
    push.step(&mut state, ProcInput::Nothing);
    assert_eq!(state.get_player_id_at(pos(5, 0)), Some(victim));
    match push.step(&mut state, ProcInput::Nothing) {
        ProcState::DoneNewProcs(procs) => assert_eq!(
            procs,
            vec![
                AnyProc::ThrowIn(ThrowIn { from: pos(5, 1) }),
                AnyProc::Injury(Injury { id: victim, crowd: true, fouler: None }),
            ]
        ),
        other => panic!("unexpected {:?}", other),
    }
    assert_eq!(state.ball(), BallState::InAir(pos(5, 1)));
}

#[test]
fn push_onto_loose_ball_bounces_after_the_knockdown() {
    let mut state = full_board();
    field(&mut state, TeamType::Home, 5, 5);
    let victim = field(&mut state, TeamType::Away, 6, 6);
    state.set_ball(BallState::OnGround(pos(7, 7)));
    let mut push = Push::new_pure(pos(5, 5), pos(6, 6));
    push.knockdown_proc = Some(KnockDown::new_pure(victim));
    push.step(&mut state, ProcInput::Nothing);
    push.step(&mut state, ProcInput::Action(Action::Positional(PosAT::Push, pos(7, 7))));
    match push.step(&mut state, ProcInput::Nothing) {
        ProcState::DoneNewProcs(procs) => assert_eq!(
            procs,
            vec![
                AnyProc::Bounce(Bounce { kick: false }),
                AnyProc::KnockDown(KnockDown { id: Some(victim), second_id: None }),
            ]
        ),
        other => panic!("unexpected {:?}", other),
    }
}

#[test]
fn a_carrier_pushed_into_the_endzone_scores() {
    let mut state = full_board();
    field(&mut state, TeamType::Away, 3, 5);
    let victim = field(&mut state, TeamType::Home, 2, 5);
    state.set_ball(BallState::Carried(victim));
    assert_eq!(state.get_endzone_x(TeamType::Home), 1);
    let mut push = Push::new_pure(pos(3, 5), pos(2, 5));
    push.step(&mut state, ProcInput::Nothing);
    push.step(&mut state, ProcInput::Action(Action::Positional(PosAT::Push, pos(1, 5))));
    assert_eq!(state.info.handle_td_by, Some(victim));
}

#[test]
fn a_roll_procedure_asks_for_its_roll_and_applies_a_success() {
    let mut state = full_board();
    let id = field(&mut state, TeamType::Home, 5, 5);
    let mut c = SimpleProcContainer::new(PickupProc { target: D6Target::FourPlus, id });
    assert_eq!(c.id(), id);
    assert!(matches!(
        c.step(&mut state, ProcInput::Nothing),
        ProcState::NeedRoll(RequestedRoll::D6PassFail(D6Target::FourPlus))
    ));
    assert!(matches!(c.step(&mut state, ProcInput::Roll(RollResult::Pass)), ProcState::Done));
    assert_eq!(state.ball(), BallState::Carried(id));
}

#[test]
fn a_failed_dodge_is_rerolled_by_the_dodge_skill_once() {
    let mut state = full_board();
    let id = state
        .add_new_player_to_field(PlayerStats::new_catcher(TeamType::Home), pos(5, 5))
        .unwrap();
    state.home.rerolls = 0;
    let mut c = SimpleProcContainer::new(DodgeProc { target: D6Target::ThreePlus, id });
    assert!(matches!(
        c.step(&mut state, ProcInput::Roll(RollResult::Fail)),
        ProcState::NeedRoll(RequestedRoll::D6PassFail(D6Target::ThreePlus))
    ));
    assert_eq!(c.state, RollProcState::RerollUsed);
    assert!(state.get_player(id).unwrap().used_skills.contains(&Skill::Dodge));
    match c.step(&mut state, ProcInput::Roll(RollResult::Fail)) {
        ProcState::DoneNewProcs(procs) => {
            assert_eq!(procs, vec![AnyProc::KnockDown(KnockDown { id: Some(id), second_id: None })])
        },
        other => panic!("unexpected {:?}", other),
    }
    assert!(state.info.turnover);
}

#[test]
fn a_failed_go_for_it_offers_the_team_reroll() {
    let mut state = full_board();
    let id = field(&mut state, TeamType::Home, 5, 5);
    state.set_active_player(id);
    let mut c = SimpleProcContainer::new(GfiProc { target: D6Target::TwoPlus, id });
    match c.step(&mut state, ProcInput::Roll(RollResult::Fail)) {
        ProcState::NeedAction(aa) => {
            assert_eq!(aa.get_team(), Some(TeamType::Home));
            assert!(aa.is_legal_non_path_action(Action::Simple(SimpleAT::UseReroll)));
            assert!(aa.is_legal_non_path_action(Action::Simple(SimpleAT::DontUseReroll)));
        },
        other => panic!("unexpected {:?}", other),
    }
    assert!(matches!(
        c.step(&mut state, ProcInput::Action(Action::Simple(SimpleAT::UseReroll))),
        ProcState::NeedRoll(RequestedRoll::D6PassFail(D6Target::TwoPlus))
    ));
    assert_eq!(state.home.rerolls, 2);
    assert!(state.home.reroll_used);
    assert!(!state.info.turnover);
    match c.step(&mut state, ProcInput::Roll(RollResult::Fail)) {
        ProcState::DoneNewProcs(procs) => {
            assert_eq!(procs, vec![AnyProc::KnockDown(KnockDown { id: Some(id), second_id: None })])
        },
        other => panic!("unexpected {:?}", other),
    }
}

#[test]
fn declining_the_team_reroll_applies_the_failure() {
    let mut state = full_board();
    let id = field(&mut state, TeamType::Home, 5, 5);
    state.set_ball(BallState::OnGround(pos(5, 5)));
    let mut c = SimpleProcContainer::new(PickupProc { target: D6Target::ThreePlus, id });
    match c.step(&mut state, ProcInput::Action(Action::Simple(SimpleAT::DontUseReroll))) {
        ProcState::DoneNewProcs(procs) => assert_eq!(procs, vec![AnyProc::Bounce(Bounce { kick: false })]),
        other => panic!("unexpected {:?}", other),
    }
    assert_eq!(state.home.rerolls, 3);
}

#[test]
fn a_procedure_on_the_stack_steps_as_its_kind() {
    let mut state = full_board();
    let id = field(&mut state, TeamType::Home, 5, 5);
    let mut p = AnyProc::Injury(Injury::new_pure(id));
    assert!(matches!(
        p.step(&mut state, ProcInput::Nothing),
        ProcState::NeedRoll(RequestedRoll::Sum2D6ThreeOutcomes(Sum2D6Target::EightPlus, Sum2D6Target::TenPlus))
    ));
    assert!(matches!(p.step(&mut state, ProcInput::Roll(RollResult::Fail)), ProcState::Done));
    assert_eq!(state.get_player(id).unwrap().status, PlayerStatus::Stunned);
}

#[test]
fn the_game_ends_with_the_higher_score_winning() {
    let mut state = full_board();
    state.away.score = 2;
    state.home.score = 1;
    match GameOver.step(&mut state, ProcInput::Nothing) {
        ProcState::NeedAction(aa) => {
            assert_eq!(aa.get_team(), Some(TeamType::Home));
            assert!(aa.is_legal_non_path_action(Action::Simple(SimpleAT::EndSetup)));
        },
        other => panic!("unexpected {:?}", other),
    }
    assert!(state.info.game_over);
    assert_eq!(state.info.winner, Some(TeamType::Away));
    let mut draw = full_board();
    GameOver.step(&mut draw, ProcInput::Nothing);
    assert_eq!(draw.info.winner, None);
}

#[test]
fn a_finished_game_takes_no_more_steps() {
    let mut state = full_board();
    state.info.game_over = true;
    assert_eq!(state.micro_step(ProcInput::Nothing), botbowl::model::MicroStepState::GameOver);
}

#[test]
fn losing_the_ball_is_a_turnover() {
    let mut state = full_board();
    state.info.team_turn = TeamType::Home;
    state.set_ball(BallState::OnGround(pos(5, 5)));
    let mut p = TurnoverIfPossessionLost {};
    assert!(matches!(p.step(&mut state, ProcInput::Nothing), ProcState::Done));
    assert!(state.info.turnover);
}

fn pass_in_flight() -> DeflectOrResolve {
    DeflectOrResolve {
        from: pos(5, 5),
        to: pos(9, 5),
        throw_in_pos: None,
        result: PassResult::Accurate,
        intercepters: Vec::new(),
    }
}

#[test]
fn a_lone_defender_in_the_passing_lane_tries_to_deflect() {
    let mut state = full_board();
    let passer = field(&mut state, TeamType::Home, 5, 5);
    let catcher = field(&mut state, TeamType::Home, 9, 5);
    let defender = field(&mut state, TeamType::Away, 7, 5);
    state.set_active_player(passer);
    let mut d = pass_in_flight();
    match d.step(&mut state, ProcInput::Nothing) {
        ProcState::DoneNew(AnyProc::Deflect(c)) => {
            assert_eq!(c.proc.id, defender);
            match c.proc.failed_deflect_proc.as_deref() {
                Some(AnyProc::Catch(k)) => assert_eq!(k.proc.id, catcher),
                other => panic!("unexpected {:?}", other),
            }
        },
        other => panic!("unexpected {:?}", other),
    }
    assert_eq!(d.intercepters.len(), 1);
    assert_eq!(d.intercepters[0].0, pos(7, 5));
}

#[test]
fn an_open_pass_flies_to_the_catcher() {
    let mut state = full_board();
    let passer = field(&mut state, TeamType::Home, 5, 5);
    let catcher = field(&mut state, TeamType::Home, 9, 5);
    state.set_active_player(passer);
    let mut d = pass_in_flight();
    match d.step(&mut state, ProcInput::Nothing) {
        ProcState::DoneNew(AnyProc::Catch(k)) => assert_eq!(k.proc.id, catcher),
        other => panic!("unexpected {:?}", other),
    }
    assert_eq!(state.ball(), BallState::InAir(pos(9, 5)));
}

#[test]
fn two_defenders_in_the_lane_let_the_defence_choose() {
    let mut state = full_board();
    let passer = field(&mut state, TeamType::Home, 5, 5);
    field(&mut state, TeamType::Away, 7, 5);
    let second = field(&mut state, TeamType::Away, 7, 6);
    state.set_active_player(passer);
    let mut d = pass_in_flight();
    match d.step(&mut state, ProcInput::Nothing) {
        ProcState::NeedAction(aa) => {
            assert_eq!(aa.get_team(), Some(TeamType::Away));
            assert!(aa.is_legal_non_path_action(Action::Positional(PosAT::SelectPosition, pos(7, 6))));
        },
        other => panic!("unexpected {:?}", other),
    }
    match d.step(&mut state, ProcInput::Action(Action::Positional(PosAT::SelectPosition, pos(7, 6)))) {
        ProcState::DoneNew(AnyProc::Deflect(c)) => {
            assert_eq!(c.proc.id, second);
            assert!(matches!(c.proc.failed_deflect_proc.as_deref(), Some(AnyProc::Bounce(_))));
        },
        other => panic!("unexpected {:?}", other),
    }
}

#[test]
fn a_turn_offers_the_players_who_have_not_acted() {
    let mut state = full_board();
    let home = field(&mut state, TeamType::Home, 5, 5);
    let spare = field(&mut state, TeamType::Home, 10, 10);
    field(&mut state, TeamType::Away, 6, 5);
    state.get_mut_player(spare).unwrap().used = true;
    state.info.blitz_available = false;
    let mut turn = Turn { team: TeamType::Home };
    match turn.step(&mut state, ProcInput::Nothing) {
        ProcState::NeedAction(aa) => {
            assert_eq!(aa.get_team(), Some(TeamType::Home));
            assert!(aa.is_legal_non_path_action(Action::Positional(PosAT::StartBlock, pos(5, 5))));
            assert!(aa.is_legal_non_path_action(Action::Positional(PosAT::StartMove, pos(5, 5))));
            assert!(aa.is_legal_non_path_action(Action::Positional(PosAT::StartFoul, pos(5, 5))));
            assert!(!aa.is_legal_non_path_action(Action::Positional(PosAT::StartBlitz, pos(5, 5))));
            assert!(!aa.is_legal_non_path_action(Action::Positional(PosAT::StartMove, pos(10, 10))));
            assert!(aa.is_legal_non_path_action(Action::Simple(SimpleAT::EndTurn)));
        },
        other => panic!("unexpected {:?}", other),
    }
    match turn.step(&mut state, ProcInput::Action(Action::Positional(PosAT::StartFoul, pos(5, 5)))) {
        ProcState::NotDoneNew(p) => {
            assert_eq!(p, AnyProc::MoveAction(MoveAction { player_id: home, state: MoveActionState::Init }))
        },
        other => panic!("unexpected {:?}", other),
    }
    assert_eq!(state.info.active_player, Some(home));
    assert_eq!(state.info.player_action_type, Some(PosAT::StartFoul));
    assert!(!state.info.foul_available);
    match turn.step(&mut state, ProcInput::Action(Action::Positional(PosAT::StartBlock, pos(5, 5)))) {
        ProcState::NotDoneNew(p) => assert_eq!(p, AnyProc::BlockAction(BlockAction {})),
        other => panic!("unexpected {:?}", other),
    }
    assert!(matches!(turn.step(&mut state, ProcInput::Action(Action::Simple(SimpleAT::EndTurn))), ProcState::Done));
    assert_eq!(state.info.active_player, None);
}

#[test]
fn a_turn_hands_a_touchdown_on_and_ends_on_a_turnover() {
    let mut state = full_board();
    let id = field(&mut state, TeamType::Home, 1, 5);
    state.info.handle_td_by = Some(id);
    let mut turn = Turn { team: TeamType::Home };
    match turn.step(&mut state, ProcInput::Nothing) {
        ProcState::NotDoneNew(p) => assert_eq!(p, AnyProc::Touchdown(Touchdown { id })),
        other => panic!("unexpected {:?}", other),
    }
    assert_eq!(state.info.handle_td_by, None);
    state.info.turnover = true;
    assert!(matches!(turn.step(&mut state, ProcInput::Nothing), ProcState::Done));
}

#[test]
fn stunned_players_turn_over_at_the_start_of_their_turn() {
    let mut state = full_board();
    let a = field(&mut state, TeamType::Home, 5, 5);
    let b = field(&mut state, TeamType::Home, 7, 5);
    let c = field(&mut state, TeamType::Away, 9, 5);
    for id in [a, b, c] {
        state.get_mut_player(id).unwrap().status = PlayerStatus::Stunned;
    }
    state.info.team_turn = TeamType::Home;
    state.set_active_player(b);
    assert!(matches!(TurnStunned {}.step(&mut state, ProcInput::Nothing), ProcState::Done));
    assert_eq!(state.get_player(a).unwrap().status, PlayerStatus::Down);
    assert_eq!(state.get_player(b).unwrap().status, PlayerStatus::Stunned);
    assert_eq!(state.get_player(c).unwrap().status, PlayerStatus::Stunned);
}

#[test]
fn a_half_kicks_off_then_hands_the_receivers_the_first_turn() {
    let mut state = full_board();
    let id = field(&mut state, TeamType::Home, 5, 5);
    state.info.kicking_first_half = TeamType::Away;
    let mut half = *Half::new(1);
    match half.step(&mut state, ProcInput::Nothing) {
        ProcState::NotDoneNewProcs(procs) => {
            assert_eq!(procs.len(), 4);
            assert_eq!(procs[1], Setup::new(TeamType::Away));
            assert_eq!(procs[2], Setup::new(TeamType::Home));
        },
        other => panic!("unexpected {:?}", other),
    }
    assert!(half.started && half.kickoff.is_none());
    assert_eq!(state.info.kicking_this_drive, TeamType::Away);
    assert!(state.get_player(id).is_err());
    assert_eq!(state.get_dugout().len(), 1);
    let back = state.add_new_player_to_field(PlayerStats::new_lineman(TeamType::Home), pos(5, 5)).unwrap();
    state.get_mut_player(back).unwrap().used = true;
    match half.step(&mut state, ProcInput::Nothing) {
        ProcState::NotDoneNewProcs(procs) => {
            assert_eq!(procs[1], AnyProc::Turn(Turn { team: TeamType::Home }));
        },
        other => panic!("unexpected {:?}", other),
    }
    assert_eq!((state.info.home_turn, state.info.away_turn), (1, 0));
    assert_eq!(state.info.team_turn, TeamType::Home);
    assert!(!state.get_player(back).unwrap().used);
}
