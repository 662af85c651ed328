use botbowl::actions::AvailableActions;
use botbowl::dice::{D6Target, RequestedRoll};
use botbowl::engine::apply_proc_return;
use botbowl::board::BoardDims;
use botbowl::gamestate::GameState;
use botbowl::model::{Action, MicroStepState, SomeProcInput, TeamType};
use botbowl::procedures::any_proc::AnyProc;
use botbowl::procedures::ball_procs::Bounce;
use botbowl::procedures::game_procs::GameOver;
use botbowl::procedures::procedure_tools::ProcState;
use botbowl::table::SimpleAT;

fn game_over() -> AnyProc {
    AnyProc::GameOver(*GameOver::new())
}

#[test]
fn unfinished_procedures_stay_under_what_they_start() {
    let mut stack = vec![game_over()];
    let mut aa = AvailableActions::new(TeamType::Home);
    aa.insert_simple(SimpleAT::EndTurn);
    let mut pending = None;
    let r = apply_proc_return(&mut stack, Bounce::new(), ProcState::NotDoneNew(Bounce::new_with_kick_arg(true)), &mut aa, &mut pending);
    assert_eq!(r, MicroStepState::RunAgain);
    assert_eq!(stack, vec![game_over(), Bounce::new(), Bounce::new_with_kick_arg(true)]);
    assert!(aa.is_empty());
    assert_eq!(pending, None);

    let r = apply_proc_return(&mut stack, Bounce::new(), ProcState::Done, &mut aa, &mut pending);
    assert_eq!(r, MicroStepState::RunAgain);
    assert_eq!(stack.len(), 3);

    let r = apply_proc_return(
        &mut stack,
        Bounce::new(),
        ProcState::DoneNewProcs(vec![Bounce::new(), Bounce::new()]),
        &mut aa,
        &mut pending,
    );
    assert_eq!(r, MicroStepState::RunAgain);
    assert_eq!(stack.len(), 5);
}

#[test]
fn waiting_procedures_record_what_they_wait_for() {
    let mut stack = vec![game_over()];
    let mut aa = AvailableActions::new_empty();
    let mut pending = None;
    let roll = RequestedRoll::D6PassFail(D6Target::FourPlus);
    let r = apply_proc_return(&mut stack, Bounce::new(), ProcState::NeedRoll(roll), &mut aa, &mut pending);
    assert_eq!(r, MicroStepState::NeedRoll);
    assert_eq!(pending, Some(roll));
    assert_eq!(stack, vec![game_over(), Bounce::new()]);

    let mut offered = AvailableActions::new(TeamType::Away);
    offered.insert_simple(SimpleAT::Kick);
    let expected = (*offered).clone();
    let r = apply_proc_return(&mut stack, Bounce::new(), ProcState::NeedAction(offered), &mut aa, &mut pending);
    assert_eq!(r, MicroStepState::NeedAction);
    assert_eq!(pending, None);
    assert_eq!(*aa, expected);
    let r = apply_proc_return(&mut stack, Bounce::new(), ProcState::NeedActionInPlace, &mut aa, &mut pending);
    assert_eq!(r, MicroStepState::NeedAction);
    assert_eq!(*aa, expected);
}

#[test]
fn proc_state_from_procs() {
    assert!(matches!(ProcState::from(Vec::new()), ProcState::Done));
    assert!(matches!(ProcState::from(vec![Bounce::new()]), ProcState::DoneNewProcs(v) if v.len() == 1));
}

#[test]
fn a_finished_game_ignores_further_input() {
    let mut state = GameState::empty_state_with(BoardDims::new(28, 17, 11));
    state.info.game_over = true;
    let before_turn = state.info.home_turn;
    assert_eq!(
        state.step_with_roll_or_action(SomeProcInput::Action(Action::Simple(SimpleAT::EndTurn))),
        MicroStepState::GameOver
    );
    assert!(state.step(Action::Simple(SimpleAT::EndTurn)).is_ok());
    assert!(state.info.game_over);
    assert_eq!(state.info.home_turn, before_turn);
    assert!(state.pending_roll.is_none());
}

#[test]
fn simple_and_positional_steps_on_a_finished_game() {
    let mut state = GameState::empty_state_with(BoardDims::new(28, 17, 11));
    state.info.game_over = true;
    state.step_simple(SimpleAT::EndTurn);
    state.step_positional(botbowl::table::PosAT::Move, botbowl::model::Position::new((5, 5)));
    assert!(state.info.game_over);
}

#[test]
fn nothing_is_legal_when_nothing_is_offered() {
    let state = GameState::empty_state_with(BoardDims::new(28, 17, 11));
    assert!(!state.is_legal_action(&Action::Simple(SimpleAT::EndTurn)));
    assert!(!state.is_legal_action(&Action::Positional(
        botbowl::table::PosAT::Move,
        botbowl::model::Position::new((5, 5))
    )));
}
