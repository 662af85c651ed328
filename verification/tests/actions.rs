use botbowl::actions::{AvailableActions, SimpleATSet};
use botbowl::model::{Action, Position, TeamType};
use botbowl::table::{PosAT, SimpleAT};

#[test]
fn simple_action_sets() {
    let mut s = SimpleATSet::new();
    assert!(s.is_empty());
    assert!(s.insert(SimpleAT::EndTurn));
    assert!(!s.insert(SimpleAT::EndTurn));
    assert!(s.contains(&SimpleAT::EndTurn));
    assert!(!s.contains(&SimpleAT::Kick));
    assert!(!s.is_empty());
}

#[test]
fn offers_are_legal_and_collected() {
    let mut aa = *AvailableActions::new(TeamType::Home);
    assert!(aa.is_empty());
    assert_eq!(aa.get_team(), Some(TeamType::Home));
    aa.insert_simple(SimpleAT::EndTurn);
    aa.insert_positional(PosAT::StartMove, vec![Position::new((3, 4)), Position::new((5, 6))]);
    aa.insert_positional(PosAT::StartBlock, vec![Position::new((5, 6))]);
    aa.insert_positional(PosAT::Move, vec![]);
    assert!(!aa.is_empty());
    assert!(aa.is_legal_non_path_action(Action::Simple(SimpleAT::EndTurn)));
    assert!(!aa.is_legal_non_path_action(Action::Simple(SimpleAT::Kick)));
    assert!(aa.is_legal_non_path_action(Action::Positional(PosAT::StartMove, Position::new((3, 4)))));
    assert!(aa.is_legal_non_path_action(Action::Positional(PosAT::StartBlock, Position::new((5, 6)))));
    assert!(!aa.is_legal_non_path_action(Action::Positional(PosAT::StartBlock, Position::new((3, 4)))));
    let mut out = Vec::new();
    aa.collect_non_path_actions(&mut out);
    assert_eq!(
        out,
        vec![
            Action::Positional(PosAT::StartMove, Position::new((3, 4))),
            Action::Positional(PosAT::StartMove, Position::new((5, 6))),
            Action::Positional(PosAT::StartBlock, Position::new((5, 6))),
            Action::Simple(SimpleAT::EndTurn),
        ]
    );
    assert!(aa.get_positional().is_some());
    assert!(!aa.has_paths());
}

#[test]
fn mirrored_offers_reflect_and_change_hands() {
    let mut aa = *AvailableActions::new(TeamType::Home);
    aa.insert_simple(SimpleAT::EndTurn);
    aa.insert_positional(PosAT::StartMove, vec![Position::new((3, 4))]);
    let m = aa.mirrored(28);
    assert_eq!(m.get_team(), Some(TeamType::Away));
    assert!(m.is_legal_non_path_action(Action::Simple(SimpleAT::EndTurn)));
    assert!(m.is_legal_non_path_action(Action::Positional(PosAT::StartMove, Position::new((24, 4)))));
    assert!(!m.is_legal_non_path_action(Action::Positional(PosAT::StartMove, Position::new((3, 4)))));
    let back = m.mirrored(28);
    assert_eq!(back, aa);
    assert_eq!(AvailableActions::default(), *AvailableActions::new_empty());
}
