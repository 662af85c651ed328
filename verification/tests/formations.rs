use botbowl::board::BoardDims;
use botbowl::model::{Position, TeamType};
use botbowl::procedures::kickoff_procs::{Formation, Row};
use botbowl::table::{PlayerRole, SimpleAT};

#[test]
fn formations_offered_by_board_size() {
    assert_eq!(Formation::available(&BoardDims::default()), Formation::ALL.to_vec());
    assert_eq!(
        Formation::available(&BoardDims::new(16, 9, 4)),
        vec![Formation::Line, Formation::Spread, Formation::Wedge, Formation::Zone]
    );
    assert_eq!(
        Formation::available(&BoardDims::new(12, 7, 4)),
        vec![Formation::Line, Formation::Spread, Formation::Zone]
    );
    assert_eq!(Formation::available(&BoardDims::new(16, 9, 3)), vec![Formation::Line]);
    assert!(Formation::Line.fits(&BoardDims::new(10, 5, 1)));
    assert!(!Formation::Wedge.fits(&BoardDims::new(12, 7, 4)));
}

#[test]
fn formations_map_to_their_actions_and_back() {
    for f in Formation::ALL {
        assert_eq!(Formation::from_action(f.action()), Some(f));
    }
    assert_eq!(Formation::Wedge.action(), SimpleAT::SetupWedge);
    assert_eq!(Formation::from_action(SimpleAT::EndSetup), None);
}

#[test]
fn every_formation_lists_eleven_slots_opening_on_the_line() {
    for f in Formation::ALL {
        let slots = f.slots();
        assert_eq!(slots.len(), 11);
        for (i, slot) in slots.iter().take(3).enumerate() {
            assert_eq!(slot.2, Row::Los(i));
            assert_eq!(slot.0, PlayerRole::Lineman);
        }
    }
    assert_eq!(Formation::Spread.slots()[3], (PlayerRole::Blitzer, 1, Row::Wing(-1)));
}

#[test]
fn scrimmage_rows_fan_out_from_the_centre() {
    assert_eq!(Formation::los_rows_center_out(&BoardDims::default()), vec![8, 9, 7, 10, 6, 11, 5]);
    // 16 rows high: 14 playable, 6 on the line from row 5 to row 10 around centre 8.
    assert_eq!(Formation::los_rows_center_out(&BoardDims::new(10, 16, 2)), vec![8, 9, 7, 10, 6, 5]);
    assert_eq!(Formation::los_rows_center_out(&BoardDims::new(10, 5, 2)), vec![2, 3, 1]);
}

#[test]
fn slots_resolve_on_the_own_half() {
    let dims = BoardDims::default();
    let home = Formation::square(&dims, TeamType::Home, (PlayerRole::Lineman, 0, Row::Los(0)));
    assert_eq!(home, Some(Position::new((14, 8))));
    let away = Formation::square(&dims, TeamType::Away, (PlayerRole::Lineman, 0, Row::Los(0)));
    assert_eq!(away, Some(Position::new((13, 8))));
    let deep = Formation::square(&dims, TeamType::Home, (PlayerRole::Thrower, 6, Row::Off(-3)));
    assert_eq!(deep, Some(Position::new((20, 5))));
    let wing = Formation::square(&dims, TeamType::Away, (PlayerRole::Catcher, 3, Row::Wing(1)));
    assert_eq!(wing, Some(Position::new((10, 15))));
    // A small board clamps depth and rows, and has no seventh scrimmage row.
    let small = BoardDims::new(10, 5, 3);
    assert_eq!(Formation::square(&small, TeamType::Home, (PlayerRole::Lineman, 0, Row::Los(6))), None);
    assert_eq!(
        Formation::square(&small, TeamType::Home, (PlayerRole::Thrower, 6, Row::Off(3))),
        Some(Position::new((8, 3)))
    );
}

#[test]
fn formations_are_mirror_images_for_the_two_teams() {
    for dims in [BoardDims::default(), BoardDims::new(22, 11, 8), BoardDims::new(16, 9, 4)] {
        for f in Formation::available(&dims) {
            for slot in f.slots() {
                let h = Formation::square(&dims, TeamType::Home, slot);
                let a = Formation::square(&dims, TeamType::Away, slot);
                match (h, a) {
                    (Some(h), Some(a)) => {
                        assert_eq!(a.y, h.y);
                        assert_eq!(a.x, dims.width - 1 - h.x);
                        assert!(!dims.is_out(h) && !dims.is_out(a));
                        assert!(dims.is_on_team_side(h, TeamType::Home));
                        assert!(dims.is_on_team_side(a, TeamType::Away));
                    }
                    (None, None) => {}
                    other => panic!("{f:?} {slot:?} resolved on one side only: {other:?}"),
                }
            }
        }
    }
}
