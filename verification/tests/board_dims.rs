use botbowl::board::BoardDims;
use botbowl::model::{Coord, Position, TeamType, HEIGHT, WIDTH};

/// `(playable height, LOS rows, wing rows)`, from the full pitch down to the smallest board.
const DESCENT: [(Coord, Coord, Coord); 13] = [
    (15, 7, 4),
    (14, 6, 4),
    (13, 7, 3),
    (12, 6, 3),
    (11, 7, 2),
    (10, 6, 2),
    (9, 7, 1),
    (8, 6, 1),
    (7, 5, 1),
    (6, 6, 0),
    (5, 5, 0),
    (4, 4, 0),
    (3, 3, 0),
];

fn dims_for(ph: Coord) -> Option<BoardDims> {
    let (w, h) = (10, ph + 2);
    ((w as usize) <= WIDTH && (h as usize) <= HEIGHT).then(|| BoardDims::new(w, h, 1))
}

#[test]
fn bands_follow_the_descent_order_and_always_tile_the_pitch() {
    for (ph, los, wing) in DESCENT {
        let Some(dims) = dims_for(ph) else { continue };
        assert_eq!(
            (dims.los_rows(), dims.wing_rows()),
            (los, wing),
            "playable height {ph} should split {los} + 2x{wing}"
        );
        assert_eq!(los + 2 * wing, ph);
        assert_eq!(dims.north_wing_y_range().count(), wing as usize);
        assert_eq!(dims.south_wing_y_range().count(), wing as usize);
        assert_eq!(dims.los_y_range().count(), los as usize);
        let covered: Vec<Coord> = dims
            .north_wing_y_range()
            .chain(dims.los_y_range())
            .chain(dims.south_wing_y_range())
            .collect();
        assert_eq!(covered, (1..=ph).collect::<Vec<_>>(), "bands must tile rows 1..={ph}");
    }
}

#[test]
fn bands_are_symmetric_in_y_at_every_height() {
    for (ph, ..) in DESCENT {
        let Some(dims) = dims_for(ph) else { continue };
        let flip = |y: Coord| dims.height - 1 - y;
        assert_eq!(
            flip(*dims.los_y_range().end()),
            *dims.los_y_range().start(),
            "LOS band not y-symmetric at playable height {ph}"
        );
        let north: Vec<Coord> = dims.north_wing_y_range().map(flip).collect();
        let south: Vec<Coord> = dims.south_wing_y_range().rev().collect();
        assert_eq!(north, south, "wings not y-mirrors at playable height {ph}");
    }
}

#[test]
fn setup_caps_scale_with_the_bands() {
    for (ph, los, wing) in DESCENT {
        let Some(dims) = dims_for(ph) else { continue };
        assert_eq!(dims.max_players_per_wing(), ((wing + 1) / 2) as usize);
        assert_eq!(dims.min_players_on_los(), los.min(3) as usize);
        assert!(dims.min_players_on_los() <= los as usize);
    }
}

#[test]
fn scatter_divisor_is_a_noop_on_full_pitch_and_shrinks_narrow_boards() {
    assert_eq!(BoardDims::default().scatter_divisor(), 1, "full pitch must be a no-op");

    if let Ok(dims) = BoardDims::try_new(16, 9, 3) {
        assert_eq!(dims.scatter_divisor(), 2);
        assert!(12 / dims.scatter_divisor() <= 7);
    }
    if let Ok(dims) = BoardDims::try_new(14, 7, 3) {
        assert_eq!(dims.scatter_divisor(), 3);
        assert!(12 / dims.scatter_divisor() <= 5);
    }
}

#[test]
fn ma_cap_always_falls_short_of_the_endzone() {
    assert_eq!(BoardDims::default().ma_cap(), 10, "full pitch must be a no-op (exceeds every stock MA)");

    for (w, h, players) in [(16, 9, 3), (14, 7, 3), (12, 5, 1), (10, 5, 1), (8, 5, 1)] {
        let Ok(dims) = BoardDims::try_new(w, h, players) else { continue };
        assert!(
            dims.ma_cap() + 2 < dims.los_to_endzone_distance(),
            "{w}x{h}: ma_cap {} + 2 GFI must fall short of the {}-square LOS-to-endzone distance",
            dims.ma_cap(),
            dims.los_to_endzone_distance(),
        );
    }
}

#[test]
fn try_new_reports_every_rule_new_panics_on() {
    assert!(BoardDims::try_new(11, 9, 2).unwrap_err().contains("must be even"));
    assert!(BoardDims::try_new(8, 9, 2).unwrap_err().contains(">= 8"));
    assert!(BoardDims::try_new(10, 4, 2).unwrap_err().contains(">= 3"));
    assert!(BoardDims::try_new(10, 5, 0).unwrap_err().contains("team_size"));
    assert!(BoardDims::try_new(WIDTH as Coord + 2, 5, 1)
        .unwrap_err()
        .contains("exceeds compiled capacity"));
    assert_eq!(BoardDims::try_new(10, 5, 1).unwrap(), BoardDims::new(10, 5, 1));
}

#[test]
fn try_new_error_messages_carry_the_offending_values() {
    assert_eq!(
        BoardDims::try_new(11, 9, 2).unwrap_err(),
        "playable width must be even and >= 8, got 9"
    );
    assert_eq!(BoardDims::try_new(10, 4, 2).unwrap_err(), "playable height must be >= 3, got 2");
    assert_eq!(BoardDims::try_new(10, 5, 0).unwrap_err(), "team_size must be >= 1, got 0");
    let msg = BoardDims::try_new(30, 5, 1).unwrap_err();
    assert!(msg.starts_with("board 30x5/1"), "{msg}");
}

#[test]
fn default_board_is_the_full_pitch() {
    let d = BoardDims::default();
    assert_eq!((d.width, d.height, d.team_size), (28, 17, 11));
    assert_eq!(d.los_x(TeamType::Home), 14);
    assert_eq!(d.los_x(TeamType::Away), 13);
    assert_eq!(d.los_home_x(), 14);
    assert_eq!(d.los_away_x(), 13);
    assert_eq!(d.endzone_x(TeamType::Home), 1);
    assert_eq!(d.endzone_x(TeamType::Away), 26);
    assert_eq!(d.los_to_endzone_distance(), 13);
    assert_eq!(*d.los_y_range().start(), 5);
    assert_eq!(*d.los_y_range().end(), 11);
    assert_eq!(d.roster_per_team(), 12);
    assert!(d.kickoff_table_enabled());
    assert_eq!(d.max_scatter(), 14);
}

#[test]
fn sides_and_border_follow_the_halfway_line() {
    let d = BoardDims::new(10, 7, 3);
    assert!(d.is_on_team_side(Position::new((5, 3)), TeamType::Home));
    assert!(!d.is_on_team_side(Position::new((4, 3)), TeamType::Home));
    assert!(d.is_on_team_side(Position::new((4, 3)), TeamType::Away));
    assert!(d.is_out(Position::new((0, 3))));
    assert!(d.is_out(Position::new((9, 3))));
    assert!(d.is_out(Position::new((3, 6))));
    assert!(!d.is_out(Position::new((8, 5))));
    assert!(!d.kickoff_table_enabled());
}

#[test]
fn a_board_from_playable_squares_adds_the_border() {
    assert_eq!(BoardDims::try_from_playable(None, None, None).unwrap(), BoardDims::new(28, 17, 11));
    assert_eq!(BoardDims::try_from_playable(Some(14), Some(7), Some(3)).unwrap(), BoardDims::new(16, 9, 3));
    assert!(BoardDims::try_from_playable(Some(13), None, None).unwrap_err().contains("must be even"));
    assert!(BoardDims::try_from_playable(None, Some(2), None).unwrap_err().contains(">= 3"));
}
