use botbowl::model::{other_team, Direction, Position, TeamType, HEIGHT, WIDTH};
use botbowl::pitch::FullPitch;

#[test]
fn pitch_reads_back_what_was_written() {
    let mut p: FullPitch<Option<u8>> = FullPitch::new_empty();
    assert_eq!(*p.get(3, 4), None);
    *p.get_pos_mut(Position::new((3, 4))) = Some(9);
    *p.get_mut(5, 6) = Some(2);
    assert_eq!(*p.get_pos(Position::new((3, 4))), Some(9));
    assert_eq!(*p.get(5, 6), Some(2));
    assert_eq!(p.take_pos(Position::new((3, 4))), Some(9));
    assert_eq!(*p.get(3, 4), None);
    let cells = p.iter_position();
    assert_eq!(cells.len(), WIDTH * HEIGHT);
    assert_eq!(cells[5 * HEIGHT + 6], (Position::new((5, 6)), &Some(2)));
    assert_eq!(p.iter().iter().filter(|v| v.is_some()).count(), 1);
    p.clear();
    assert!(p.iter().iter().all(|v| v.is_none()));
    let filled = FullPitch::filled(7u8);
    assert!(filled.iter().iter().all(|v| **v == 7));
}

#[test]
fn all_positions_runs_column_by_column() {
    let all = Position::all_positions();
    assert_eq!(all.len(), WIDTH * HEIGHT);
    assert_eq!(all[0], Position::new((0, 0)));
    assert_eq!(all[1], Position::new((0, 1)));
    assert_eq!(all[HEIGHT], Position::new((1, 0)));
    assert_eq!(all[WIDTH * HEIGHT - 1], Position::new((WIDTH as i8 - 1, HEIGHT as i8 - 1)));
}

#[test]
fn positions_and_directions() {
    let p = Position::new((5, 5));
    let q = p.add_direction(Direction::upright());
    assert_eq!(q.sub_direction(Direction::upright()), p);
    assert_eq!(q.sub_position(p), Direction::upright());
    assert_eq!(p.distance_to(&Position::new((8, 3))), 3);
    assert_eq!(Direction::up().scale(3), Direction { dx: 0, dy: -3 });
    assert_eq!(Direction::downleft().distance(), 1);
    assert_eq!(Direction::from_pair((1, -1)), Direction::upright());
    assert!(Position::new((0, 3)).is_out());
    assert!(!Position::new((1, 1)).is_out());
    assert_eq!(Position::new((3, 2)).to_usize().ok(), Some((3, 2)));
    assert!(Position::new((-1, 2)).to_usize().is_err());
    assert_eq!(Position::from_usize(4, 7).ok(), Some(Position::new((4, 7))));
    assert!(Position::from_usize(400, 7).is_err());
    assert_eq!(other_team(TeamType::Home), TeamType::Away);
    assert_eq!(other_team(other_team(TeamType::Away)), TeamType::Away);
}

#[test]
fn direction_tables() {
    let all = Direction::all_directions_as_array();
    assert_eq!(all.len(), 8);
    assert!(all.iter().all(|d| d.distance() == 1));
    let toward = Direction::all_directions_toward(-1);
    for (a, b) in all.iter().zip(toward.iter()) {
        assert_eq!(b.dx, -a.dx);
        assert_eq!(b.dy, a.dy);
    }
    assert_eq!(Direction::all_directions_toward(1), all);
    assert_eq!(Direction::all_directions_iter(), all);
}
