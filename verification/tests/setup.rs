use botbowl::board::BoardDims;
use botbowl::model::{Position, TeamType};
use botbowl::procedures::kickoff_procs::{Formation, Setup};
use botbowl::rules::is_setup_legal;
use botbowl::table::PlayerRole;

fn boards() -> Vec<BoardDims> {
    vec![
        BoardDims::default(),
        BoardDims::new(22, 11, 8),
        BoardDims::new(18, 11, 6),
        BoardDims::new(16, 9, 4),
    ]
}

fn roster(n: usize) -> Vec<(usize, PlayerRole)> {
    let roles = [PlayerRole::Thrower, PlayerRole::Lineman, PlayerRole::Catcher, PlayerRole::Blitzer];
    (0..n).map(|i| (i, roles[i % roles.len()])).collect()
}

fn squares(placed: &[(usize, Position)]) -> Vec<Position> {
    let mut v: Vec<Position> = placed.iter().map(|(_, p)| *p).collect();
    v.sort_by_key(|p| (p.x, p.y));
    v
}

#[test]
fn every_offered_formation_fields_a_legal_team() {
    for dims in boards() {
        let reserves = roster(dims.team_size + 1);
        for team in [TeamType::Home, TeamType::Away] {
            for f in Formation::available(&dims) {
                let placed = Setup { team }.setup_formation(&dims, f, &reserves, &[]);
                assert_eq!(placed.len(), dims.team_size, "{f:?} on {dims:?}");
                let sq: Vec<Position> = placed.iter().map(|(_, p)| *p).collect();
                assert!(is_setup_legal(&dims, team, &sq, reserves.len() - placed.len()), "{f:?} on {dims:?}: {sq:?}");
                let mut ids: Vec<usize> = placed.iter().map(|(id, _)| *id).collect();
                ids.sort();
                ids.dedup();
                assert_eq!(ids.len(), placed.len());
                let mut uniq = squares(&placed);
                uniq.dedup();
                assert_eq!(uniq.len(), placed.len(), "{f:?} on {dims:?} stacks players");
            }
        }
    }
}

#[test]
fn offered_formations_field_different_squares() {
    for dims in boards() {
        let reserves = roster(dims.team_size + 1);
        let mut seen: Vec<(Formation, Vec<Position>)> = Vec::new();
        for f in Formation::available(&dims) {
            let occupied = squares(&Setup { team: TeamType::Home }.setup_formation(&dims, f, &reserves, &[]));
            assert!(seen.iter().all(|(_, other)| *other != occupied), "{f:?} repeats a formation on {dims:?}");
            seen.push((f, occupied));
        }
        assert!(seen.len() >= 2 || dims.team_size < 4);
    }
}

#[test]
fn both_teams_field_mirror_images() {
    let dims = BoardDims::default();
    let reserves = roster(12);
    for f in Formation::available(&dims) {
        let home = squares(&Setup { team: TeamType::Home }.setup_formation(&dims, f, &reserves, &[]));
        let mut away: Vec<Position> = Setup { team: TeamType::Away }
            .setup_formation(&dims, f, &reserves, &[])
            .iter()
            .map(|(_, p)| Position::new((dims.width - 1 - p.x, p.y)))
            .collect();
        away.sort_by_key(|p| (p.x, p.y));
        assert_eq!(home, away, "{f:?} is not mirror-symmetric");
    }
}

#[test]
fn linemen_take_the_line_first() {
    let dims = BoardDims::default();
    let reserves = roster(12);
    let placed = Setup { team: TeamType::Home }.setup_formation(&dims, Formation::Line, &reserves, &[]);
    // Lineman ids are 1, 5, 9: the three centre squares of the line go to them.
    assert_eq!(placed[0], (1, Position::new((14, 8))));
    assert_eq!(placed[1], (5, Position::new((14, 9))));
    assert_eq!(placed[2], (9, Position::new((14, 7))));
}

#[test]
fn a_small_bench_fields_everyone() {
    let dims = BoardDims::default();
    let reserves = roster(2);
    let placed = Setup { team: TeamType::Away }.setup_formation(&dims, Formation::Zone, &reserves, &[]);
    assert_eq!(placed.len(), 2);
    let sq: Vec<Position> = placed.iter().map(|(_, p)| *p).collect();
    assert!(is_setup_legal(&dims, TeamType::Away, &sq, 0));
}

#[test]
fn reserve_squares_avoid_taken_squares_and_wings() {
    let dims = BoardDims::default();
    let first = Setup::reserve_square(&dims, TeamType::Home, &[], &Vec::new());
    assert_eq!(first, Some(Position::new((14, 8))));
    let taken = vec![(0, Position::new((14, 8))), (1, Position::new((14, 7)))];
    assert_eq!(Setup::reserve_square(&dims, TeamType::Home, &[], &taken), Some(Position::new((14, 9))));
    let away = Setup::reserve_square(&dims, TeamType::Away, &[Position::new((13, 8))], &Vec::new());
    assert_eq!(away, Some(Position::new((13, 7))));
}
