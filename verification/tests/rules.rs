use botbowl::board::BoardDims;
use botbowl::dice::D6Target;
use botbowl::model::{PlayerStatus, Position, TeamType, Weather};
use botbowl::player::{FieldedPlayer, PlayerStats, SkillSet};
use botbowl::rules::{
    get_best_kickoff_aim_for, get_blockdices_from, get_catch_target, get_pass_modifier,
    get_pass_target, get_tz_on, is_setup_legal,
};
use botbowl::table::NumBlockDices;

fn player(id: usize, team: TeamType, st: u8, xy: (i8, i8)) -> FieldedPlayer {
    let mut stats = PlayerStats::new_lineman(team);
    stats.str_ = st;
    FieldedPlayer {
        id,
        stats,
        position: Position::new(xy),
        status: PlayerStatus::Up,
        used: false,
        moves: 0,
        used_skills: SkillSet::new(),
    }
}

#[test]
fn block_dice_by_strength() {
    let a = player(0, TeamType::Home, 3, (10, 8));
    let d = player(1, TeamType::Away, 3, (11, 8));
    let players = vec![a.clone(), d.clone()];
    assert_eq!(get_blockdices_from(&players, &a, a.position, &d), NumBlockDices::One);

    let strong = player(0, TeamType::Home, 7, (10, 8));
    let players = vec![strong.clone(), d.clone()];
    assert_eq!(get_blockdices_from(&players, &strong, strong.position, &d), NumBlockDices::Three);

    let weak = player(0, TeamType::Home, 2, (10, 8));
    let big = player(1, TeamType::Away, 5, (11, 8));
    let players = vec![weak.clone(), big.clone()];
    assert_eq!(get_blockdices_from(&players, &weak, weak.position, &big), NumBlockDices::ThreeUphill);
    let four = player(0, TeamType::Home, 3, (10, 8));
    let players = vec![four.clone(), big.clone()];
    assert_eq!(get_blockdices_from(&players, &four, four.position, &big), NumBlockDices::TwoUphill);
}

#[test]
fn free_team_mates_assist() {
    let a = player(0, TeamType::Home, 3, (10, 8));
    let d = player(1, TeamType::Away, 3, (11, 8));
    let helper = player(2, TeamType::Home, 3, (12, 9));
    let players = vec![a.clone(), d.clone(), helper.clone()];
    assert_eq!(get_blockdices_from(&players, &a, a.position, &d), NumBlockDices::Two);

    // A second defender marking the helper takes the assist away.
    let marker = player(3, TeamType::Away, 3, (13, 10));
    let players = vec![a.clone(), d.clone(), helper.clone(), marker.clone()];
    assert_eq!(get_blockdices_from(&players, &a, a.position, &d), NumBlockDices::One);

    // A downed helper has no tackle zone and gives no assist.
    let mut down = helper.clone();
    down.status = PlayerStatus::Down;
    let players = vec![a.clone(), d.clone(), down];
    assert_eq!(get_blockdices_from(&players, &a, a.position, &d), NumBlockDices::One);

    // A defender's team-mate next to the attacker's square assists the defence.
    let guard = player(4, TeamType::Away, 3, (9, 9));
    let players = vec![a.clone(), d.clone(), guard];
    assert_eq!(get_blockdices_from(&players, &a, a.position, &d), NumBlockDices::TwoUphill);

    // Blocking from another square (a blitz) counts the defence around that square.
    let players = vec![a.clone(), d.clone(), player(5, TeamType::Away, 3, (9, 9))];
    assert_eq!(
        get_blockdices_from(&players, &a, Position::new((12, 7)), &d),
        NumBlockDices::One
    );
}

fn home_setup() -> Vec<Position> {
    let mut v = vec![Position::new((14, 7)), Position::new((14, 8)), Position::new((14, 9))];
    for y in 5..=11 {
        v.push(Position::new((16, y)));
    }
    v.push(Position::new((18, 8)));
    v
}

#[test]
fn a_full_team_with_three_on_the_line_is_legal() {
    let dims = BoardDims::default();
    assert!(is_setup_legal(&dims, TeamType::Home, &home_setup(), 0));
    let away: Vec<Position> = home_setup().iter().map(|p| Position::new((27 - p.x, p.y))).collect();
    assert!(is_setup_legal(&dims, TeamType::Away, &away, 0));
}

#[test]
fn setup_rules_are_enforced() {
    let dims = BoardDims::default();
    // Too few on the pitch while others wait on the bench.
    let mut short = home_setup();
    short.pop();
    assert!(!is_setup_legal(&dims, TeamType::Home, &short, 1));
    // ... but fine when nobody is left to field.
    assert!(is_setup_legal(&dims, TeamType::Home, &short, 0));
    // Only two on the line.
    let mut two = home_setup();
    two[0] = Position::new((15, 7));
    assert!(!is_setup_legal(&dims, TeamType::Home, &two, 0));
    // A player on the opponent's half.
    let mut across = home_setup();
    across[10] = Position::new((12, 8));
    assert!(!is_setup_legal(&dims, TeamType::Home, &across, 0));
    // Three in the north wing.
    let mut wing = home_setup();
    wing[7] = Position::new((16, 1));
    wing[8] = Position::new((17, 2));
    wing[9] = Position::new((18, 3));
    assert!(!is_setup_legal(&dims, TeamType::Home, &wing, 0));
    wing[9] = Position::new((18, 8));
    assert!(is_setup_legal(&dims, TeamType::Home, &wing, 0));
    // Out of bounds.
    let mut out = home_setup();
    out[10] = Position::new((27, 8));
    assert!(!is_setup_legal(&dims, TeamType::Home, &out, 0));
    // A small team needs only what it has on the line.
    let small = BoardDims::new(10, 5, 2);
    assert!(is_setup_legal(&small, TeamType::Home, &[Position::new((5, 2)), Position::new((5, 3))], 0));
    assert!(!is_setup_legal(&small, TeamType::Home, &[Position::new((5, 2)), Position::new((6, 3))], 0));
}

#[test]
fn kickoff_aim_is_centre_of_receiving_half_and_mirror_symmetric() {
    let dims = BoardDims::default();
    let home_kicks = get_best_kickoff_aim_for(&dims, TeamType::Home);
    let away_kicks = get_best_kickoff_aim_for(&dims, TeamType::Away);

    assert_eq!(home_kicks.y, away_kicks.y, "both aims sit on the same row");
    assert_eq!(
        away_kicks.x,
        dims.width - 1 - home_kicks.x,
        "aims must mirror under x -> width-1-x (got home {} / away {} on width {})",
        home_kicks.x,
        away_kicks.x,
        dims.width
    );
    assert!(dims.is_on_team_side(home_kicks, TeamType::Away), "Home's kick must land in Away's half, got {home_kicks:?}");
    assert!(dims.is_on_team_side(away_kicks, TeamType::Home), "Away's kick must land in Home's half, got {away_kicks:?}");
    assert!(!dims.is_out(home_kicks) && !dims.is_out(away_kicks), "aims are in bounds");
    assert_eq!(home_kicks, Position::new((7, 7)));
    assert_eq!(away_kicks, Position::new((20, 7)));
}

#[test]
fn tackle_zones_and_catch_rolls() {
    let catcher = player(0, TeamType::Home, 3, (10, 8));
    let m1 = player(1, TeamType::Away, 3, (11, 8));
    let m2 = player(2, TeamType::Away, 3, (9, 9));
    let mut prone = player(3, TeamType::Away, 3, (10, 9));
    prone.status = PlayerStatus::Stunned;
    let mate = player(4, TeamType::Home, 3, (10, 7));
    let players = vec![catcher.clone(), m1, m2, prone, mate];
    assert_eq!(get_tz_on(&players, &catcher), 2);
    // AG 3: 4+, two tackle zones: 6+.
    assert_eq!(get_catch_target(&players, &catcher, Weather::Nice), D6Target::SixPlus);
    assert_eq!(get_catch_target(&[catcher.clone()], &catcher, Weather::Nice), D6Target::FourPlus);
    assert_eq!(get_catch_target(&[catcher.clone()], &catcher, Weather::Rain), D6Target::FivePlus);
}

#[test]
fn pass_modifiers_by_range() {
    let passer = player(0, TeamType::Home, 3, (5, 5));
    let alone = vec![passer.clone()];
    let from = Position::new((5, 5));
    assert_eq!(get_pass_modifier(&alone, &passer, from, Position::new((7, 6))), Some(0));
    assert_eq!(get_pass_modifier(&alone, &passer, from, Position::new((10, 5))), Some(-1));
    assert_eq!(get_pass_modifier(&alone, &passer, from, Position::new((12, 8))), Some(-2));
    assert_eq!(get_pass_modifier(&alone, &passer, from, Position::new((18, 5))), Some(-3));
    assert_eq!(get_pass_modifier(&alone, &passer, from, Position::new((5, 18))), Some(-3));
    assert_eq!(get_pass_modifier(&alone, &passer, from, Position::new((18, 7))), None);
    assert_eq!(get_pass_modifier(&alone, &passer, from, Position::new((20, 5))), None);
    let marked = vec![passer.clone(), player(1, TeamType::Away, 3, (6, 6))];
    assert_eq!(get_pass_modifier(&marked, &passer, from, Position::new((10, 5))), Some(-2));
    // A lineman passes on 4+; a long pass makes it 6+.
    let target = get_pass_target(&alone, &passer, from, Position::new((12, 8)));
    assert_eq!(target.map(|t| t.value()), Some((passer.stats.pass.value() + 2).min(6)));
    assert_eq!(get_pass_target(&alone, &passer, from, Position::new((18, 7))), None);
}
