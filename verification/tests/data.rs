use botbowl::board::BoardDims;
use botbowl::data::{
    git_commit, git_dirty, BoardCapacity, Team, TrajectoryMeta, FORMAT_VERSION,
};
use botbowl::model::{TeamType, HEIGHT, TEAM_SIZE, WIDTH};

#[test]
fn git_commit_is_stamped() {
    let c = git_commit();
    assert!(c == "unknown" || c.len() >= 7, "unexpected commit stamp: {c:?}");
}

#[test]
fn unstamped_build_reports_a_clean_tree() {
    assert!(!git_dirty());
}

#[test]
fn team_conversions_round_trip() {
    for t in [TeamType::Home, TeamType::Away] {
        let team = Team::from(t);
        assert_eq!(TeamType::from(team), t);
    }
    assert_eq!(Team::from(TeamType::Away), Team::Away);
    assert_eq!(TeamType::from(Team::Home), TeamType::Home);
}

#[test]
fn capacity_is_the_compiled_board() {
    let c = BoardCapacity::current();
    assert_eq!((c.width, c.height, c.team_size), (WIDTH, HEIGHT, TEAM_SIZE));
    assert_eq!((c.width, c.height, c.team_size), (28, 17, 11));
}

#[test]
fn meta_builders_fill_their_fields() {
    let dims = BoardDims::new(16, 9, 4);
    let meta = TrajectoryMeta::new("self-play", dims)
        .with_bots("mcts", "random")
        .with_seed(7)
        .with_extra("budget", "150ms")
        .with_extra("difficulty", "easy")
        .with_extra("budget", "300ms");
    assert_eq!(meta.format_version, FORMAT_VERSION);
    assert_eq!(meta.git_commit, "unknown");
    assert!(!meta.git_dirty);
    assert_eq!(meta.board_capacity, BoardCapacity::current());
    assert_eq!(meta.board_dims, dims);
    assert_eq!(meta.source, "self-play");
    assert_eq!(meta.home_bot, "mcts");
    assert_eq!(meta.away_bot, "random");
    assert_eq!(meta.seed, Some(7));
    assert_eq!(
        meta.extra,
        vec![
            ("budget".to_string(), "300ms".to_string()),
            ("difficulty".to_string(), "easy".to_string())
        ]
    );
}

#[test]
fn a_fresh_record_has_no_bots_seed_or_extras() {
    let meta = TrajectoryMeta::new("lecture", BoardDims::default());
    assert!(meta.home_bot.is_empty() && meta.away_bot.is_empty());
    assert_eq!(meta.seed, None);
    assert!(meta.extra.is_empty());
    assert!(meta.created_unix_secs.map_or(true, |s| s > 1_600_000_000));
}

#[test]
fn extras_are_kept_in_key_order() {
    let meta = TrajectoryMeta::new("self-play", BoardDims::new(16, 9, 4))
        .with_extra("zeta", "1")
        .with_extra("alpha", "2")
        .with_extra("mid", "3")
        .with_extra("alphabet", "4")
        .with_extra("alpha", "5");
    let keys: Vec<&str> = meta.extra.iter().map(|(k, _)| k.as_str()).collect();
    assert_eq!(keys, vec!["alpha", "alphabet", "mid", "zeta"]);
    assert_eq!(meta.extra[0].1, "5");
}
