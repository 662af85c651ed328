use botbowl::dice::{D6Target, Sum2D6Target};
use botbowl::model::{PlayerStatus, Position, TeamType};
use botbowl::player::{FieldedPlayer, PlayerStats, SkillSet, TeamState};
use botbowl::table::{PlayerRole, Skill};

#[test]
fn stock_rosters_respect_the_characteristic_caps() {
    for team in [TeamType::Home, TeamType::Away] {
        for stats in [
            PlayerStats::new_lineman(team),
            PlayerStats::new_blitzer(team),
            PlayerStats::new_catcher(team),
            PlayerStats::new_thrower(team),
        ] {
            assert!(stats.str_ <= PlayerStats::MAX_ST, "{:?} ST {}", stats.role, stats.str_);
            assert!(stats.ma <= PlayerStats::MAX_MA, "{:?} MA {}", stats.role, stats.ma);
            assert!(stats.ag <= PlayerStats::MAX_AG, "{:?} AG {}", stats.role, stats.ag);
            assert!(stats.av <= PlayerStats::MAX_AV, "{:?} AV {}", stats.role, stats.av);
        }
    }
}

#[test]
fn skill_set_insert_reports_novelty() {
    let mut s = SkillSet::new();
    assert!(!s.contains(&Skill::Block));
    assert!(s.insert(Skill::Block));
    assert!(!s.insert(Skill::Block));
    assert!(s.contains(&Skill::Block));
    assert!(!s.contains(&Skill::Dodge));
    s.clear();
    assert!(!s.contains(&Skill::Block));
    let t = SkillSet::from_skills(&[Skill::Dodge, Skill::SureHands, Skill::Dodge]);
    assert!(t.contains(&Skill::Dodge) && t.contains(&Skill::SureHands));
    assert_eq!(t, SkillSet::from_skills(&[Skill::SureHands, Skill::Dodge]));
    assert_ne!(t, SkillSet::new());
}

#[test]
fn stock_roles_have_their_profiles() {
    let b = PlayerStats::new_blitzer(TeamType::Home);
    assert_eq!(b.role, PlayerRole::Blitzer);
    assert!(b.skills.contains(&Skill::Block));
    let mut l = PlayerStats::new_lineman(TeamType::Away);
    assert_eq!(l.team, TeamType::Away);
    assert!(!l.skills.contains(&Skill::Dodge));
    l.give_skill(Skill::Dodge);
    assert!(l.skills.contains(&Skill::Dodge));
}

fn fielded(stats: PlayerStats) -> FieldedPlayer {
    FieldedPlayer {
        id: 0,
        stats,
        position: Position::new((5, 5)),
        status: PlayerStatus::Up,
        used: false,
        moves: 0,
        used_skills: SkillSet::new(),
    }
}

#[test]
fn movement_allowance_and_go_for_its() {
    let mut p = fielded(PlayerStats::new_lineman(TeamType::Home));
    let ma = p.stats.ma;
    assert_eq!(p.moves_left(), ma);
    assert_eq!(p.gfis_left(), 2);
    assert_eq!(p.total_movement_left(), ma + 2);
    p.add_move(ma);
    assert_eq!(p.moves_left(), 0);
    assert_eq!(p.gfis_left(), 2);
    p.add_move(1);
    assert_eq!(p.gfis_left(), 1);
    assert_eq!(p.total_movement_left(), 1);
    p.reset_skills_and_moves();
    assert_eq!(p.moves_left(), ma);
}

#[test]
fn targets_follow_the_characteristics() {
    let p = fielded(PlayerStats::new_lineman(TeamType::Home));
    // AG 3 gives 4+, AV 8 gives 9+ on 2D6.
    assert_eq!(p.ag_target(), D6Target::FourPlus);
    assert_eq!(p.armor_target(), Sum2D6Target::NinePlus);
    assert_eq!(p.pass_target(), p.stats.pass);
    assert!(p.has_tackle_zone());
    assert!(p.can_catch());
    let mut down = fielded(PlayerStats::new_lineman(TeamType::Home));
    down.status = PlayerStatus::Down;
    assert!(!down.has_tackle_zone());
    assert!(!down.can_catch());
}

#[test]
fn a_used_skill_is_spent_until_reset() {
    let mut p = fielded(PlayerStats::new_catcher(TeamType::Home));
    assert!(p.has_skill(Skill::Dodge));
    assert!(p.can_use_skill(Skill::Dodge));
    p.use_skill(Skill::Dodge);
    assert!(p.has_skill(Skill::Dodge));
    assert!(!p.can_use_skill(Skill::Dodge));
    p.reset_skills_and_moves();
    assert!(p.can_use_skill(Skill::Dodge));
}

#[test]
fn one_team_reroll_per_turn() {
    let mut t = TeamState::new();
    assert!(t.can_use_reroll());
    t.use_reroll();
    assert!(!t.can_use_reroll());
    t.reset_reroll_used();
    assert!(t.can_use_reroll());
}
