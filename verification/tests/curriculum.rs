use botbowl::board::BoardDims;
use botbowl::curriculum::lecture::Difficulty;
use botbowl::curriculum::lectures::{
    three_plus_policy, three_plus_with_knockdown_policy, GetTheBallEasy, GetTheBallHard,
    GetTheBallMedium, ScoreTdEasy, ScoreTdMedium,
};
use botbowl::curriculum::random_start::{front_x_index, own_side_feature, remove_carrier_role, Role};
use botbowl::curriculum::runner::TrialStats;
use botbowl::curriculum::stochasticity;
use botbowl::curriculum::{available_lectures, lecture_names};
use botbowl::dice::{BlockDicePolicy, D6Target, DicePolicy, Sum2D6Target};
use botbowl::model::{Position, TeamType};

#[test]
fn lecture_catalogue() {
    assert_eq!(lecture_names(), &["Score TD", "Get the ball"]);
    let all = available_lectures();
    assert_eq!(all.len(), 5);
    assert_eq!(all[0], ("Score TD", Difficulty::Easy));
    assert_eq!(all[4], ("Get the ball", Difficulty::Hard));
    for (name, _) in all {
        assert!(lecture_names().contains(name));
    }
}

#[test]
fn lecture_constructors() {
    assert_eq!(GetTheBallEasy::new(), GetTheBallEasy::default());
    assert_eq!(GetTheBallMedium::new(), GetTheBallMedium::default());
    assert_eq!(GetTheBallHard::new(), GetTheBallHard::default());
    assert_eq!(ScoreTdEasy::new(), ScoreTdEasy::default());
    assert_eq!(ScoreTdMedium::new(), ScoreTdMedium::default());
    assert_eq!(stochasticity::DicePolicy::default(), stochasticity::DicePolicy::Default);
    assert_eq!(TrialStats::default(), TrialStats { trials: 0, successes: 0, failures: 0, timeouts: 0 });
}

#[test]
fn lecture_dice_policies() {
    assert_eq!(
        three_plus_policy(),
        DicePolicy::SucceedAtOrEasier {
            d6: D6Target::ThreePlus,
            sum2d6: Sum2D6Target::SevenPlus,
            block_dice: BlockDicePolicy::Default,
        }
    );
    assert_eq!(
        three_plus_with_knockdown_policy(),
        DicePolicy::SucceedAtOrEasier {
            d6: D6Target::ThreePlus,
            sum2d6: Sum2D6Target::SevenPlus,
            block_dice: BlockDicePolicy::KnockdownAtAdvantage,
        }
    );
}

#[test]
fn front_columns_are_indexed_per_team() {
    assert_eq!(front_x_index(TeamType::Home), 0);
    assert_eq!(front_x_index(TeamType::Away), 1);
}

#[test]
fn carrier_takes_the_first_pocket_slot() {
    let mut roles = vec![Role::Line, Role::Pocket, Role::Wide, Role::Pocket];
    remove_carrier_role(&mut roles);
    assert_eq!(roles, vec![Role::Line, Role::Wide, Role::Pocket]);
    let mut roles = vec![Role::Line, Role::Wide];
    remove_carrier_role(&mut roles);
    assert_eq!(roles, vec![Role::Line]);
    let mut roles: Vec<Role> = Vec::new();
    remove_carrier_role(&mut roles);
    assert!(roles.is_empty());
}

#[test]
fn own_side_is_behind_the_nearest_opponent() {
    let dims = BoardDims::default();
    let s = Position::new((20, 8));
    assert!(own_side_feature(dims, TeamType::Home, s, &[]));
    assert!(!own_side_feature(dims, TeamType::Away, s, &[]));
    let placed = [
        (Position::new((15, 3)), TeamType::Away),
        (Position::new((21, 3)), TeamType::Away),
        (Position::new((25, 3)), TeamType::Home),
    ];
    assert!(!own_side_feature(dims, TeamType::Home, s, &placed));
    assert!(own_side_feature(dims, TeamType::Home, Position::new((22, 1)), &placed));
    assert!(own_side_feature(dims, TeamType::Away, s, &placed));
    assert!(!own_side_feature(dims, TeamType::Away, Position::new((25, 1)), &placed));
}
