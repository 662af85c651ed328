use std::collections::HashSet;

use botbowl::table::{NumBlockDices, Skill};

#[test]
fn all_skills_is_complete_and_index_is_its_position() {
    assert_eq!(Skill::ALL.len(), Skill::COUNT);
    let unique: HashSet<Skill> = Skill::ALL.into_iter().collect();
    assert_eq!(unique.len(), Skill::COUNT, "ALL contains a duplicate");
    for (i, skill) in Skill::ALL.into_iter().enumerate() {
        assert_eq!(skill.index(), i, "{skill:?} is at ALL[{i}] but indexes to {}", skill.index());
    }
}

#[test]
fn good_skills_is_a_subset_of_all_skills_without_duplicates() {
    let good = Skill::good_skills();
    let unique: HashSet<Skill> = good.iter().copied().collect();
    assert_eq!(unique.len(), good.len(), "good_skills contains a duplicate");
    for skill in good {
        assert!(skill.index() < Skill::COUNT);
    }
}

#[test]
fn block_dice_counts() {
    assert_eq!(NumBlockDices::One.count(), 1);
    assert_eq!(NumBlockDices::Two.count(), 2);
    assert_eq!(NumBlockDices::TwoUphill.count(), 2);
    assert_eq!(NumBlockDices::Three.count(), 3);
    assert_eq!(NumBlockDices::ThreeUphill.count(), 3);
}
