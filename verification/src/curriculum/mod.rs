pub mod lecture;
pub mod lectures;
pub mod random_start;
pub mod runner;
pub mod stochasticity;

use vstd::prelude::*;

use crate::curriculum::lecture::Difficulty;

verus! {

/// Distinct lecture names, one per shipping lecture.
pub fn lecture_names() -> (r: &'static [&'static str])
    ensures
        r@.len() == 2,
        r@[0]@ == "Score TD"@,
        r@[1]@ == "Get the ball"@,
{
    &["Score TD", "Get the ball"]
}

/// Every `(name, difficulty)` pair that resolves to a real lecture.
pub fn available_lectures() -> (r: &'static [(&'static str, Difficulty)])
    ensures
        r@.len() == 5,
        r@[0].0@ == "Score TD"@ && r@[0].1 == Difficulty::Easy,
        r@[1].0@ == "Score TD"@ && r@[1].1 == Difficulty::Medium,
        r@[2].0@ == "Get the ball"@ && r@[2].1 == Difficulty::Easy,
        r@[3].0@ == "Get the ball"@ && r@[3].1 == Difficulty::Medium,
        r@[4].0@ == "Get the ball"@ && r@[4].1 == Difficulty::Hard,
{
    &[
        ("Score TD", Difficulty::Easy),
        ("Score TD", Difficulty::Medium),
        ("Get the ball", Difficulty::Easy),
        ("Get the ball", Difficulty::Medium),
        ("Get the ball", Difficulty::Hard),
    ]
}

} // verus!
