use vstd::prelude::*;

use crate::dice::{BlockDicePolicy, D6Target, DicePolicy, Sum2D6Target};

verus! {

/// "3+ succeeds, 4+ fails": an unmarked pickup or dodge succeeds, any modifier fails it, and
/// block dice are left to chance.
pub fn three_plus_policy() -> (r: DicePolicy)
    ensures
        r == (DicePolicy::SucceedAtOrEasier {
            d6: D6Target::ThreePlus,
            sum2d6: Sum2D6Target::SevenPlus,
            block_dice: BlockDicePolicy::Default,
        }),
{
    DicePolicy::SucceedAtOrEasier {
        d6: D6Target::ThreePlus,
        sum2d6: Sum2D6Target::SevenPlus,
        block_dice: BlockDicePolicy::Default,
    }
}

/// The thresholds of `three_plus_policy`, and a block with dice in the attacker's favour
/// always lands a knockdown.
pub fn three_plus_with_knockdown_policy() -> (r: DicePolicy)
    ensures
        r == (DicePolicy::SucceedAtOrEasier {
            d6: D6Target::ThreePlus,
            sum2d6: Sum2D6Target::SevenPlus,
            block_dice: BlockDicePolicy::KnockdownAtAdvantage,
        }),
{
    DicePolicy::SucceedAtOrEasier {
        d6: D6Target::ThreePlus,
        sum2d6: Sum2D6Target::SevenPlus,
        block_dice: BlockDicePolicy::KnockdownAtAdvantage,
    }
}

/// "Get the ball", easy: an unmarked ball in midfield.
#[derive(Debug, Clone, Copy, PartialEq, Eq, Structural)]
pub struct GetTheBallEasy;

impl GetTheBallEasy {
    pub fn new() -> (r: Self)
        ensures
            r == GetTheBallEasy,
    {
        GetTheBallEasy
    }
}

impl Default for GetTheBallEasy {
    fn default() -> (r: Self)
        ensures
            r == GetTheBallEasy,
    {
        Self::new()
    }
}

/// "Get the ball", medium: the ball is marked by an adjacent defender.
#[derive(Debug, Clone, Copy, PartialEq, Eq, Structural)]
pub struct GetTheBallMedium;

impl GetTheBallMedium {
    pub fn new() -> (r: Self)
        ensures
            r == GetTheBallMedium,
    {
        GetTheBallMedium
    }
}

impl Default for GetTheBallMedium {
    fn default() -> (r: Self)
        ensures
            r == GetTheBallMedium,
    {
        Self::new()
    }
}

/// "Get the ball", hard: an opposing carrier must be knocked down first.
#[derive(Debug, Clone, Copy, PartialEq, Eq, Structural)]
pub struct GetTheBallHard;

impl GetTheBallHard {
    pub fn new() -> (r: Self)
        ensures
            r == GetTheBallHard,
    {
        GetTheBallHard
    }
}

impl Default for GetTheBallHard {
    fn default() -> (r: Self)
        ensures
            r == GetTheBallHard,
    {
        Self::new()
    }
}

/// "Score TD", easy: a carrier with a clear run to the endzone.
#[derive(Debug, Clone, Copy, PartialEq, Eq, Structural)]
pub struct ScoreTdEasy;

impl ScoreTdEasy {
    pub fn new() -> (r: Self)
        ensures
            r == ScoreTdEasy,
    {
        ScoreTdEasy
    }
}

impl Default for ScoreTdEasy {
    fn default() -> (r: Self)
        ensures
            r == ScoreTdEasy,
    {
        Self::new()
    }
}

/// "Score TD", medium: a blocker stands in the carrier's path.
#[derive(Debug, Clone, Copy, PartialEq, Eq, Structural)]
pub struct ScoreTdMedium;

impl ScoreTdMedium {
    pub fn new() -> (r: Self)
        ensures
            r == ScoreTdMedium,
    {
        ScoreTdMedium
    }
}

impl Default for ScoreTdMedium {
    fn default() -> (r: Self)
        ensures
            r == ScoreTdMedium,
    {
        Self::new()
    }
}

} // verus!
