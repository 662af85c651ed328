use std::collections::VecDeque;

use vstd::prelude::*;

use crate::model::{
    Coord, Direction, InjuryOutcome, Weather, all_directions, max_int, min_int,
};
use crate::outside::{chacha_range_i32, chacha_range_u8, gen_range_i32, gen_range_u8};
use crate::table::{NumBlockDices, SimpleAT};
use rand_chacha::ChaCha8Rng;

verus! {

pub open spec fn spec_truncate_to(lower: int, upper: int, value: int) -> int {
    max_int(lower, min_int(upper, value))
}

/// `value` clamped into `lower..=upper` (the lower bound wins when the bounds cross).
pub fn truncate_to(lower_limit: i8, upper_limit: i8, value: i8) -> (r: i8)
    ensures
        r == spec_truncate_to(lower_limit as int, upper_limit as int, value as int),
{
    let m = if upper_limit <= value { upper_limit } else { value };
    if lower_limit >= m { lower_limit } else { m }
}

#[derive(Debug, Clone, Copy, PartialEq, Eq, Structural, Hash)]
pub enum Coin {
    Heads,
    Tails,
}

impl Coin {
    /// The action that calls this side of the coin.
    pub fn to_action(self) -> (r: SimpleAT)
        ensures
            self == Coin::Heads ==> r == SimpleAT::Heads,
            self == Coin::Tails ==> r == SimpleAT::Tails,
    {
        match self {
            Coin::Heads => SimpleAT::Heads,
            Coin::Tails => SimpleAT::Tails,
        }
    }
}

#[derive(Debug, Clone, Copy, PartialEq, Eq, Structural, Hash, PartialOrd, Ord)]
pub enum D3 {
    One,
    Two,
    Three,
}

#[derive(Debug, Clone, Copy, PartialEq, Eq, Structural, Hash, PartialOrd, Ord)]
pub enum D6 {
    One,
    Two,
    Three,
    Four,
    Five,
    Six,
}

#[derive(Debug, Clone, Copy, PartialEq, Eq, Structural, Hash, PartialOrd, Ord)]
pub enum D8 {
    One,
    Two,
    Three,
    Four,
    Five,
    Six,
    Seven,
    Eight,
}

#[derive(Debug, Clone, Copy, PartialEq, Eq, Structural, Hash, PartialOrd, Ord)]
pub enum D6Target {
    TwoPlus,
    ThreePlus,
    FourPlus,
    FivePlus,
    SixPlus,
}

#[derive(Debug, Clone, Copy, PartialEq, Eq, Structural, Hash, PartialOrd, Ord)]
pub enum Sum2D6 {
    Two,
    Three,
    Four,
    Five,
    Six,
    Seven,
    Eight,
    Nine,
    Ten,
    Eleven,
    Twelve,
}

#[derive(Debug, Clone, Copy, PartialEq, Eq, Structural, Hash, PartialOrd, Ord)]
pub enum Sum2D6Target {
    TwoPlus,
    ThreePlus,
    FourPlus,
    FivePlus,
    SixPlus,
    SevenPlus,
    EightPlus,
    NinePlus,
    TenPlus,
    ElevenPlus,
    TwelvePlus,
}

impl D3 {
    pub open spec fn spec_value(self) -> int {
        match self {
            D3::One => 1,
            D3::Two => 2,
            D3::Three => 3,
        }
    }

    pub fn value(self) -> (r: u8)
        ensures
            r == self.spec_value(),
            1 <= r <= 3,
    {
        match self {
            D3::One => 1,
            D3::Two => 2,
            D3::Three => 3,
        }
    }

    /// The die showing `v`, if `v` is a face of a D3.
    pub fn from_value(v: u8) -> (r: Option<D3>)
        ensures
            r is Some <==> 1 <= v <= 3,
            r matches Some(d) ==> d.spec_value() == v,
    {
        match v {
            1 => Some(D3::One),
            2 => Some(D3::Two),
            3 => Some(D3::Three),
            _ => None,
        }
    }
}

impl D6 {
    pub open spec fn spec_value(self) -> int {
        match self {
            D6::One => 1,
            D6::Two => 2,
            D6::Three => 3,
            D6::Four => 4,
            D6::Five => 5,
            D6::Six => 6,
        }
    }

    pub fn value(self) -> (r: u8)
        ensures
            r == self.spec_value(),
            1 <= r <= 6,
    {
        match self {
            D6::One => 1,
            D6::Two => 2,
            D6::Three => 3,
            D6::Four => 4,
            D6::Five => 5,
            D6::Six => 6,
        }
    }

    /// The die showing `v`, if `v` is a face of a D6.
    pub fn from_value(v: u8) -> (r: Option<D6>)
        ensures
            r is Some <==> 1 <= v <= 6,
            r matches Some(d) ==> d.spec_value() == v,
    {
        match v {
            1 => Some(D6::One),
            2 => Some(D6::Two),
            3 => Some(D6::Three),
            4 => Some(D6::Four),
            5 => Some(D6::Five),
            6 => Some(D6::Six),
            _ => None,
        }
    }

    /// The die shifted by `rhs`, clamped to the faces 1..=6.
    pub fn add_i8(self, rhs: i8) -> (r: D6)
        requires
            self.spec_value() + rhs <= i8::MAX,
        ensures
            r.spec_value() == spec_truncate_to(1, 6, self.spec_value() + rhs),
    {
        let v = truncate_to(1, 6, self.value() as i8 + rhs);
        match D6::from_value(v as u8) {
            Some(d) => d,
            None => D6::One,
        }
    }

    /// The total of two dice.
    pub fn add_d6(self, rhs: D6) -> (r: Sum2D6)
        ensures
            r.spec_value() == self.spec_value() + rhs.spec_value(),
            r == sum2d6_of(self, rhs),
    {
        match Sum2D6::from_value(self.value() + rhs.value()) {
            Some(s) => s,
            None => Sum2D6::Two,
        }
    }
}

impl D8 {
    pub open spec fn spec_value(self) -> int {
        match self {
            D8::One => 1,
            D8::Two => 2,
            D8::Three => 3,
            D8::Four => 4,
            D8::Five => 5,
            D8::Six => 6,
            D8::Seven => 7,
            D8::Eight => 8,
        }
    }

    pub fn value(self) -> (r: u8)
        ensures
            r == self.spec_value(),
            1 <= r <= 8,
    {
        match self {
            D8::One => 1,
            D8::Two => 2,
            D8::Three => 3,
            D8::Four => 4,
            D8::Five => 5,
            D8::Six => 6,
            D8::Seven => 7,
            D8::Eight => 8,
        }
    }

    /// The die showing `v`, if `v` is a face of a D8.
    pub fn from_value(v: u8) -> (r: Option<D8>)
        ensures
            r is Some <==> 1 <= v <= 8,
            r matches Some(d) ==> d.spec_value() == v,
    {
        match v {
            1 => Some(D8::One),
            2 => Some(D8::Two),
            3 => Some(D8::Three),
            4 => Some(D8::Four),
            5 => Some(D8::Five),
            6 => Some(D8::Six),
            7 => Some(D8::Seven),
            8 => Some(D8::Eight),
            _ => None,
        }
    }

    /// The step a D8 scatter roll points to.
    pub fn to_direction(self) -> (r: Direction)
        ensures
            r == all_directions()[self.spec_value() - 1],
    {
        let dirs = Direction::all_directions_as_array();
        dirs[(self.value() - 1) as usize]
    }

    /// The D8 face that points along `direction`.
    pub fn from_direction(direction: Direction) -> (r: D8)
        requires
            all_directions().contains(direction),
        ensures
            all_directions()[r.spec_value() - 1] == direction,
            forall|j: int| 0 <= j < r.spec_value() - 1 ==> all_directions()[j] != direction,
    {
        let dirs = Direction::all_directions_as_array();
        let mut i: usize = 0;
        while i < 8
            invariant
                dirs@ == all_directions(),
                i <= 8,
                forall|j: int| 0 <= j < i ==> all_directions()[j] != direction,
                all_directions().contains(direction),
            decreases 8 - i,
        {
            if dirs[i] == direction {
                match D8::from_value((i + 1) as u8) {
                    Some(d) => {
                        return d;
                    },
                    None => {},
                }
            }
            i += 1;
        }
        proof {
            let k = choose|k: int| 0 <= k < 8 && all_directions()[k] == direction;
            assert(all_directions()[k] == direction);
        }
        D8::One
    }
}

/// Turning a D8 face into its direction and back gives the same face.
pub proof fn lemma_d8_direction_round_trip(d: D8)
    ensures
        all_directions().contains(all_directions()[d.spec_value() - 1]),
        forall|e: D8| #![auto] all_directions()[e.spec_value() - 1] == all_directions()[d.spec_value() - 1] ==> e == d,
{
    assert(all_directions()[d.spec_value() - 1] == all_directions()[d.spec_value() - 1]);
}

impl D6Target {
    pub open spec fn spec_value(self) -> int {
        match self {
            D6Target::TwoPlus => 2,
            D6Target::ThreePlus => 3,
            D6Target::FourPlus => 4,
            D6Target::FivePlus => 5,
            D6Target::SixPlus => 6,
        }
    }

    pub fn value(self) -> (r: u8)
        ensures
            r == self.spec_value(),
            2 <= r <= 6,
    {
        match self {
            D6Target::TwoPlus => 2,
            D6Target::ThreePlus => 3,
            D6Target::FourPlus => 4,
            D6Target::FivePlus => 5,
            D6Target::SixPlus => 6,
        }
    }

    /// The target needing `v` or more, if `v` is in 2..=6.
    pub fn from_value(v: u8) -> (r: Option<D6Target>)
        ensures
            r is Some <==> 2 <= v <= 6,
            r matches Some(t) ==> t.spec_value() == v,
    {
        match v {
            2 => Some(D6Target::TwoPlus),
            3 => Some(D6Target::ThreePlus),
            4 => Some(D6Target::FourPlus),
            5 => Some(D6Target::FivePlus),
            6 => Some(D6Target::SixPlus),
            _ => None,
        }
    }

    pub open spec fn spec_is_success(self, roll: D6) -> bool {
        self.spec_value() <= roll.spec_value()
    }

    /// The roll meets the target.
    pub fn is_success(&self, roll: D6) -> (r: bool)
        ensures
            r == self.spec_is_success(roll),
    {
        self.value() <= roll.value()
    }

    /// Apply a modifier to the roll: the target moves down by `modifer`, clamped to 2..=6.
    pub fn add_modifer(&mut self, modifer: i8)
        requires
            i8::MIN <= old(self).spec_value() - modifer <= i8::MAX,
        ensures
            final(self).spec_value() == spec_truncate_to(2, 6, old(self).spec_value() - modifer),
    {
        let v = truncate_to(2, 6, self.value() as i8 - modifer);
        match D6Target::from_value(v as u8) {
            Some(t) => {
                *self = t;
            },
            None => {},
        }
    }
}

impl Sum2D6 {
    pub open spec fn spec_value(self) -> int {
        match self {
            Sum2D6::Two => 2,
            Sum2D6::Three => 3,
            Sum2D6::Four => 4,
            Sum2D6::Five => 5,
            Sum2D6::Six => 6,
            Sum2D6::Seven => 7,
            Sum2D6::Eight => 8,
            Sum2D6::Nine => 9,
            Sum2D6::Ten => 10,
            Sum2D6::Eleven => 11,
            Sum2D6::Twelve => 12,
        }
    }

    pub fn value(self) -> (r: u8)
        ensures
            r == self.spec_value(),
            2 <= r <= 12,
    {
        match self {
            Sum2D6::Two => 2,
            Sum2D6::Three => 3,
            Sum2D6::Four => 4,
            Sum2D6::Five => 5,
            Sum2D6::Six => 6,
            Sum2D6::Seven => 7,
            Sum2D6::Eight => 8,
            Sum2D6::Nine => 9,
            Sum2D6::Ten => 10,
            Sum2D6::Eleven => 11,
            Sum2D6::Twelve => 12,
        }
    }

    /// The total `v`, if `v` is in 2..=12.
    pub fn from_value(v: u8) -> (r: Option<Sum2D6>)
        ensures
            r is Some <==> 2 <= v <= 12,
            r matches Some(s) ==> s.spec_value() == v,
    {
        match v {
            2 => Some(Sum2D6::Two),
            3 => Some(Sum2D6::Three),
            4 => Some(Sum2D6::Four),
            5 => Some(Sum2D6::Five),
            6 => Some(Sum2D6::Six),
            7 => Some(Sum2D6::Seven),
            8 => Some(Sum2D6::Eight),
            9 => Some(Sum2D6::Nine),
            10 => Some(Sum2D6::Ten),
            11 => Some(Sum2D6::Eleven),
            12 => Some(Sum2D6::Twelve),
            _ => None,
        }
    }
}

pub open spec fn spec_weather_from(value: Sum2D6) -> Weather {
    match value {
        Sum2D6::Two => Weather::Sweltering,
        Sum2D6::Three => Weather::Sunny,
        Sum2D6::Eleven => Weather::Rain,
        Sum2D6::Twelve => Weather::Blizzard,
        _ => Weather::Nice,
    }
}

impl Weather {
    /// The weather table.
    pub fn from_roll(value: Sum2D6) -> (r: Weather)
        ensures
            r == spec_weather_from(value),
    {
        match value {
            Sum2D6::Two => Weather::Sweltering,
            Sum2D6::Three => Weather::Sunny,
            Sum2D6::Eleven => Weather::Rain,
            Sum2D6::Twelve => Weather::Blizzard,
            _ => Weather::Nice,
        }
    }
}

impl Sum2D6Target {
    pub open spec fn spec_value(self) -> int {
        match self {
            Sum2D6Target::TwoPlus => 2,
            Sum2D6Target::ThreePlus => 3,
            Sum2D6Target::FourPlus => 4,
            Sum2D6Target::FivePlus => 5,
            Sum2D6Target::SixPlus => 6,
            Sum2D6Target::SevenPlus => 7,
            Sum2D6Target::EightPlus => 8,
            Sum2D6Target::NinePlus => 9,
            Sum2D6Target::TenPlus => 10,
            Sum2D6Target::ElevenPlus => 11,
            Sum2D6Target::TwelvePlus => 12,
        }
    }

    pub fn value(self) -> (r: u8)
        ensures
            r == self.spec_value(),
            2 <= r <= 12,
    {
        match self {
            Sum2D6Target::TwoPlus => 2,
            Sum2D6Target::ThreePlus => 3,
            Sum2D6Target::FourPlus => 4,
            Sum2D6Target::FivePlus => 5,
            Sum2D6Target::SixPlus => 6,
            Sum2D6Target::SevenPlus => 7,
            Sum2D6Target::EightPlus => 8,
            Sum2D6Target::NinePlus => 9,
            Sum2D6Target::TenPlus => 10,
            Sum2D6Target::ElevenPlus => 11,
            Sum2D6Target::TwelvePlus => 12,
        }
    }

    /// The target needing `v` or more, if `v` is in 2..=12.
    pub fn from_value(v: u8) -> (r: Option<Sum2D6Target>)
        ensures
            r is Some <==> 2 <= v <= 12,
            r matches Some(t) ==> t.spec_value() == v,
    {
        match v {
            2 => Some(Sum2D6Target::TwoPlus),
            3 => Some(Sum2D6Target::ThreePlus),
            4 => Some(Sum2D6Target::FourPlus),
            5 => Some(Sum2D6Target::FivePlus),
            6 => Some(Sum2D6Target::SixPlus),
            7 => Some(Sum2D6Target::SevenPlus),
            8 => Some(Sum2D6Target::EightPlus),
            9 => Some(Sum2D6Target::NinePlus),
            10 => Some(Sum2D6Target::TenPlus),
            11 => Some(Sum2D6Target::ElevenPlus),
            12 => Some(Sum2D6Target::TwelvePlus),
            _ => None,
        }
    }

    pub open spec fn spec_is_success(self, roll: Sum2D6) -> bool {
        self.spec_value() <= roll.spec_value()
    }

    /// The total meets the target.
    pub fn is_success(&self, roll: Sum2D6) -> (r: bool)
        ensures
            r == self.spec_is_success(roll),
    {
        self.value() <= roll.value()
    }

    /// Apply a modifier to the roll: the target moves down by `modifer`, clamped to 2..=12.
    pub fn add_modifer(&mut self, modifer: i8)
        requires
            i8::MIN <= old(self).spec_value() - modifer <= i8::MAX,
        ensures
            final(self).spec_value() == spec_truncate_to(2, 12, old(self).spec_value() - modifer),
    {
        let v = truncate_to(2, 12, self.value() as i8 - modifer);
        match Sum2D6Target::from_value(v as u8) {
            Some(t) => {
                *self = t;
            },
            None => {},
        }
    }
}

/// A modifier never makes a roll easier than 2+ nor harder than 6+, and a stronger
/// positive modifier never makes a D6 target harder.
pub proof fn lemma_d6_modifier_monotone(t: D6Target, m1: int, m2: int)
    requires
        m1 <= m2,
    ensures
        2 <= spec_truncate_to(2, 6, t.spec_value() - m1) <= 6,
        spec_truncate_to(2, 6, t.spec_value() - m2) <= spec_truncate_to(2, 6, t.spec_value() - m1),
{
}

#[derive(Debug, Clone, Copy, PartialEq, Eq, Structural, Hash)]
pub enum BlockDice {
    Skull,
    BothDown,
    Push,
    PowPush,
    Pow,
}

impl BlockDice {
    /// The action that selects this face.
    pub fn to_action(self) -> (r: SimpleAT)
        ensures
            r == match self {
                BlockDice::Skull => SimpleAT::SelectSkull,
                BlockDice::BothDown => SimpleAT::SelectBothDown,
                BlockDice::Push => SimpleAT::SelectPush,
                BlockDice::PowPush => SimpleAT::SelectPowPush,
                BlockDice::Pow => SimpleAT::SelectPow,
            },
    {
        match self {
            BlockDice::Skull => SimpleAT::SelectSkull,
            BlockDice::BothDown => SimpleAT::SelectBothDown,
            BlockDice::Push => SimpleAT::SelectPush,
            BlockDice::PowPush => SimpleAT::SelectPowPush,
            BlockDice::Pow => SimpleAT::SelectPow,
        }
    }
}

} // verus!

verus! {

/// Block-dice override for `DicePolicy`.
#[derive(Debug, Clone, Copy, PartialEq, Eq, Structural, Hash)]
pub enum BlockDicePolicy {
    /// No override on block dice.
    Default,
    /// Attacker-favoured counts (`Two`, `Three`) yield all `Pow`; other counts fall through.
    KnockdownAtAdvantage,
}

impl Default for BlockDicePolicy {
    fn default() -> (r: Self)
        ensures
            r == BlockDicePolicy::Default,
    {
        BlockDicePolicy::Default
    }
}

#[derive(Debug, PartialEq, Eq, Clone, Copy, Structural, Hash)]
pub enum RequestedRoll {
    BlockDice(NumBlockDices),
    Coin,
    D6,
    D6PassFail(D6Target),
    D6ThreeOutcomes(D6Target, D6Target),
    D8,
    FoulArmor(Sum2D6Target),
    FoulInjury(Sum2D6Target, Sum2D6Target),
    Deviate,
    Scatter,
    Sum2D6,
    Sum2D6PassFail(Sum2D6Target),
    Sum2D6ThreeOutcomes(Sum2D6Target, Sum2D6Target),
    ThrowIn,
}

#[derive(Debug, PartialEq, Eq, Clone, Copy, Hash)]
pub enum RollResult {
    BlockDice([Option<BlockDice>; 3]),
    Coin(Coin),
    Pass,
    Fail,
    FoulArmor { broken: bool, ejected: bool },
    FoulInjury { outcome: InjuryOutcome, ejected: bool },
    MiddleOutcome,
    D6(D6),
    D8(D8),
    Deviate(D6, D8),
    Scatter(D8, D8, D8),
    Sum2D6(Sum2D6),
    ThrowIn { direction: D3, distance: Sum2D6 },
}

pub open spec fn all_pow(n: nat) -> [Option<BlockDice>; 3] {
    if n == 2 {
        [Some(BlockDice::Pow), Some(BlockDice::Pow), None]
    } else {
        [Some(BlockDice::Pow), Some(BlockDice::Pow), Some(BlockDice::Pow)]
    }
}

impl BlockDicePolicy {
    pub open spec fn spec_resolve(self, num_dices: NumBlockDices) -> Option<RollResult> {
        match self {
            BlockDicePolicy::Default => None,
            BlockDicePolicy::KnockdownAtAdvantage => match num_dices {
                NumBlockDices::Two | NumBlockDices::Three => Some(
                    RollResult::BlockDice(all_pow(num_dices.spec_count())),
                ),
                _ => None,
            },
        }
    }

    /// The forced block-dice result, if the policy overrides this many dice.
    pub fn resolve(&self, num_dices: NumBlockDices) -> (r: Option<RollResult>)
        ensures
            r == self.spec_resolve(num_dices),
    {
        match self {
            BlockDicePolicy::Default => None,
            BlockDicePolicy::KnockdownAtAdvantage => match num_dices {
                NumBlockDices::Two | NumBlockDices::Three => {
                    let n = num_dices.count() as usize;
                    let mut dices: [Option<BlockDice>; 3] = [None, None, None];
                    let mut i: usize = 0;
                    while i < n
                        invariant
                            n == num_dices.spec_count(),
                            2 <= n <= 3,
                            i <= n,
                            forall|j: int| 0 <= j < i ==> dices@[j] == Some(BlockDice::Pow),
                            forall|j: int| i <= j < 3 ==> dices@[j] == None::<BlockDice>,
                        decreases n - i,
                    {
                        dices[i] = Some(BlockDice::Pow);
                        i += 1;
                    }
                    assert(dices@ =~= all_pow(num_dices.spec_count())@);
                    proof {
                        vstd::array::axiom_array_ext_equal(dices, all_pow(num_dices.spec_count()));
                    }
                    assert(dices == all_pow(num_dices.spec_count()));
                    Some(RollResult::BlockDice(dices))
                },
                _ => None,
            },
        }
    }
}

} // verus!

verus! {

/// FIFO queues of pinned dice values, popped when the engine asks for a roll.
#[derive(Clone, Debug, PartialEq, Eq)]
pub struct FixedDice {
    d3_fixes: VecDeque<D3>,
    d6_fixes: VecDeque<D6>,
    blockdice_fixes: VecDeque<BlockDice>,
    d8_fixes: VecDeque<D8>,
    coin_fixes: VecDeque<Coin>,
}

/// The contents of the five queues of a `FixedDice`, front first.
pub struct FixedDiceView {
    pub d3: Seq<D3>,
    pub d6: Seq<D6>,
    pub blockdice: Seq<BlockDice>,
    pub d8: Seq<D8>,
    pub coin: Seq<Coin>,
}

impl View for FixedDice {
    type V = FixedDiceView;

    closed spec fn view(&self) -> FixedDiceView {
        FixedDiceView {
            d3: self.d3_fixes@,
            d6: self.d6_fixes@,
            blockdice: self.blockdice_fixes@,
            d8: self.d8_fixes@,
            coin: self.coin_fixes@,
        }
    }
}

impl FixedDiceView {
    pub open spec fn is_empty(self) -> bool {
        &&& self.d3.len() == 0
        &&& self.d6.len() == 0
        &&& self.blockdice.len() == 0
        &&& self.d8.len() == 0
        &&& self.coin.len() == 0
    }
}

/// How many dice of each kind a request consumes: `(d3, d6, d8, coin, block dice)`.
pub open spec fn dice_needed(request: RequestedRoll) -> (nat, nat, nat, nat, nat) {
    match request {
        RequestedRoll::D6 => (0, 1, 0, 0, 0),
        RequestedRoll::D6PassFail(_) => (0, 1, 0, 0, 0),
        RequestedRoll::D6ThreeOutcomes(_, _) => (0, 1, 0, 0, 0),
        RequestedRoll::Sum2D6 => (0, 2, 0, 0, 0),
        RequestedRoll::Sum2D6PassFail(_) => (0, 2, 0, 0, 0),
        RequestedRoll::Sum2D6ThreeOutcomes(_, _) => (0, 2, 0, 0, 0),
        RequestedRoll::D8 => (0, 0, 1, 0, 0),
        RequestedRoll::Coin => (0, 0, 0, 1, 0),
        RequestedRoll::Deviate => (0, 1, 1, 0, 0),
        RequestedRoll::FoulArmor(_) => (0, 2, 0, 0, 0),
        RequestedRoll::FoulInjury(_, _) => (0, 2, 0, 0, 0),
        RequestedRoll::ThrowIn => (1, 2, 0, 0, 0),
        RequestedRoll::BlockDice(n) => (0, 0, 0, 0, n.spec_count()),
        RequestedRoll::Scatter => (0, 0, 3, 0, 0),
    }
}

/// The queues hold enough dice for the request.
pub open spec fn can_resolve(request: RequestedRoll, v: FixedDiceView) -> bool {
    let (n3, n6, n8, nc, nb) = dice_needed(request);
    &&& v.d3.len() >= n3
    &&& v.d6.len() >= n6
    &&& v.d8.len() >= n8
    &&& v.coin.len() >= nc
    &&& v.blockdice.len() >= nb
}

/// The queues once the request has consumed its dice from their fronts.
pub open spec fn after_resolve(request: RequestedRoll, v: FixedDiceView) -> FixedDiceView {
    let (n3, n6, n8, nc, nb) = dice_needed(request);
    FixedDiceView {
        d3: v.d3.skip(n3 as int),
        d6: v.d6.skip(n6 as int),
        blockdice: v.blockdice.skip(nb as int),
        d8: v.d8.skip(n8 as int),
        coin: v.coin.skip(nc as int),
    }
}

pub open spec fn sum2(a: D6, b: D6) -> int {
    a.spec_value() + b.spec_value()
}

pub open spec fn sum2d6_of(a: D6, b: D6) -> Sum2D6 {
    let v = sum2(a, b);
    if v <= 2 {
        Sum2D6::Two
    } else if v == 3 {
        Sum2D6::Three
    } else if v == 4 {
        Sum2D6::Four
    } else if v == 5 {
        Sum2D6::Five
    } else if v == 6 {
        Sum2D6::Six
    } else if v == 7 {
        Sum2D6::Seven
    } else if v == 8 {
        Sum2D6::Eight
    } else if v == 9 {
        Sum2D6::Nine
    } else if v == 10 {
        Sum2D6::Ten
    } else if v == 11 {
        Sum2D6::Eleven
    } else {
        Sum2D6::Twelve
    }
}

pub open spec fn three_outcomes(passes_high: bool, passes_low: bool) -> RollResult {
    if passes_high {
        RollResult::Pass
    } else if passes_low {
        RollResult::MiddleOutcome
    } else {
        RollResult::Fail
    }
}

pub open spec fn block_roll(q: Seq<BlockDice>, n: nat) -> [Option<BlockDice>; 3] {
    [
        if n > 0 { Some(q[0]) } else { None },
        if n > 1 { Some(q[1]) } else { None },
        if n > 2 { Some(q[2]) } else { None },
    ]
}

/// The roll that the front dice of the queues give for the request.
pub open spec fn spec_resolve_from_fixes(request: RequestedRoll, v: FixedDiceView) -> RollResult {
    let a = v.d6[0];
    let b = v.d6[1];
    match request {
        RequestedRoll::D6 => RollResult::D6(a),
        RequestedRoll::D6PassFail(t) => if t.spec_is_success(a) {
            RollResult::Pass
        } else {
            RollResult::Fail
        },
        RequestedRoll::D6ThreeOutcomes(low, high) => three_outcomes(
            high.spec_is_success(a),
            low.spec_is_success(a),
        ),
        RequestedRoll::Sum2D6 => RollResult::Sum2D6(sum2d6_of(a, b)),
        RequestedRoll::Sum2D6PassFail(t) => if t.spec_value() <= sum2(a, b) {
            RollResult::Pass
        } else {
            RollResult::Fail
        },
        RequestedRoll::Sum2D6ThreeOutcomes(low, high) => three_outcomes(
            high.spec_value() <= sum2(a, b),
            low.spec_value() <= sum2(a, b),
        ),
        RequestedRoll::D8 => RollResult::D8(v.d8[0]),
        RequestedRoll::Coin => RollResult::Coin(v.coin[0]),
        RequestedRoll::Deviate => RollResult::Deviate(a, v.d8[0]),
        RequestedRoll::FoulArmor(t) => RollResult::FoulArmor {
            broken: t.spec_value() <= sum2(a, b),
            ejected: a == b,
        },
        RequestedRoll::FoulInjury(ko, cas) => RollResult::FoulInjury {
            outcome: if cas.spec_value() <= sum2(a, b) {
                InjuryOutcome::Casualty
            } else if ko.spec_value() <= sum2(a, b) {
                InjuryOutcome::KO
            } else {
                InjuryOutcome::Stunned
            },
            ejected: a == b,
        },
        RequestedRoll::ThrowIn => RollResult::ThrowIn {
            direction: v.d3[0],
            distance: sum2d6_of(a, b),
        },
        RequestedRoll::BlockDice(n) => RollResult::BlockDice(block_roll(v.blockdice, n.spec_count())),
        RequestedRoll::Scatter => RollResult::Scatter(v.d8[0], v.d8[1], v.d8[2]),
    }
}

impl FixedDice {
    pub fn new() -> (r: FixedDice)
        ensures
            r@.is_empty(),
    {
        FixedDice {
            d3_fixes: VecDeque::new(),
            d6_fixes: VecDeque::new(),
            blockdice_fixes: VecDeque::new(),
            d8_fixes: VecDeque::new(),
            coin_fixes: VecDeque::new(),
        }
    }

    pub fn fix_coin(&mut self, value: Coin)
        ensures
            final(self)@ == (FixedDiceView { coin: old(self)@.coin.push(value), ..old(self)@ }),
    {
        self.coin_fixes.push_back(value);
    }

    pub fn fix_d3(&mut self, value: u8)
        requires
            1 <= value <= 3,
        ensures
            final(self)@.d3.len() == old(self)@.d3.len() + 1,
            final(self)@.d3.last().spec_value() == value,
            final(self)@ == (FixedDiceView { d3: final(self)@.d3, ..old(self)@ }),
            final(self)@.d3.drop_last() == old(self)@.d3,
    {
        match D3::from_value(value) {
            Some(d) => self.d3_fixes.push_back(d),
            None => {},
        }
    }

    pub fn fix_d6(&mut self, value: u8)
        requires
            1 <= value <= 6,
        ensures
            final(self)@.d6.len() == old(self)@.d6.len() + 1,
            final(self)@.d6.last().spec_value() == value,
            final(self)@ == (FixedDiceView { d6: final(self)@.d6, ..old(self)@ }),
            final(self)@.d6.drop_last() == old(self)@.d6,
    {
        match D6::from_value(value) {
            Some(d) => self.d6_fixes.push_back(d),
            None => {},
        }
    }

    pub fn fix_d8(&mut self, value: u8)
        requires
            1 <= value <= 8,
        ensures
            final(self)@.d8.len() == old(self)@.d8.len() + 1,
            final(self)@.d8.last().spec_value() == value,
            final(self)@ == (FixedDiceView { d8: final(self)@.d8, ..old(self)@ }),
            final(self)@.d8.drop_last() == old(self)@.d8,
    {
        match D8::from_value(value) {
            Some(d) => self.d8_fixes.push_back(d),
            None => {},
        }
    }

    /// Pin the next D8 to the face that points along `direction`.
    pub fn fix_d8_direction(&mut self, direction: Direction)
        requires
            all_directions().contains(direction),
        ensures
            final(self)@.d8.len() == old(self)@.d8.len() + 1,
            all_directions()[final(self)@.d8.last().spec_value() - 1] == direction,
            final(self)@ == (FixedDiceView { d8: final(self)@.d8, ..old(self)@ }),
            final(self)@.d8.drop_last() == old(self)@.d8,
    {
        self.d8_fixes.push_back(D8::from_direction(direction));
    }

    pub fn fix_blockdice(&mut self, value: BlockDice)
        ensures
            final(self)@ == (FixedDiceView {
                blockdice: old(self)@.blockdice.push(value),
                ..old(self)@
            }),
    {
        self.blockdice_fixes.push_back(value);
    }

    /// No pinned value is left in any queue.
    pub fn is_empty(&self) -> (r: bool)
        ensures
            r == self@.is_empty(),
    {
        self.d3_fixes.len() == 0 && self.d6_fixes.len() == 0 && self.d8_fixes.len() == 0
            && self.blockdice_fixes.len() == 0 && self.coin_fixes.len() == 0
    }

    pub fn blockdice_fixes_len(&self) -> (r: usize)
        ensures
            r == self@.blockdice.len(),
    {
        self.blockdice_fixes.len()
    }

    /// Checks that every pinned value was consumed.
    pub fn assert_is_empty(&self)
        requires
            self@.is_empty(),
    {
    }

    fn pop_d3(&mut self, request: &RequestedRoll) -> (r: D3)
        requires
            old(self)@.d3.len() > 0,
        ensures
            r == old(self)@.d3[0],
            final(self)@ == (FixedDiceView { d3: old(self)@.d3.skip(1), ..old(self)@ }),
    {
        match self.d3_fixes.pop_front() {
            Some(d) => {
                assert(self@.d3 =~= old(self)@.d3.skip(1));
                d
            },
            None => D3::One,
        }
    }

    fn pop_d6(&mut self, request: &RequestedRoll) -> (r: D6)
        requires
            old(self)@.d6.len() > 0,
        ensures
            r == old(self)@.d6[0],
            final(self)@ == (FixedDiceView { d6: old(self)@.d6.skip(1), ..old(self)@ }),
    {
        match self.d6_fixes.pop_front() {
            Some(d) => {
                assert(self@.d6 =~= old(self)@.d6.skip(1));
                d
            },
            None => D6::One,
        }
    }

    fn pop_d8(&mut self, request: &RequestedRoll) -> (r: D8)
        requires
            old(self)@.d8.len() > 0,
        ensures
            r == old(self)@.d8[0],
            final(self)@ == (FixedDiceView { d8: old(self)@.d8.skip(1), ..old(self)@ }),
    {
        match self.d8_fixes.pop_front() {
            Some(d) => {
                assert(self@.d8 =~= old(self)@.d8.skip(1));
                d
            },
            None => D8::One,
        }
    }

    fn pop_coin(&mut self, request: &RequestedRoll) -> (r: Coin)
        requires
            old(self)@.coin.len() > 0,
        ensures
            r == old(self)@.coin[0],
            final(self)@ == (FixedDiceView { coin: old(self)@.coin.skip(1), ..old(self)@ }),
    {
        match self.coin_fixes.pop_front() {
            Some(d) => {
                assert(self@.coin =~= old(self)@.coin.skip(1));
                d
            },
            None => Coin::Heads,
        }
    }

    fn pop_blockdice(&mut self, request: &RequestedRoll) -> (r: BlockDice)
        requires
            old(self)@.blockdice.len() > 0,
        ensures
            r == old(self)@.blockdice[0],
            final(self)@ == (FixedDiceView {
                blockdice: old(self)@.blockdice.skip(1),
                ..old(self)@
            }),
    {
        match self.blockdice_fixes.pop_front() {
            Some(d) => {
                assert(self@.blockdice =~= old(self)@.blockdice.skip(1));
                d
            },
            None => BlockDice::Skull,
        }
    }
}

impl Default for FixedDice {
    fn default() -> (r: Self)
        ensures
            r@.is_empty(),
    {
        FixedDice::new()
    }
}

} // verus!

verus! {

/// Resolve a requested roll by popping pinned values from the fronts of the queues.
pub fn resolve_from_fixes(request: RequestedRoll, fixes: &mut FixedDice) -> (r: RollResult)
    requires
        can_resolve(request, old(fixes)@),
    ensures
        r == spec_resolve_from_fixes(request, old(fixes)@),
        final(fixes)@ == after_resolve(request, old(fixes)@),
{
    let ghost v = fixes@;
    let r = match request {
        RequestedRoll::D6 => RollResult::D6(fixes.pop_d6(&request)),
        RequestedRoll::D6PassFail(target) => {
            if target.is_success(fixes.pop_d6(&request)) {
                RollResult::Pass
            } else {
                RollResult::Fail
            }
        },
        RequestedRoll::D6ThreeOutcomes(low_target, high_target) => {
            let roll = fixes.pop_d6(&request);
            if high_target.is_success(roll) {
                RollResult::Pass
            } else if low_target.is_success(roll) {
                RollResult::MiddleOutcome
            } else {
                RollResult::Fail
            }
        },
        RequestedRoll::Sum2D6 => {
            let a = fixes.pop_d6(&request);
            let b = fixes.pop_d6(&request);
            RollResult::Sum2D6(a.add_d6(b))
        },
        RequestedRoll::Sum2D6PassFail(target) => {
            let a = fixes.pop_d6(&request);
            let b = fixes.pop_d6(&request);
            if target.is_success(a.add_d6(b)) {
                RollResult::Pass
            } else {
                RollResult::Fail
            }
        },
        RequestedRoll::Sum2D6ThreeOutcomes(low_target, high_target) => {
            let a = fixes.pop_d6(&request);
            let b = fixes.pop_d6(&request);
            let roll = a.add_d6(b);
            if high_target.is_success(roll) {
                RollResult::Pass
            } else if low_target.is_success(roll) {
                RollResult::MiddleOutcome
            } else {
                RollResult::Fail
            }
        },
        RequestedRoll::D8 => RollResult::D8(fixes.pop_d8(&request)),
        RequestedRoll::Coin => RollResult::Coin(fixes.pop_coin(&request)),
        RequestedRoll::Deviate => {
            let a = fixes.pop_d6(&request);
            let d = fixes.pop_d8(&request);
            RollResult::Deviate(a, d)
        },
        RequestedRoll::FoulArmor(target) => {
            let roll1 = fixes.pop_d6(&request);
            let roll2 = fixes.pop_d6(&request);
            RollResult::FoulArmor {
                broken: target.is_success(roll1.add_d6(roll2)),
                ejected: roll1 == roll2,
            }
        },
        RequestedRoll::FoulInjury(ko_target, cas_target) => {
            let roll1 = fixes.pop_d6(&request);
            let roll2 = fixes.pop_d6(&request);
            let outcome = if cas_target.is_success(roll1.add_d6(roll2)) {
                InjuryOutcome::Casualty
            } else if ko_target.is_success(roll1.add_d6(roll2)) {
                InjuryOutcome::KO
            } else {
                InjuryOutcome::Stunned
            };
            RollResult::FoulInjury { outcome, ejected: roll1 == roll2 }
        },
        RequestedRoll::ThrowIn => {
            let direction = fixes.pop_d3(&request);
            let a = fixes.pop_d6(&request);
            let b = fixes.pop_d6(&request);
            RollResult::ThrowIn { direction, distance: a.add_d6(b) }
        },
        RequestedRoll::BlockDice(num_dices) => {
            let n = num_dices.count() as usize;
            let mut dices: [Option<BlockDice>; 3] = [None, None, None];
            let mut i: usize = 0;
            assert(v.blockdice.skip(0) =~= v.blockdice);
            while i < n
                invariant
                    n == num_dices.spec_count(),
                    1 <= n <= 3,
                    i <= n,
                    v.blockdice.len() >= n,
                    fixes@ == (FixedDiceView { blockdice: v.blockdice.skip(i as int), ..v }),
                    forall|j: int| 0 <= j < i ==> dices@[j] == Some(v.blockdice[j]),
                    forall|j: int| i <= j < 3 ==> dices@[j] == None::<BlockDice>,
                decreases n - i,
            {
                let d = fixes.pop_blockdice(&request);
                dices[i] = Some(d);
                assert(v.blockdice.skip(i as int).skip(1) =~= v.blockdice.skip(i + 1));
                i += 1;
            }
            assert(dices@ =~= block_roll(v.blockdice, n as nat)@);
            proof {
                vstd::array::axiom_array_ext_equal(dices, block_roll(v.blockdice, n as nat));
            }
            RollResult::BlockDice(dices)
        },
        RequestedRoll::Scatter => {
            let a = fixes.pop_d8(&request);
            let b = fixes.pop_d8(&request);
            let c = fixes.pop_d8(&request);
            RollResult::Scatter(a, b, c)
        },
    };
    proof {
        let (n3, n6, n8, nc, nb) = dice_needed(request);
        if n6 == 2 {
            assert(v.d6.skip(1).skip(1) =~= v.d6.skip(2));
        }
        if n8 == 3 {
            assert(v.d8.skip(1).skip(1).skip(1) =~= v.d8.skip(3));
        }
        assert(v.d3.skip(0) =~= v.d3);
        assert(v.d6.skip(0) =~= v.d6);
        assert(v.d8.skip(0) =~= v.d8);
        assert(v.coin.skip(0) =~= v.coin);
        assert(v.blockdice.skip(0) =~= v.blockdice);
    }
    r
}

} // verus!

verus! {

/// `r` is a roll that some draw of fresh dice gives for the request.
pub open spec fn is_rng_outcome(request: RequestedRoll, r: RollResult) -> bool {
    exists|v: FixedDiceView|
        can_resolve(request, v) && r == #[trigger] spec_resolve_from_fixes(request, v)
}

/// The D3 face a draw `v` in `1..=3` shows.
pub open spec fn spec_d3_face(v: int) -> D3 {
    if v == 1 {
        D3::One
    } else if v == 2 {
        D3::Two
    } else {
        D3::Three
    }
}

/// The D6 face a draw `v` in `1..=6` shows.
pub open spec fn spec_d6_face(v: int) -> D6 {
    if v == 1 {
        D6::One
    } else if v == 2 {
        D6::Two
    } else if v == 3 {
        D6::Three
    } else if v == 4 {
        D6::Four
    } else if v == 5 {
        D6::Five
    } else {
        D6::Six
    }
}

/// The D8 face a draw `v` in `1..=8` shows.
pub open spec fn spec_d8_face(v: int) -> D8 {
    if v == 1 {
        D8::One
    } else if v == 2 {
        D8::Two
    } else if v == 3 {
        D8::Three
    } else if v == 4 {
        D8::Four
    } else if v == 5 {
        D8::Five
    } else if v == 6 {
        D8::Six
    } else if v == 7 {
        D8::Seven
    } else {
        D8::Eight
    }
}

/// The side a coin draw `v` in `1..=2` shows: 1 is heads.
pub open spec fn spec_coin_face(v: int) -> Coin {
    if v == 1 {
        Coin::Heads
    } else {
        Coin::Tails
    }
}

/// The block die face a draw `v` in `1..=6` shows: skull, both down, push twice, pow-push,
/// pow.
pub open spec fn spec_block_face(v: int) -> BlockDice {
    if v == 1 {
        BlockDice::Skull
    } else if v == 2 {
        BlockDice::BothDown
    } else if v == 3 || v == 4 {
        BlockDice::Push
    } else if v == 5 {
        BlockDice::PowPush
    } else {
        BlockDice::Pow
    }
}

/// The D3 face a draw shows.
pub fn d3_face(v: u8) -> (r: D3)
    requires
        1 <= v <= 3,
    ensures
        r == spec_d3_face(v as int),
        r.spec_value() == v,
{
    if v == 1 {
        D3::One
    } else if v == 2 {
        D3::Two
    } else {
        D3::Three
    }
}

/// The D6 face a draw shows.
pub fn d6_face(v: u8) -> (r: D6)
    requires
        1 <= v <= 6,
    ensures
        r == spec_d6_face(v as int),
        r.spec_value() == v,
{
    if v == 1 {
        D6::One
    } else if v == 2 {
        D6::Two
    } else if v == 3 {
        D6::Three
    } else if v == 4 {
        D6::Four
    } else if v == 5 {
        D6::Five
    } else {
        D6::Six
    }
}

/// The D8 face a draw shows.
pub fn d8_face(v: u8) -> (r: D8)
    requires
        1 <= v <= 8,
    ensures
        r == spec_d8_face(v as int),
        r.spec_value() == v,
{
    if v == 1 {
        D8::One
    } else if v == 2 {
        D8::Two
    } else if v == 3 {
        D8::Three
    } else if v == 4 {
        D8::Four
    } else if v == 5 {
        D8::Five
    } else if v == 6 {
        D8::Six
    } else if v == 7 {
        D8::Seven
    } else {
        D8::Eight
    }
}

/// The side a coin draw shows.
pub fn coin_face(v: i32) -> (r: Coin)
    ensures
        r == spec_coin_face(v as int),
{
    if v == 1 {
        Coin::Heads
    } else {
        Coin::Tails
    }
}

/// The block die face a draw shows.
pub fn block_face(v: i32) -> (r: BlockDice)
    ensures
        r == spec_block_face(v as int),
{
    if v == 1 {
        BlockDice::Skull
    } else if v == 2 {
        BlockDice::BothDown
    } else if v == 3 || v == 4 {
        BlockDice::Push
    } else if v == 5 {
        BlockDice::PowPush
    } else {
        BlockDice::Pow
    }
}

/// A D3 drawn from `rng`, and the generator left behind.
pub open spec fn spec_draw_d3(rng: ChaCha8Rng) -> (D3, ChaCha8Rng) {
    let (v, g) = chacha_range_u8(rng, 1, 3);
    (spec_d3_face(v as int), g)
}

/// A D6 drawn from `rng`, and the generator left behind.
pub open spec fn spec_draw_d6(rng: ChaCha8Rng) -> (D6, ChaCha8Rng) {
    let (v, g) = chacha_range_u8(rng, 1, 6);
    (spec_d6_face(v as int), g)
}

/// A D8 drawn from `rng`, and the generator left behind.
pub open spec fn spec_draw_d8(rng: ChaCha8Rng) -> (D8, ChaCha8Rng) {
    let (v, g) = chacha_range_u8(rng, 1, 8);
    (spec_d8_face(v as int), g)
}

/// A coin tossed with `rng`, and the generator left behind.
pub open spec fn spec_draw_coin(rng: ChaCha8Rng) -> (Coin, ChaCha8Rng) {
    let (v, g) = chacha_range_i32(rng, 1, 2);
    (spec_coin_face(v as int), g)
}

/// `n` block dice drawn from `rng` one after the other, and the generator left behind.
pub open spec fn spec_draw_blockdice(rng: ChaCha8Rng, n: nat) -> (Seq<BlockDice>, ChaCha8Rng)
    decreases n,
{
    if n == 0 {
        (Seq::empty(), rng)
    } else {
        let (s, g) = spec_draw_blockdice(rng, (n - 1) as nat);
        let (v, g2) = chacha_range_i32(g, 1, 6);
        (s.push(spec_block_face(v as int)), g2)
    }
}

/// Pinned dice holding the D3s, D6s, block dice, D8s and coins given.
pub open spec fn dice_view(
    d3: Seq<D3>,
    d6: Seq<D6>,
    blockdice: Seq<BlockDice>,
    d8: Seq<D8>,
    coin: Seq<Coin>,
) -> FixedDiceView {
    FixedDiceView { d3, d6, blockdice, d8, coin }
}

/// The dice `resolve_with_rng` draws from `rng` for the request, in order, and the generator
/// left behind.
pub open spec fn spec_rng_draws(request: RequestedRoll, rng: ChaCha8Rng) -> (FixedDiceView, ChaCha8Rng) {
    let e3 = Seq::<D3>::empty();
    let e6 = Seq::<D6>::empty();
    let eb = Seq::<BlockDice>::empty();
    let e8 = Seq::<D8>::empty();
    let ec = Seq::<Coin>::empty();
    match request {
        RequestedRoll::D6 | RequestedRoll::D6PassFail(_) | RequestedRoll::D6ThreeOutcomes(_, _) => {
            let (a, g) = spec_draw_d6(rng);
            (dice_view(e3, seq![a], eb, e8, ec), g)
        },
        RequestedRoll::Sum2D6
        | RequestedRoll::Sum2D6PassFail(_)
        | RequestedRoll::Sum2D6ThreeOutcomes(_, _)
        | RequestedRoll::FoulArmor(_)
        | RequestedRoll::FoulInjury(_, _) => {
            let (a, g) = spec_draw_d6(rng);
            let (b, g2) = spec_draw_d6(g);
            (dice_view(e3, seq![a, b], eb, e8, ec), g2)
        },
        RequestedRoll::D8 => {
            let (a, g) = spec_draw_d8(rng);
            (dice_view(e3, e6, eb, seq![a], ec), g)
        },
        RequestedRoll::Coin => {
            let (a, g) = spec_draw_coin(rng);
            (dice_view(e3, e6, eb, e8, seq![a]), g)
        },
        RequestedRoll::Deviate => {
            let (a, g) = spec_draw_d6(rng);
            let (b, g2) = spec_draw_d8(g);
            (dice_view(e3, seq![a], eb, seq![b], ec), g2)
        },
        RequestedRoll::ThrowIn => {
            let (a, g) = spec_draw_d3(rng);
            let (b, g2) = spec_draw_d6(g);
            let (c, g3) = spec_draw_d6(g2);
            (dice_view(seq![a], seq![b, c], eb, e8, ec), g3)
        },
        RequestedRoll::BlockDice(n) => {
            let (s, g) = spec_draw_blockdice(rng, n.spec_count() as nat);
            (dice_view(e3, e6, s, e8, ec), g)
        },
        RequestedRoll::Scatter => {
            let (a, g) = spec_draw_d8(rng);
            let (b, g2) = spec_draw_d8(g);
            let (c, g3) = spec_draw_d8(g2);
            (dice_view(e3, e6, eb, seq![a, b, c], ec), g3)
        },
    }
}

/// The roll `resolve_with_rng` gives for the request from the generator `rng`, and the
/// generator left behind.
pub open spec fn spec_resolve_with_rng(request: RequestedRoll, rng: ChaCha8Rng) -> (RollResult, ChaCha8Rng) {
    let (v, g) = spec_rng_draws(request, rng);
    (spec_resolve_from_fixes(request, v), g)
}

fn draw_d3(rng: &mut ChaCha8Rng) -> (r: D3)
    ensures
        (r, *final(rng)) == spec_draw_d3(*old(rng)),
{
    d3_face(gen_range_u8(rng, 1, 3))
}

fn draw_d6(rng: &mut ChaCha8Rng) -> (r: D6)
    ensures
        (r, *final(rng)) == spec_draw_d6(*old(rng)),
{
    d6_face(gen_range_u8(rng, 1, 6))
}

fn draw_d8(rng: &mut ChaCha8Rng) -> (r: D8)
    ensures
        (r, *final(rng)) == spec_draw_d8(*old(rng)),
{
    d8_face(gen_range_u8(rng, 1, 8))
}

fn draw_coin(rng: &mut ChaCha8Rng) -> (r: Coin)
    ensures
        (r, *final(rng)) == spec_draw_coin(*old(rng)),
{
    coin_face(gen_range_i32(rng, 1, 2))
}

fn draw_block(rng: &mut ChaCha8Rng) -> (r: BlockDice)
    ensures
        (r, *final(rng)) == ({
            let (v, g) = chacha_range_i32(*old(rng), 1, 6);
            (spec_block_face(v as int), g)
        }),
{
    block_face(gen_range_i32(rng, 1, 6))
}

/// Resolve a requested roll with fresh dice from `rng`, drawn in the same order as the
/// pinned-dice path pops them.
pub fn resolve_with_rng(request: RequestedRoll, rng: &mut ChaCha8Rng) -> (r: RollResult)
    ensures
        (r, *final(rng)) == spec_resolve_with_rng(request, *old(rng)),
        can_resolve(request, spec_rng_draws(request, *old(rng)).0),
        is_rng_outcome(request, r),
{
    let ghost rng0 = *rng;
    let mut fixes = FixedDice::new();
    match request {
        RequestedRoll::D6 | RequestedRoll::D6PassFail(_) | RequestedRoll::D6ThreeOutcomes(_, _) => {
            fixes.d6_fixes.push_back(draw_d6(rng));
        },
        RequestedRoll::Sum2D6
        | RequestedRoll::Sum2D6PassFail(_)
        | RequestedRoll::Sum2D6ThreeOutcomes(_, _)
        | RequestedRoll::FoulArmor(_)
        | RequestedRoll::FoulInjury(_, _) => {
            fixes.d6_fixes.push_back(draw_d6(rng));
            fixes.d6_fixes.push_back(draw_d6(rng));
        },
        RequestedRoll::D8 => {
            fixes.d8_fixes.push_back(draw_d8(rng));
        },
        RequestedRoll::Coin => {
            fixes.coin_fixes.push_back(draw_coin(rng));
        },
        RequestedRoll::Deviate => {
            fixes.d6_fixes.push_back(draw_d6(rng));
            fixes.d8_fixes.push_back(draw_d8(rng));
        },
        RequestedRoll::ThrowIn => {
            fixes.d3_fixes.push_back(draw_d3(rng));
            fixes.d6_fixes.push_back(draw_d6(rng));
            fixes.d6_fixes.push_back(draw_d6(rng));
        },
        RequestedRoll::BlockDice(num_dices) => {
            let n = num_dices.count();
            let mut i: u8 = 0;
            while i < n
                invariant
                    i <= n,
                    n == num_dices.spec_count(),
                    fixes@.d3 == Seq::<D3>::empty(),
                    fixes@.d6 == Seq::<D6>::empty(),
                    fixes@.d8 == Seq::<D8>::empty(),
                    fixes@.coin == Seq::<Coin>::empty(),
                    fixes@.blockdice == spec_draw_blockdice(rng0, i as nat).0,
                    *rng == spec_draw_blockdice(rng0, i as nat).1,
                    spec_draw_blockdice(rng0, i as nat).0.len() == i,
                decreases n - i,
            {
                fixes.blockdice_fixes.push_back(draw_block(rng));
                i += 1;
            }
        },
        RequestedRoll::Scatter => {
            fixes.d8_fixes.push_back(draw_d8(rng));
            fixes.d8_fixes.push_back(draw_d8(rng));
            fixes.d8_fixes.push_back(draw_d8(rng));
        },
    }
    let ghost v = fixes@;
    let ghost w = spec_rng_draws(request, rng0).0;
    assert(v.d3 =~= w.d3);
    assert(v.d6 =~= w.d6);
    assert(v.d8 =~= w.d8);
    assert(v.coin =~= w.coin);
    assert(v.blockdice =~= w.blockdice);
    assert(v == w && *rng == spec_rng_draws(request, rng0).1);
    let r = resolve_from_fixes(request, &mut fixes);
    assert(can_resolve(request, v) && r == spec_resolve_from_fixes(request, v));
    r
}

/// Target-aware override of dice resolution.
#[derive(Debug, Clone, Copy, PartialEq, Eq, Structural, Hash)]
pub enum DicePolicy {
    /// No override; fall through to the pinned dice and the generator.
    Default,
    /// Pass/fail rolls succeed iff the request's target is no stricter than the threshold;
    /// block dice consult `block_dice`; every other roll falls through to fresh dice.
    SucceedAtOrEasier { d6: D6Target, sum2d6: Sum2D6Target, block_dice: BlockDicePolicy },
}

impl Default for DicePolicy {
    fn default() -> (r: Self)
        ensures
            r == DicePolicy::Default,
    {
        DicePolicy::Default
    }
}

/// `r` is a roll that the policy may give for the request.
pub open spec fn spec_policy_outcome(policy: DicePolicy, request: RequestedRoll, r: RollResult) -> bool {
    match policy {
        DicePolicy::Default => is_rng_outcome(request, r),
        DicePolicy::SucceedAtOrEasier { d6, sum2d6, block_dice } => match request {
            RequestedRoll::D6PassFail(target) => r == if target.spec_value() <= d6.spec_value() {
                RollResult::Pass
            } else {
                RollResult::Fail
            },
            RequestedRoll::Sum2D6PassFail(target) => r == if target.spec_value()
                <= sum2d6.spec_value() {
                RollResult::Pass
            } else {
                RollResult::Fail
            },
            RequestedRoll::BlockDice(num_dices) => match block_dice.spec_resolve(num_dices) {
                Some(forced) => r == forced,
                None => is_rng_outcome(request, r),
            },
            _ => is_rng_outcome(request, r),
        },
    }
}

/// The policy settles the request without dice: a pass/fail roll under a threshold
/// policy, or block dice the block-dice policy forces.
pub open spec fn policy_decides(policy: DicePolicy, request: RequestedRoll) -> bool {
    match policy {
        DicePolicy::Default => false,
        DicePolicy::SucceedAtOrEasier { d6, sum2d6, block_dice } => match request {
            RequestedRoll::D6PassFail(_) => true,
            RequestedRoll::Sum2D6PassFail(_) => true,
            RequestedRoll::BlockDice(num_dices) => block_dice.spec_resolve(num_dices) is Some,
            _ => false,
        },
    }
}

impl DicePolicy {
    /// Resolve a request under the policy; rolls it does not override use fresh dice.
    pub fn resolve(&mut self, request: RequestedRoll, rng: &mut ChaCha8Rng) -> (r: RollResult)
        ensures
            *final(self) == *old(self),
            spec_policy_outcome(*old(self), request, r),
            policy_decides(*old(self), request) ==> *final(rng) == *old(rng),
            !policy_decides(*old(self), request) ==> (r, *final(rng)) == spec_resolve_with_rng(
                request,
                *old(rng),
            ),
    {
        match *self {
            DicePolicy::Default => resolve_with_rng(request, rng),
            DicePolicy::SucceedAtOrEasier { d6, sum2d6, block_dice } => match request {
                RequestedRoll::D6PassFail(target) => {
                    if target.value() <= d6.value() {
                        RollResult::Pass
                    } else {
                        RollResult::Fail
                    }
                },
                RequestedRoll::Sum2D6PassFail(target) => {
                    if target.value() <= sum2d6.value() {
                        RollResult::Pass
                    } else {
                        RollResult::Fail
                    }
                },
                RequestedRoll::BlockDice(num_dices) => match block_dice.resolve(num_dices) {
                    Some(forced) => forced,
                    None => resolve_with_rng(request, rng),
                },
                other => resolve_with_rng(other, rng),
            },
        }
    }
}

pub open spec fn spec_is_compatible(request: RequestedRoll, result: RollResult) -> bool {
    match (request, result) {
        (RequestedRoll::BlockDice(_), RollResult::BlockDice(_)) => true,
        (RequestedRoll::Coin, RollResult::Coin(_)) => true,
        (RequestedRoll::D6, RollResult::D6(_)) => true,
        (RequestedRoll::D6PassFail(_), RollResult::Pass) => true,
        (RequestedRoll::D6PassFail(_), RollResult::Fail) => true,
        (RequestedRoll::D6ThreeOutcomes(_, _), RollResult::Pass) => true,
        (RequestedRoll::D6ThreeOutcomes(_, _), RollResult::MiddleOutcome) => true,
        (RequestedRoll::D6ThreeOutcomes(_, _), RollResult::Fail) => true,
        (RequestedRoll::D8, RollResult::D8(_)) => true,
        (RequestedRoll::FoulArmor(_), RollResult::FoulArmor { .. }) => true,
        (RequestedRoll::FoulInjury(_, _), RollResult::FoulInjury { .. }) => true,
        (RequestedRoll::Deviate, RollResult::Deviate(_, _)) => true,
        (RequestedRoll::Scatter, RollResult::Scatter(_, _, _)) => true,
        (RequestedRoll::Sum2D6, RollResult::Sum2D6(_)) => true,
        (RequestedRoll::Sum2D6PassFail(_), RollResult::Pass) => true,
        (RequestedRoll::Sum2D6PassFail(_), RollResult::Fail) => true,
        (RequestedRoll::Sum2D6ThreeOutcomes(_, _), RollResult::Pass) => true,
        (RequestedRoll::Sum2D6ThreeOutcomes(_, _), RollResult::MiddleOutcome) => true,
        (RequestedRoll::Sum2D6ThreeOutcomes(_, _), RollResult::Fail) => true,
        (RequestedRoll::ThrowIn, RollResult::ThrowIn { .. }) => true,
        _ => false,
    }
}

impl RequestedRoll {
    /// The result is of the shape this request asks for.
    pub fn is_compatible(&self, result: RollResult) -> (r: bool)
        ensures
            r == spec_is_compatible(*self, result),
    {
        match (self, result) {
            (RequestedRoll::BlockDice(_), RollResult::BlockDice(_)) => true,
            (RequestedRoll::Coin, RollResult::Coin(_)) => true,
            (RequestedRoll::D6, RollResult::D6(_)) => true,
            (RequestedRoll::D6PassFail(_), RollResult::Pass | RollResult::Fail) => true,
            (
                RequestedRoll::D6ThreeOutcomes(_, _),
                RollResult::Pass | RollResult::MiddleOutcome | RollResult::Fail,
            ) => true,
            (RequestedRoll::D8, RollResult::D8(_)) => true,
            (RequestedRoll::FoulArmor(_), RollResult::FoulArmor { .. }) => true,
            (RequestedRoll::FoulInjury(_, _), RollResult::FoulInjury { .. }) => true,
            (RequestedRoll::Deviate, RollResult::Deviate(_, _)) => true,
            (RequestedRoll::Scatter, RollResult::Scatter(_, _, _)) => true,
            (RequestedRoll::Sum2D6, RollResult::Sum2D6(_)) => true,
            (RequestedRoll::Sum2D6PassFail(_), RollResult::Pass | RollResult::Fail) => true,
            (
                RequestedRoll::Sum2D6ThreeOutcomes(_, _),
                RollResult::Pass | RollResult::MiddleOutcome | RollResult::Fail,
            ) => true,
            (RequestedRoll::ThrowIn, RollResult::ThrowIn { .. }) => true,
            _ => false,
        }
    }
}

/// Every roll resolved from pinned dice has the shape its request asks for.
pub proof fn lemma_resolved_roll_is_compatible(request: RequestedRoll, v: FixedDiceView)
    ensures
        spec_is_compatible(request, spec_resolve_from_fixes(request, v)),
{
}

/// Whatever the policy and whatever the dice, the roll it gives has the requested shape.
pub proof fn lemma_policy_outcome_is_compatible(
    policy: DicePolicy,
    request: RequestedRoll,
    r: RollResult,
)
    requires
        spec_policy_outcome(policy, request, r),
    ensures
        spec_is_compatible(request, r),
{
    if is_rng_outcome(request, r) {
        let v = choose|v: FixedDiceView|
            can_resolve(request, v) && r == #[trigger] spec_resolve_from_fixes(request, v);
        lemma_resolved_roll_is_compatible(request, v);
    }
}

/// A foul's armour roll and injury roll send the fouler off exactly when the two dice show the
/// same value, whatever the targets; the injury is a casualty from the casualty target up, a
/// knock-out from the knock-out target up, and a stun below both.
pub proof fn lemma_foul_sent_off_on_doubles(armor: Sum2D6Target, ko: Sum2D6Target, cas: Sum2D6Target, v: FixedDiceView)
    requires
        v.d6.len() >= 2,
    ensures
        ({
            let (a, b) = (v.d6[0], v.d6[1]);
            let total = a.spec_value() + b.spec_value();
            &&& spec_resolve_from_fixes(RequestedRoll::FoulArmor(armor), v) matches RollResult::FoulArmor {
                broken,
                ejected,
            } && ejected == (a == b) && broken == (armor.spec_value() <= total)
            &&& spec_resolve_from_fixes(RequestedRoll::FoulInjury(ko, cas), v) matches RollResult::FoulInjury {
                outcome,
                ejected,
            } && ejected == (a == b) && (cas.spec_value() <= total ==> outcome == InjuryOutcome::Casualty)
                && (ko.spec_value() <= total < cas.spec_value() ==> outcome == InjuryOutcome::KO) && (total
                < ko.spec_value() && total < cas.spec_value() ==> outcome == InjuryOutcome::Stunned)
        }),
{
}

/// What pinned dice give, taken from the front of their queues: a D6 roll is the first D6, and
/// passes a target exactly when it reaches it; a two-dice roll totals the first two D6 and
/// passes a target exactly when the total reaches it; a three-outcome roll passes from the high
/// target up, is a middle outcome from the low target up, and fails below both; deviation,
/// scatter, coin and throw-in rolls show the first dice of their kinds, a throw-in going the
/// two D6's total.
pub proof fn lemma_pinned_rolls(t: D6Target, low: D6Target, high: D6Target, t2: Sum2D6Target, v: FixedDiceView)
    requires
        v.d6.len() >= 2,
        v.d8.len() >= 3,
        v.d3.len() >= 1,
        v.coin.len() >= 1,
    ensures
        ({
            let a = v.d6[0];
            let b = v.d6[1];
            let total = a.spec_value() + b.spec_value();
            &&& spec_resolve_from_fixes(RequestedRoll::D6, v) == RollResult::D6(a)
            &&& spec_resolve_from_fixes(RequestedRoll::D6PassFail(t), v) == if t.spec_value() <= a.spec_value() {
                RollResult::Pass
            } else {
                RollResult::Fail
            }
            &&& high.spec_value() <= a.spec_value() ==> spec_resolve_from_fixes(
                RequestedRoll::D6ThreeOutcomes(low, high),
                v,
            ) == RollResult::Pass
            &&& low.spec_value() <= a.spec_value() < high.spec_value() ==> spec_resolve_from_fixes(
                RequestedRoll::D6ThreeOutcomes(low, high),
                v,
            ) == RollResult::MiddleOutcome
            &&& a.spec_value() < low.spec_value() && a.spec_value() < high.spec_value() ==> spec_resolve_from_fixes(
                RequestedRoll::D6ThreeOutcomes(low, high),
                v,
            ) == RollResult::Fail
            &&& spec_resolve_from_fixes(RequestedRoll::Sum2D6, v) matches RollResult::Sum2D6(s) && s.spec_value()
                == total
            &&& spec_resolve_from_fixes(RequestedRoll::Sum2D6PassFail(t2), v) == if t2.spec_value() <= total {
                RollResult::Pass
            } else {
                RollResult::Fail
            }
            &&& spec_resolve_from_fixes(RequestedRoll::D8, v) == RollResult::D8(v.d8[0])
            &&& spec_resolve_from_fixes(RequestedRoll::Coin, v) == RollResult::Coin(v.coin[0])
            &&& spec_resolve_from_fixes(RequestedRoll::Deviate, v) == RollResult::Deviate(a, v.d8[0])
            &&& spec_resolve_from_fixes(RequestedRoll::Scatter, v) == RollResult::Scatter(v.d8[0], v.d8[1], v.d8[2])
            &&& spec_resolve_from_fixes(RequestedRoll::ThrowIn, v) matches RollResult::ThrowIn { direction, distance }
                && direction == v.d3[0] && distance.spec_value() == total
        }),
{
}

} // verus!
