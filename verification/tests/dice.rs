use botbowl::dice::{
    block_face, coin_face, d3_face, d6_face, d8_face,
    resolve_from_fixes, resolve_with_rng, BlockDice, BlockDicePolicy, Coin, DicePolicy, D3, D6,
    D6Target, D8, FixedDice, RequestedRoll, RollResult, Sum2D6, Sum2D6Target,
};
use botbowl::model::{Direction, InjuryOutcome, Weather};
use botbowl::table::{NumBlockDices, SimpleAT};
use rand::SeedableRng;
use rand_chacha::ChaCha8Rng;

#[test]
fn pinned_dice_come_out_in_order() {
    let mut f = FixedDice::new();
    f.fix_d6(3);
    f.fix_d6(4);
    assert_eq!(resolve_from_fixes(RequestedRoll::D6, &mut f), RollResult::D6(D6::Three));
    assert_eq!(resolve_from_fixes(RequestedRoll::D6, &mut f), RollResult::D6(D6::Four));
    assert!(f.is_empty());
    f.assert_is_empty();
}

#[test]
fn pass_fail_and_three_outcome_rolls() {
    let mut f = FixedDice::new();
    f.fix_d6(4);
    f.fix_d6(3);
    let req = RequestedRoll::D6PassFail(D6Target::FourPlus);
    assert_eq!(resolve_from_fixes(req, &mut f), RollResult::Pass);
    assert_eq!(resolve_from_fixes(req, &mut f), RollResult::Fail);

    f.fix_d6(5);
    f.fix_d6(6);
    let req = RequestedRoll::Sum2D6ThreeOutcomes(Sum2D6Target::EightPlus, Sum2D6Target::TenPlus);
    assert_eq!(resolve_from_fixes(req, &mut f), RollResult::Pass);
    f.fix_d6(4);
    f.fix_d6(4);
    assert_eq!(resolve_from_fixes(req, &mut f), RollResult::MiddleOutcome);
    f.fix_d6(1);
    f.fix_d6(2);
    assert_eq!(resolve_from_fixes(req, &mut f), RollResult::Fail);
    assert!(f.is_empty());
}

#[test]
fn composite_rolls_consume_their_dice() {
    let mut f = FixedDice::new();
    f.fix_d6(3);
    f.fix_d6(4);
    assert_eq!(resolve_from_fixes(RequestedRoll::Sum2D6, &mut f), RollResult::Sum2D6(Sum2D6::Seven));

    f.fix_d6(2);
    f.fix_d8(5);
    assert_eq!(resolve_from_fixes(RequestedRoll::Deviate, &mut f), RollResult::Deviate(D6::Two, D8::Five));

    f.fix_d3(2);
    f.fix_d6(6);
    f.fix_d6(6);
    assert_eq!(
        resolve_from_fixes(RequestedRoll::ThrowIn, &mut f),
        RollResult::ThrowIn { direction: D3::Two, distance: Sum2D6::Twelve }
    );

    f.fix_d8(1);
    f.fix_d8(2);
    f.fix_d8(3);
    assert_eq!(
        resolve_from_fixes(RequestedRoll::Scatter, &mut f),
        RollResult::Scatter(D8::One, D8::Two, D8::Three)
    );

    f.fix_coin(Coin::Tails);
    assert_eq!(resolve_from_fixes(RequestedRoll::Coin, &mut f), RollResult::Coin(Coin::Tails));
    assert!(f.is_empty());
}

#[test]
fn block_dice_take_one_fix_per_die() {
    let mut f = FixedDice::new();
    f.fix_blockdice(BlockDice::Pow);
    f.fix_blockdice(BlockDice::Push);
    f.fix_blockdice(BlockDice::Skull);
    assert_eq!(f.blockdice_fixes_len(), 3);
    assert_eq!(
        resolve_from_fixes(RequestedRoll::BlockDice(NumBlockDices::TwoUphill), &mut f),
        RollResult::BlockDice([Some(BlockDice::Pow), Some(BlockDice::Push), None])
    );
    assert_eq!(f.blockdice_fixes_len(), 1);
    assert_eq!(
        resolve_from_fixes(RequestedRoll::BlockDice(NumBlockDices::One), &mut f),
        RollResult::BlockDice([Some(BlockDice::Skull), None, None])
    );
    assert!(f.is_empty());
}

#[test]
fn fouls_eject_on_doubles() {
    let mut f = FixedDice::new();
    f.fix_d6(4);
    f.fix_d6(4);
    assert_eq!(
        resolve_from_fixes(RequestedRoll::FoulArmor(Sum2D6Target::NinePlus), &mut f),
        RollResult::FoulArmor { broken: false, ejected: true }
    );
    f.fix_d6(5);
    f.fix_d6(6);
    assert_eq!(
        resolve_from_fixes(
            RequestedRoll::FoulInjury(Sum2D6Target::EightPlus, Sum2D6Target::TenPlus),
            &mut f
        ),
        RollResult::FoulInjury { outcome: InjuryOutcome::Casualty, ejected: false }
    );
    f.fix_d6(4);
    f.fix_d6(5);
    assert_eq!(
        resolve_from_fixes(
            RequestedRoll::FoulInjury(Sum2D6Target::EightPlus, Sum2D6Target::TenPlus),
            &mut f
        ),
        RollResult::FoulInjury { outcome: InjuryOutcome::KO, ejected: false }
    );
}

#[test]
fn d8_and_directions_round_trip() {
    for v in 1..=8u8 {
        let d = D8::from_value(v).unwrap();
        assert_eq!(d.value(), v);
        assert_eq!(D8::from_direction(d.to_direction()), d);
    }
    assert_eq!(D8::from_value(0), None);
    assert_eq!(D8::from_value(9), None);
    let mut f = FixedDice::new();
    f.fix_d8_direction(Direction::up());
    match resolve_from_fixes(RequestedRoll::D8, &mut f) {
        RollResult::D8(d) => assert_eq!(d.to_direction(), Direction::up()),
        other => panic!("unexpected {other:?}"),
    }
}

#[test]
fn die_values_and_arithmetic() {
    assert_eq!(D6::from_value(6), Some(D6::Six));
    assert_eq!(D6::from_value(7), None);
    assert_eq!(D6::Three.add_d6(D6::Four), Sum2D6::Seven);
    assert_eq!(D6::Three.add_i8(2), D6::Five);
    assert_eq!(D6::Five.add_i8(3), D6::Six);
    assert_eq!(D6::Two.add_i8(-4), D6::One);
    assert_eq!(D3::from_value(3).unwrap().value(), 3);
    assert_eq!(Sum2D6::from_value(12), Some(Sum2D6::Twelve));
    assert_eq!(Sum2D6::from_value(1), None);
    assert_eq!(Sum2D6::Nine.value(), 9);
}

#[test]
fn targets_compare_and_shift() {
    assert!(D6Target::FourPlus.is_success(D6::Four));
    assert!(!D6Target::FourPlus.is_success(D6::Three));
    let mut t = D6Target::FourPlus;
    t.add_modifer(1);
    assert_eq!(t, D6Target::ThreePlus);
    t.add_modifer(-3);
    assert_eq!(t, D6Target::SixPlus);
    let mut t = D6Target::TwoPlus;
    t.add_modifer(3);
    assert_eq!(t, D6Target::TwoPlus);
    let mut s = Sum2D6Target::SevenPlus;
    s.add_modifer(-2);
    assert_eq!(s, Sum2D6Target::NinePlus);
    assert!(s.is_success(Sum2D6::Nine));
    assert!(!s.is_success(Sum2D6::Eight));
}

#[test]
fn weather_by_roll() {
    assert_eq!(Weather::from_roll(Sum2D6::Two), Weather::Sweltering);
    assert_eq!(Weather::from_roll(Sum2D6::Three), Weather::Sunny);
    assert_eq!(Weather::from_roll(Sum2D6::Seven), Weather::Nice);
    assert_eq!(Weather::from_roll(Sum2D6::Eleven), Weather::Rain);
    assert_eq!(Weather::from_roll(Sum2D6::Twelve), Weather::Blizzard);
}

#[test]
fn coins_and_block_dice_map_to_actions() {
    assert_eq!(Coin::Heads.to_action(), SimpleAT::Heads);
    assert_eq!(Coin::Tails.to_action(), SimpleAT::Tails);
    assert_eq!(BlockDice::Pow.to_action(), SimpleAT::SelectPow);
    assert_eq!(BlockDice::Skull.to_action(), SimpleAT::SelectSkull);
}

fn results(seed: u64, request: RequestedRoll, n: usize) -> Vec<RollResult> {
    let mut rng = ChaCha8Rng::seed_from_u64(seed);
    (0..n).map(|_| resolve_with_rng(request, &mut rng)).collect()
}

#[test]
fn fresh_dice_are_compatible_and_vary() {
    let d6 = results(7, RequestedRoll::D6, 200);
    let mut seen = [false; 6];
    for r in &d6 {
        assert!(RequestedRoll::D6.is_compatible(*r));
        match r {
            RollResult::D6(d) => seen[(d.value() - 1) as usize] = true,
            other => panic!("unexpected {other:?}"),
        }
    }
    assert!(seen.iter().all(|s| *s), "200 draws should show every face: {seen:?}");

    for req in [
        RequestedRoll::Coin,
        RequestedRoll::D8,
        RequestedRoll::Deviate,
        RequestedRoll::Scatter,
        RequestedRoll::ThrowIn,
        RequestedRoll::Sum2D6,
        RequestedRoll::BlockDice(NumBlockDices::Three),
        RequestedRoll::FoulArmor(Sum2D6Target::NinePlus),
    ] {
        for r in results(11, req, 50) {
            assert!(req.is_compatible(r), "{req:?} gave {r:?}");
        }
    }
    let sums = results(3, RequestedRoll::Sum2D6, 300);
    assert!(sums.contains(&RollResult::Sum2D6(Sum2D6::Two)) || sums.contains(&RollResult::Sum2D6(Sum2D6::Twelve)));
}

#[test]
fn fresh_dice_repeat_for_a_seed() {
    let req = RequestedRoll::BlockDice(NumBlockDices::Two);
    assert_eq!(results(42, req, 20), results(42, req, 20));
    assert_eq!(results(42, RequestedRoll::D6, 20), results(42, RequestedRoll::D6, 20));
}

#[test]
fn succeed_at_or_easier_policy() {
    let mut policy = DicePolicy::SucceedAtOrEasier {
        d6: D6Target::ThreePlus,
        sum2d6: Sum2D6Target::SevenPlus,
        block_dice: BlockDicePolicy::KnockdownAtAdvantage,
    };
    let mut rng = ChaCha8Rng::seed_from_u64(1);
    assert_eq!(policy.resolve(RequestedRoll::D6PassFail(D6Target::ThreePlus), &mut rng), RollResult::Pass);
    assert_eq!(policy.resolve(RequestedRoll::D6PassFail(D6Target::TwoPlus), &mut rng), RollResult::Pass);
    assert_eq!(policy.resolve(RequestedRoll::D6PassFail(D6Target::FourPlus), &mut rng), RollResult::Fail);
    assert_eq!(policy.resolve(RequestedRoll::Sum2D6PassFail(Sum2D6Target::EightPlus), &mut rng), RollResult::Fail);
    assert_eq!(
        policy.resolve(RequestedRoll::BlockDice(NumBlockDices::Two), &mut rng),
        RollResult::BlockDice([Some(BlockDice::Pow), Some(BlockDice::Pow), None])
    );
    assert_eq!(
        policy.resolve(RequestedRoll::BlockDice(NumBlockDices::Three), &mut rng),
        RollResult::BlockDice([Some(BlockDice::Pow), Some(BlockDice::Pow), Some(BlockDice::Pow)])
    );
    let r = policy.resolve(RequestedRoll::BlockDice(NumBlockDices::One), &mut rng);
    assert!(RequestedRoll::BlockDice(NumBlockDices::One).is_compatible(r));
    assert_eq!(BlockDicePolicy::Default.resolve(NumBlockDices::Three), None);
    assert_eq!(DicePolicy::default(), DicePolicy::Default);
}

#[test]
fn shapes_must_match_the_request() {
    assert!(RequestedRoll::D6PassFail(D6Target::TwoPlus).is_compatible(RollResult::Fail));
    assert!(!RequestedRoll::D6PassFail(D6Target::TwoPlus).is_compatible(RollResult::MiddleOutcome));
    assert!(!RequestedRoll::Coin.is_compatible(RollResult::D6(D6::One)));
}

#[test]
fn draws_show_their_faces() {
    let faces: Vec<BlockDice> = (1..=6).map(block_face).collect();
    assert_eq!(
        faces,
        vec![
            BlockDice::Skull,
            BlockDice::BothDown,
            BlockDice::Push,
            BlockDice::Push,
            BlockDice::PowPush,
            BlockDice::Pow
        ]
    );
    assert_eq!(coin_face(1), Coin::Heads);
    assert_eq!(coin_face(2), Coin::Tails);
    assert_eq!(d3_face(2), D3::Two);
    assert_eq!(d6_face(6), D6::Six);
    assert_eq!(d8_face(7), D8::Seven);
}

#[test]
fn a_cloned_generator_replays_the_same_rolls() {
    let mut rng = ChaCha8Rng::seed_from_u64(7);
    let _ = resolve_with_rng(RequestedRoll::D6, &mut rng);
    let mut copy = rng.clone();
    let mut policy = DicePolicy::Default;
    for request in [RequestedRoll::BlockDice(NumBlockDices::Three), RequestedRoll::Scatter, RequestedRoll::Coin] {
        assert_eq!(policy.resolve(request, &mut rng), resolve_with_rng(request, &mut copy));
    }
}
