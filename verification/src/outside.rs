use itertools::Itertools;
use vstd::prelude::*;

verus! {

/// Calls `Itertools::cartesian_product` on the ranges `x0..=x1` and `y0..=y1` and collects
/// the pairs. The contract claims the documented order: for each `x` of the first range,
/// every `y` of the second in turn.
#[verifier::external_body]
pub(crate) fn cartesian_coords(x0: i16, x1: i16, y0: i16, y1: i16) -> (r: Vec<(i16, i16)>)
    requires
        x0 <= x1,
        y0 <= y1,
    ensures
        r@.len() == (x1 - x0 + 1) * (y1 - y0 + 1),
        forall|i: int|
            0 <= i < (x1 - x0 + 1) * (y1 - y0 + 1) ==> #[trigger] r@[i] == (
                (x0 + i / (y1 - y0 + 1)) as i16,
                (y0 + i % (y1 - y0 + 1)) as i16,
            ),
{
    (x0..=x1).cartesian_product(y0..=y1).collect()
}

} // verus!

verus! {

#[verifier::external_type_specification]
#[verifier::external_body]
pub struct ExChaCha8Rng(rand_chacha::ChaCha8Rng);

/// Calls `rand::SeedableRng::from_entropy` for a `ChaCha8Rng`. Nothing is claimed of the
/// generator: its seed comes from the operating system.
#[verifier::external_body]
pub(crate) fn chacha_from_entropy() -> (r: rand_chacha::ChaCha8Rng) {
    <rand_chacha::ChaCha8Rng as rand::SeedableRng>::from_entropy()
}

/// The generator `rand::SeedableRng::seed_from_u64` makes for a `ChaCha8Rng` from `seed`.
pub uninterp spec fn seeded_chacha(seed: u64) -> rand_chacha::ChaCha8Rng;

/// Calls `rand::SeedableRng::seed_from_u64` for a `ChaCha8Rng`. The contract claims that the
/// generator depends on the seed alone: the source expands the seed with a fixed PCG32 step
/// and seeds the generator with the result.
#[verifier::external_body]
pub(crate) fn chacha_seed_from_u64(seed: u64) -> (r: rand_chacha::ChaCha8Rng)
    ensures
        r == seeded_chacha(seed),
{
    <rand_chacha::ChaCha8Rng as rand::SeedableRng>::seed_from_u64(seed)
}

/// What `rand::Rng::gen_range` draws from the generator `rng` for the inclusive `u8` range
/// `lo..=hi`, and the generator it leaves behind.
pub uninterp spec fn chacha_range_u8(rng: rand_chacha::ChaCha8Rng, lo: u8, hi: u8) -> (u8, rand_chacha::ChaCha8Rng);

/// What `rand::Rng::gen_range` draws from the generator `rng` for the inclusive `i32` range
/// `lo..=hi`, and the generator it leaves behind.
pub uninterp spec fn chacha_range_i32(rng: rand_chacha::ChaCha8Rng, lo: i32, hi: i32) -> (i32, rand_chacha::ChaCha8Rng);

/// Calls `rand::Rng::gen_range` with the inclusive `u8` range `lo..=hi`. The contract claims
/// that the value lies in the range, and that the value and the generator left behind depend
/// on the generator's state and the range alone: a `ChaCha8Rng` is a deterministic stream.
#[verifier::external_body]
pub(crate) fn gen_range_u8(rng: &mut rand_chacha::ChaCha8Rng, lo: u8, hi: u8) -> (r: u8)
    requires
        lo <= hi,
    ensures
        lo <= r <= hi,
        (r, *final(rng)) == chacha_range_u8(*old(rng), lo, hi),
{
    rand::Rng::gen_range(rng, lo..=hi)
}

/// Calls `rand::Rng::gen_range` with the inclusive `i32` range `lo..=hi`. The contract claims
/// that the value lies in the range, and that the value and the generator left behind depend
/// on the generator's state and the range alone: a `ChaCha8Rng` is a deterministic stream.
#[verifier::external_body]
pub(crate) fn gen_range_i32(rng: &mut rand_chacha::ChaCha8Rng, lo: i32, hi: i32) -> (r: i32)
    requires
        lo <= hi,
    ensures
        lo <= r <= hi,
        (r, *final(rng)) == chacha_range_i32(*old(rng), lo, hi),
{
    rand::Rng::gen_range(rng, lo..=hi)
}

} // verus!
