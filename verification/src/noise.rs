//! The random words behind simulated measurement noise.
use rand::rngs::SmallRng;
use rand::{Rng, SeedableRng};
use vstd::prelude::*;

verus! {

/// The generator of `rand` that noise is drawn from.
#[verifier::external_type_specification]
#[verifier::external_body]
pub struct ExSmallRng(SmallRng);

/// The 64-bit words that a generator will hand out, the next one at index zero.
pub uninterp spec fn upcoming_words(rng: SmallRng) -> Map<int, u64>;

/// The 64-bit words that a generator hands out from the start when it is seeded with `seed`, on
/// a machine whose pointers have `pointer_bits` bits.
pub uninterp spec fn seeded_words(seed: u64, pointer_bits: int) -> Map<int, u64>;

/// Calls `SmallRng::seed_from_u64`. The state it makes, and so every word that follows, is fixed
/// by the seed and by the algorithm, which `rand` picks by the pointer width of the machine.
#[verifier::external_body]
pub(crate) fn seeded_generator(seed: u64) -> (rng: SmallRng)
    ensures
        upcoming_words(rng) == seeded_words(seed, usize::BITS as int),
{
    SmallRng::seed_from_u64(seed)
}

/// Calls `Rng::random` for a `u64`. It hands out the next word of the generator, and the words
/// after it stay as they were.
#[verifier::external_body]
pub(crate) fn next_word(rng: &mut SmallRng) -> (word: u64)
    ensures
        word == upcoming_words(*old(rng))[0],
        forall|i: int|
            i >= 0 ==> #[trigger] upcoming_words(*final(rng))[i] == upcoming_words(*old(rng))[i + 1],
{
    rng.random::<u64>()
}

/// The numerator over 2^53 of the number in [0, 1) that a random word stands for: its upper 53
/// bits.
pub open spec fn numerator(word: u64) -> u64 {
    word / 2048
}

/// Draws the numerator of a number in [0, 1) with denominator 2^53.
pub(crate) fn draw_numerator(rng: &mut SmallRng) -> (res: u64)
    ensures
        res == numerator(upcoming_words(*old(rng))[0]),
        res < 0x20_0000_0000_0000,
        forall|i: int|
            i >= 0 ==> #[trigger] upcoming_words(*final(rng))[i] == upcoming_words(*old(rng))[i + 1],
{
    next_word(rng) / 2048
}

} // verus!
