//! Seeded randomness. The generators are those of the `rand` crates. A generator
//! is a stream of words: what is drawn from it, and what is left of it, follows
//! from the words. Of the numbers themselves only the range is known here.

use rand::rngs::StdRng;
use rand::Rng;
use rand::RngCore;
use rand::SeedableRng;
use rand_chacha::ChaCha8Rng;
use vstd::prelude::*;

verus! {

#[verifier::external_type_specification]
#[verifier::external_body]
pub struct ExStdRng(rand::rngs::StdRng);

#[verifier::external_type_specification]
#[verifier::external_body]
pub struct ExChaCha8Rng(rand_chacha::ChaCha8Rng);

/// The words that a [`StdRng`] has still to yield, in their order.
pub uninterp spec fn std_words(rng: StdRng) -> Map<nat, u32>;

/// The words of a [`StdRng`] that is seeded with `seed`.
pub uninterp spec fn std_seeded(seed: u64) -> Map<nat, u32>;

/// `StdRng::seed_from_u64`: a generator whose words the seed determines.
#[verifier::external_body]
pub(crate) fn seeded(seed: u64) -> (r: StdRng)
    ensures
        std_words(r) == std_seeded(seed),
{
    StdRng::seed_from_u64(seed)
}

/// The words that a [`ChaCha8Rng`] has still to yield, in their order.
pub uninterp spec fn chacha8_words(rng: ChaCha8Rng) -> Map<nat, u32>;

/// The words of a [`ChaCha8Rng`] that is seeded with `seed`.
pub uninterp spec fn chacha8_seeded(seed: u64) -> Map<nat, u32>;

/// `ChaCha8Rng::seed_from_u64`: a generator whose words the seed determines.
#[verifier::external_body]
pub(crate) fn seeded_chacha(seed: u64) -> (r: ChaCha8Rng)
    ensures
        chacha8_words(r) == chacha8_seeded(seed),
{
    ChaCha8Rng::seed_from_u64(seed)
}

/// What is drawn from a stream of words with probability `numerator /
/// denominator`, and the words that are left.
pub uninterp spec fn ratio_drawn(words: Map<nat, u32>, numerator: nat, denominator: nat) -> (
    bool,
    Map<nat, u32>,
);

/// `Rng::random_ratio` on a [`StdRng`]: true with probability `numerator /
/// denominator`, so never when the numerator is zero and always when the two
/// are equal. What is drawn, and how many words it takes, follows from the words
/// and from the ratio.
#[verifier::external_body]
pub(crate) fn chance(rng: &mut StdRng, numerator: u32, denominator: u32) -> (r: bool)
    requires
        numerator <= denominator,
        denominator > 0,
    ensures
        (r, std_words(*final(rng))) == ratio_drawn(
            std_words(*old(rng)),
            numerator as nat,
            denominator as nat,
        ),
        numerator == 0 ==> !r,
        numerator == denominator ==> r,
{
    rng.random_ratio(numerator, denominator)
}

/// The number below `n` that is drawn from a stream of words, for a type as wide
/// as a word or as an address, and the words that are left.
pub uninterp spec fn range_drawn(words: Map<nat, u32>, n: nat) -> (nat, Map<nat, u32>);

/// `Rng::random_range` on a [`StdRng`] over `0..n`: some number below `n`. Which
/// one, and how many words it takes, follows from the words and from `n`.
#[verifier::external_body]
pub(crate) fn below_u32(rng: &mut StdRng, n: u32) -> (r: u32)
    requires
        n > 0,
    ensures
        (r as nat, std_words(*final(rng))) == range_drawn(std_words(*old(rng)), n as nat),
        r < n,
{
    rng.random_range(0..n)
}

/// `Rng::random_range` on a [`StdRng`] over `0..n`: some number below `n`. Which
/// one, and how many words it takes, follows from the words and from `n`. Below
/// a number that fits a word it draws as for a word.
#[verifier::external_body]
pub(crate) fn below_usize(rng: &mut StdRng, n: usize) -> (r: usize)
    requires
        n > 0,
    ensures
        (r as nat, std_words(*final(rng))) == range_drawn(std_words(*old(rng)), n as nat),
        r < n,
{
    rng.random_range(0..n)
}

/// `Rng::random_range` on a [`ChaCha8Rng`] over `0..n`: some number below `n`.
/// It draws from the words as any generator does.
#[verifier::external_body]
pub(crate) fn chacha_below(rng: &mut ChaCha8Rng, n: usize) -> (r: usize)
    requires
        n > 0,
    ensures
        (r as nat, chacha8_words(*final(rng))) == range_drawn(chacha8_words(*old(rng)), n as nat),
        r < n,
{
    rng.random_range(0..n)
}

/// The number below `n` that is drawn from a stream of words, for a type of two
/// words, and the words that are left.
pub uninterp spec fn wide_range_drawn(words: Map<nat, u32>, n: nat) -> (nat, Map<nat, u32>);

/// `Rng::random_range` on a [`StdRng`] over `0..n`: some number below `n`. Which
/// one, and how many words it takes, follows from the words and from `n`.
#[verifier::external_body]
pub(crate) fn below_u64(rng: &mut StdRng, n: u64) -> (r: u64)
    requires
        n > 0,
    ensures
        (r as nat, std_words(*final(rng))) == wide_range_drawn(std_words(*old(rng)), n as nat),
        r < n,
{
    rng.random_range(0..n)
}

/// The first `len` bytes that a [`ChaCha8Rng`] seeded with `seed` fills in.
pub uninterp spec fn chacha8_stream(seed: u64, len: nat) -> Seq<u8>;

/// `ChaCha8Rng::seed_from_u64`, then `RngCore::fill_bytes` on `len` bytes: the
/// seed and the length determine every byte.
#[verifier::external_body]
pub(crate) fn chacha_stream(seed: u64, len: usize) -> (r: Vec<u8>)
    ensures
        r@ == chacha8_stream(seed, len as nat),
        r@.len() == len,
{
    let mut out = vec![0u8; len];
    ChaCha8Rng::seed_from_u64(seed).fill_bytes(&mut out);
    out
}

} // verus!
