//! Content digests: 64-bit words obtained by folding the words of a value
//! through a multiply-and-xor step, and the XOR distance between two digests.

use vstd::prelude::*;

verus! {

/// A content digest.
pub type Digest = u64;

/// The state from which every digest starts.
pub const DIGEST_SEED: u64 = 0xcbf2_9ce4_8422_2325u64;

/// The multiplier of the folding step.
pub const DIGEST_PRIME: u64 = 0x0000_0100_0000_01b3u64;

/// The digest state after `word` has been folded into `state`: the two are
/// xor-ed and the result is multiplied by the prime, modulo 2^64.
pub open spec fn spec_absorb(state: u64, word: u64) -> u64 {
    (((state ^ word) as nat * DIGEST_PRIME as nat) % 0x1_0000_0000_0000_0000nat) as u64
}

/// The digest of a sequence of words, folded from the left.
pub open spec fn spec_digest(words: Seq<u64>) -> u64
    decreases words.len(),
{
    if words.len() == 0 {
        DIGEST_SEED
    } else {
        spec_absorb(spec_digest(words.drop_last()), words.last())
    }
}

/// The distance of `other` from `target`: their bitwise exclusive or.
pub open spec fn spec_xor_distance(target: u64, other: u64) -> u64 {
    target ^ other
}

/// Folds one word into a digest state.
pub fn absorb(state: u64, word: u64) -> (next: u64)
    ensures
        next == spec_absorb(state, word),
{
    (state ^ word).wrapping_mul(DIGEST_PRIME)
}

/// Computes the digest of `words`.
pub fn digest(words: &Vec<u64>) -> (out: Digest)
    ensures
        out == spec_digest(words@),
{
    let mut state: u64 = DIGEST_SEED;
    let mut i: usize = 0;
    while i < words.len()
        invariant
            i <= words.len(),
            state == spec_digest(words@.take(i as int)),
        decreases words.len() - i,
    {
        proof {
            assert(words@.take(i + 1).drop_last() =~= words@.take(i as int));
        }
        state = absorb(state, words[i]);
        i += 1;
    }
    proof {
        assert(words@.take(i as int) =~= words@);
    }
    state
}

/// The XOR distance of `other` from `target`.
pub fn xor_distance(target: Digest, other: Digest) -> (d: u64)
    ensures
        d == spec_xor_distance(target, other),
{
    target ^ other
}

/// Tells whether `a` lies strictly closer to `target` than `b` does.
pub fn xor_closer(target: Digest, a: Digest, b: Digest) -> (closer: bool)
    ensures
        closer == (spec_xor_distance(target, a) < spec_xor_distance(target, b)),
{
    (target ^ a) < (target ^ b)
}

} // verus!
