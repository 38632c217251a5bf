//! Pseudo-noise sign sequences, keyed by a seed and an index.
use vstd::prelude::*;

use crate::common::prng::{chacha_coin, draw_coin, keyed_stream};
use crate::common::sha::{le_bytes8, sha256, sha256_digest, u64_le_bytes};

verus! {

/// The hash input for the generator of index `idx`: the seed, then the index
/// as eight little-endian bytes.
pub open spec fn pn_key_input(seed: Seq<u8>, idx: nat) -> Seq<u8> {
    seed + le_bytes8(idx)
}

/// The per-index generator seed: SHA-256 of the seed followed by the index.
pub fn pn_key(seed: &[u8; 32], idx: u64) -> (key: [u8; 32])
    ensures
        key@ == sha256_digest(pn_key_input(seed@, idx as nat)),
{
    let mut input: Vec<u8> = Vec::new();
    let mut i: usize = 0;
    while i < 32
        invariant
            i <= 32,
            seed@.len() == 32,
            input@ == seed@.subrange(0, i as int),
        decreases 32 - i,
    {
        input.push(seed[i]);
        i += 1;
        assert(input@ =~= seed@.subrange(0, i as int));
    }
    let idx_bytes = u64_le_bytes(idx);
    let mut k: usize = 0;
    while k < 8
        invariant
            k <= 8,
            idx_bytes@.len() == 8,
            input@ == seed@ + idx_bytes@.subrange(0, k as int),
        decreases 8 - k,
    {
        input.push(idx_bytes[k]);
        k += 1;
        assert(input@ =~= seed@ + idx_bytes@.subrange(0, k as int));
    }
    assert(idx_bytes@.subrange(0, 8) =~= idx_bytes@);
    sha256(input.as_slice())
}

/// `k` fair coins: the draws a generator has served after `k` coin flips.
pub open spec fn coins_served(k: nat) -> Seq<Option<u64>> {
    Seq::new(k, |t: int| None::<u64>)
}

/// The pseudo-noise signs of index `idx`: the first `count` coins of the
/// ChaCha20 generator keyed by SHA-256 of the seed and the index.
pub open spec fn pn_sign_seq(seed: Seq<u8>, idx: nat, count: nat) -> Seq<bool> {
    Seq::new(
        count,
        |k: int| chacha_coin(sha256_digest(pn_key_input(seed, idx)), coins_served(k as nat)),
    )
}

/// `count` pseudo-noise signs for index `idx` (`true` for +1, `false` for -1):
/// a ChaCha20 generator keyed by `pn_key(seed, idx)` flips one fair coin per
/// sign.
pub fn pn_signs(seed: &[u8; 32], idx: u64, count: usize) -> (signs: Vec<bool>)
    ensures
        signs@ == pn_sign_seq(seed@, idx as nat, count as nat),
{
    let key = pn_key(seed, idx);
    let mut stream = keyed_stream(key);
    let mut signs: Vec<bool> = Vec::new();
    let mut i: usize = 0;
    while i < count
        invariant
            i <= count,
            stream@ == (key@, coins_served(i as nat)),
            key@ == sha256_digest(pn_key_input(seed@, idx as nat)),
            signs@ == pn_sign_seq(seed@, idx as nat, i as nat),
        decreases count - i,
    {
        let b = draw_coin(&mut stream);
        signs.push(b);
        i += 1;
        assert(stream@.1 =~= coins_served(i as nat));
        assert(signs@ =~= pn_sign_seq(seed@, idx as nat, i as nat));
    }
    signs
}

/// The signs of an index are one fixed stream: asking for fewer signs gives a
/// prefix of asking for more.
pub proof fn lemma_pn_signs_prefix(seed: Seq<u8>, idx: nat, fewer: nat, more: nat)
    requires
        fewer <= more,
    ensures
        pn_sign_seq(seed, idx, fewer) == pn_sign_seq(seed, idx, more).take(fewer as int),
{
    assert(pn_sign_seq(seed, idx, fewer) =~= pn_sign_seq(seed, idx, more).take(fewer as int));
}

} // verus!
