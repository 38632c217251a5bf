//! SHA-256 through the `sha2` crate.
use vstd::prelude::*;

use sha2::{Digest, Sha256};

verus! {

/// The SHA-256 digest of `data` (32 bytes), as the `sha2` crate computes it.
pub uninterp spec fn sha256_digest(data: Seq<u8>) -> Seq<u8>;

/// `sha2::Sha256::digest`: the digest of `data`. The contract claims only that
/// the result is the digest of exactly these bytes (a function of them alone);
/// nothing is stated of the digest's value.
#[verifier::external_body]
pub(crate) fn sha256(data: &[u8]) -> (d: [u8; 32])
    ensures
        d@ == sha256_digest(data@),
{
    Sha256::digest(data).into()
}

/// The eight little-endian bytes of `x`.
pub open spec fn le_bytes8(x: nat) -> Seq<u8>
    decreases 8nat,
{
    le_bytes(x, 8)
}

/// The `k` low bytes of `x`, least significant first.
pub open spec fn le_bytes(x: nat, k: nat) -> Seq<u8>
    decreases k,
{
    if k == 0 {
        Seq::empty()
    } else {
        seq![(x % 256) as u8] + le_bytes(x / 256, (k - 1) as nat)
    }
}

proof fn lemma_le_bytes_len(x: nat, k: nat)
    ensures
        le_bytes(x, k).len() == k,
    decreases k,
{
    if k > 0 {
        lemma_le_bytes_len(x / 256, (k - 1) as nat);
    }
}

/// The eight little-endian bytes of `x` (as `u64::to_le_bytes`).
pub fn u64_le_bytes(x: u64) -> (b: Vec<u8>)
    ensures
        b@ == le_bytes8(x as nat),
        b@.len() == 8,
{
    proof {
        lemma_le_bytes_len(x as nat, 8);
    }
    let mut b: Vec<u8> = Vec::new();
    let mut v: u64 = x;
    let mut i: usize = 0;
    while i < 8
        invariant
            i <= 8,
            b@ + le_bytes(v as nat, (8 - i) as nat) == le_bytes(x as nat, 8),
        decreases 8 - i,
    {
        let ghost before = b@;
        assert(le_bytes(v as nat, (8 - i) as nat) == seq![(v % 256) as u8] + le_bytes(
            (v / 256) as nat,
            (8 - i - 1) as nat,
        ));
        b.push((v % 256) as u8);
        v = v / 256;
        i += 1;
        assert(b@ + le_bytes(v as nat, (8 - i) as nat) =~= before + (seq![
            (b@[b@.len() - 1])
        ] + le_bytes(v as nat, (8 - i) as nat)));
    }
    assert(le_bytes(v as nat, 0) =~= Seq::<u8>::empty());
    assert(b@ =~= le_bytes(x as nat, 8));
    b
}

} // verus!
