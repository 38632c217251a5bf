//! Packing bytes into bits (most significant bit first) and back, and the
//! per-position majority vote used by the redundant embeddings.
use vstd::prelude::*;

verus! {

/// Bit `i` (0 = most significant) of byte `b`.
pub open spec fn bit_of(b: u8, i: int) -> bool {
    (b >> ((7 - i) as u8)) & 1u8 == 1u8
}

/// The bits of `bytes`, eight per byte, most significant bit first.
pub open spec fn bytes_to_bits(bytes: Seq<u8>) -> Seq<bool> {
    Seq::new(bytes.len() * 8, |k: int| bit_of(bytes[k / 8], k % 8))
}

/// `mask` if `b` is set, else zero.
pub open spec fn bsel(b: bool, mask: u8) -> u8 {
    if b {
        mask
    } else {
        0u8
    }
}

/// The byte whose bits, most significant first, are `bits[o..o + 8]`.
pub open spec fn pack8(bits: Seq<bool>, o: int) -> u8 {
    bsel(bits[o], 0x80u8) | bsel(bits[o + 1], 0x40u8) | bsel(bits[o + 2], 0x20u8) | bsel(
        bits[o + 3],
        0x10u8,
    ) | bsel(bits[o + 4], 0x08u8) | bsel(bits[o + 5], 0x04u8) | bsel(bits[o + 6], 0x02u8)
        | bsel(bits[o + 7], 0x01u8)
}

/// The bytes made of each complete group of eight bits; a trailing partial
/// group is ignored.
pub open spec fn bits_to_bytes(bits: Seq<bool>) -> Seq<u8> {
    Seq::new(bits.len() / 8, |j: int| pack8(bits, 8 * j))
}

/// Positions `k` and `8 * j + i` (with `i < 8`) name the same bit.
pub proof fn lemma_div_mod8(j: int, i: int)
    requires
        0 <= j,
        0 <= i < 8,
    ensures
        (8 * j + i) / 8 == j,
        (8 * j + i) % 8 == i,
{
    vstd::arithmetic::div_mod::lemma_fundamental_div_mod_converse_div(8 * j + i, 8, j, i);
    vstd::arithmetic::div_mod::lemma_fundamental_div_mod_converse_mod(8 * j + i, 8, j, i);
}

/// A byte is rebuilt exactly from its eight bits.
pub proof fn lemma_pack_byte(b: u8)
    ensures
        bsel((b >> 7u8) & 1u8 == 1u8, 0x80u8) | bsel((b >> 6u8) & 1u8 == 1u8, 0x40u8) | bsel(
            (b >> 5u8) & 1u8 == 1u8,
            0x20u8,
        ) | bsel((b >> 4u8) & 1u8 == 1u8, 0x10u8) | bsel((b >> 3u8) & 1u8 == 1u8, 0x08u8) | bsel(
            (b >> 2u8) & 1u8 == 1u8,
            0x04u8,
        ) | bsel((b >> 1u8) & 1u8 == 1u8, 0x02u8) | bsel((b >> 0u8) & 1u8 == 1u8, 0x01u8) == b,
{
    assert(((if (b >> 7u8) & 1u8 == 1u8 { 0x80u8 } else { 0u8 }) | (if (b >> 6u8) & 1u8 == 1u8 {
        0x40u8
    } else {
        0u8
    }) | (if (b >> 5u8) & 1u8 == 1u8 { 0x20u8 } else { 0u8 }) | (if (b >> 4u8) & 1u8 == 1u8 {
        0x10u8
    } else {
        0u8
    }) | (if (b >> 3u8) & 1u8 == 1u8 { 0x08u8 } else { 0u8 }) | (if (b >> 2u8) & 1u8 == 1u8 {
        0x04u8
    } else {
        0u8
    }) | (if (b >> 1u8) & 1u8 == 1u8 { 0x02u8 } else { 0u8 }) | (if (b >> 0u8) & 1u8 == 1u8 {
        0x01u8
    } else {
        0u8
    })) == b) by (bit_vector);
}

/// Unpacking then packing gives the bytes back.
pub proof fn lemma_bits_bytes_round_trip(bytes: Seq<u8>)
    ensures
        bits_to_bytes(bytes_to_bits(bytes)) == bytes,
{
    let bits = bytes_to_bits(bytes);
    assert(bits.len() / 8 == bytes.len()) by {
        lemma_div_mod8(bytes.len() as int, 0);
    }
    assert forall|j: int| 0 <= j < bytes.len() implies #[trigger] pack8(bits, 8 * j)
        == bytes[j] by {
        assert forall|i: int| 0 <= i < 8 implies bits[8 * j + i] == bit_of(bytes[j], i) by {
            lemma_div_mod8(j, i);
        }
        lemma_pack_byte(bytes[j]);
    }
    assert(bits_to_bytes(bits) =~= bytes);
}

/// Unpacks bytes into bits, most significant bit of each byte first.
pub fn unpack_bytes(bytes: &[u8]) -> (bits: Vec<bool>)
    requires
        bytes@.len() * 8 <= usize::MAX,
    ensures
        bits@ == bytes_to_bits(bytes@),
{
    let mut bits: Vec<bool> = Vec::new();
    let n = bytes.len();
    let mut j: usize = 0;
    while j < n
        invariant
            n == bytes@.len(),
            n * 8 <= usize::MAX,
            j <= n,
            bits@.len() == 8 * j,
            forall|k: int| 0 <= k < bits@.len() ==> #[trigger] bits@[k] == bit_of(bytes@[k / 8], k % 8),
        decreases n - j,
    {
        let b = bytes[j];
        let mut i: usize = 0;
        while i < 8
            invariant
                j < n,
                b == bytes@[j as int],
                i <= 8,
                bits@.len() == 8 * j + i,
                forall|k: int| 0 <= k < bits@.len() ==> #[trigger] bits@[k] == bit_of(bytes@[k / 8], k % 8),
            decreases 8 - i,
        {
            proof {
                lemma_div_mod8(j as int, i as int);
            }
            bits.push((b >> ((7 - i) as u8)) & 1 == 1);
            i += 1;
        }
        j += 1;
    }
    assert(bits@ =~= bytes_to_bits(bytes@));
    bits
}

fn sel(b: bool, mask: u8) -> (r: u8)
    ensures
        r == bsel(b, mask),
{
    if b {
        mask
    } else {
        0
    }
}

/// Packs each complete group of eight bits into a byte, most significant bit
/// first; a trailing partial group is dropped.
pub fn pack_bits(bits: &[bool]) -> (bytes: Vec<u8>)
    ensures
        bytes@ == bits_to_bytes(bits@),
{
    let mut bytes: Vec<u8> = Vec::new();
    let len = bits.len();
    let n = len / 8;
    let mut j: usize = 0;
    while j < n
        invariant
            len == bits@.len(),
            n == len / 8,
            j <= n,
            bytes@.len() == j,
            forall|q: int| 0 <= q < j ==> #[trigger] bytes@[q] == pack8(bits@, 8 * q),
        decreases n - j,
    {
        proof {
            vstd::arithmetic::div_mod::lemma_fundamental_div_mod(len as int, 8);
        }
        let o = 8 * j;
        let byte = sel(bits[o], 0x80) | sel(bits[o + 1], 0x40) | sel(bits[o + 2], 0x20) | sel(
            bits[o + 3],
            0x10,
        ) | sel(bits[o + 4], 0x08) | sel(bits[o + 5], 0x04) | sel(bits[o + 6], 0x02) | sel(
            bits[o + 7],
            0x01,
        );
        bytes.push(byte);
        j += 1;
    }
    assert(bytes@ =~= bits_to_bytes(bits@));
    bytes
}

/// Per-position majority vote: position `i` is set when strictly more than
/// half of its `totals[i]` votes were for a one.
pub open spec fn majority_votes(ones: Seq<usize>, totals: Seq<usize>) -> Seq<bool> {
    Seq::new(ones.len(), |i: int| ones[i] * 2 > totals[i])
}

/// Turns vote counts into bits by strict majority (`ones * 2 > total`); a
/// position without votes yields `false`.
pub fn votes_to_bits(ones: &[usize], totals: &[usize]) -> (bits: Vec<bool>)
    requires
        ones@.len() == totals@.len(),
    ensures
        bits@ == majority_votes(ones@, totals@),
{
    let mut bits: Vec<bool> = Vec::new();
    let n = ones.len();
    let mut i: usize = 0;
    while i < n
        invariant
            n == ones@.len(),
            n == totals@.len(),
            i <= n,
            bits@.len() == i,
            forall|q: int| 0 <= q < i ==> #[trigger] bits@[q] == (ones@[q] * 2 > totals@[q]),
        decreases n - i,
    {
        bits.push(ones[i] > totals[i] / 2);
        i += 1;
    }
    assert(bits@ =~= majority_votes(ones@, totals@));
    bits
}

/// Among the first `k` voters, how many voted one for position `i`.
pub open spec fn votes_for_one(votes: Seq<Seq<Option<bool>>>, i: int, k: int) -> nat
    decreases k,
{
    if k <= 0 {
        0
    } else {
        votes_for_one(votes, i, k - 1) + (if votes[k - 1][i] == Some(true) {
            1nat
        } else {
            0nat
        })
    }
}

/// Among the first `k` voters, how many voted at all for position `i`.
pub open spec fn votes_cast(votes: Seq<Seq<Option<bool>>>, i: int, k: int) -> nat
    decreases k,
{
    if k <= 0 {
        0
    } else {
        votes_cast(votes, i, k - 1) + (if votes[k - 1][i] is Some {
            1nat
        } else {
            0nat
        })
    }
}

/// Among the first `k` voters, how many voted zero for position `i`.
pub open spec fn votes_for_zero(votes: Seq<Seq<Option<bool>>>, i: int, k: int) -> nat
    decreases k,
{
    if k <= 0 {
        0
    } else {
        votes_for_zero(votes, i, k - 1) + (if votes[k - 1][i] == Some(false) {
            1nat
        } else {
            0nat
        })
    }
}

proof fn lemma_votes_split(votes: Seq<Seq<Option<bool>>>, i: int, k: int)
    ensures
        votes_cast(votes, i, k) == votes_for_one(votes, i, k) + votes_for_zero(votes, i, k),
    decreases k,
{
    if k > 0 {
        lemma_votes_split(votes, i, k - 1);
        match votes[k - 1][i] {
            Some(b) => {
                if b {
                    assert(votes[k - 1][i] == Some(true));
                } else {
                    assert(votes[k - 1][i] == Some(false));
                }
            },
            None => {},
        }
    }
}

/// Majority over copies: when, at every position, more of the copies read the
/// true bit than the other one, deciding the tallied votes by strict majority
/// gives the true bits.
pub proof fn lemma_majority_of_copies(votes: Seq<Seq<Option<bool>>>, truth: Seq<bool>, ones: Seq<usize>, totals: Seq<usize>)
    requires
        ones.len() == truth.len(),
        totals.len() == truth.len(),
        forall|i: int| 0 <= i < truth.len() ==> #[trigger] ones[i] == votes_for_one(votes, i, votes.len() as int),
        forall|i: int| 0 <= i < truth.len() ==> #[trigger] totals[i] == votes_cast(votes, i, votes.len() as int),
        forall|i: int|
            0 <= i < truth.len() ==> if #[trigger] truth[i] {
                votes_for_one(votes, i, votes.len() as int) > votes_for_zero(votes, i, votes.len() as int)
            } else {
                votes_for_zero(votes, i, votes.len() as int) > votes_for_one(votes, i, votes.len() as int)
            },
    ensures
        majority_votes(ones, totals) == truth,
{
    assert forall|i: int| 0 <= i < truth.len() implies #[trigger] majority_votes(ones, totals)[i] == truth[i] by {
        lemma_votes_split(votes, i, votes.len() as int);
        assert(ones[i] == votes_for_one(votes, i, votes.len() as int));
        assert(totals[i] == votes_cast(votes, i, votes.len() as int));
    }
    assert(majority_votes(ones, totals) =~= truth);
}

/// The votes for one never outnumber the votes cast, and at most one vote per
/// voter is counted at each position.
pub proof fn lemma_votes_bounded(votes: Seq<Seq<Option<bool>>>, i: int, k: int)
    ensures
        votes_for_one(votes, i, k) <= votes_cast(votes, i, k),
        votes_cast(votes, i, k) <= if k < 0 { 0 } else { k },
    decreases k,
{
    if k > 0 {
        lemma_votes_bounded(votes, i, k - 1);
    }
}

/// Counts, per position, the votes for one and the votes cast; each voter
/// gives at most one vote (`Some(bit)`) per position.
pub fn tally_votes(votes: &Vec<Vec<Option<bool>>>, n: usize) -> (r: (Vec<usize>, Vec<usize>))
    requires
        forall|v: int| 0 <= v < votes@.len() ==> (#[trigger] votes@[v])@.len() == n,
    ensures
        r.0@.len() == n,
        r.1@.len() == n,
        forall|i: int| 0 <= i < n ==> #[trigger] r.0@[i] == votes_for_one(votes@.map_values(|b: Vec<Option<bool>>| b@), i, votes@.len() as int),
        forall|i: int| 0 <= i < n ==> #[trigger] r.1@[i] == votes_cast(votes@.map_values(|b: Vec<Option<bool>>| b@), i, votes@.len() as int),
{
    let ghost vs = votes@.map_values(|b: Vec<Option<bool>>| b@);
    let mut ones: Vec<usize> = Vec::new();
    let mut totals: Vec<usize> = Vec::new();
    let mut q: usize = 0;
    while q < n
        invariant
            q <= n,
            ones@.len() == q,
            totals@.len() == q,
            forall|i: int| 0 <= i < q ==> #[trigger] ones@[i] == 0,
            forall|i: int| 0 <= i < q ==> #[trigger] totals@[i] == 0,
        decreases n - q,
    {
        ones.push(0);
        totals.push(0);
        q += 1;
    }
    let m = votes.len();
    let mut v: usize = 0;
    while v < m
        invariant
            m == votes@.len(),
            vs == votes@.map_values(|b: Vec<Option<bool>>| b@),
            forall|w: int| 0 <= w < votes@.len() ==> (#[trigger] votes@[w])@.len() == n,
            v <= m,
            ones@.len() == n,
            totals@.len() == n,
            forall|i: int| 0 <= i < n ==> #[trigger] ones@[i] == votes_for_one(vs, i, v as int),
            forall|i: int| 0 <= i < n ==> #[trigger] totals@[i] == votes_cast(vs, i, v as int),
        decreases m - v,
    {
        let row = &votes[v];
        assert(row@ == vs[v as int]);
        let mut i: usize = 0;
        while i < n
            invariant
                m == votes@.len(),
                v < m,
                row@ == vs[v as int],
                row@.len() == n,
                i <= n,
                ones@.len() == n,
                totals@.len() == n,
                forall|x: int| 0 <= x < i ==> #[trigger] ones@[x] == votes_for_one(vs, x, v + 1),
                forall|x: int| i <= x < n ==> #[trigger] ones@[x] == votes_for_one(vs, x, v as int),
                forall|x: int| 0 <= x < i ==> #[trigger] totals@[x] == votes_cast(vs, x, v + 1),
                forall|x: int| i <= x < n ==> #[trigger] totals@[x] == votes_cast(vs, x, v as int),
            decreases n - i,
        {
            proof {
                lemma_votes_bounded(vs, i as int, v as int);
            }
            match row[i] {
                Some(bit) => {
                    let t = totals[i];
                    totals.set(i, t + 1);
                    if bit {
                        let o = ones[i];
                        ones.set(i, o + 1);
                    }
                },
                None => {},
            }
            i += 1;
        }
        v += 1;
    }
    (ones, totals)
}

} // verus!
