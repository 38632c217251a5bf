//! Vector engine (SVG) decisions: the message framing, the number scanning of
//! path data and the text surgery. The quantization of each coordinate is
//! done by the caller.
use vstd::prelude::*;

pub mod scan;

use crate::bits::{bytes_to_bits, lemma_bits_bytes_round_trip, majority_votes, votes_to_bits};
use crate::common::password::password_to_seed;
use crate::common::pn::{pn_sign_seq, pn_signs};
use crate::common::scramble::{keyed_permutation, lemma_keyed_permutation_is_permutation, lemma_unscramble_scramble, gather, generate_permutation, is_permutation, scatter, scramble, unscramble};
use crate::common::sha::sha256_digest;
use crate::common::engine::EmbedInfo;
use crate::frame::{decode_short, short_decode_outcome, short_payload, short_payload_bytes};
use crate::text::{dec, push_decimal, push_str};
use scan::{count_qualifying_paths, d_attr_values, embedding_target_spans, embedding_targets, qualifying_prefix, tokens_at, NumberToken};
use vstd::string::StringSliceAdditionalSpecFns;

verus! {

/// Max coordinates to use from each path.
pub const MAX_COORDS: usize = 64;

/// Max message bytes: MAX_COORDS/8 - 1 header = 7.
pub const SVG_MAX_MESSAGE: usize = MAX_COORDS / 8 - 1;

/// The SVG watermark engine.
pub struct VectorEngine;

/// Bytes needed for `total_bits` bits.
pub open spec fn bytes_for_bits(total_bits: nat) -> nat {
    total_bits / 8 + (if total_bits % 8 != 0 {
        1nat
    } else {
        0nat
    })
}

/// What `svg_encode_n` returns: the first `total_bits` bits of the short
/// frame, or the error text.
pub open spec fn svg_encode_outcome(message: Seq<u8>, total_bits: nat) -> Result<Seq<bool>, Seq<char>> {
    let payload_bytes = bytes_for_bits(total_bits);
    if payload_bytes == 0 || message.len() + 1 > payload_bytes {
        Err(
            "Message too long: max "@ + dec(
                (if payload_bytes >= 1 {
                    payload_bytes - 1
                } else {
                    0
                }) as nat,
            ) + " bytes, got "@ + dec(message.len()),
        )
    } else {
        Ok(bytes_to_bits(short_payload(message, payload_bytes)).take(total_bits as int))
    }
}

/// Frames `message` into exactly `total_bits` bits: a length byte, the message
/// and zero padding, cut to `total_bits`.
pub fn svg_encode_n(message: &[u8], total_bits: usize) -> (r: Result<Vec<bool>, String>)
    ensures
        match r {
            Ok(bits) => svg_encode_outcome(message@, total_bits as nat) == Ok::<Seq<bool>, Seq<char>>(bits@),
            Err(e) => svg_encode_outcome(message@, total_bits as nat) == Err::<Seq<bool>, Seq<char>>(e@),
        },
        r matches Ok(bits) ==> bits@.len() == total_bits,
{
    let payload_bytes = total_bits / 8 + if total_bits % 8 != 0 { 1 } else { 0 };
    if payload_bytes == 0 || message.len() >= payload_bytes {
        let mut e = String::from_str("Message too long: max ");
        push_decimal(&mut e, payload_bytes.saturating_sub(1) as u64);
        push_str(&mut e, " bytes, got ");
        push_decimal(&mut e, message.len() as u64);
        return Err(e);
    }
    let payload = short_payload_bytes(message, payload_bytes);
    proof {
        vstd::arithmetic::div_mod::lemma_fundamental_div_mod(total_bits as int, 8);
    }
    let ghost all = bytes_to_bits(payload@);
    let mut bits: Vec<bool> = Vec::new();
    let mut i: usize = 0;
    while i < total_bits
        invariant
            payload@.len() == payload_bytes,
            total_bits <= payload_bytes * 8,
            all == bytes_to_bits(payload@),
            i <= total_bits,
            bits@ == all.take(i as int),
        decreases total_bits - i,
    {
        proof {
            vstd::arithmetic::div_mod::lemma_fundamental_div_mod(i as int, 8);
            assert(i / 8 < payload_bytes) by (nonlinear_arith)
                requires
                    i < total_bits,
                    total_bits <= payload_bytes * 8,
                    i == 8 * (i / 8) + i % 8,
                    0 <= i % 8,
            ;
        }
        let b = payload[i / 8];
        bits.push((b >> ((7 - i % 8) as u8)) & 1 == 1);
        i += 1;
        assert(bits@ =~= all.take(i as int));
    }
    Ok(bits)
}

/// Decodes a short frame read back from SVG coordinates.
pub fn svg_decode(bits: &[bool]) -> (r: Result<Vec<u8>, String>)
    ensures
        match r {
            Ok(m) => short_decode_outcome(bits@) == Ok::<Seq<u8>, Seq<char>>(m@),
            Err(e) => short_decode_outcome(bits@) == Err::<Seq<u8>, Seq<char>>(e@),
        },
{
    decode_short(bits)
}

/// Round trip of the SVG framing, for every frame length: a message of 1 to
/// 255 bytes whose frame fits in `total_bits` bits is framed by `svg_encode_n`
/// into bits that `svg_decode` turns back into the message. (A shorter frame,
/// such as 9 bits for one byte, cuts the message and is left out.)
pub proof fn lemma_svg_round_trip(message: Seq<u8>, total_bits: nat)
    requires
        1 <= message.len() < 256,
        (message.len() + 1) * 8 <= total_bits,
    ensures
        svg_encode_outcome(message, total_bits) matches Ok(bits) && short_decode_outcome(bits)
            == Ok::<Seq<u8>, Seq<char>>(message),
{
    let pb = bytes_for_bits(total_bits);
    vstd::arithmetic::div_mod::lemma_fundamental_div_mod(total_bits as int, 8);
    let p = short_payload(message, pb);
    let all = bytes_to_bits(p);
    let bits = all.take(total_bits as int);
    let k = (message.len() + 1) as nat;
    let front = all.take((8 * k) as int);
    lemma_bits_bytes_round_trip(p);
    lemma_bits_bytes_round_trip(p.take(k as int));
    assert(bytes_to_bits(p.take(k as int)) =~= front) by {
        assert forall|q: int| 0 <= q < 8 * k implies bytes_to_bits(p.take(k as int))[q] == front[q] by {
            crate::bits::lemma_div_mod8(q / 8, q % 8);
        }
    }
    assert(crate::bits::bits_to_bytes(bits).len() >= k);
    assert forall|j: int| 0 <= j < k implies #[trigger] crate::bits::bits_to_bytes(bits)[j] == p[j] by {
        assert(crate::bits::bits_to_bytes(front)[j] == p.take(k as int)[j]);
    }
    let bytes = crate::bits::bits_to_bytes(bits);
    assert(bytes[0] == message.len());
    assert(bytes.subrange(1, 1 + bytes[0] as int) =~= message);
}

/// The number of frame bits for a message of `message_len` bytes: one byte
/// of length plus the message, at most `MAX_COORDS`.
pub fn svg_bit_count(message_len: usize) -> (r: usize)
    requires
        message_len <= SVG_MAX_MESSAGE,
    ensures
        r == (message_len + 1) * 8,
        r <= MAX_COORDS,
{
    let msg_bits = (message_len + 1) * 8;
    if msg_bits < MAX_COORDS {
        msg_bits
    } else {
        MAX_COORDS
    }
}

/// The refusal text of `embed` for a message longer than the SVG capacity.
pub open spec fn embed_too_long_text(len: nat) -> Seq<char> {
    "Message too long for SVG: max "@ + dec(7) + " bytes, got "@ + dec(len)
}

/// The refusal text of a dry run for a message longer than the SVG capacity.
pub open spec fn dry_run_too_long_text(len: nat) -> Seq<char> {
    "Message too long: "@ + dec(len) + " bytes, max: "@ + dec(7) + " (mode: vector-qim)"@
}

/// `embed` refuses messages longer than `SVG_MAX_MESSAGE` bytes.
pub fn check_embed_length(message_len: usize) -> (r: Result<(), String>)
    ensures
        r is Ok <==> message_len <= 7,
        r matches Err(e) ==> e@ == embed_too_long_text(message_len as nat),
{
    if message_len > SVG_MAX_MESSAGE {
        let mut e = String::from_str("Message too long for SVG: max ");
        push_decimal(&mut e, SVG_MAX_MESSAGE as u64);
        push_str(&mut e, " bytes, got ");
        push_decimal(&mut e, message_len as u64);
        return Err(e);
    }
    Ok(())
}

/// A dry run refuses messages longer than `SVG_MAX_MESSAGE` bytes.
pub fn check_dry_run_length(message_len: usize) -> (r: Result<(), String>)
    ensures
        r is Ok <==> message_len <= 7,
        r matches Err(e) ==> e@ == dry_run_too_long_text(message_len as nat),
{
    if message_len > SVG_MAX_MESSAGE {
        let mut e = String::from_str("Message too long: ");
        push_decimal(&mut e, message_len as u64);
        push_str(&mut e, " bytes, max: ");
        push_decimal(&mut e, SVG_MAX_MESSAGE as u64);
        push_str(&mut e, " (mode: vector-qim)");
        return Err(e);
    }
    Ok(())
}

/// `info` is what the vector engine reports for `message` carried by
/// `num_paths` paths, written to `output_path`.
pub open spec fn is_vector_info(info: EmbedInfo, message: &str, num_paths: usize, output_path: &str) -> bool {
    &&& info.status@ == "ok"@
    &&& info.mode@ == "vector-qim"@
    &&& info.message@ == message@
    &&& info.message_bytes == message.spec_bytes().len()
    &&& info.intensity == 0
    &&& info.width == 0
    &&& info.height == 0
    &&& info.keypoints == num_paths
    &&& info.max_capacity == 7
    &&& info.output_path@ == output_path@
}

/// What the vector engine reports for `message` carried by `num_paths`
/// paths.
pub fn vector_info(message: &str, num_paths: usize, output_path: &str) -> (info: EmbedInfo)
    ensures
        is_vector_info(info, message, num_paths, output_path),
{
    EmbedInfo {
        status: String::from_str("ok"),
        mode: String::from_str("vector-qim"),
        message: String::from_str(message),
        message_bytes: message.as_bytes().len(),
        intensity: 0,
        width: 0,
        height: 0,
        keypoints: num_paths,
        max_capacity: SVG_MAX_MESSAGE,
        output_path: String::from_str(output_path),
    }
}

/// The SVG dry run: refuses a message longer than 7 bytes, then an SVG
/// without a path holding enough numbers for the message; otherwise reports
/// the paths that would carry it.
pub fn svg_dry_run_info(svg: &str, message: &str, output_path: &str) -> (r: Result<EmbedInfo, String>)
    ensures
        ({
            let len = message.spec_bytes().len();
            let q = qualifying_prefix(d_attr_values(svg@), ((len + 1) * 8) as nat, d_attr_values(svg@).len() as int);
            &&& len > 7 ==> (r matches Err(e) && e@ == dry_run_too_long_text(len))
            &&& len <= 7 && q == 0 ==> (r matches Err(e) && e@ == "SVG has no qualifying paths for this message"@)
            &&& len <= 7 && q > 0 ==> (r matches Ok(info) && is_vector_info(info, message, q as usize, output_path))
        }),
{
    let len = message.as_bytes().len();
    match check_dry_run_length(len) {
        Ok(()) => {},
        Err(e) => return Err(e),
    }
    let qualifying = count_qualifying_paths(svg, svg_bit_count(len));
    if qualifying == 0 {
        return Err(String::from_str("SVG has no qualifying paths for this message"));
    }
    Ok(vector_info(message, qualifying, output_path))
}

/// The sign of the pseudo-noise value of bit `idx` under `seed`.
pub open spec fn pn_sign(seed: Seq<u8>, idx: nat) -> bool {
    pn_sign_seq(seed, idx, 1)[0]
}

/// The sign of the pseudo-noise value for bit `idx` (`true` for +1): the
/// first coin of the generator keyed by `seed` and `idx`.
pub fn generate_pn(seed: &[u8; 32], idx: u64) -> (b: bool)
    ensures
        b == pn_sign(seed@, idx as nat),
{
    let signs = pn_signs(seed, idx, 1);
    signs[0]
}

/// Everything an SVG embedding needs besides the coordinate arithmetic.
pub struct SvgPlan {
    /// Password-derived seed.
    pub seed: [u8; 32],
    /// The permutation the frame bits were scrambled with.
    pub perm: Vec<usize>,
    /// The scrambled frame bits, one per coordinate.
    pub bits: Vec<bool>,
    /// The sign of the pseudo-noise value of each bit position.
    pub pn: Vec<bool>,
    /// Per qualifying path, the coordinates that carry the bits.
    pub targets: Vec<Vec<NumberToken>>,
}

/// The text of the refusal when no path holds enough numbers.
pub open spec fn no_paths_text(bits: nat) -> Seq<char> {
    "SVG has no paths with ≥"@ + dec(bits) + " coordinates for this message"@
}

/// The computing part of `embed`: checks the message length, counts the
/// qualifying paths, frames and scrambles the message under the password and
/// finds the coordinates that will carry it.
pub fn svg_embedding_plan(svg: &str, message: &[u8], password: &str) -> (r: Result<SvgPlan, String>)
    ensures
        message@.len() > 7 ==> (r matches Err(e) && e@ == embed_too_long_text(message@.len())),
        message@.len() <= 7 && qualifying_prefix(d_attr_values(svg@), ((message@.len() + 1) * 8) as nat, d_attr_values(svg@).len() as int) == 0
            ==> (r matches Err(e) && e@ == no_paths_text(((message@.len() + 1) * 8) as nat)),
        message@.len() <= 7 && qualifying_prefix(d_attr_values(svg@), ((message@.len() + 1) * 8) as nat, d_attr_values(svg@).len() as int) > 0
            && embedding_target_spans(svg@, ((message@.len() + 1) * 8) as nat).len() == 0
            ==> (r matches Err(e) && e@ == "SVG has no qualifying paths"@),
        message@.len() <= 7 && embedding_target_spans(svg@, ((message@.len() + 1) * 8) as nat).len() > 0
            ==> r is Ok,
        r matches Ok(plan) ==> {
            let n = ((message@.len() + 1) * 8) as nat;
            &&& message@.len() <= 7
            &&& plan.seed@ == sha256_digest(password.spec_bytes())
            &&& plan.perm@ == keyed_permutation(plan.seed@, n)
            &&& is_permutation(plan.perm@, n)
            &&& svg_encode_outcome(message@, n) matches Ok(framed)
            &&& plan.bits@ == scatter(framed, plan.perm@, n)
            &&& plan.pn@ == Seq::new(n, |i: int| pn_sign(plan.seed@, i as nat))
            &&& plan.targets@.len() == embedding_target_spans(svg@, n).len()
            &&& plan.targets@.len() > 0
            &&& forall|p: int| 0 <= p < plan.targets@.len() ==> tokens_at(#[trigger] plan.targets@[p]@, embedding_target_spans(svg@, n)[p], svg@)
        },
{
    match check_embed_length(message.len()) {
        Ok(()) => {},
        Err(e) => return Err(e),
    }
    let actual_bits = svg_bit_count(message.len());
    proof {
        let k = message@.len() + 1;
        vstd::arithmetic::div_mod::lemma_fundamental_div_mod_converse_div((k * 8) as int, 8, k as int, 0);
        vstd::arithmetic::div_mod::lemma_fundamental_div_mod_converse_mod((k * 8) as int, 8, k as int, 0);
        assert(bytes_for_bits(actual_bits as nat) == k);
    }
    let qualifying = count_qualifying_paths(svg, actual_bits);
    proof {
        if embedding_target_spans(svg@, actual_bits as nat).len() > 0 {
            scan::lemma_targets_imply_qualifying(svg@, actual_bits as nat);
        }
    }
    if qualifying == 0 {
        let mut e = String::from_str("SVG has no paths with ≥");
        push_decimal(&mut e, actual_bits as u64);
        push_str(&mut e, " coordinates for this message");
        return Err(e);
    }
    let framed = match svg_encode_n(message, actual_bits) {
        Ok(b) => b,
        Err(e) => return Err(e),
    };
    let seed = password_to_seed(password);
    let perm = generate_permutation(framed.len(), &seed);
    let bits = scramble(framed.as_slice(), perm.as_slice());
    assert(bits@.len() == actual_bits) by {
        crate::common::scramble::lemma_scatter_places_bits(framed@, perm@);
    }
    let targets = embedding_targets(svg, bits.len());
    if targets.len() == 0 {
        return Err(String::from_str("SVG has no qualifying paths"));
    }
    let mut pn: Vec<bool> = Vec::new();
    let mut i: usize = 0;
    while i < bits.len()
        invariant
            i <= bits@.len(),
            pn@.len() == i,
            forall|q: int| 0 <= q < i ==> #[trigger] pn@[q] == pn_sign(seed@, q as nat),
        decreases bits@.len() - i,
    {
        pn.push(generate_pn(&seed, i as u64));
        i += 1;
    }
    assert(pn@ =~= Seq::new(bits@.len(), |q: int| pn_sign(seed@, q as nat)));
    Ok(SvgPlan { seed, perm, bits, pn, targets })
}

/// The computing part of extraction for one candidate message length: the
/// per-coordinate votes are decided by strict majority, unscrambled along the
/// permutation drawn from `seed`, and decoded.
pub fn recover_svg_message(ones: &[usize], totals: &[usize], seed: &[u8; 32]) -> (r: Result<Vec<u8>, String>)
    requires
        ones@.len() == totals@.len(),
    ensures
        match r {
            Ok(m) => short_decode_outcome(
                gather(majority_votes(ones@, totals@), keyed_permutation(seed@, ones@.len())),
            ) == Ok::<Seq<u8>, Seq<char>>(m@),
            Err(e) => short_decode_outcome(
                gather(majority_votes(ones@, totals@), keyed_permutation(seed@, ones@.len())),
            ) == Err::<Seq<u8>, Seq<char>>(e@),
        },
{
    let scrambled_bits = votes_to_bits(ones, totals);
    let perm = generate_permutation(scrambled_bits.len(), seed);
    let bits = unscramble(scrambled_bits.as_slice(), perm.as_slice());
    svg_decode(bits.as_slice())
}

/// SVG mode end to end: when the strict majority of the path votes for every
/// position equals the scrambled frame of `n` bits, unscrambling along the
/// same permutation decodes to the message.
pub proof fn lemma_svg_pipeline_round_trip(message: Seq<u8>, n: nat, perm: Seq<usize>, ones: Seq<usize>, totals: Seq<usize>)
    requires
        1 <= message.len() <= 7,
        n == (message.len() + 1) * 8,
        is_permutation(perm, n),
        ones.len() == n,
        svg_encode_outcome(message, n) matches Ok(framed) && majority_votes(ones, totals) == scatter(framed, perm, n),
    ensures
        short_decode_outcome(gather(majority_votes(ones, totals), perm)) == Ok::<Seq<u8>, Seq<char>>(message),
{
    lemma_svg_round_trip(message, n);
    let framed = svg_encode_outcome(message, n)->Ok_0;
    vstd::arithmetic::div_mod::lemma_fundamental_div_mod_converse_div(n as int, 8, (message.len() + 1) as int, 0);
    vstd::arithmetic::div_mod::lemma_fundamental_div_mod_converse_mod(n as int, 8, (message.len() + 1) as int, 0);
    assert(framed.len() == n);
    lemma_unscramble_scramble(framed, perm);
}

/// SVG mode under a password: when the strict majority of the path votes
/// equals the frame of `n` bits scrambled with the seed's permutation, reading
/// it back with the same seed decodes to the message.
pub proof fn lemma_svg_seed_round_trip(message: Seq<u8>, seed: Seq<u8>, ones: Seq<usize>, totals: Seq<usize>)
    requires
        1 <= message.len() <= 7,
        ones.len() == (message.len() + 1) * 8,
        svg_encode_outcome(message, ones.len()) matches Ok(framed) && majority_votes(ones, totals)
            == scatter(framed, keyed_permutation(seed, ones.len()), ones.len()),
    ensures
        short_decode_outcome(gather(majority_votes(ones, totals), keyed_permutation(seed, ones.len())))
            == Ok::<Seq<u8>, Seq<char>>(message),
{
    lemma_keyed_permutation_is_permutation(seed, ones.len());
    lemma_svg_pipeline_round_trip(message, ones.len(), keyed_permutation(seed, ones.len()), ones, totals);
}

} // verus!
