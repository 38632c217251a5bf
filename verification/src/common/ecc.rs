//! Repetition error correction: every bit of a length-prefixed, zero-padded
//! payload is written `REPETITION_FACTOR` times and recovered by majority vote.
use vstd::prelude::*;

use crate::bits::{bytes_to_bits, bits_to_bytes, pack_bits, unpack_bytes, lemma_bits_bytes_round_trip};
use crate::text::{dec, push_decimal, push_str};

verus! {

/// How many times each payload bit is repeated.
pub const REPETITION_FACTOR: usize = 3;

/// Payload bytes (header included) that `num_blocks` embedding blocks hold.
pub open spec fn data_bytes(num_blocks: nat) -> nat {
    num_blocks / 3 / 8
}

/// Message bytes that fit in `num_blocks` blocks once the two-byte header is
/// taken out (zero when not even the header fits).
pub open spec fn spec_max_message_bytes(num_blocks: nat) -> nat {
    if data_bytes(num_blocks) >= 2 {
        (data_bytes(num_blocks) - 2) as nat
    } else {
        0
    }
}

/// Length of every encoding made for `num_blocks` blocks.
pub open spec fn spec_total_encoded_bits(num_blocks: nat) -> nat {
    data_bytes(num_blocks) * 8 * 3
}

/// Each bit written three times in a row.
pub open spec fn repeat3(bits: Seq<bool>) -> Seq<bool> {
    Seq::new(bits.len() * 3, |k: int| bits[k / 3])
}

/// 1 if `b` is set, else 0.
pub open spec fn one_if(b: bool) -> nat {
    if b {
        1
    } else {
        0
    }
}

/// How many of the three bits starting at `o` are set.
pub open spec fn ones3(bits: Seq<bool>, o: int) -> nat {
    one_if(bits[o]) + one_if(bits[o + 1]) + one_if(bits[o + 2])
}

/// The majority of each complete group of three bits; a trailing partial
/// group is ignored.
pub open spec fn majority3(bits: Seq<bool>) -> Seq<bool> {
    Seq::new(bits.len() / 3, |i: int| ones3(bits, 3 * i) >= 2)
}

/// The big-endian 16-bit length header of a message of `len` bytes (the
/// length is taken modulo 2^16).
pub open spec fn length_header(len: nat) -> Seq<u8> {
    seq![((len / 256) % 256) as u8, (len % 256) as u8]
}

/// Header, message, then zeros up to `total_bytes` bytes.
pub open spec fn ecc_payload(message: Seq<u8>, total_bytes: nat) -> Seq<u8> {
    length_header(message.len()) + message + Seq::new(
        (total_bytes - 2 - message.len()) as nat,
        |i: int| 0u8,
    )
}

/// The repetition-coded bits of the padded payload for `num_blocks` blocks.
pub open spec fn ecc_encoding(message: Seq<u8>, num_blocks: nat) -> Seq<bool> {
    repeat3(bytes_to_bits(ecc_payload(message, data_bytes(num_blocks))))
}

/// The error text for a message longer than the capacity.
pub open spec fn too_long_text(max: nat, got: nat) -> Seq<char> {
    "Message too long: max "@ + dec(max) + " bytes, got "@ + dec(got) + " bytes"@
}

/// What `encode` returns: the encoding, or the error text.
pub open spec fn encode_outcome(message: Seq<u8>, num_blocks: nat) -> Result<Seq<bool>, Seq<char>> {
    if spec_max_message_bytes(num_blocks) == 0 {
        Err("Image too small: insufficient capacity"@)
    } else if message.len() > spec_max_message_bytes(num_blocks) {
        Err(too_long_text(spec_max_message_bytes(num_blocks), message.len()))
    } else {
        Ok(ecc_encoding(message, num_blocks))
    }
}

/// The bytes recovered from raw bits: majority per group of three, then
/// packed eight to a byte.
pub open spec fn decoded_bytes(bits: Seq<bool>) -> Seq<u8> {
    bits_to_bytes(majority3(bits))
}

/// The message length that a decoded header announces.
pub open spec fn header_value(bytes: Seq<u8>) -> nat {
    bytes[0] as nat * 256 + bytes[1] as nat
}

/// What `decode` returns: the message, or the error text.
pub open spec fn decode_outcome(bits: Seq<bool>) -> Result<Seq<u8>, Seq<char>> {
    if bits.len() < 48 {
        Err("Not enough data to decode (need at least 2 header bytes)"@)
    } else {
        let bytes = decoded_bytes(bits);
        if bytes.len() < 2 {
            Err("Decoded data too short"@)
        } else if header_value(bytes) == 0 {
            Err("Invalid message length: 0"@)
        } else if 2 + header_value(bytes) > bytes.len() {
            Err(
                "Message length "@ + dec(header_value(bytes)) + " exceeds available data "@ + dec(
                    (bytes.len() - 2) as nat,
                ),
            )
        } else {
            Ok(bytes.subrange(2, 2 + header_value(bytes) as int))
        }
    }
}


/// How many of the three copies of bit `i` of `x` differ in `noisy`.
pub open spec fn flips3(noisy: Seq<bool>, x: Seq<bool>, i: int) -> nat {
    one_if(noisy[3 * i] != x[i]) + one_if(noisy[3 * i + 1] != x[i]) + one_if(
        noisy[3 * i + 2] != x[i],
    )
}

/// `noisy` is the three-fold repetition of `x` with at most one copy of each
/// bit changed.
pub open spec fn at_most_one_flip_per_group(noisy: Seq<bool>, x: Seq<bool>) -> bool {
    &&& noisy.len() == x.len() * 3
    &&& forall|i: int| 0 <= i < x.len() ==> #[trigger] flips3(noisy, x, i) <= 1
}

proof fn lemma_group_index(i: int, r: int)
    requires
        0 <= i,
        0 <= r < 3,
    ensures
        (3 * i + r) / 3 == i,
{
    vstd::arithmetic::div_mod::lemma_fundamental_div_mod_converse_div(3 * i + r, 3, i, r);
}

/// Majority voting undoes at most one changed copy in every group of three;
/// in particular it undoes the repetition itself.
pub proof fn lemma_majority_corrects_single_flips(x: Seq<bool>, noisy: Seq<bool>)
    requires
        at_most_one_flip_per_group(noisy, x),
    ensures
        majority3(noisy) == x,
{
    vstd::arithmetic::div_mod::lemma_fundamental_div_mod_converse_div(
        (x.len() * 3) as int,
        3,
        x.len() as int,
        0,
    );
    assert forall|i: int| 0 <= i < x.len() implies #[trigger] majority3(noisy)[i] == x[i] by {
        assert(flips3(noisy, x, i) <= 1);
    }
    assert(majority3(noisy) =~= x);
}

/// The repetition of `x` is within one flip per group of `x`.
pub proof fn lemma_repeat3_no_flips(x: Seq<bool>)
    ensures
        at_most_one_flip_per_group(repeat3(x), x),
        majority3(repeat3(x)) == x,
{
    let r = repeat3(x);
    assert forall|i: int| 0 <= i < x.len() implies #[trigger] flips3(r, x, i) <= 1 by {
        lemma_group_index(i, 0);
        lemma_group_index(i, 1);
        lemma_group_index(i, 2);
    }
    lemma_majority_corrects_single_flips(x, r);
}

/// Round trip: a non-empty message within the capacity of `num_blocks` blocks
/// (and shorter than the 16-bit header can count) is encoded, and decoding the
/// encoding gives the message back.
pub proof fn lemma_ecc_round_trip(message: Seq<u8>, num_blocks: nat)
    requires
        1 <= message.len() <= spec_max_message_bytes(num_blocks),
        message.len() < 65536,
    ensures
        encode_outcome(message, num_blocks) == Ok::<Seq<bool>, Seq<char>>(
            ecc_encoding(message, num_blocks),
        ),
        decode_outcome(ecc_encoding(message, num_blocks)) == Ok::<Seq<u8>, Seq<char>>(message),
{
    lemma_ecc_corrects_single_flips(message, num_blocks, ecc_encoding(message, num_blocks));
}

/// Error correction: whatever changes at most one of the three copies of each
/// payload bit of a valid encoding still decodes to the message.
pub proof fn lemma_ecc_corrects_single_flips(message: Seq<u8>, num_blocks: nat, noisy: Seq<bool>)
    requires
        1 <= message.len() <= spec_max_message_bytes(num_blocks),
        message.len() < 65536,
        noisy == ecc_encoding(message, num_blocks) || at_most_one_flip_per_group(
            noisy,
            bytes_to_bits(ecc_payload(message, data_bytes(num_blocks))),
        ),
    ensures
        decode_outcome(noisy) == Ok::<Seq<u8>, Seq<char>>(message),
{
    let p = ecc_payload(message, data_bytes(num_blocks));
    let bits = bytes_to_bits(p);
    assert(p.len() == data_bytes(num_blocks));
    lemma_repeat3_no_flips(bits);
    assert(at_most_one_flip_per_group(noisy, bits));
    lemma_majority_corrects_single_flips(bits, noisy);
    lemma_bits_bytes_round_trip(p);
    lemma_payload_header(message, data_bytes(num_blocks));
    let bytes = decoded_bytes(noisy);
    assert(bytes == p);
    assert(noisy.len() >= 48);
    assert(bytes.len() >= 2);
    assert(header_value(bytes) == message.len());
    assert(2 + header_value(bytes) <= bytes.len());
    assert(bytes.subrange(2, 2 + header_value(bytes) as int) =~= message);
}

proof fn lemma_payload_header(message: Seq<u8>, total: nat)
    requires
        message.len() < 65536,
        message.len() + 2 <= total,
    ensures
        header_value(ecc_payload(message, total)) == message.len(),
        ecc_payload(message, total).len() == total,
        ecc_payload(message, total).subrange(2, 2 + message.len() as int) == message,
{
    let p = ecc_payload(message, total);
    assert(p[0] == ((message.len() / 256) % 256) as u8);
    assert(p[1] == (message.len() % 256) as u8);
    assert((message.len() / 256) % 256 == message.len() / 256);
    assert(p.subrange(2, 2 + message.len() as int) =~= message);
}

/// Compute how many message bytes can fit given a number of available blocks.
pub fn max_message_bytes(num_blocks: usize) -> (r: usize)
    ensures
        r == spec_max_message_bytes(num_blocks as nat),
{
    let total_data_bits = num_blocks / REPETITION_FACTOR;
    let total_data_bytes = total_data_bits / 8;
    total_data_bytes.saturating_sub(2)
}

/// Compute the total number of encoded bits for a given block count.
/// This is the fixed-size output length used for both embed and extract.
pub fn total_encoded_bits(num_blocks: usize) -> (r: usize)
    ensures
        r == spec_total_encoded_bits(num_blocks as nat),
        r <= num_blocks,
{
    let total_data_bits = num_blocks / REPETITION_FACTOR;
    let total_data_bytes = total_data_bits / 8;
    total_data_bytes * 8 * REPETITION_FACTOR
}

/// Encode a byte slice with repetition coding, padded to fill the capacity
/// determined by `num_blocks`.
///
/// A 2-byte length header (big-endian u16) is prepended. The payload is
/// zero-padded to fill the full capacity so that the encoded bit length
/// is always `total_encoded_bits(num_blocks)`.
pub fn encode(message: &[u8], num_blocks: usize) -> (r: Result<Vec<bool>, String>)
    ensures
        match r {
            Ok(bits) => encode_outcome(message@, num_blocks as nat) == Ok::<Seq<bool>, Seq<char>>(
                bits@,
            ),
            Err(e) => encode_outcome(message@, num_blocks as nat) == Err::<Seq<bool>, Seq<char>>(
                e@,
            ),
        },
        r matches Ok(bits) ==> bits@.len() == spec_total_encoded_bits(num_blocks as nat),
{
    let max_msg = max_message_bytes(num_blocks);
    if max_msg == 0 {
        return Err(String::from_str("Image too small: insufficient capacity"));
    }
    if message.len() > max_msg {
        let mut e = String::from_str("Message too long: max ");
        push_decimal(&mut e, max_msg as u64);
        push_str(&mut e, " bytes, got ");
        push_decimal(&mut e, message.len() as u64);
        push_str(&mut e, " bytes");
        return Err(e);
    }
    let total_data_bits = num_blocks / REPETITION_FACTOR;
    let total_data_bytes = total_data_bits / 8;

    // Build payload: [len_high, len_low, message..., zero_padding...]
    let len = message.len();
    let mut payload: Vec<u8> = Vec::new();
    payload.push(((len / 256) % 256) as u8);
    payload.push((len % 256) as u8);
    let mut i: usize = 0;
    while i < len
        invariant
            len == message@.len(),
            i <= len,
            payload@ == length_header(len as nat) + message@.subrange(0, i as int),
        decreases len - i,
    {
        payload.push(message[i]);
        i += 1;
        assert(message@.subrange(0, i as int) == message@.subrange(0, i - 1).push(message@[i - 1]));
    }
    let ghost header_and_message = payload@;
    while payload.len() < total_data_bytes
        invariant
            header_and_message == length_header(len as nat) + message@,
            header_and_message.len() == len + 2,
            len + 2 <= total_data_bytes,
            payload@.len() <= total_data_bytes,
            payload@ == header_and_message + Seq::new(
                (payload@.len() - len - 2) as nat,
                |k: int| 0u8,
            ),
        decreases total_data_bytes - payload@.len(),
    {
        payload.push(0u8);
        assert(payload@ =~= header_and_message + Seq::new(
            (payload@.len() - len - 2) as nat,
            |k: int| 0u8,
        ));
    }
    assert(payload@ =~= ecc_payload(message@, total_data_bytes as nat));

    // Convert to bits, then repeat each bit.
    let bits = unpack_bytes(payload.as_slice());
    let nbits = bits.len();
    let mut encoded: Vec<bool> = Vec::new();
    let mut k: usize = 0;
    while k < nbits
        invariant
            nbits == bits@.len(),
            nbits == total_data_bytes * 8,
            total_data_bytes * 8 * 3 <= num_blocks,
            k <= nbits,
            encoded@.len() == 3 * k,
            forall|q: int| 0 <= q < encoded@.len() ==> #[trigger] encoded@[q] == bits@[q / 3],
        decreases nbits - k,
    {
        let b = bits[k];
        let mut r: usize = 0;
        while r < REPETITION_FACTOR
            invariant
                k < nbits,
                nbits * 3 <= num_blocks,
                b == bits@[k as int],
                r <= 3,
                encoded@.len() == 3 * k + r,
                forall|q: int| 0 <= q < encoded@.len() ==> #[trigger] encoded@[q] == bits@[q / 3],
            decreases 3 - r,
        {
            proof {
                vstd::arithmetic::div_mod::lemma_fundamental_div_mod_converse_div(
                    3 * k + r,
                    3,
                    k as int,
                    r as int,
                );
            }
            encoded.push(b);
            r += 1;
        }
        k += 1;
    }
    assert(encoded@ =~= ecc_encoding(message@, num_blocks as nat));
    Ok(encoded)
}

/// Decode bits with repetition coding and majority vote.
///
/// `bits` should contain the raw extracted bits (scrambled order already resolved).
/// Returns the decoded message bytes.
pub fn decode(bits: &[bool]) -> (r: Result<Vec<u8>, String>)
    ensures
        match r {
            Ok(m) => decode_outcome(bits@) == Ok::<Seq<u8>, Seq<char>>(m@),
            Err(e) => decode_outcome(bits@) == Err::<Seq<u8>, Seq<char>>(e@),
        },
{
    if bits.len() < REPETITION_FACTOR * 16 {
        return Err(String::from_str("Not enough data to decode (need at least 2 header bytes)"));
    }
    let len = bits.len();
    let num_original_bits = len / REPETITION_FACTOR;
    let mut decoded_bits: Vec<bool> = Vec::new();
    let mut i: usize = 0;
    while i < num_original_bits
        invariant
            len == bits@.len(),
            num_original_bits == len / 3,
            i <= num_original_bits,
            decoded_bits@.len() == i,
            forall|q: int| 0 <= q < i ==> #[trigger] decoded_bits@[q] == (ones3(bits@, 3 * q) >= 2),
        decreases num_original_bits - i,
    {
        proof {
            vstd::arithmetic::div_mod::lemma_fundamental_div_mod(len as int, 3);
        }
        let o = i * REPETITION_FACTOR;
        let mut ones: usize = 0;
        if bits[o] {
            ones += 1;
        }
        if bits[o + 1] {
            ones += 1;
        }
        if bits[o + 2] {
            ones += 1;
        }
        decoded_bits.push(ones > REPETITION_FACTOR / 2);
        i += 1;
    }
    assert(decoded_bits@ =~= majority3(bits@));
    let bytes = pack_bits(decoded_bits.as_slice());
    if bytes.len() < 2 {
        return Err(String::from_str("Decoded data too short"));
    }
    let msg_len = (bytes[0] as usize) * 256 + (bytes[1] as usize);
    if msg_len == 0 {
        return Err(String::from_str("Invalid message length: 0"));
    }
    if 2 + msg_len > bytes.len() {
        let mut e = String::from_str("Message length ");
        push_decimal(&mut e, msg_len as u64);
        push_str(&mut e, " exceeds available data ");
        push_decimal(&mut e, (bytes.len() - 2) as u64);
        return Err(e);
    }
    let mut out: Vec<u8> = Vec::new();
    let mut j: usize = 2;
    while j < 2 + msg_len
        invariant
            2 + msg_len <= bytes@.len(),
            msg_len < 65536,
            2 <= j <= 2 + msg_len,
            out@ == bytes@.subrange(2, j as int),
        decreases 2 + msg_len - j,
    {
        out.push(bytes[j]);
        j += 1;
        assert(bytes@.subrange(2, j as int) == bytes@.subrange(2, j - 1).push(bytes@[j - 1]));
    }
    Ok(out)
}

} // verus!
