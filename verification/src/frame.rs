//! The short framing shared by the feature-point and SVG embeddings: a
//! one-byte length, the message, then zero padding; no repetition.
use vstd::prelude::*;

use crate::bits::{bits_to_bytes, pack_bits};

verus! {

/// One length byte (the length modulo 256), the message, then zeros up to
/// `total_bytes` bytes.
pub open spec fn short_payload(message: Seq<u8>, total_bytes: nat) -> Seq<u8> {
    seq![(message.len() % 256) as u8] + message + Seq::new(
        (total_bytes - 1 - message.len()) as nat,
        |i: int| 0u8,
    )
}

/// What decoding a short frame returns: the message, or the error text.
pub open spec fn short_decode_outcome(bits: Seq<bool>) -> Result<Seq<u8>, Seq<char>> {
    if bits.len() < 8 {
        Err("Not enough bits"@)
    } else {
        let bytes = bits_to_bytes(bits);
        if bytes[0] == 0 || 1 + bytes[0] > bytes.len() {
            Err("Invalid message length"@)
        } else {
            Ok(bytes.subrange(1, 1 + bytes[0] as int))
        }
    }
}

/// Builds the short payload of `message` in `total_bytes` bytes.
pub fn short_payload_bytes(message: &[u8], total_bytes: usize) -> (p: Vec<u8>)
    requires
        message@.len() + 1 <= total_bytes,
    ensures
        p@ == short_payload(message@, total_bytes as nat),
{
    let len = message.len();
    let mut p: Vec<u8> = Vec::new();
    p.push((len % 256) as u8);
    let mut i: usize = 0;
    while i < len
        invariant
            len == message@.len(),
            i <= len,
            p@ == seq![(len % 256) as u8] + message@.subrange(0, i as int),
        decreases len - i,
    {
        p.push(message[i]);
        i += 1;
        assert(p@ =~= seq![(len % 256) as u8] + message@.subrange(0, i as int));
    }
    let ghost framed = p@;
    assert(message@.subrange(0, len as int) =~= message@);
    while p.len() < total_bytes
        invariant
            framed == seq![(len % 256) as u8] + message@,
            framed.len() == len + 1,
            len + 1 <= total_bytes,
            p@.len() <= total_bytes,
            p@ == framed + Seq::new((p@.len() - len - 1) as nat, |k: int| 0u8),
        decreases total_bytes - p@.len(),
    {
        p.push(0u8);
        assert(p@ =~= framed + Seq::new((p@.len() - len - 1) as nat, |k: int| 0u8));
    }
    assert(p@ =~= short_payload(message@, total_bytes as nat));
    p
}

/// Decodes a short frame: packs the bits into bytes, reads the length byte and
/// returns that many bytes after it.
pub fn decode_short(bits: &[bool]) -> (r: Result<Vec<u8>, String>)
    ensures
        match r {
            Ok(m) => short_decode_outcome(bits@) == Ok::<Seq<u8>, Seq<char>>(m@),
            Err(e) => short_decode_outcome(bits@) == Err::<Seq<u8>, Seq<char>>(e@),
        },
{
    if bits.len() < 8 {
        return Err(String::from_str("Not enough bits"));
    }
    let bytes = pack_bits(bits);
    let len = bytes[0] as usize;
    if len == 0 || 1 + len > bytes.len() {
        return Err(String::from_str("Invalid message length"));
    }
    let mut out: Vec<u8> = Vec::new();
    let mut j: usize = 1;
    while j < 1 + len
        invariant
            1 + len <= bytes@.len(),
            len < 256,
            1 <= j <= 1 + len,
            out@ == bytes@.subrange(1, j as int),
        decreases 1 + len - j,
    {
        out.push(bytes[j]);
        j += 1;
        assert(out@ =~= bytes@.subrange(1, j as int));
    }
    Ok(out)
}

} // verus!
