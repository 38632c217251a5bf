//! Video engine decisions: the message limit, which packets and frames the
//! streaming loop handles and how, the copy between a strided picture plane
//! and packed RGB, and the vote over the messages read from the frames.
use vstd::prelude::*;

use crate::common::engine::EmbedInfo;
use crate::text::{dec, push_decimal, push_str};
use vstd::string::StringSliceAdditionalSpecFns;

verus! {

/// Longest message a video carries.
pub const VIDEO_MAX_MESSAGE: usize = 7;

/// The video watermark engine.
pub struct VideoEngine;

/// The refusal text of `embed` for a message longer than 7 bytes.
pub open spec fn embed_too_long_text(len: nat) -> Seq<char> {
    "Message too long: max "@ + dec(7) + " bytes, got "@ + dec(len)
}

/// The refusal text of a dry run for a message longer than 7 bytes.
pub open spec fn dry_run_too_long_text(len: nat) -> Seq<char> {
    "Message too long: "@ + dec(len) + " bytes, max: "@ + dec(7)
}

/// `embed` refuses messages longer than `VIDEO_MAX_MESSAGE` bytes.
pub fn check_embed_length(message_len: usize) -> (r: Result<(), String>)
    ensures
        r is Ok <==> message_len <= 7,
        r matches Err(e) ==> e@ == embed_too_long_text(message_len as nat),
{
    if message_len > VIDEO_MAX_MESSAGE {
        let mut e = String::from_str("Message too long: max ");
        push_decimal(&mut e, VIDEO_MAX_MESSAGE as u64);
        push_str(&mut e, " bytes, got ");
        push_decimal(&mut e, message_len as u64);
        return Err(e);
    }
    Ok(())
}

/// A dry run refuses messages longer than `VIDEO_MAX_MESSAGE` bytes.
pub fn check_dry_run_length(message_len: usize) -> (r: Result<(), String>)
    ensures
        r is Ok <==> message_len <= 7,
        r matches Err(e) ==> e@ == dry_run_too_long_text(message_len as nat),
{
    if message_len > VIDEO_MAX_MESSAGE {
        let mut e = String::from_str("Message too long: ");
        push_decimal(&mut e, message_len as u64);
        push_str(&mut e, " bytes, max: ");
        push_decimal(&mut e, VIDEO_MAX_MESSAGE as u64);
        return Err(e);
    }
    Ok(())
}

/// `info` is what the video engine reports for `message` at `intensity`,
/// with `frames` watermarked (or, in a dry run, expected) frames.
pub open spec fn is_video_info(info: EmbedInfo, message: &str, intensity: u8, frames: usize, output_path: &str) -> bool {
    &&& info.status@ == "ok"@
    &&& info.mode@ == "video-temporal"@
    &&& info.message@ == message@
    &&& info.message_bytes == message.spec_bytes().len()
    &&& info.intensity == intensity
    &&& info.width == 0
    &&& info.height == 0
    &&& info.keypoints == frames
    &&& info.max_capacity == 7
    &&& info.output_path@ == output_path@
}

/// What the video engine reports for `message` at `intensity` with `frames`
/// watermarked frames.
pub fn video_info(message: &str, intensity: u8, frames: usize, output_path: &str) -> (info: EmbedInfo)
    ensures
        is_video_info(info, message, intensity, frames, output_path),
{
    EmbedInfo {
        status: String::from_str("ok"),
        mode: String::from_str("video-temporal"),
        message: String::from_str(message),
        message_bytes: message.as_bytes().len(),
        intensity,
        width: 0,
        height: 0,
        keypoints: frames,
        max_capacity: VIDEO_MAX_MESSAGE,
        output_path: String::from_str(output_path),
    }
}

/// How many of the first `k` messages equal `m`.
pub open spec fn occurrences(msgs: Seq<Seq<char>>, m: Seq<char>, k: int) -> nat
    decreases k,
{
    if k <= 0 {
        0
    } else {
        occurrences(msgs, m, k - 1) + (if msgs[k - 1] == m {
            1nat
        } else {
            0nat
        })
    }
}

/// No message occurs more often than there are messages.
pub proof fn lemma_occurrences_le(msgs: Seq<Seq<char>>, m: Seq<char>, k: int)
    ensures
        occurrences(msgs, m, k) <= if k < 0 { 0 } else { k },
    decreases k,
{
    if k > 0 {
        lemma_occurrences_le(msgs, m, k - 1);
    }
}

/// The message read most often from the frames (the earliest one among
/// equally frequent messages), as an index into `messages`, with its count;
/// `None` when nothing was read.
pub fn most_frequent(messages: &Vec<String>) -> (r: Option<(usize, usize)>)
    ensures
        messages@.len() == 0 <==> r is None,
        r matches Some((w, c)) ==> {
            let msgs = messages@.map_values(|s: String| s@);
            &&& w < messages@.len()
            &&& c == occurrences(msgs, msgs[w as int], msgs.len() as int)
            &&& forall|j: int| 0 <= j < msgs.len() ==> occurrences(msgs, #[trigger] msgs[j], msgs.len() as int) <= c
            &&& forall|j: int| 0 <= j < w ==> occurrences(msgs, #[trigger] msgs[j], msgs.len() as int) < c
        },
{
    let ghost msgs = messages@.map_values(|s: String| s@);
    let n = messages.len();
    if n == 0 {
        return None;
    }
    let mut best: usize = 0;
    let mut best_count: usize = 0;
    let mut i: usize = 0;
    while i < n
        invariant
            n == messages@.len(),
            msgs == messages@.map_values(|s: String| s@),
            i <= n,
            best < n,
            i > 0 ==> best < i,
            i > 0 ==> best_count == occurrences(msgs, msgs[best as int], n as int),
            i == 0 ==> best_count == 0,
            forall|j: int| 0 <= j < i ==> occurrences(msgs, #[trigger] msgs[j], n as int) <= best_count,
            forall|j: int| 0 <= j < best ==> occurrences(msgs, #[trigger] msgs[j], n as int) < best_count,
        decreases n - i,
    {
        let mut count: usize = 0;
        let mut k: usize = 0;
        while k < n
            invariant
                n == messages@.len(),
                msgs == messages@.map_values(|s: String| s@),
                i < n,
                k <= n,
                count == occurrences(msgs, msgs[i as int], k as int),
                count <= k,
            decreases n - k,
        {
            if messages[k] == messages[i] {
                count += 1;
            }
            k += 1;
        }
        if i == 0 || count > best_count {
            best = i;
            best_count = count;
        }
        i += 1;
    }
    Some((best, best_count))
}

/// Where the streaming loop sends a packet.
pub enum PacketRoute {
    /// Decode it as the video stream.
    Video,
    /// Copy it to output stream `out_stream`.
    Audio { out_stream: usize },
    /// Leave it out.
    Drop,
}

/// The route of a packet of input stream `stream_idx`, given the video stream
/// and the (input, output) pair of the copied audio stream, if any.
pub open spec fn packet_route(stream_idx: usize, video_idx: usize, audio: Option<(usize, usize)>) -> PacketRoute {
    if stream_idx == video_idx {
        PacketRoute::Video
    } else {
        match audio {
            Some((ai, ao)) => if stream_idx == ai {
                PacketRoute::Audio { out_stream: ao }
            } else {
                PacketRoute::Drop
            },
            None => PacketRoute::Drop,
        }
    }
}

/// Routes a packet: video packets are decoded, packets of the copied audio
/// stream go to its output stream, every other packet is left out.
pub fn route_packet(stream_idx: usize, video_idx: usize, audio: Option<(usize, usize)>) -> (r: PacketRoute)
    ensures
        r == packet_route(stream_idx, video_idx, audio),
{
    if stream_idx == video_idx {
        PacketRoute::Video
    } else {
        match audio {
            Some((ai, ao)) => {
                if stream_idx == ai {
                    PacketRoute::Audio { out_stream: ao }
                } else {
                    PacketRoute::Drop
                }
            },
            None => PacketRoute::Drop,
        }
    }
}

/// The first stream flagged as audio, the one whose packets are copied.
pub fn first_audio_stream(is_audio: &[bool]) -> (r: Option<usize>)
    ensures
        match r {
            Some(i) => i < is_audio@.len() && is_audio@[i as int] && forall|j: int|
                0 <= j < i ==> !#[trigger] is_audio@[j],
            None => forall|j: int| 0 <= j < is_audio@.len() ==> !#[trigger] is_audio@[j],
        },
{
    let mut i: usize = 0;
    while i < is_audio.len()
        invariant
            i <= is_audio@.len(),
            forall|j: int| 0 <= j < i ==> !#[trigger] is_audio@[j],
        decreases is_audio@.len() - i,
    {
        if is_audio[i] {
            return Some(i);
        }
        i += 1;
    }
    None
}

/// Frames are watermarked, and read back, one per `interval` frames: the
/// frames whose index is a multiple of `interval`.
pub fn is_sampled_frame(frame_idx: usize, interval: usize) -> (r: bool)
    requires
        interval >= 1,
    ensures
        r == (frame_idx % interval == 0),
{
    frame_idx % interval == 0
}

/// The `h` rows of `row` bytes of a picture plane whose rows start every
/// `stride` bytes, packed one after the other.
pub open spec fn packed_rows(plane: Seq<u8>, stride: nat, row: nat, h: nat) -> Seq<u8>
    decreases h,
{
    if h == 0 {
        Seq::empty()
    } else {
        packed_rows(plane, stride, row, (h - 1) as nat) + plane.subrange(
            (h - 1) * stride,
            (h - 1) * stride + row,
        )
    }
}

/// `plane` with the bytes from `at` on replaced by `src`.
pub open spec fn splice(plane: Seq<u8>, at: int, src: Seq<u8>) -> Seq<u8> {
    plane.subrange(0, at) + src + plane.subrange(at + src.len(), plane.len() as int)
}

/// `plane` with its first `h` rows (of `row` bytes, every `stride` bytes)
/// replaced by the rows of the packed image `rgb`.
pub open spec fn unpacked_rows(plane: Seq<u8>, stride: nat, row: nat, rgb: Seq<u8>, h: nat) -> Seq<u8>
    decreases h,
{
    if h == 0 {
        plane
    } else {
        splice(
            unpacked_rows(plane, stride, row, rgb, (h - 1) as nat),
            (h - 1) * stride,
            rgb.subrange((h - 1) * row, (h * row) as int),
        )
    }
}

/// A plane holds `h` rows of `row` bytes every `stride` bytes.
pub open spec fn plane_fits(plane_len: nat, stride: nat, row: nat, h: nat) -> bool {
    row <= stride && (h == 0 || (h - 1) * stride + row <= plane_len)
}

proof fn lemma_row_offsets(y: nat, h: nat, stride: nat, row: nat)
    requires
        y < h,
        row <= stride,
    ensures
        y * stride + row <= (h - 1) * stride + row,
        (y + 1) * stride == y * stride + stride,
        (y + 1) * row == y * row + row,
        y * row <= y * stride,
{
    assert(y * stride <= (h - 1) * stride) by (nonlinear_arith)
        requires
            y <= h - 1,
    ;
    assert((y + 1) * stride == y * stride + stride) by (nonlinear_arith);
    assert((y + 1) * row == y * row + row) by (nonlinear_arith);
    assert(y * row <= y * stride) by (nonlinear_arith)
        requires
            row <= stride,
    ;
}

proof fn lemma_unpacked_len(plane: Seq<u8>, stride: nat, row: nat, rgb: Seq<u8>, h: nat)
    requires
        plane_fits(plane.len(), stride, row, h),
        h * row <= rgb.len(),
    ensures
        unpacked_rows(plane, stride, row, rgb, h).len() == plane.len(),
    decreases h,
{
    if h > 0 {
        lemma_row_offsets((h - 1) as nat, h, stride, row);
        assert(h * row <= h * row);
        assert((h - 1) * row <= h * row) by (nonlinear_arith)
            requires
                h > 0,
        ;
        if h > 1 {
            lemma_row_offsets((h - 2) as nat, h, stride, row);
        }
        lemma_unpacked_len(plane, stride, row, rgb, (h - 1) as nat);
    }
}

proof fn lemma_packed_rows_prefix(p: Seq<u8>, q: Seq<u8>, stride: nat, row: nat, k: nat)
    requires
        row <= stride,
        k > 0 ==> (k - 1) * stride + row <= p.len(),
        k > 0 ==> (k - 1) * stride + row <= q.len(),
        forall|i: int| 0 <= i < (if k > 0 { (k - 1) * stride + row } else { 0 }) ==> #[trigger] p[i] == q[i],
    ensures
        packed_rows(p, stride, row, k) == packed_rows(q, stride, row, k),
    decreases k,
{
    if k > 0 {
        if k > 1 {
            lemma_row_offsets((k - 2) as nat, k, stride, row);
        }
        lemma_packed_rows_prefix(p, q, stride, row, (k - 1) as nat);
        assert(p.subrange((k - 1) * stride, (k - 1) * stride + row) =~= q.subrange(
            (k - 1) * stride,
            (k - 1) * stride + row,
        ));
    }
}

/// Reading the picture back: a packed picture of `h` rows written into a plane
/// and read out of it again is the same picture.
pub proof fn lemma_plane_round_trip(plane: Seq<u8>, stride: nat, row: nat, rgb: Seq<u8>, h: nat)
    requires
        plane_fits(plane.len(), stride, row, h),
        rgb.len() == h * row,
    ensures
        packed_rows(unpacked_rows(plane, stride, row, rgb, h), stride, row, h) == rgb,
{
    lemma_plane_round_trip_upto(plane, stride, row, rgb, h, h);
    assert(rgb.subrange(0, (h * row) as int) =~= rgb);
}

proof fn lemma_plane_round_trip_upto(plane: Seq<u8>, stride: nat, row: nat, rgb: Seq<u8>, h: nat, k: nat)
    requires
        plane_fits(plane.len(), stride, row, h),
        rgb.len() == h * row,
        k <= h,
    ensures
        packed_rows(unpacked_rows(plane, stride, row, rgb, k), stride, row, k) == rgb.subrange(
            0,
            (k * row) as int,
        ),
    decreases k,
{
    if k > 0 {
        let j = (k - 1) as nat;
        lemma_row_offsets(j, h, stride, row);
        assert(k * row <= h * row) by (nonlinear_arith)
            requires
                k <= h,
        ;
        assert(j * row <= k * row) by (nonlinear_arith)
            requires
                j < k,
        ;
        assert(plane_fits(plane.len(), stride, row, k)) by {
            if k > 0 {
                lemma_row_offsets(j, h, stride, row);
            }
        }
        assert(plane_fits(plane.len(), stride, row, j)) by {
            if j > 0 {
                lemma_row_offsets((j - 1) as nat, h, stride, row);
            }
        }
        lemma_unpacked_len(plane, stride, row, rgb, j);
        lemma_plane_round_trip_upto(plane, stride, row, rgb, h, j);
        let prev = unpacked_rows(plane, stride, row, rgb, j);
        let cur = unpacked_rows(plane, stride, row, rgb, k);
        let piece = rgb.subrange((j * row) as int, (k * row) as int);
        assert(cur == splice(prev, (j * stride) as int, piece));
        assert(piece.len() == row);
        assert(cur.len() == prev.len());
        if j > 0 {
            lemma_row_offsets((j - 1) as nat, h, stride, row);
        }
        assert forall|i: int| 0 <= i < (if j > 0 { (j - 1) * stride + row } else { 0 }) implies #[trigger] cur[i] == prev[i] by {
            assert(i < j * stride);
        }
        lemma_packed_rows_prefix(cur, prev, stride, row, j);
        assert(cur.subrange((j * stride) as int, (j * stride + row) as int) =~= piece);
        assert(rgb.subrange(0, (k * row) as int) =~= rgb.subrange(0, (j * row) as int) + piece);
    } else {
        assert(rgb.subrange(0, 0) =~= Seq::<u8>::empty());
    }
}

/// The `w × h` RGB picture of a plane (3 bytes a pixel, rows `stride` bytes
/// apart), packed row after row.
pub fn plane_to_rgb(plane: &[u8], stride: usize, w: usize, h: usize) -> (rgb: Vec<u8>)
    requires
        w * 3 <= usize::MAX,
        plane_fits(plane@.len(), stride as nat, (w * 3) as nat, h as nat),
    ensures
        rgb@ == packed_rows(plane@, stride as nat, (w * 3) as nat, h as nat),
{
    let row = w * 3;
    let plen = plane.len();
    let mut rgb: Vec<u8> = Vec::new();
    let mut y: usize = 0;
    let mut src: usize = 0;
    while y < h
        invariant
            row == w * 3,
            plen == plane@.len(),
            plane_fits(plen as nat, stride as nat, row as nat, h as nat),
            y <= h,
            y < h ==> src == y * stride,
            rgb@ == packed_rows(plane@, stride as nat, row as nat, y as nat),
        decreases h - y,
    {
        proof {
            lemma_row_offsets(y as nat, h as nat, stride as nat, row as nat);
        }
        let ghost before = rgb@;
        let mut x: usize = 0;
        while x < row
            invariant
                src == y * stride,
                src + row <= plen,
                plen == plane@.len(),
                x <= row,
                rgb@ == before + plane@.subrange(src as int, src + x),
            decreases row - x,
        {
            rgb.push(plane[src + x]);
            x += 1;
            assert(rgb@ =~= before + plane@.subrange(src as int, src + x));
        }
        y += 1;
        if y < h {
            proof {
                lemma_row_offsets(y as nat, h as nat, stride as nat, row as nat);
            }
            src = src + stride;
        }
    }
    rgb
}

/// The plane with its first `h` rows of `w` RGB pixels (rows `stride` bytes
/// apart) overwritten by the packed picture `rgb`; every other byte is kept.
pub fn rgb_into_plane(rgb: &[u8], plane: &mut Vec<u8>, stride: usize, w: usize, h: usize)
    requires
        w * 3 <= usize::MAX,
        h * (w * 3) <= rgb@.len(),
        plane_fits(old(plane)@.len(), stride as nat, (w * 3) as nat, h as nat),
    ensures
        final(plane)@ == unpacked_rows(old(plane)@, stride as nat, (w * 3) as nat, rgb@, h as nat),
{
    let row = w * 3;
    let plen = plane.len();
    let rlen = rgb.len();
    let ghost original = plane@;
    let mut y: usize = 0;
    let mut src: usize = 0;
    let mut dst: usize = 0;
    while y < h
        invariant
            row == w * 3,
            plen == original.len(),
            rlen == rgb@.len(),
            plane@.len() == plen,
            plane_fits(plen as nat, stride as nat, row as nat, h as nat),
            h * row <= rlen,
            y <= h,
            y < h ==> src == y * row,
            y < h ==> dst == y * stride,
            plane@ == unpacked_rows(original, stride as nat, row as nat, rgb@, y as nat),
        decreases h - y,
    {
        proof {
            lemma_row_offsets(y as nat, h as nat, stride as nat, row as nat);
            assert((y + 1) * row <= h * row) by (nonlinear_arith)
                requires
                    y < h,
            ;
        }
        let ghost before = plane@;
        let mut x: usize = 0;
        while x < row
            invariant
                src == y * row,
                dst == y * stride,
                src + row <= rlen,
                rlen == rgb@.len(),
                dst + row <= plen,
                plen == before.len(),
                plane@.len() == plen,
                x <= row,
                plane@ == splice(before, dst as int, rgb@.subrange(src as int, src + x)),
            decreases row - x,
        {
            plane.set(dst + x, rgb[src + x]);
            x += 1;
            assert(plane@ =~= splice(before, dst as int, rgb@.subrange(src as int, src + x)));
        }
        y += 1;
        if y < h {
            proof {
                lemma_row_offsets(y as nat, h as nat, stride as nat, row as nat);
                assert(y * row <= h * row) by (nonlinear_arith)
                    requires
                        y < h,
                ;
            }
            src = src + row;
            dst = dst + stride;
        }
    }
}

} // verus!
