//! The decisions the capturer takes per captured frame and per captured
//! audio packet: timestamps, the frame counts packets carry, and when
//! buffered audio is cut into an encoder frame.
use vstd::prelude::*;
use crate::audio::samples::{left_plane, right_plane, split_stereo};

verus! {

/// The frame counts the packets received after one frame carry: the first
/// carries the frames piped since the last packet, this one included
/// (`piped + 1`), the others none.
pub open spec fn packet_frame_amounts(piped: int, received: int) -> Seq<i32> {
    Seq::new(received as nat, |i: int| if i == 0 { (piped + 1) as i32 } else { 0i32 })
}

/// One captured video frame: the frame is stamped `frames_sent`, and the
/// `received` packets the encoder gives back for it carry the frame counts
/// of [`packet_frame_amounts`]. Returns the frame counter after this frame,
/// the frames piped since the last packet, and those frame counts.
pub fn video_capture_step(frames_sent: i64, piped: i32, received: usize) -> (r: (i64, i32, Vec<i32>))
    requires
        frames_sent < i64::MAX,
        piped < i32::MAX,
    ensures
        r.0 == frames_sent + 1,
        r.1 == (if received > 0 { 0 } else { piped + 1 }),
        r.2@ == packet_frame_amounts(piped as int, received as int),
{
    let piped_now = piped + 1;
    let mut amounts: Vec<i32> = Vec::new();
    let mut i: usize = 0;
    while i < received
        invariant
            i <= received,
            amounts@ == packet_frame_amounts(piped as int, i as int),
            piped_now == piped + 1,
        decreases received - i,
    {
        if i == 0 {
            amounts.push(piped_now);
        } else {
            amounts.push(0);
        }
        i = i + 1;
        assert(amounts@ =~= packet_frame_amounts(piped as int, i as int));
    }
    let next_piped = if received > 0 { 0 } else { piped_now };
    (frames_sent + 1, next_piped, amounts)
}

/// The summed frame counts of a sequence of packets.
pub open spec fn amounts_total(amounts: Seq<i32>) -> int
    decreases amounts.len(),
{
    if amounts.len() == 0 {
        0
    } else {
        amounts_total(amounts.drop_last()) + amounts.last()
    }
}

/// The state after a run of captured frames, starting from nothing sent
/// and nothing piped, where `received[k]` packets came back for frame `k`:
/// the frames sent, the frames piped since the last packet, and the frame
/// counts handed to packets in all, each step as [`video_capture_step`]
/// takes it.
pub open spec fn video_run(received: Seq<usize>) -> (int, int, int)
    decreases received.len(),
{
    if received.len() == 0 {
        (0, 0, 0)
    } else {
        let (sent, piped, handed) = video_run(received.drop_last());
        let r = received.last() as int;
        (
            sent + 1,
            if r > 0 { 0 } else { piped + 1 },
            handed + amounts_total(packet_frame_amounts(piped, r)),
        )
    }
}

/// The packets of one frame carry, in all, the frames piped since the last
/// packet and this one, or nothing when no packet came.
proof fn lemma_amounts_total(piped: int, received: int)
    requires
        -1 <= piped < i32::MAX,
        received >= 0,
    ensures
        amounts_total(packet_frame_amounts(piped, received)) == if received > 0 { piped + 1 } else { 0 },
    decreases received,
{
    if received > 0 {
        lemma_amounts_total(piped, received - 1);
        assert(packet_frame_amounts(piped, received).drop_last() =~= packet_frame_amounts(piped, received - 1));
    }
}

/// Over a run of captured frames, frame `k` is stamped `k`, and every
/// frame sent is counted exactly once: the frame counts handed to packets
/// plus the frames still piped equal the frames sent, so right after a
/// frame whose send gave back a packet the packets carry all frames sent.
pub proof fn law_video_run_counts_every_frame(received: Seq<usize>)
    requires
        received.len() < i32::MAX,
    ensures
        forall|k: int| 0 <= k <= received.len() ==> (#[trigger] video_run(received.take(k))).0 == k,
        video_run(received).1 >= 0,
        video_run(received).2 >= 0,
        video_run(received).1 + video_run(received).2 == received.len(),
        received.len() > 0 && received.last() > 0 ==> video_run(received).1 == 0 && video_run(received).2
            == received.len(),
    decreases received.len(),
{
    if received.len() > 0 {
        let prev = received.drop_last();
        law_video_run_counts_every_frame(prev);
        let (sent, piped, handed) = video_run(prev);
        assert(piped <= prev.len());
        lemma_amounts_total(piped, received.last() as int);
        assert forall|k: int| 0 <= k <= received.len() implies (#[trigger] video_run(received.take(k))).0 == k by {
            if k < received.len() {
                assert(received.take(k) =~= prev.take(k));
            } else {
                assert(received.take(k) =~= received);
                assert(prev.take(prev.len() as int) =~= prev);
            }
        }
    } else {
        assert forall|k: int| 0 <= k <= received.len() implies (#[trigger] video_run(received.take(k))).0 == k by {
            assert(received.take(k) =~= received);
        }
    }
}

/// One planar stereo encoder frame: its timestamp and the bytes of its
/// left and right planes.
pub struct PlanarAudioFrame {
    pub pts: i64,
    pub left: Vec<u8>,
    pub right: Vec<u8>,
}

/// The bytes of one plane of an encoder frame, for sample frames of
/// `block_align` bytes: half a frame's interleaved bytes.
pub open spec fn plane_chunk(block_align: int) -> int {
    512 * block_align
}

/// Whether a packet of `packet_frames` sample frames completes an encoder
/// frame, once its planes are appended to the buffered ones.
pub open spec fn completes_frame(left: Seq<u8>, right: Seq<u8>, data: Seq<u8>, packet_frames: int, block_align: int) -> bool {
    &&& packet_frames > 0
    &&& (left + left_plane(data)).len() >= plane_chunk(block_align)
    &&& (right + right_plane(data)).len() >= plane_chunk(block_align)
}

/// Appends `src` to `dst`.
fn append_plane(dst: &mut Vec<u8>, src: &Vec<u8>)
    ensures
        final(dst)@ == old(dst)@ + src@,
{
    let ghost start = dst@;
    let mut i: usize = 0;
    while i < src.len()
        invariant
            i <= src@.len(),
            dst@ == start + src@.take(i as int),
        decreases src@.len() - i,
    {
        dst.push(src[i]);
        i = i + 1;
        assert(dst@ =~= start + src@.take(i as int));
    }
    assert(src@.take(i as int) =~= src@);
}

/// Takes the first `n` bytes off `buffer` and returns them.
fn take_front(buffer: &mut Vec<u8>, n: usize) -> (taken: Vec<u8>)
    requires
        n <= old(buffer)@.len(),
    ensures
        taken@ == old(buffer)@.take(n as int),
        final(buffer)@ == old(buffer)@.skip(n as int),
{
    let mut taken = buffer.split_off(n);
    std::mem::swap(buffer, &mut taken);
    taken
}

/// One captured audio packet of `packet_frames` sample frames whose
/// interleaved stereo bytes are `data`: an empty packet changes nothing;
/// otherwise its two planes are appended to `left` and `right`, and when
/// both then hold half a frame's bytes (512 sample frames), those bytes
/// are cut off the front as one encoder frame stamped `pts`, after which
/// `pts` moves on by the packet's sample frames. At most one frame is cut
/// per packet.
pub fn audio_capture_step(
    left: &mut Vec<u8>,
    right: &mut Vec<u8>,
    data: &[u8],
    packet_frames: u32,
    pts: &mut i64,
    block_align: u16,
) -> (frame: Option<PlanarAudioFrame>)
    requires
        data@.len() == packet_frames as int * block_align as int,
        packet_frames > 0 ==> plane_chunk(block_align as int) <= u16::MAX,
        completes_frame(old(left)@, old(right)@, data@, packet_frames as int, block_align as int)
            ==> *old(pts) + packet_frames <= i64::MAX,
    ensures
        packet_frames == 0 ==> {
            &&& frame is None
            &&& final(left)@ == old(left)@
            &&& final(right)@ == old(right)@
            &&& *final(pts) == *old(pts)
        },
        ({
            let l = old(left)@ + left_plane(data@);
            let r = old(right)@ + right_plane(data@);
            let chunk = plane_chunk(block_align as int);
            &&& packet_frames > 0 && !completes_frame(old(left)@, old(right)@, data@, packet_frames as int, block_align as int)
                ==> {
                &&& frame is None
                &&& final(left)@ == l
                &&& final(right)@ == r
                &&& *final(pts) == *old(pts)
            }
            &&& completes_frame(old(left)@, old(right)@, data@, packet_frames as int, block_align as int) ==> {
                &&& frame matches Some(f) && f.pts == *old(pts) && f.left@ == l.take(chunk) && f.right@ == r.take(chunk)
                &&& final(left)@ == l.skip(chunk)
                &&& final(right)@ == r.skip(chunk)
                &&& *final(pts) == *old(pts) + packet_frames
            }
        }),
{
    if packet_frames == 0 {
        return None;
    }
    let chunk_u16: u16 = 512 * block_align;
    let chunk = chunk_u16 as usize;
    let (l, r) = split_stereo(data);
    append_plane(left, &l);
    append_plane(right, &r);
    if left.len() < chunk || right.len() < chunk {
        return None;
    }
    let taken_left = take_front(left, chunk);
    let taken_right = take_front(right, chunk);
    let frame = PlanarAudioFrame { pts: *pts, left: taken_left, right: taken_right };
    *pts = *pts + packet_frames as i64;
    Some(frame)
}

} // verus!
