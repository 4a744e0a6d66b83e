//! Cutting captured PCM bytes into AAC-sized frames and timestamping them,
//! with silence inserted where the capture clock shows a gap.
use vstd::prelude::*;
use crate::audio::wave_format::WaveFormat;

verus! {

/// Samples per AAC frame.
pub const AAC_FRAME_SIZE: usize = 1024;

/// The bytes of one AAC frame for a format with `block_align` bytes per
/// sample frame.
pub open spec fn frame_bytes(block_align: int) -> int {
    AAC_FRAME_SIZE as int * block_align
}

/// What an encoder frame is filled with.
pub enum AudioFrameSource {
    /// These interleaved sample bytes.
    Samples(Vec<u8>),
    /// The prepared silent frame.
    Silence,
}

/// One frame to hand to the encoder, at presentation timestamp `pts`.
pub struct AudioFrameJob {
    pub pts: i64,
    pub source: AudioFrameSource,
}

/// The value of an [`AudioFrameJob`]: its timestamp and its samples, `None`
/// for silence.
pub struct AudioFrameJobView {
    pub pts: int,
    pub samples: Option<Seq<u8>>,
}

impl View for AudioFrameJob {
    type V = AudioFrameJobView;

    open spec fn view(&self) -> AudioFrameJobView {
        AudioFrameJobView {
            pts: self.pts as int,
            samples: match self.source {
                AudioFrameSource::Samples(v) => Some(v@),
                AudioFrameSource::Silence => None,
            },
        }
    }
}

/// The views of a sequence of jobs.
pub open spec fn job_views(s: Seq<AudioFrameJob>) -> Seq<AudioFrameJobView> {
    s.map_values(|j: AudioFrameJob| j@)
}

/// The sample timestamp of a capture position: the elapsed
/// performance-counter ticks since `start_time` (none when negative),
/// scaled to `samples_per_sec` at `frequency` ticks per second.
pub open spec fn capture_pts(qpc_pos: u64, start_time: i64, samples_per_sec: u32, frequency: i64) -> int {
    let elapsed = (qpc_pos as i64) - start_time;
    let clamped: int = if elapsed > 0 { elapsed } else { 0 };
    (((clamped * samples_per_sec) / (frequency as u64 as int)) as i64) as int
}

/// Computing [`capture_pts`] neither overflows nor divides by zero.
pub open spec fn capture_pts_fits(qpc_pos: u64, start_time: i64, samples_per_sec: u32, frequency: i64) -> bool {
    let elapsed = (qpc_pos as i64) - start_time;
    let clamped: int = if elapsed > 0 { elapsed } else { 0 };
    &&& i64::MIN <= elapsed <= i64::MAX
    &&& clamped * samples_per_sec <= u64::MAX
    &&& frequency as u64 != 0
}

/// `count` silent frames, the first at `pts`, each one frame after the
/// previous.
pub open spec fn silent_jobs(count: int, pts: int) -> Seq<AudioFrameJobView>
    decreases count,
{
    if count <= 0 {
        Seq::empty()
    } else {
        silent_jobs(count - 1, pts).push(
            AudioFrameJobView { pts: pts + (count - 1) * AAC_FRAME_SIZE as int, samples: None },
        )
    }
}

/// The frames cut from the front of `buffer`, `size` bytes each, the first
/// at `pts`, for as long as a whole frame is buffered.
pub open spec fn drained_jobs(buffer: Seq<u8>, pts: int, size: int) -> Seq<AudioFrameJobView>
    decreases buffer.len(),
{
    if size > 0 && buffer.len() >= size {
        seq![AudioFrameJobView { pts, samples: Some(buffer.take(size)) }] + drained_jobs(
            buffer.skip(size),
            pts + AAC_FRAME_SIZE as int,
            size,
        )
    } else {
        Seq::empty()
    }
}

/// The timestamp following the frames of [`drained_jobs`].
pub open spec fn drained_pts(buffer: Seq<u8>, pts: int, size: int) -> int
    decreases buffer.len(),
{
    if size > 0 && buffer.len() >= size {
        drained_pts(buffer.skip(size), pts + AAC_FRAME_SIZE as int, size)
    } else {
        pts
    }
}

/// What remains buffered after [`drained_jobs`].
pub open spec fn drained_rest(buffer: Seq<u8>, size: int) -> Seq<u8>
    decreases buffer.len(),
{
    if size > 0 && buffer.len() >= size {
        drained_rest(buffer.skip(size), size)
    } else {
        buffer
    }
}

/// `n` zero bytes.
pub open spec fn zeros(n: int) -> Seq<u8> {
    Seq::new(n as nat, |i: int| 0u8)
}

/// The whole silent frames after the flushed frame, for a gap of `diff`
/// samples while `buffered` bytes are pending: none when the flushed frame
/// already covers the gap.
pub open spec fn gap_frames(diff: int, buffered: int, block_align: int) -> int {
    let rest = diff - (frame_bytes(block_align) - buffered) / block_align;
    if rest > 0 {
        rest / AAC_FRAME_SIZE as int
    } else {
        0
    }
}

/// The pending bytes fill at most one frame and are a whole number of
/// sample frames.
pub open spec fn pending_fits(buffer: Seq<u8>, block_align: int) -> bool {
    &&& block_align > 0
    &&& buffer.len() <= frame_bytes(block_align)
    &&& (buffer.len() as int) % block_align == 0
}

/// The buffered bytes before a packet is handled: when the packet opens a
/// gap, whole sample frames and at most one frame of them.
pub open spec fn buffered_ok(buffer: Seq<u8>, block_align: int, gap: bool) -> bool {
    &&& block_align > 0
    &&& gap ==> (buffer.len() as int) % block_align == 0 && buffer.len() <= frame_bytes(block_align)
}

/// The pending bytes are fewer than a frame and a whole number of sample
/// frames.
pub open spec fn pending_ok(buffer: Seq<u8>, block_align: int) -> bool {
    &&& block_align > 0
    &&& buffer.len() < frame_bytes(block_align)
    &&& (buffer.len() as int) % block_align == 0
}

/// Whether a capture packet of `packet_length` sample frames at `qpc_pos`
/// opens a gap of a frame or more after `pts`.
pub open spec fn opens_gap(
    packet_length: u32,
    qpc_pos: u64,
    start_time: i64,
    frequency: i64,
    samples_per_sec: u32,
    pts: int,
) -> bool {
    packet_length > 0 && capture_pts(qpc_pos, start_time, samples_per_sec, frequency) - pts
        >= AAC_FRAME_SIZE as int
}

/// The frames emitted for a gap: the pending bytes padded with zeros, then
/// the whole silent frames.
pub open spec fn gap_jobs(pending: Seq<u8>, pts: int, diff: int, block_align: int) -> Seq<AudioFrameJobView> {
    seq![AudioFrameJobView { pts, samples: Some(pending + zeros(frame_bytes(block_align) - pending.len())) }]
        + silent_jobs(gap_frames(diff, pending.len() as int, block_align), pts + AAC_FRAME_SIZE as int)
}

/// The timestamp after the frames of [`gap_jobs`].
pub open spec fn gap_pts(pending: Seq<u8>, pts: int, diff: int, block_align: int) -> int {
    pts + AAC_FRAME_SIZE as int + gap_frames(diff, pending.len() as int, block_align) * AAC_FRAME_SIZE as int
}

/// Appends `src` to `dst`.
fn append_bytes(dst: &mut Vec<u8>, src: &[u8])
    ensures
        final(dst)@ == old(dst)@ + src@,
{
    let ghost start = dst@;
    let mut i: usize = 0;
    while i < src.len()
        invariant
            i <= src@.len(),
            dst@ == start + src@.take(i as int),
        decreases src@.len() - i,
    {
        dst.push(src[i]);
        i = i + 1;
        assert(dst@ =~= start + src@.take(i as int));
    }
    assert(src@.take(i as int) =~= src@);
}

/// Appends frames of silence and advances the timestamp past them.
fn push_silence(jobs: &mut Vec<AudioFrameJob>, count: i64, pts: &mut i64)
    requires
        count >= 0,
        *old(pts) + count * AAC_FRAME_SIZE as int <= i64::MAX,
    ensures
        job_views(final(jobs)@) == job_views(old(jobs)@) + silent_jobs(count as int, *old(pts) as int),
        *final(pts) == *old(pts) + count * AAC_FRAME_SIZE as int,
{
    let ghost start_jobs = job_views(jobs@);
    let ghost p0 = *pts as int;
    let mut n: i64 = 0;
    assert(start_jobs + silent_jobs(0, p0) =~= start_jobs);
    while n < count
        invariant
            0 <= n <= count,
            p0 + count * AAC_FRAME_SIZE as int <= i64::MAX,
            *pts == p0 + n * AAC_FRAME_SIZE as int,
            job_views(jobs@) == start_jobs + silent_jobs(n as int, p0),
        decreases count - n,
    {
        let ghost before = jobs@;
        jobs.push(AudioFrameJob { pts: *pts, source: AudioFrameSource::Silence });
        proof {
            assert(job_views(jobs@) =~= job_views(before).push(
                AudioFrameJobView { pts: p0 + n * AAC_FRAME_SIZE as int, samples: None },
            ));
            assert(start_jobs + silent_jobs(n as int + 1, p0) =~= (start_jobs + silent_jobs(n as int, p0)).push(
                AudioFrameJobView { pts: p0 + n * AAC_FRAME_SIZE as int, samples: None },
            ));
        }
        *pts = *pts + AAC_FRAME_SIZE as i64;
        n = n + 1;
    }
}

/// A frame of `size` bytes: `samples` followed by zeros.
fn padded_frame(samples: &Vec<u8>, size: usize) -> (r: Vec<u8>)
    requires
        samples@.len() <= size,
    ensures
        r@ == samples@ + zeros(size - samples@.len()),
{
    let mut r: Vec<u8> = Vec::new();
    append_bytes(&mut r, samples.as_slice());
    let mut i: usize = samples.len();
    while i < size
        invariant
            samples@.len() <= i <= size,
            r@ == samples@ + zeros(i - samples@.len()),
        decreases size - i,
    {
        r.push(0u8);
        i = i + 1;
        assert(r@ =~= samples@ + zeros(i - samples@.len()));
    }
    assert(Seq::<u8>::empty() + samples@ =~= samples@);
    r
}

/// Emits the pending bytes (at most one frame of them) as one frame padded
/// with silence, then as many whole silent frames as fit into the rest of
/// the gap of `frames_of_silence` samples (none when the padded frame
/// covers the gap), advancing `start_pts` past them. The pending bytes are
/// emitted, not consumed: they stay buffered.
pub fn flush_and_silence(
    vec_to_be_flushed: &Vec<u8>,
    frames_of_silence: i64,
    start_pts: &mut i64,
    format: &WaveFormat,
    jobs: &mut Vec<AudioFrameJob>,
)
    requires
        pending_fits(vec_to_be_flushed@, format.block_align as int),
        i64::MIN <= frames_of_silence - (frame_bytes(format.block_align as int) - vec_to_be_flushed@.len())
            / (format.block_align as int),
        gap_pts(vec_to_be_flushed@, *old(start_pts) as int, frames_of_silence as int, format.block_align as int)
            <= i64::MAX,
    ensures
        job_views(final(jobs)@) == job_views(old(jobs)@) + gap_jobs(
            vec_to_be_flushed@,
            *old(start_pts) as int,
            frames_of_silence as int,
            format.block_align as int,
        ),
        *final(start_pts) == gap_pts(
            vec_to_be_flushed@,
            *old(start_pts) as int,
            frames_of_silence as int,
            format.block_align as int,
        ),
{
    let ghost p0 = *start_pts as int;
    let ghost before = job_views(jobs@);
    let ba = format.block_align as usize;
    let frame_size: usize = AAC_FRAME_SIZE;
    let size = frame_size * ba;
    let len = vec_to_be_flushed.len();
    let flushed_pts = (size - len) / ba;
    proof {
        let q = len as int / ba as int;
        assert(len as int == q * ba) by (nonlinear_arith)
            requires
                len as int % ba as int == 0,
                ba > 0,
                q == len as int / ba as int,
        ;
        assert(size as int - len as int == (1024 - q) * ba) by (nonlinear_arith)
            requires
                len as int == q * ba,
                size == 1024 * ba,
        ;
        assert(((1024 - q) * ba) / ba as int == 1024 - q) by (nonlinear_arith)
            requires
                ba > 0,
        ;
        assert(q <= 1024) by (nonlinear_arith)
            requires
                len as int == q * ba,
                len <= 1024 * ba,
                ba > 0,
        ;
        assert(q >= 0) by (nonlinear_arith)
            requires
                len as int == q * ba,
                len >= 0,
                ba > 0,
        ;
    }
    let remaining_silence = frames_of_silence - flushed_pts as i64;
    let frame = padded_frame(vec_to_be_flushed, size);
    let ghost j0 = jobs@;
    jobs.push(AudioFrameJob { pts: *start_pts, source: AudioFrameSource::Samples(frame) });
    *start_pts = *start_pts + frame_size as i64;
    let whole_silent_frames: i64 = if remaining_silence > 0 { remaining_silence / (frame_size as i64) } else { 0 };
    proof {
        assert(whole_silent_frames == gap_frames(frames_of_silence as int, len as int, ba as int));
    }
    let ghost j1 = jobs@;
    push_silence(jobs, whole_silent_frames, start_pts);
    proof {
        assert(job_views(j1) =~= job_views(j0).push(
            AudioFrameJobView { pts: p0, samples: Some(vec_to_be_flushed@ + zeros(size - len)) },
        ));
        assert(job_views(jobs@) =~= job_views(j0) + gap_jobs(
            vec_to_be_flushed@,
            p0,
            frames_of_silence as int,
            ba as int,
        ));
    }
}

/// The test [`AacContext::can_process_audio`] makes: when the packet opens
/// a gap, the buffered bytes are whole sample frames and at most a frame of
/// them, the packet has
/// `packet_length` sample frames of bytes, a non-empty packet is whole
/// 8-byte frames whose capture position converts without overflow or
/// division by zero and lies within `i64` of `pts`, and the timestamp
/// reached (one frame past the capture position after a gap, else `pts`)
/// plus one per buffered byte stays in `i64`.
pub open spec fn audio_args_ok(
    packet_length: u32,
    data_len: int,
    qpc_pos: u64,
    start_time: i64,
    frequency: i64,
    format: WaveFormat,
    pts: int,
    buffer: Seq<u8>,
) -> bool {
    let ba = format.block_align as int;
    let reach = if opens_gap(packet_length, qpc_pos, start_time, frequency, format.samples_per_sec, pts) {
        capture_pts(qpc_pos, start_time, format.samples_per_sec, frequency) + AAC_FRAME_SIZE as int
    } else {
        pts
    };
    &&& buffered_ok(buffer, ba, opens_gap(packet_length, qpc_pos, start_time, frequency, format.samples_per_sec, pts))
    &&& data_len == packet_length as int * ba
    &&& packet_length > 0 ==> {
        &&& data_len % 8 == 0
        &&& capture_pts_fits(qpc_pos, start_time, format.samples_per_sec, frequency)
        &&& i64::MIN <= capture_pts(qpc_pos, start_time, format.samples_per_sec, frequency) - pts <= i64::MAX
    }
    &&& reach + buffer.len() + data_len <= i64::MAX
}

/// The encoder context for AAC: turns each captured packet into the frames
/// to encode.
pub struct AacContext;

impl AacContext {
    /// Whether [`Self::process_audio`] can take these arguments: when the
    /// packet opens a gap, the buffered bytes are whole sample frames and at
    /// most a frame of them, the
    /// packet's bytes match its length (and, as capture delivers them, are
    /// whole 8-byte frames), the capture position converts without
    /// overflow or division by zero, and every timestamp stays in `i64`
    /// with a frame to spare per buffered byte.
    pub fn can_process_audio(
        &self,
        packet_length: u32,
        data: &[u8],
        qpc_pos: u64,
        start_time: i64,
        frequency: i64,
        format: &WaveFormat,
        pts_counter: i64,
        audio_buffer: &Vec<u8>,
    ) -> (b: bool)
        ensures
            b == audio_args_ok(
                packet_length,
                data@.len() as int,
                qpc_pos,
                start_time,
                frequency,
                *format,
                pts_counter as int,
                audio_buffer@,
            ),
            b ==> {
                &&& buffered_ok(
                    audio_buffer@,
                    format.block_align as int,
                    opens_gap(packet_length, qpc_pos, start_time, frequency, format.samples_per_sec, pts_counter as int),
                )
                &&& data@.len() == packet_length as int * format.block_align as int
                &&& packet_length > 0 ==> {
                    &&& capture_pts_fits(qpc_pos, start_time, format.samples_per_sec, frequency)
                    &&& i64::MIN <= capture_pts(qpc_pos, start_time, format.samples_per_sec, frequency)
                        - pts_counter <= i64::MAX
                    &&& data@.len() % 8 == 0
                }
                &&& ({
                    let p0 = pts_counter as int;
                    let ba = format.block_align as int;
                    let gap = opens_gap(packet_length, qpc_pos, start_time, frequency, format.samples_per_sec, p0);
                    let diff = capture_pts(qpc_pos, start_time, format.samples_per_sec, frequency) - p0;
                    let p1 = if gap { gap_pts(audio_buffer@, p0, diff, ba) } else { p0 };
                    let buf1 = if packet_length > 0 { audio_buffer@ + data@ } else { audio_buffer@ };
                    drained_pts(buf1, p1, frame_bytes(ba)) <= i64::MAX
                })
            },
    {
        let ba = format.block_align as u64;
        if ba == 0 {
            return false;
        }
        let blen = audio_buffer.len() as u128;
        assert((packet_length as u128) * (ba as u128) <= 0xffff_ffffu128 * 0xffffu128) by (nonlinear_arith)
            requires
                ba <= 0xffff,
        ;
        if data.len() as u128 != (packet_length as u128) * (ba as u128) {
            return false;
        }
        let ghost p0 = pts_counter as int;
        let ghost ba_i = format.block_align as int;
        let mut reach: i128 = pts_counter as i128;
        if packet_length > 0 {
            if data.len() % 8 != 0 || frequency as u64 == 0 {
                return false;
            }
            let wide_elapsed = (qpc_pos as i64) as i128 - start_time as i128;
            if wide_elapsed < i64::MIN as i128 || wide_elapsed > i64::MAX as i128 {
                return false;
            }
            let elapsed = (qpc_pos as i64) - start_time;
            let clamped: i64 = if elapsed > 0 { elapsed } else { 0 };
            assert((clamped as u128) * (format.samples_per_sec as u128) <= 0x7fff_ffff_ffff_ffffu128 * 0xffff_ffffu128)
                by (nonlinear_arith)
                requires
                    0 <= clamped,
            ;
            if (clamped as u128) * (format.samples_per_sec as u128) > u64::MAX as u128 {
                return false;
            }
            let new_pts = ((clamped as u64) * (format.samples_per_sec as u64) / (frequency as u64)) as i64;
            assert(new_pts == capture_pts(qpc_pos, start_time, format.samples_per_sec, frequency));
            let wide_diff = new_pts as i128 - pts_counter as i128;
            if wide_diff < i64::MIN as i128 || wide_diff > i64::MAX as i128 {
                return false;
            }
            if wide_diff >= 1024 {
                if blen % (ba as u128) != 0 || blen > 1024 * (ba as u128) {
                    return false;
                }
                reach = new_pts as i128 + 1024;
                proof {
                    lemma_gap_pts_bound(audio_buffer@, p0, wide_diff as int, ba_i);
                }
            }
        }
        let fits = reach + blen as i128 + data.len() as i128 <= i64::MAX as i128;
        proof {
            if fits {
                let gap = opens_gap(packet_length, qpc_pos, start_time, frequency, format.samples_per_sec, p0);
                let diff = capture_pts(qpc_pos, start_time, format.samples_per_sec, frequency) - p0;
                let p1 = if gap { gap_pts(audio_buffer@, p0, diff, ba_i) } else { p0 };
                let buf1 = if packet_length > 0 { audio_buffer@ + data@ } else { audio_buffer@ };
                assert(frame_bytes(ba_i) >= AAC_FRAME_SIZE);
                lemma_drained_pts_bound(buf1, p1, frame_bytes(ba_i));
                assert(p1 <= reach);
            }
        }
        fits
    }

    /// Handles one captured packet of `packet_length` sample frames, whose
    /// bytes are `data`, captured at performance-counter position
    /// `qpc_pos`. When the packet's position lies a frame or more after
    /// `pts_counter`, the pending bytes are flushed and the gap is filled
    /// with silence; the packet's bytes are then buffered, and every whole
    /// frame buffered is cut off and returned with consecutive
    /// timestamps.
    pub fn process_audio(
        &mut self,
        packet_length: u32,
        data: &[u8],
        qpc_pos: u64,
        start_time: i64,
        frequency: i64,
        format: &WaveFormat,
        pts_counter: &mut i64,
        audio_buffer: &mut Vec<u8>,
    ) -> (jobs: Vec<AudioFrameJob>)
        requires
            buffered_ok(
                old(audio_buffer)@,
                format.block_align as int,
                opens_gap(packet_length, qpc_pos, start_time, frequency, format.samples_per_sec, *old(pts_counter) as int),
            ),
            data@.len() == packet_length as int * format.block_align as int,
            packet_length > 0 ==> {
                &&& capture_pts_fits(qpc_pos, start_time, format.samples_per_sec, frequency)
                &&& i64::MIN <= capture_pts(qpc_pos, start_time, format.samples_per_sec, frequency)
                    - *old(pts_counter) <= i64::MAX
                &&& data@.len() % 8 == 0
            },
            ({
                let p0 = *old(pts_counter) as int;
                let ba = format.block_align as int;
                let gap = opens_gap(packet_length, qpc_pos, start_time, frequency, format.samples_per_sec, p0);
                let diff = capture_pts(qpc_pos, start_time, format.samples_per_sec, frequency) - p0;
                let p1 = if gap { gap_pts(old(audio_buffer)@, p0, diff, ba) } else { p0 };
                let buf1 = if packet_length > 0 { old(audio_buffer)@ + data@ } else { old(audio_buffer)@ };
                drained_pts(buf1, p1, frame_bytes(ba)) <= i64::MAX
            }),
        ensures
            ({
                let p0 = *old(pts_counter) as int;
                let ba = format.block_align as int;
                let gap = opens_gap(packet_length, qpc_pos, start_time, frequency, format.samples_per_sec, p0);
                let diff = capture_pts(qpc_pos, start_time, format.samples_per_sec, frequency) - p0;
                let gap_part = if gap { gap_jobs(old(audio_buffer)@, p0, diff, ba) } else { Seq::empty() };
                let p1 = if gap { gap_pts(old(audio_buffer)@, p0, diff, ba) } else { p0 };
                let buf1 = if packet_length > 0 { old(audio_buffer)@ + data@ } else { old(audio_buffer)@ };
                &&& job_views(jobs@) == gap_part + drained_jobs(buf1, p1, frame_bytes(ba))
                &&& *final(pts_counter) == drained_pts(buf1, p1, frame_bytes(ba))
                &&& final(audio_buffer)@ == drained_rest(buf1, frame_bytes(ba))
                &&& final(audio_buffer)@.len() < frame_bytes(ba)
                &&& (old(audio_buffer)@.len() as int) % ba == 0 ==> pending_ok(final(audio_buffer)@, ba)
            }),
    {
        let ghost p0 = *pts_counter as int;
        let ghost ba_i = format.block_align as int;
        let ghost old_buf = audio_buffer@;
        let ghost diff_s = capture_pts(qpc_pos, start_time, format.samples_per_sec, frequency) - p0;
        let ghost gap = opens_gap(packet_length, qpc_pos, start_time, frequency, format.samples_per_sec, p0);
        let mut jobs: Vec<AudioFrameJob> = Vec::new();
        if packet_length > 0 {
            let elapsed = (qpc_pos as i64) - start_time;
            let clamped: i64 = if elapsed > 0 { elapsed } else { 0 };
            let new_pts = ((clamped as u64) * (format.samples_per_sec as u64) / (frequency as u64)) as i64;
            let raw_diff = new_pts - *pts_counter;
            let diff: i64 = if raw_diff > 0 { raw_diff } else { 0 };
            if diff >= AAC_FRAME_SIZE as i64 {
                proof {
                    assert(gap_pts(old_buf, p0, diff_s, ba_i) <= drained_pts(
                        old_buf + data@,
                        gap_pts(old_buf, p0, diff_s, ba_i),
                        frame_bytes(ba_i),
                    )) by {
                        lemma_drained_pts_grows(old_buf + data@, gap_pts(old_buf, p0, diff_s, ba_i), frame_bytes(ba_i));
                    }
                    assert(diff == diff_s);
                }
                flush_and_silence(audio_buffer, diff, pts_counter, format, &mut jobs);
            }
            append_bytes(audio_buffer, data);
        }
        let ghost p1 = *pts_counter as int;
        let ghost buf1 = audio_buffer@;
        let ghost gap_part = job_views(jobs@);
        let ba = format.block_align as usize;
        let size: usize = AAC_FRAME_SIZE * ba;
        proof {
            assert(gap_part + drained_jobs(buf1, p1, size as int) =~= gap_part + drained_jobs(buf1, p1, size as int));
            lemma_drained_pts_grows(buf1, p1, size as int);
        }
        while audio_buffer.len() >= size
            invariant
                size as int == frame_bytes(ba_i),
                size > 0,
                job_views(jobs@) + drained_jobs(audio_buffer@, *pts_counter as int, size as int) == gap_part
                    + drained_jobs(buf1, p1, size as int),
                drained_pts(audio_buffer@, *pts_counter as int, size as int) == drained_pts(buf1, p1, size as int),
                drained_rest(audio_buffer@, size as int) == drained_rest(buf1, size as int),
                drained_pts(buf1, p1, size as int) <= i64::MAX,
                (audio_buffer@.len() as int) % ba_i == (buf1.len() as int) % ba_i,
            decreases audio_buffer@.len(),
        {
            let ghost cur = audio_buffer@;
            let ghost cur_jobs = job_views(jobs@);
            let mut frame = audio_buffer.split_off(size);
            std::mem::swap(audio_buffer, &mut frame);
            proof {
                lemma_drained_pts_grows(audio_buffer@, *pts_counter as int + AAC_FRAME_SIZE as int, size as int);
                assert(frame@ == cur.take(size as int));
                assert(audio_buffer@ == cur.skip(size as int));
            }
            let ghost pts_now = *pts_counter as int;
            jobs.push(AudioFrameJob { pts: *pts_counter, source: AudioFrameSource::Samples(frame) });
            *pts_counter = *pts_counter + AAC_FRAME_SIZE as i64;
            proof {
                assert(job_views(jobs@) =~= cur_jobs.push(
                    AudioFrameJobView { pts: pts_now, samples: Some(cur.take(size as int)) },
                ));
                assert(cur_jobs + drained_jobs(cur, pts_now, size as int) =~= job_views(jobs@)
                    + drained_jobs(audio_buffer@, *pts_counter as int, size as int));
                vstd::arithmetic::div_mod::lemma_mod_multiples_vanish(1024, audio_buffer@.len() as int, ba_i);
                assert(audio_buffer@.len() + size == ba_i * 1024 + audio_buffer@.len());
            }
        }
        proof {
            if (old_buf.len() as int) % ba_i == 0 {
                assert((buf1.len() as int) % ba_i == 0) by {
                    if packet_length > 0 {
                        vstd::arithmetic::div_mod::lemma_mod_multiples_vanish(packet_length as int, old_buf.len() as int, ba_i);
                        assert(old_buf.len() + packet_length as int * ba_i == ba_i * packet_length as int + old_buf.len()) by (nonlinear_arith);
                    }
                }
            }
        }
        jobs
    }
}

/// Cutting frames of at least a frame's samples in bytes moves the
/// timestamp on by no more than the bytes buffered.
proof fn lemma_drained_pts_bound(buffer: Seq<u8>, pts: int, size: int)
    requires
        size >= AAC_FRAME_SIZE,
    ensures
        drained_pts(buffer, pts, size) <= pts + buffer.len(),
    decreases buffer.len(),
{
    if buffer.len() >= size {
        lemma_drained_pts_bound(buffer.skip(size), pts + AAC_FRAME_SIZE as int, size);
    }
}

/// A gap of `diff` samples moves the timestamp on by at most one frame
/// more than the gap.
proof fn lemma_gap_pts_bound(pending: Seq<u8>, pts: int, diff: int, block_align: int)
    requires
        block_align > 0,
        pending.len() <= frame_bytes(block_align),
        diff >= 0,
    ensures
        gap_pts(pending, pts, diff, block_align) <= pts + AAC_FRAME_SIZE as int + diff,
{
    let room = frame_bytes(block_align) - pending.len();
    let q = room / block_align;
    assert(q >= 0) by (nonlinear_arith)
        requires
            room >= 0,
            block_align > 0,
            q == room / block_align,
    ;
    let x = diff - q;
    assert((x / 1024) * 1024 <= x) by (nonlinear_arith);
}

/// Cutting frames never moves the timestamp backwards.
pub proof fn lemma_drained_pts_grows(buffer: Seq<u8>, pts: int, size: int)
    ensures
        drained_pts(buffer, pts, size) >= pts,
    decreases buffer.len(),
{
    if size > 0 && buffer.len() >= size {
        lemma_drained_pts_grows(buffer.skip(size), pts + AAC_FRAME_SIZE as int, size);
    }
}

/// The samples of a sequence of jobs, concatenated (silence contributes
/// nothing).
pub open spec fn job_samples(jobs: Seq<AudioFrameJobView>) -> Seq<u8>
    decreases jobs.len(),
{
    if jobs.len() == 0 {
        Seq::empty()
    } else {
        job_samples(jobs.drop_last()) + match jobs.last().samples {
            Some(s) => s,
            None => Seq::empty(),
        }
    }
}

/// Frames are timestamped one after another.
pub open spec fn consecutive_from(jobs: Seq<AudioFrameJobView>, pts: int) -> bool {
    forall|i: int| 0 <= i < jobs.len() ==> (#[trigger] jobs[i]).pts == pts + i * AAC_FRAME_SIZE as int
}

proof fn lemma_silent_jobs(count: int, pts: int)
    requires
        count >= 0,
    ensures
        silent_jobs(count, pts).len() == count,
        consecutive_from(silent_jobs(count, pts), pts),
        forall|i: int| 0 <= i < count ==> (#[trigger] silent_jobs(count, pts)[i]).samples is None,
    decreases count,
{
    if count > 0 {
        lemma_silent_jobs(count - 1, pts);
    }
}

proof fn lemma_drained(buffer: Seq<u8>, pts: int, size: int)
    requires
        size > 0,
    ensures
        consecutive_from(drained_jobs(buffer, pts, size), pts),
        drained_pts(buffer, pts, size) == pts + drained_jobs(buffer, pts, size).len() * AAC_FRAME_SIZE as int,
        job_samples(drained_jobs(buffer, pts, size)) + drained_rest(buffer, size) == buffer,
        drained_rest(buffer, size).len() < size,
        forall|i: int| 0 <= i < drained_jobs(buffer, pts, size).len() ==>
            ((#[trigger] drained_jobs(buffer, pts, size)[i]).samples is Some && drained_jobs(buffer, pts, size)[i].samples->0.len() == size),
    decreases buffer.len(),
{
    if buffer.len() >= size {
        let rest = buffer.skip(size);
        let head = AudioFrameJobView { pts, samples: Some(buffer.take(size)) };
        lemma_drained(rest, pts + AAC_FRAME_SIZE as int, size);
        let tail = drained_jobs(rest, pts + AAC_FRAME_SIZE as int, size);
        let all = seq![head] + tail;
        assert forall|i: int| 0 <= i < all.len() implies (#[trigger] all[i]).pts == pts + i * AAC_FRAME_SIZE as int by {
            if i > 0 {
                assert(all[i] == tail[i - 1]);
            }
        }
        assert forall|i: int| 0 <= i < all.len() implies ((#[trigger] all[i]).samples is Some && all[i].samples->0.len() == size) by {
            if i > 0 {
                assert(all[i] == tail[i - 1]);
            }
        }
        lemma_job_samples_prepend(head, tail);
        assert(buffer.take(size) + (job_samples(tail) + drained_rest(rest, size)) =~= buffer);
        assert(buffer.take(size) + job_samples(tail) + drained_rest(rest, size) =~= buffer.take(size) + (job_samples(tail) + drained_rest(rest, size)));
    } else {
        assert(job_samples(Seq::<AudioFrameJobView>::empty()) + buffer =~= buffer);
    }
}

proof fn lemma_job_samples_prepend(head: AudioFrameJobView, tail: Seq<AudioFrameJobView>)
    requires
        head.samples is Some,
    ensures
        job_samples(seq![head] + tail) == head.samples->0 + job_samples(tail),
    decreases tail.len(),
{
    if tail.len() == 0 {
        assert(seq![head] + tail =~= seq![head]);
        assert(seq![head].drop_last() =~= Seq::<AudioFrameJobView>::empty());
        assert(head.samples->0 + Seq::<u8>::empty() =~= head.samples->0);
        assert(job_samples(Seq::<AudioFrameJobView>::empty()) == Seq::<u8>::empty());
        assert(Seq::<u8>::empty() + head.samples->0 =~= head.samples->0);
    } else {
        assert((seq![head] + tail).last() == tail.last());
        lemma_job_samples_prepend(head, tail.drop_last());
        assert((seq![head] + tail).drop_last() =~= seq![head] + tail.drop_last());
        let last_s = match tail.last().samples {
            Some(s) => s,
            None => Seq::<u8>::empty(),
        };
        assert(head.samples->0 + job_samples(tail.drop_last()) + last_s =~= head.samples->0 + (job_samples(tail.drop_last()) + last_s));
    }
}

/// The frames made from one captured packet are timestamped back to back
/// from the old counter, each a full frame after the previous, and the new
/// counter is exactly one frame per emitted frame further on.
pub proof fn law_frames_back_to_back(
    pending: Seq<u8>,
    data: Seq<u8>,
    gap: bool,
    diff: int,
    pts: int,
    block_align: int,
)
    requires
        buffered_ok(pending, block_align, gap),
        gap ==> diff >= AAC_FRAME_SIZE,
    ensures
        ({
            let gap_part = if gap { gap_jobs(pending, pts, diff, block_align) } else { Seq::empty() };
            let p1 = if gap { gap_pts(pending, pts, diff, block_align) } else { pts };
            let jobs = gap_part + drained_jobs(pending + data, p1, frame_bytes(block_align));
            &&& consecutive_from(jobs, pts)
            &&& drained_pts(pending + data, p1, frame_bytes(block_align)) == pts + jobs.len() * AAC_FRAME_SIZE as int
        }),
{
    let size = frame_bytes(block_align);
    assert(size > 0) by (nonlinear_arith)
        requires
            size == 1024 * block_align,
            block_align > 0,
    ;
    let buf = pending + data;
    if gap {
        let q = pending.len() as int / block_align;
        assert(pending.len() as int == q * block_align && 0 <= q <= 1024) by (nonlinear_arith)
            requires
                (pending.len() as int) % block_align == 0,
                block_align > 0,
                q == pending.len() as int / block_align,
                pending.len() <= 1024 * block_align,
        ;
        assert((size - pending.len()) / block_align == 1024 - q) by (nonlinear_arith)
            requires
                size == 1024 * block_align,
                pending.len() as int == q * block_align,
                block_align > 0,
        ;
        let whole = gap_frames(diff, pending.len() as int, block_align);
        lemma_silent_jobs(whole, pts + AAC_FRAME_SIZE as int);
        let p1 = gap_pts(pending, pts, diff, block_align);
        lemma_drained(buf, p1, size);
        let g = gap_jobs(pending, pts, diff, block_align);
        let d = drained_jobs(buf, p1, size);
        let jobs = g + d;
        assert(g.len() == 1 + whole);
        assert forall|i: int| 0 <= i < jobs.len() implies (#[trigger] jobs[i]).pts == pts + i * AAC_FRAME_SIZE as int by {
            if i == 0 {
            } else if i < g.len() {
                assert(jobs[i] == silent_jobs(whole, pts + AAC_FRAME_SIZE as int)[i - 1]);
            } else {
                assert(jobs[i] == d[i - g.len()]);
            }
        }
    } else {
        lemma_drained(buf, pts, size);
        assert(Seq::<AudioFrameJobView>::empty() + drained_jobs(buf, pts, size) =~= drained_jobs(buf, pts, size));
    }
}

/// Cutting frames loses and invents no byte: the samples of the cut frames
/// followed by what stays buffered are exactly the bytes buffered, every
/// cut frame is a full frame, and less than a frame stays buffered.
pub proof fn law_frames_keep_every_byte(buffer: Seq<u8>, pts: int, block_align: int)
    requires
        block_align > 0,
    ensures
        job_samples(drained_jobs(buffer, pts, frame_bytes(block_align))) + drained_rest(buffer, frame_bytes(block_align))
            == buffer,
        drained_rest(buffer, frame_bytes(block_align)).len() < frame_bytes(block_align),
        forall|i: int| 0 <= i < drained_jobs(buffer, pts, frame_bytes(block_align)).len() ==>
            ((#[trigger] drained_jobs(buffer, pts, frame_bytes(block_align))[i]).samples is Some
                && drained_jobs(buffer, pts, frame_bytes(block_align))[i].samples->0.len() == frame_bytes(block_align)),
{
    assert(frame_bytes(block_align) > 0) by (nonlinear_arith)
        requires
            block_align > 0,
    ;
    lemma_drained(buffer, pts, frame_bytes(block_align));
}

} // verus!
