use clip_recorder::capturer::capture_steps::{audio_capture_step, video_capture_step};
use clip_recorder::capturer::texture_ring::OptionalID3D11Texture2DRingBuffer;
use clip_recorder::capturer::video::VideoData;
use clip_recorder::image::{convert_bgra_to_rgba, texture_to_rgba};
use clip_recorder::pacing::frame_pacing_delay;
use clip_recorder::screenshot::{achieved_fps, frame_interval_ms, CaptureSlots, FrameAcquire};

#[test]
fn bgra_to_rgba_swaps_red_and_blue() {
    let mut buf = vec![1, 2, 3, 4, 5, 6, 7, 8, 9];
    convert_bgra_to_rgba(&mut buf, 32);
    assert_eq!(buf, vec![3, 2, 1, 4, 7, 6, 5, 8, 9]);
}

#[test]
fn bgr_source_gets_opaque_alpha() {
    let mut buf = vec![10, 20, 30, 0, 40, 50, 60, 1];
    convert_bgra_to_rgba(&mut buf, 24);
    assert_eq!(buf, vec![30, 20, 10, 255, 60, 50, 40, 255]);
}

#[test]
fn texture_rows_are_packed_and_converted() {
    // Two rows of two pixels, each row padded to 12 bytes.
    let data: Vec<u8> = vec![
        1, 2, 3, 4, 5, 6, 7, 8, 0, 0, 0, 0, //
        9, 10, 11, 12, 13, 14, 15, 16, 0, 0, 0, 0,
    ];
    let rgba = texture_to_rgba(&data, 2, 2, 12);
    assert_eq!(rgba, vec![3, 2, 1, 4, 7, 6, 5, 8, 11, 10, 9, 12, 15, 14, 13, 16]);
    let raw = VideoData::frame_buffer(&data, 2, 2, 12);
    assert_eq!(raw, vec![1, 2, 3, 4, 5, 6, 7, 8, 9, 10, 11, 12, 13, 14, 15, 16]);
}

#[test]
fn texture_of_no_rows_is_empty() {
    assert!(texture_to_rgba(&[], 4, 0, 16).is_empty());
}

#[test]
fn texture_ring_copies_from_the_slots_before_the_position() {
    let mut ring = OptionalID3D11Texture2DRingBuffer::new(3);
    ring.advance_index(); // position 1
    assert_eq!(ring.copy_in(), 1);
    ring.advance_index(); // position 2
    assert_eq!(ring.copy_in(), 2);
    let mut out = OptionalID3D11Texture2DRingBuffer::new(2);
    assert_eq!(ring.copy_out(&mut out), vec![0, 1]);
    ring.advance_index(); // position 0
    assert_eq!(ring.copy_in(), 0);
    let mut all = OptionalID3D11Texture2DRingBuffer::new(3);
    assert_eq!(ring.copy_out(&mut all), vec![0, 1, 2]);
}

#[test]
fn capture_slots_follow_the_outcomes() {
    let mut slots = CaptureSlots::new(3);
    assert_eq!(slots.record(FrameAcquire::NoResource), None);
    assert_eq!(slots.frames_captured(), 0);
    assert_eq!(slots.record(FrameAcquire::Acquired), Some(0));
    assert_eq!(slots.record(FrameAcquire::Failed), None);
    assert_eq!(slots.record(FrameAcquire::Acquired), Some(2));
    assert_eq!(slots.frames_captured(), 3);
}

#[test]
fn burst_timing_figures() {
    assert_eq!(frame_interval_ms(30), 33);
    assert_eq!(frame_interval_ms(60), 16);
    assert_eq!(achieved_fps(90, 3000), 30);
    assert_eq!(achieved_fps(7, 2000), 3);
}

#[test]
fn pacing_waits_until_the_frame_is_due() {
    let frame = 33_333_333u128;
    assert_eq!(frame_pacing_delay(frame, 3, 50_000_000), Some(49_999_999));
    assert_eq!(frame_pacing_delay(frame, 3, 100_000_000), None);
    assert_eq!(frame_pacing_delay(frame, 0, 0), None);
}

#[test]
fn video_step_counts_piped_frames_into_the_first_packet() {
    assert_eq!(video_capture_step(0, 0, 0), (1, 1, vec![]));
    assert_eq!(video_capture_step(1, 1, 0), (2, 2, vec![]));
    assert_eq!(video_capture_step(2, 2, 3), (3, 0, vec![3, 0, 0]));
    assert_eq!(video_capture_step(3, 0, 1), (4, 0, vec![1]));
}

#[test]
fn audio_step_cuts_one_frame_per_packet() {
    let mut left = Vec::new();
    let mut right = Vec::new();
    let mut pts: i64 = 0;
    // 300 sample frames: not yet half a frame (512) per plane.
    let data: Vec<u8> = (0..300 * 8).map(|i| (i % 8) as u8).collect();
    assert!(audio_capture_step(&mut left, &mut right, &data, 300, &mut pts, 8).is_none());
    assert_eq!((left.len(), right.len(), pts), (1200, 1200, 0));
    // 1000 more: one frame of 4096 bytes per plane is cut, pts moves by 1000.
    let data: Vec<u8> = (0..1000 * 8).map(|i| (i % 8) as u8).collect();
    let frame = audio_capture_step(&mut left, &mut right, &data, 1000, &mut pts, 8).expect("a frame");
    assert_eq!(frame.pts, 0);
    assert_eq!(frame.left.len(), 4096);
    assert!(frame.left.chunks(4).all(|c| c == [0, 1, 2, 3]));
    assert!(frame.right.chunks(4).all(|c| c == [4, 5, 6, 7]));
    assert_eq!((left.len(), right.len(), pts), (1200 + 4000 - 4096, 1200 + 4000 - 4096, 1000));
    // An empty packet changes nothing, though a frame's worth is buffered.
    let mut big_left = vec![0u8; 5000];
    let mut big_right = vec![0u8; 5000];
    assert!(audio_capture_step(&mut big_left, &mut big_right, &[], 0, &mut pts, 8).is_none());
    assert_eq!((big_left.len(), pts), (5000, 1000));
}

#[test]
fn a_run_of_video_steps_counts_every_frame_once() {
    let received = [0usize, 0, 2, 0, 1, 0, 0];
    let (mut sent, mut piped, mut handed) = (0i64, 0i32, 0i64);
    for (k, r) in received.iter().enumerate() {
        assert_eq!(sent, k as i64);
        let (next, next_piped, amounts) = video_capture_step(sent, piped, *r);
        handed += amounts.iter().map(|a| *a as i64).sum::<i64>();
        sent = next;
        piped = next_piped;
        assert_eq!(piped as i64 + handed, sent);
        if *r > 0 {
            assert_eq!(handed, sent);
        }
    }
    assert_eq!((sent, piped, handed), (7, 2, 5));
}
