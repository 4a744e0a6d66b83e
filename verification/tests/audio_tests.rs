use clip_recorder::audio::aac::{flush_and_silence, AacContext, AudioFrameJob, AudioFrameSource, AAC_FRAME_SIZE};
use clip_recorder::audio::enums::{
    audio_encoder_for, channel_layout_for, render_else_capture, ring_buffer_frames, AudioCodec,
    AudioEncoderChoice, AudioSourceType, ChannelLayout,
};
use clip_recorder::audio::samples::split_stereo;
use clip_recorder::audio::wave_format::{new_waveformatextensible, SubFormat, WaveFormat, WAVE_FORMAT_EXTENSIBLE};
use clip_recorder::error::{CustomError, Error, FfmpegError};

fn stereo_float_format() -> WaveFormat {
    new_waveformatextensible(32, 32, 48000, 2, None).format
}

fn samples_of(job: &AudioFrameJob) -> Option<&Vec<u8>> {
    match &job.source {
        AudioFrameSource::Samples(v) => Some(v),
        AudioFrameSource::Silence => None,
    }
}

#[test]
fn wave_format_of_stereo_float() {
    let f = new_waveformatextensible(32, 32, 44100, 2, None);
    assert_eq!(f.format.block_align, 8);
    assert_eq!(f.format.avg_bytes_per_sec, 352800);
    assert_eq!(f.format.channels, 2);
    assert_eq!(f.format.samples_per_sec, 44100);
    assert_eq!(f.format.bits_per_sample, 32);
    assert_eq!(f.format.cb_size, 22);
    assert_eq!(f.format.format_tag, WAVE_FORMAT_EXTENSIBLE);
    assert_eq!(WAVE_FORMAT_EXTENSIBLE, 0xFFFE);
    assert_eq!(f.sub_format, SubFormat::IeeeFloat);
    assert_eq!(f.valid_bits_per_sample, 32);
    assert_eq!(f.channel_mask, 3);
}

#[test]
fn wave_format_with_fewer_valid_bits() {
    let f = new_waveformatextensible(32, 24, 44100, 2, None);
    assert_eq!(f.format.block_align, 8);
    assert_eq!(f.format.avg_bytes_per_sec, 352800);
    assert_eq!(f.format.channels, 2);
    assert_eq!(f.format.samples_per_sec, 44100);
    assert_eq!(f.format.bits_per_sample, 32);
    assert_eq!(f.format.cb_size, 22);
    assert_eq!(f.format.format_tag, WAVE_FORMAT_EXTENSIBLE);
    assert_eq!(f.valid_bits_per_sample, 24);
    assert_eq!(f.channel_mask, 3);
    assert_eq!(f.sub_format, SubFormat::IeeeFloat);
}

#[test]
fn wave_format_keeps_a_given_mask() {
    let f = new_waveformatextensible(16, 16, 48000, 6, Some(0x3F));
    assert_eq!(f.channel_mask, 0x3F);
    assert_eq!(f.format.block_align, 12);
    assert_eq!(f.format.avg_bytes_per_sec, 576000);
}

#[test]
fn wave_format_mask_for_many_channels_is_empty() {
    let f = new_waveformatextensible(8, 8, 8000, 20, None);
    assert_eq!(f.channel_mask, 0);
    let one = new_waveformatextensible(8, 8, 8000, 1, None);
    assert_eq!(one.channel_mask, 1);
}

#[test]
fn gap_is_filled_with_a_padded_frame_and_silence() {
    let format = stereo_float_format();
    let mut ctx = AacContext;
    let mut pts: i64 = 0;
    let mut buffer: Vec<u8> = Vec::new();
    let data = vec![7u8; 80];
    let jobs = ctx.process_audio(10, &data, 3000, 0, 48000, &format, &mut pts, &mut buffer);
    assert_eq!(jobs.len(), 2);
    assert_eq!(jobs[0].pts, 0);
    assert_eq!(samples_of(&jobs[0]).unwrap(), &vec![0u8; 8192]);
    assert_eq!(jobs[1].pts, 1024);
    assert!(samples_of(&jobs[1]).is_none());
    assert_eq!(pts, 2048);
    assert_eq!(buffer, data);
}

#[test]
fn whole_frames_are_cut_with_consecutive_timestamps() {
    let format = stereo_float_format();
    let mut ctx = AacContext;
    let mut pts: i64 = 500;
    let mut buffer: Vec<u8> = vec![1u8; 16];
    // Capture position 600 samples: no gap of a whole frame.
    let data: Vec<u8> = (0..(2100 * 8)).map(|i| (i % 251) as u8).collect();
    let jobs = ctx.process_audio(2100, &data, 600, 0, 48000, &format, &mut pts, &mut buffer);
    assert_eq!(jobs.len(), 2);
    assert_eq!(jobs[0].pts, 500);
    assert_eq!(jobs[1].pts, 1524);
    let mut all = vec![1u8; 16];
    all.extend_from_slice(&data);
    assert_eq!(samples_of(&jobs[0]).unwrap(), &all[..8192].to_vec());
    assert_eq!(samples_of(&jobs[1]).unwrap(), &all[8192..16384].to_vec());
    assert_eq!(buffer, all[16384..].to_vec());
    assert_eq!(pts, 2548);
}

#[test]
fn empty_packet_only_drains() {
    let format = stereo_float_format();
    let mut ctx = AacContext;
    let mut pts: i64 = 42;
    let mut buffer: Vec<u8> = vec![3u8; 64];
    let jobs = ctx.process_audio(0, &[], 1_000_000, 0, 48000, &format, &mut pts, &mut buffer);
    assert!(jobs.is_empty());
    assert_eq!(pts, 42);
    assert_eq!(buffer, vec![3u8; 64]);
}

#[test]
fn flush_pads_pending_bytes_and_keeps_them() {
    let format = stereo_float_format();
    let pending = vec![9u8; 16];
    let mut start: i64 = 100;
    let mut jobs: Vec<AudioFrameJob> = Vec::new();
    flush_and_silence(&pending, 3100, &mut start, &format, &mut jobs);
    // 1022 samples complete the padded frame; 2078 remain, two whole frames.
    assert_eq!(jobs.len(), 3);
    let mut first = vec![9u8; 16];
    first.extend(vec![0u8; 8192 - 16]);
    assert_eq!(samples_of(&jobs[0]).unwrap(), &first);
    assert_eq!(jobs[0].pts, 100);
    assert_eq!(jobs[1].pts, 1124);
    assert_eq!(jobs[2].pts, 2148);
    assert!(samples_of(&jobs[1]).is_none() && samples_of(&jobs[2]).is_none());
    assert_eq!(start, 3172);
    assert_eq!(pending.len(), 16);
    assert_eq!(AAC_FRAME_SIZE, 1024);
}

#[test]
fn split_stereo_separates_channels() {
    let data: Vec<u8> = (0u8..19).collect();
    let (left, right) = split_stereo(&data);
    assert_eq!(left, vec![0, 1, 2, 3, 8, 9, 10, 11]);
    assert_eq!(right, vec![4, 5, 6, 7, 12, 13, 14, 15]);
}

#[test]
fn split_stereo_of_empty_is_empty() {
    let (left, right) = split_stereo(&[1, 2, 3]);
    assert!(left.is_empty() && right.is_empty());
}

#[test]
fn encoder_and_layout_choices() {
    assert_eq!(audio_encoder_for(AudioCodec::AAC), Ok(AudioEncoderChoice::Aac));
    assert_eq!(
        audio_encoder_for(AudioCodec::Test),
        Err(CustomError::FFMPEG(FfmpegError::EncoderNotFound))
    );
    assert_eq!(channel_layout_for(1), Ok(ChannelLayout::Mono));
    assert_eq!(channel_layout_for(2), Ok(ChannelLayout::Stereo));
    assert_eq!(channel_layout_for(6), Err(CustomError::CUSTOM(Error::Unknown)));
    assert_eq!(render_else_capture(AudioSourceType::WasApiDefaultSys), Some(true));
    assert_eq!(render_else_capture(AudioSourceType::WasApiDefaultInput), Some(false));
    assert_eq!(
        render_else_capture(AudioSourceType::WasApiProcess { process_id: 4, include_tree: true }),
        None
    );
    assert_eq!(ring_buffer_frames(8, 30), 240);
    assert_eq!(ring_buffer_frames(5, 48000), 240000);
}

#[test]
fn process_audio_arguments_are_checked() {
    let format = stereo_float_format();
    let ctx = AacContext;
    let data = vec![0u8; 80];
    assert!(ctx.can_process_audio(10, &data, 3000, 0, 48000, &format, 0, &Vec::new()));
    // Length mismatch, a zero clock frequency, a partial pending frame.
    assert!(!ctx.can_process_audio(11, &data, 3000, 0, 48000, &format, 0, &Vec::new()));
    assert!(!ctx.can_process_audio(10, &data, 3000, 0, 0, &format, 0, &Vec::new()));
    assert!(!ctx.can_process_audio(10, &data, 3000, 0, 48000, &format, 0, &vec![0u8; 4]));
    // A gap admits at most one frame of pending bytes; without a gap any
    // whole number of sample frames may be pending.
    assert!(ctx.can_process_audio(10, &data, 3000, 0, 48000, &format, 0, &vec![0u8; 8192]));
    assert!(!ctx.can_process_audio(10, &data, 3000, 0, 48000, &format, 0, &vec![0u8; 8200]));
    assert!(ctx.can_process_audio(10, &data, 3000, 0, 48000, &format, 2900, &vec![0u8; 8200]));
    // Timestamps close to the end of i64.
    assert!(!ctx.can_process_audio(0, &[], 0, 0, 48000, &format, i64::MAX - 10, &vec![0u8; 16]));
    assert!(ctx.can_process_audio(0, &[], 0, 0, 48000, &format, i64::MAX - 16, &vec![0u8; 16]));
}

#[test]
fn flush_of_a_full_frame_and_a_short_gap() {
    let format = stereo_float_format();
    let pending: Vec<u8> = (0..8192).map(|i| (i % 13) as u8).collect();
    let mut start: i64 = 7;
    let mut jobs: Vec<AudioFrameJob> = Vec::new();
    flush_and_silence(&pending, 500, &mut start, &format, &mut jobs);
    assert_eq!(jobs.len(), 1);
    assert_eq!(jobs[0].pts, 7);
    assert_eq!(samples_of(&jobs[0]).unwrap(), &pending);
    assert_eq!(start, 7 + 1024);

    let mut start: i64 = 0;
    let mut jobs: Vec<AudioFrameJob> = Vec::new();
    flush_and_silence(&vec![1u8; 8], -5000, &mut start, &format, &mut jobs);
    assert_eq!(jobs.len(), 1);
    assert_eq!(start, 1024);
}

#[test]
fn a_long_buffer_is_drained_frame_by_frame() {
    let format = stereo_float_format();
    let mut ctx = AacContext;
    let mut pts: i64 = 10;
    let mut buffer: Vec<u8> = (0..(16384 + 8)).map(|i| (i % 7) as u8).collect();
    let original = buffer.clone();
    let jobs = ctx.process_audio(0, &[], 0, 0, 48000, &format, &mut pts, &mut buffer);
    assert_eq!(jobs.len(), 2);
    assert_eq!((jobs[0].pts, jobs[1].pts), (10, 1034));
    assert_eq!(samples_of(&jobs[0]).unwrap(), &original[..8192].to_vec());
    assert_eq!(samples_of(&jobs[1]).unwrap(), &original[8192..16384].to_vec());
    assert_eq!(buffer, original[16384..].to_vec());
    assert_eq!(pts, 2058);
}

#[test]
fn without_a_gap_any_buffer_is_drained() {
    let format = stereo_float_format();
    let mut ctx = AacContext;
    let mut pts: i64 = 0;
    let mut buffer: Vec<u8> = vec![5u8; 8195];
    assert!(ctx.can_process_audio(0, &[], 0, 0, 48000, &format, 0, &buffer));
    let jobs = ctx.process_audio(0, &[], 0, 0, 48000, &format, &mut pts, &mut buffer);
    assert_eq!(jobs.len(), 1);
    assert_eq!(buffer, vec![5u8; 3]);
    assert_eq!(pts, 1024);
    // With a gap the odd buffer is refused.
    let data = vec![0u8; 80];
    assert!(!ctx.can_process_audio(10, &data, 3000, 0, 48000, &format, 0, &vec![0u8; 4]));
}
