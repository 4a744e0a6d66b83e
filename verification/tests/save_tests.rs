use clip_recorder::capturer::saver::Saver;
use clip_recorder::error::{CustomError, Error, FfmpegError};
use clip_recorder::packet::Packet;
use clip_recorder::recorder::encoders::{
    audio_encoder_time_base, video_codec_encoder_name, video_encoder_name, video_encoder_settings,
    AudioEncoderType, VideoCodec, VideoEncoderType,
};
use clip_recorder::save::{
    file_name_candidate, next_file_name_step, pick_sound_file, pts_bounds, stream_time_base,
    FileNameStep, SaverEnv,
};
use clip_recorder::window_capture::test_window_capture_main;

fn packet(pts: Option<i64>, dts: Option<i64>) -> Packet {
    Packet::new(vec![1, 2, 3], pts, dts, 1, false)
}

#[test]
fn candidate_names_number_the_attempts() {
    assert_eq!(file_name_candidate("out/clip", 0, ".mp4"), "out/clip.mp4");
    assert_eq!(file_name_candidate("out/clip", 7, ".mp4"), "out/clip_007.mp4");
    assert_eq!(file_name_candidate("out/clip", 123, ".mp4"), "out/clip_123.mp4");
    assert_eq!(file_name_candidate("x", 999, ""), "x_999");
}

#[test]
fn name_search_steps() {
    assert_eq!(next_file_name_step(0, false), FileNameStep::Use);
    assert_eq!(next_file_name_step(0, true), FileNameStep::TryNext(1));
    assert_eq!(next_file_name_step(998, true), FileNameStep::TryNext(999));
    assert_eq!(next_file_name_step(999, true), FileNameStep::Exhausted);
}

#[test]
fn saver_env_names() {
    let env = SaverEnv::new("clips".to_string(), "game".to_string());
    assert_eq!(env.sound_dir, "sounds");
    assert!(env.preferred_sound_file_name.is_none());
    assert_eq!(env.default_name("20240102_030405"), "clips/game_20240102_030405");
    assert_eq!(env.candidate_name("clips/game_1", 0, "mp4"), "clips/game_1.mp4");
    assert_eq!(env.candidate_name("clips/game_1", 12, "mp4"), "clips/game_1_012.mp4");
    assert_eq!(env.save_file_name(Some("a.mp4".to_string()), "b.mp4".to_string()), "a.mp4");
    assert_eq!(env.save_file_name(None, "b.mp4".to_string()), "b.mp4");
}

#[test]
fn current_default_name_carries_a_time_stamp() {
    let env = SaverEnv::new("clips".to_string(), "game".to_string());
    let name = env.current_default_name();
    let stamp = name.strip_prefix("clips/game_").expect("prefix");
    let chars: Vec<char> = stamp.chars().collect();
    assert_eq!(chars.len(), 15);
    for (i, c) in chars.iter().enumerate() {
        if i == 8 {
            assert_eq!(*c, '_');
        } else {
            assert!(c.is_ascii_digit());
        }
    }
}

#[test]
fn sound_file_choice() {
    let files = vec!["a.mp3".to_string(), "b.mp3".to_string()];
    assert_eq!(pick_sound_file(&Some("pref.mp3".to_string()), &files), "pref.mp3");
    assert_eq!(pick_sound_file(&Some("pref.mp3".to_string()), &vec![]), "pref.mp3");
    for _ in 0..20 {
        let chosen = pick_sound_file(&None, &files);
        assert!(files.contains(&chosen));
    }
    let one = vec!["only.mp3".to_string()];
    assert_eq!(pick_sound_file(&None, &one), "only.mp3");
}

#[test]
fn time_bases_and_bounds() {
    assert_eq!(stream_time_base(true, 30, 1, 48000), (1, 30));
    assert_eq!(stream_time_base(false, 30, 1, 48000), (1, 48000));
    let packets = vec![packet(Some(5), Some(5)), packet(None, None), packet(Some(-2), Some(1)), packet(Some(9), None)];
    assert_eq!(pts_bounds(&packets), (-2, 9));
    assert_eq!(pts_bounds(&vec![]), (0, 0));
    assert_eq!(pts_bounds(&vec![packet(None, None)]), (i64::MAX, i64::MIN));
}

#[test]
fn saver_candidate_names() {
    let s = Saver::new("out".to_string(), "clip".to_string(), ".mp4".to_string());
    assert_eq!(s.sound_dir, "sounds");
    assert_eq!(s.candidate_name("20240101_000000", 0), "out/clip_20240101_000000.mp4");
    assert_eq!(s.candidate_name("20240101_000000", 4), "out/clip_20240101_000000_004.mp4");
}

#[test]
fn aligning_moves_video_to_zero_and_audio_by_the_frame_offset() {
    let mut video = vec![packet(Some(10), Some(9)), packet(Some(12), None), packet(Some(11), Some(11))];
    let mut audio = vec![packet(Some(20000), Some(20000)), packet(None, Some(30000))];
    let t = Saver::align_timestamps(&mut video, &mut audio);
    assert_eq!((t.video_min, t.video_max), (10, 12));
    assert_eq!((t.audio_min, t.audio_max), (20000, 20000));
    assert_eq!(t.audio_offset, 9 * 1600);
    let vpts: Vec<Option<i64>> = video.iter().map(|p| p.pts).collect();
    let vdts: Vec<Option<i64>> = video.iter().map(|p| p.dts).collect();
    assert_eq!(vpts, vec![Some(0), Some(2), Some(1)]);
    assert_eq!(vdts, vec![Some(-1), None, Some(1)]);
    assert_eq!(audio[0].pts, Some(20000 - 14400));
    assert_eq!(audio[1].pts, None);
    assert_eq!(audio[1].dts, Some(30000 - 14400));
    assert_eq!(audio[0].data, vec![1, 2, 3]);
}

#[test]
fn adjust_pts_shifts_back() {
    let mut packets = vec![packet(Some(100), Some(90))];
    Saver::adjust_pts(&mut packets, 40);
    assert_eq!((packets[0].pts, packets[0].dts), (Some(60), Some(50)));
}

#[test]
fn encoder_choices() {
    assert_eq!(video_encoder_name(VideoEncoderType::HevcAmf), Ok("hevc_amf"));
    assert_eq!(
        video_encoder_name(VideoEncoderType::QsvOderSo),
        Err(CustomError::CUSTOM(Error::NotYetImplemented))
    );
    assert_eq!(video_codec_encoder_name(VideoCodec::Amf), Ok("hevc_amf"));
    assert_eq!(
        video_codec_encoder_name(VideoCodec::Qsv),
        Err(CustomError::FFMPEG(FfmpegError::EncoderNotFound))
    );
    let s = video_encoder_settings(1920, 1080, 30, 8_000_000, 10_000_000);
    assert_eq!((s.width, s.height, s.time_base, s.frame_rate, s.gop), (1920, 1080, (1, 30), (30, 1), 30));
    assert_eq!((s.bit_rate, s.max_bit_rate), (8_000_000, 10_000_000));
    assert_eq!(audio_encoder_time_base(48000), (1, 48000));
    assert_eq!(AudioEncoderType::AAC.frame_size(), 1024);
    assert_eq!(CustomError::from_error(Error::Unknown), CustomError::CUSTOM(Error::Unknown));
    assert_eq!(
        CustomError::from_ffmpeg(FfmpegError::EncoderNotFound),
        CustomError::FFMPEG(FfmpegError::EncoderNotFound)
    );
}

#[test]
fn window_capture_run_succeeds_after_a_capture() {
    assert_eq!(test_window_capture_main(Ok(())), Ok(()));
}

#[test]
fn every_attempt_probes_a_different_name() {
    let names: std::collections::HashSet<String> =
        (0..=999).map(|attempt| file_name_candidate("out/clip", attempt, ".mp4")).collect();
    assert_eq!(names.len(), 1000);
}
