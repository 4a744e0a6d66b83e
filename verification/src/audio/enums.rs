//! Which audio is recorded and how it is encoded, and the decisions taken
//! from that when an audio recorder is set up.
use vstd::prelude::*;
use crate::error::{CustomError, Error, FfmpegError};

verus! {

/// The audio codec of a recorder.
#[derive(PartialEq, Eq, Structural, Clone, Copy, Debug)]
pub enum AudioCodec {
    AAC,
    Test,
}

/// Where recorded audio comes from.
#[derive(PartialEq, Eq, Structural, Clone, Copy, Debug)]
pub enum AudioSourceType {
    /// What the default output device plays.
    WasApiDefaultSys,
    /// What one process (and, with `include_tree`, its children) plays.
    WasApiProcess { process_id: u32, include_tree: bool },
    /// The default input device.
    WasApiDefaultInput,
}

/// The channel layouts an encoder is set up with.
#[derive(PartialEq, Eq, Structural, Clone, Copy, Debug)]
pub enum ChannelLayout {
    Mono,
    Stereo,
}

/// The encoder a codec is set up with.
#[derive(PartialEq, Eq, Structural, Clone, Copy, Debug)]
pub enum AudioEncoderChoice {
    /// The media library's AAC encoder.
    Aac,
}

/// The encoder for `codec`: AAC has one, the test codec has none.
pub fn audio_encoder_for(codec: AudioCodec) -> (r: Result<AudioEncoderChoice, CustomError>)
    ensures
        codec == AudioCodec::AAC ==> r == Ok::<AudioEncoderChoice, CustomError>(AudioEncoderChoice::Aac),
        codec == AudioCodec::Test ==> r == Err::<AudioEncoderChoice, CustomError>(
            CustomError::FFMPEG(FfmpegError::EncoderNotFound),
        ),
{
    match codec {
        AudioCodec::AAC => Ok(AudioEncoderChoice::Aac),
        AudioCodec::Test => Err(CustomError::FFMPEG(FfmpegError::EncoderNotFound)),
    }
}

/// The channel layout for a capture format with `channels` channels: mono
/// and stereo are supported, anything else is an unknown error.
pub fn channel_layout_for(channels: u16) -> (r: Result<ChannelLayout, CustomError>)
    ensures
        channels == 1 ==> r == Ok::<ChannelLayout, CustomError>(ChannelLayout::Mono),
        channels == 2 ==> r == Ok::<ChannelLayout, CustomError>(ChannelLayout::Stereo),
        channels != 1 && channels != 2 ==> r == Err::<ChannelLayout, CustomError>(CustomError::CUSTOM(Error::Unknown)),
{
    match channels {
        1 => Ok(ChannelLayout::Mono),
        2 => Ok(ChannelLayout::Stereo),
        _ => Err(CustomError::CUSTOM(Error::Unknown)),
    }
}

/// For a default-device source, whether the device is the output device
/// (captured in loopback) rather than the input device; `None` for a
/// process source.
pub fn render_else_capture(source: AudioSourceType) -> (r: Option<bool>)
    ensures
        source == AudioSourceType::WasApiDefaultSys ==> r == Some(true),
        source == AudioSourceType::WasApiDefaultInput ==> r == Some(false),
        source is WasApiProcess ==> r is None,
{
    match source {
        AudioSourceType::WasApiDefaultSys => Some(true),
        AudioSourceType::WasApiDefaultInput => Some(false),
        AudioSourceType::WasApiProcess { .. } => None,
    }
}

/// The frames a ring buffer keeps for `min_secs` seconds at `rate` frames
/// (or samples) per second.
pub fn ring_buffer_frames(min_secs: u32, rate: u32) -> (n: u32)
    requires
        min_secs as int * rate as int <= u32::MAX,
    ensures
        n == min_secs as int * rate as int,
{
    min_secs * rate
}

} // verus!
