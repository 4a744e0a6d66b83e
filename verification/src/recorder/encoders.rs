//! Encoder kinds and the settings a recorder gives its encoders.
use vstd::prelude::*;
use crate::error::{CustomError, Error, FfmpegError};

verus! {

/// Where video frames come from.
#[derive(PartialEq, Eq, Structural, Clone, Copy, Debug)]
pub enum VideoFormatType {
    D3D11 { monitor_nr: u32 },
}

/// The video encoders a recorder knows.
#[derive(PartialEq, Eq, Structural, Clone, Copy, Debug)]
pub enum VideoEncoderType {
    HevcAmf,
    QsvOderSo,
}

/// Where audio comes from.
#[derive(PartialEq, Eq, Structural, Clone, Copy, Debug)]
pub enum AudioFormatType {
    WasapiSystem,
    WasapiClient,
}

/// Where audio comes from, with what identifies the source.
#[derive(PartialEq, Eq, Structural, Clone, Copy, Debug)]
pub enum AudioFormatTypeData {
    WasapiSystem,
    WasapiClient { p_id: i32 },
}

/// The audio encoders a recorder knows.
#[derive(PartialEq, Eq, Structural, Clone, Copy, Debug)]
pub enum AudioEncoderType {
    AAC,
}

impl AudioEncoderType {
    /// The samples per frame of the encoder.
    pub fn frame_size(&self) -> (n: usize)
        ensures
            *self == AudioEncoderType::AAC ==> n == 1024,
    {
        match self {
            AudioEncoderType::AAC => 1024,
        }
    }
}

/// The video codecs a recorder can be asked for.
#[derive(PartialEq, Eq, Structural, Clone, Copy, Debug)]
pub enum VideoCodec {
    Amf,
    Qsv,
}

/// Where a video recorder takes frames from.
#[derive(PartialEq, Eq, Structural, Clone, Copy, Debug)]
pub enum VideoSourceType {
    D3d11 { monitor_id: u32 },
    TEST,
}

/// The media library's name of the encoder for `encoder_type`; the Quick
/// Sync encoder is not implemented yet.
pub fn video_encoder_name(encoder_type: VideoEncoderType) -> (r: Result<&'static str, CustomError>)
    ensures
        encoder_type == VideoEncoderType::HevcAmf ==> (r matches Ok(name) && name@ == "hevc_amf"@),
        encoder_type == VideoEncoderType::QsvOderSo ==> r == Err::<&'static str, CustomError>(
            CustomError::CUSTOM(Error::NotYetImplemented),
        ),
{
    match encoder_type {
        VideoEncoderType::HevcAmf => Ok("hevc_amf"),
        VideoEncoderType::QsvOderSo => Err(CustomError::CUSTOM(Error::NotYetImplemented)),
    }
}

/// The media library's name of the encoder for `codec`; the Quick Sync
/// codec reports that no encoder is found.
pub fn video_codec_encoder_name(codec: VideoCodec) -> (r: Result<&'static str, CustomError>)
    ensures
        codec == VideoCodec::Amf ==> (r matches Ok(name) && name@ == "hevc_amf"@),
        codec == VideoCodec::Qsv ==> r == Err::<&'static str, CustomError>(CustomError::FFMPEG(FfmpegError::EncoderNotFound)),
{
    match codec {
        VideoCodec::Amf => Ok("hevc_amf"),
        VideoCodec::Qsv => Err(CustomError::FFMPEG(FfmpegError::EncoderNotFound)),
    }
}

/// What a video encoder is configured with.
pub struct VideoEncoderSettings {
    pub width: u32,
    pub height: u32,
    pub time_base: (i32, i32),
    pub frame_rate: (i32, i32),
    pub bit_rate: usize,
    pub max_bit_rate: usize,
    /// Frames between key frames.
    pub gop: u32,
}

/// The settings of a video encoder for `rate` frames per second: one tick
/// per frame, and a key frame every second.
pub fn video_encoder_settings(out_width: u32, out_height: u32, rate: i32, bit_rate: usize, max_bit_rate: usize) -> (s: VideoEncoderSettings)
    ensures
        s.width == out_width,
        s.height == out_height,
        s.time_base == (1i32, rate),
        s.frame_rate == (rate, 1i32),
        s.bit_rate == bit_rate,
        s.max_bit_rate == max_bit_rate,
        s.gop == rate as u32,
{
    VideoEncoderSettings {
        width: out_width,
        height: out_height,
        time_base: (1, rate),
        frame_rate: (rate, 1),
        bit_rate,
        max_bit_rate,
        gop: rate as u32,
    }
}

/// The time base of an audio encoder at `rate` samples per second: one
/// tick per sample.
pub fn audio_encoder_time_base(rate: i32) -> (tb: (i32, i32))
    ensures
        tb == (1i32, rate),
{
    (1, rate)
}

} // verus!
