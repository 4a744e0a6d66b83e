//! The recorder's own error kinds.
use vstd::prelude::*;

verus! {

/// Errors the recorder itself decides on.
#[derive(PartialEq, Eq, Structural, Clone, Copy, Debug)]
pub enum Error {
    NotYetImplemented,
    NonExistentParameterCombination,
    Unknown,
}

/// The outcomes of media-library calls that the recorder's decisions
/// produce.
#[derive(PartialEq, Eq, Structural, Clone, Copy, Debug)]
pub enum FfmpegError {
    /// No encoder is available for the requested codec.
    EncoderNotFound,
}

/// Any error of the recorder: one reported as from the media library, or
/// one of its own.
#[derive(PartialEq, Eq, Structural, Clone, Copy, Debug)]
pub enum CustomError {
    FFMPEG(FfmpegError),
    CUSTOM(Error),
}

impl CustomError {
    /// Wraps an error of the recorder's own.
    pub fn from_error(value: Error) -> (e: CustomError)
        ensures
            e == CustomError::CUSTOM(value),
    {
        CustomError::CUSTOM(value)
    }

    /// Wraps a media-library error.
    pub fn from_ffmpeg(value: FfmpegError) -> (e: CustomError)
        ensures
            e == CustomError::FFMPEG(value),
    {
        CustomError::FFMPEG(value)
    }
}

} // verus!
