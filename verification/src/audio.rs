//! Audio capture logic: cutting captured PCM into encoder frames with the
//! right timestamps, splitting interleaved stereo samples and describing
//! capture formats.
pub mod aac;
pub mod wave_format;
pub mod samples;
pub mod enums;
