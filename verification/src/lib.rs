//! Verified core of a screen and audio clip recorder: the packet ring
//! buffers that keep the last seconds of encoded media, the audio framing
//! and timestamp arithmetic, pixel-format conversions, keyboard shortcut
//! tracking and the naming and timestamp rules used when a clip is saved.
pub mod error;
pub mod packet;
pub mod ring_buffer;
pub mod capturer;
pub mod audio;
pub mod image;
pub mod key_listener;
pub mod save;
pub mod recorder;
pub mod screenshot;
pub mod window_capture;
pub mod pacing;
