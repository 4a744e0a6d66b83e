//! The capture pipeline's own buffers: a ring of packets grouped from key
//! frame to key frame, the bookkeeping of a ring of captured textures, and
//! the per-frame and per-packet decisions of the capture loops.
pub mod packet_ring_buffer;
pub mod laws;
pub mod key_listener;
pub mod texture_ring;
pub mod video;
pub mod saver;
pub mod capture_steps;
