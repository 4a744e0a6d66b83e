//! Ring buffers that keep the most recent encoded packets, grouped by a
//! [`traits::PacketHandler`].
pub mod traits;
pub mod packet_handlers;
pub mod ring_buffer;
pub mod laws;
