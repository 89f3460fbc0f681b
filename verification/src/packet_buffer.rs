//! The stream reassembly buffer and its varint reader, under their older path.

pub use crate::protocol::decoder::read_varint as read_varint_safe;
pub use crate::protocol::packet_buffer::PacketBuffer;
