//! The relay engine of an intercepting proxy for a length-prefixed, optionally compressed
//! packet protocol, and what its inspector window keeps.
//!
//! - [`varint`]: the variable-length integer of the wire format.
//! - [`packet_io`]: the frame codec, with and without compression.
//! - [`packets`]: the three packets that a session reads to follow the protocol.
//! - [`client`]: the protocol state of a session, and the relay step.
//! - [`packet_registry`]: the table of known packets and the classification of frames.
//! - [`descriptor`]: the records that describe the known packets.
//! - [`logger`], [`shared_state`], [`tabs`], [`time_text`]: what observers keep and show.
//! - [`zlib`]: the calls into the zlib implementation.

pub mod client;
pub mod descriptor;
pub mod error;
pub mod logger;
pub mod packet_io;
pub mod packet_registry;
pub mod packets;
pub mod shared_state;
pub mod tabs;
pub mod time_text;
pub mod varint;
pub mod zlib;

pub use crate::client::{process, ProxySession, Relayed, SessionState};
pub use crate::error::ProxyError;
pub use crate::packet_io::{PacketFrame, PacketIo, PacketIoReader, PacketIoWriter};
pub use crate::packet_registry::{Packet, PacketRegistry, PacketSide, PacketState};
pub use crate::varint::varint_to_bytes;
