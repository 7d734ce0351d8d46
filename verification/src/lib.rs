//! Wire protocol and session logic of a small chat directory service.
//!
//! Clients register a nickname and a listening address with a directory,
//! look other users up, and exchange messages. This crate holds the framing
//! of packets, the encoding of commands and responses on top of it, and the
//! state machines of the directory and of a relaying client.

pub mod address;
pub mod assoc;
pub mod directory;
pub mod mailbox;
pub mod packet;
pub mod relay;
pub mod request;
pub mod respond;
pub mod stream;
pub mod text;
pub mod wire;

pub use packet::{to_packet, Deserialize, Packet, PacketView, Serialize};
pub use stream::get_buffer;
