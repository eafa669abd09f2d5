//! Symmetric peer-to-peer transport around KCP over a single UDP socket.
//!
//! The crate holds the transport as a state machine: packets, ticks and calls go in, and the
//! datagrams to send and the events to report come out. Sockets, timers and channels belong to
//! the program around it.

pub mod addr;
pub mod buffer;
pub mod config;
pub mod connection;
pub mod engine;
pub mod error;
pub mod guarantees;
pub mod laws;
pub mod origin;
pub mod packet;
pub mod protocol;
mod random;
pub mod session;
pub mod time;
pub mod transport;

pub use config::{KcpConfig, KcpConfigBuilder};
pub use error::{Error, Result};
pub use packet::PacketType;
pub use session::Session;
pub use transport::{DataMessage, Event, KcpPeer, PeerStats};
