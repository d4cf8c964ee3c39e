//! The server side of a secure, connection-oriented protocol over UDP: a session with a
//! fixed number of client slots, driven by time ticks, that exchanges length-bounded
//! packets with its clients. The transport itself (sockets, handshake, encryption) is an
//! `Engine`; `LocalEngine` is one that runs in the process.

pub mod engine;
pub mod limits;
pub mod local;
pub mod server;
pub mod sessions;

pub use engine::{ClientSlot, Engine, EngineConfig, SentLog, SlotsView};
pub use local::{Arrival, LocalEngine};
pub use server::{SendError, Server, ServerError, ServerPacket};
pub use sessions::SessionCount;
