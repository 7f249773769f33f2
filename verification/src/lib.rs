//! A small Redis-like key/value server: the wire format of its frames,
//! the commands carried in them, the store they act on, and the decisions
//! a connection makes. Network I/O lives outside this library.

pub mod cursor;
pub mod error;
pub mod ext;
pub mod wire;
pub mod wire_laws;
pub mod frame;
pub mod cmd;
pub mod event;
pub mod channel;
pub mod db;
pub mod connection;
pub mod server;
