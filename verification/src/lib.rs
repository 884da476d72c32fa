//! Lockframe: an end-to-end encrypted group messaging protocol engine.
//!
//! The library is organised as a set of sans-I/O state machines: the wire
//! frame codec, the per-sender symmetric ratchet, the group state adapter,
//! the client and server state machines, and the session (connection) state
//! machine. Each component is a pure function from state and event to the
//! next state and a list of actions; an outer driver performs the I/O.

pub mod client;
pub mod connection;
pub mod crypto;
pub mod env;
pub mod executor;
pub mod frame;
pub mod mls;
pub mod model;
pub mod payload;
pub mod ratchet;
pub mod room_manager;
pub mod sender_keys;
pub mod sequencer;
pub mod server;
pub mod session;
pub mod storage;
pub mod strfmt;
pub mod wire;
