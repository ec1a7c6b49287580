//! A host-authoritative peer-to-peer session library.
//!
//! One participant hosts a small real-time session and others join it by a
//! room code, with connection setup brokered through a polled shared document.
//! This crate holds the verified core: the lobby state machine, the wire
//! message codec, the host-authoritative relay and roster rules, the
//! connection-lifecycle manager, the signaling (document polling) state
//! machine, the generic state/event sync registries and the update queue.
//! The surrounding runtime (browser peer connections, HTTP fetches, the game
//! loop) drives these state machines from outside, one tick at a time.

pub mod api;
pub mod codec;
pub mod connection;
pub mod ids;
pub mod messages;
pub mod registry;
pub mod router;
pub mod session;
pub mod signaling;
pub mod transport;
pub mod updates;
