//! Identities used across the session: peers, connections, exit reasons.

use vstd::prelude::*;

verus! {

/// A client's session-wide identity, chosen by the client when joining.
pub type ClientId = u64;

/// Identity of a participant as seen on the wire and in the roster:
/// either the (single) host, or a client with its id.
#[derive(Clone, Copy, Debug, PartialEq, Eq, Structural, Hash)]
pub enum NetworkedId {
    Host,
    ClientId(u64),
}

/// Why the local participant left the lobby.
#[derive(Clone, Copy, Debug, PartialEq, Eq, Structural)]
pub enum ExitReason {
    Disconnected,
    Kicked,
}

/// Identity of one peer connection owned by this instance.
#[derive(Clone, Copy, Debug, PartialEq, Eq, Structural, Hash)]
pub struct ConnectionId(pub u64);

} // verus!
