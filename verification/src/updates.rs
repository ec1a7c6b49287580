//! The consumer-facing update queue: one ordered buffer of normalized
//! session events, appended during a tick's network processing and drained
//! once per tick by the game logic.

use vstd::prelude::*;

use crate::ids::{ExitReason, NetworkedId};
use crate::messages::{InstantiationDataNet, PlayerInfo};

verus! {

/// A normalized session event, in the order produced.
#[derive(Clone, Debug)]
pub enum EasyP2PUpdate {
    LobbyCreated { code: String },
    LobbyJoined { code: String },
    LobbyEntered { code: String },
    LobbyExited { reason: ExitReason },
    HostChat { text: String },
    ClientChat { client_id: u64, text: String },
    RosterUpdated { players: Vec<PlayerInfo> },
    ClientInput { sender: NetworkedId, input: String },
    Instantiated { data: InstantiationDataNet },
}

/// A measured round trip to the host, in milliseconds of the local clock.
#[derive(Clone, Copy, Debug, PartialEq, Eq, Structural)]
pub struct PingUpdate(pub u64);

/// FIFO of normalized events. Producers append during the tick's
/// network-processing phase; the consumer drains the whole queue once per
/// tick; the queue is cleared entirely when the session exits.
pub struct EasyP2PUpdateQueue {
    queue: Vec<EasyP2PUpdate>,
}

impl View for EasyP2PUpdateQueue {
    type V = Seq<EasyP2PUpdate>;

    closed spec fn view(&self) -> Seq<EasyP2PUpdate> {
        self.queue@
    }
}

impl EasyP2PUpdateQueue {
    /// An empty queue.
    pub fn new() -> (r: Self)
        ensures
            r@ == Seq::<EasyP2PUpdate>::empty(),
    {
        EasyP2PUpdateQueue { queue: Vec::new() }
    }

    /// Append one event; everything already queued stays, in order.
    pub fn push(&mut self, update: EasyP2PUpdate)
        ensures
            final(self)@ == old(self)@.push(update),
    {
        self.queue.push(update);
    }

    /// Remove and return every queued event, in producer order.
    pub fn drain(&mut self) -> (r: Vec<EasyP2PUpdate>)
        ensures
            r@ == old(self)@,
            final(self)@ == Seq::<EasyP2PUpdate>::empty(),
    {
        let mut r: Vec<EasyP2PUpdate> = Vec::new();
        core::mem::swap(&mut r, &mut self.queue);
        r
    }

    /// Drop every queued event.
    pub fn clear(&mut self)
        ensures
            final(self)@ == Seq::<EasyP2PUpdate>::empty(),
    {
        self.queue = Vec::new();
    }

    /// How many events are queued.
    pub fn len(&self) -> (r: usize)
        ensures
            r == self@.len(),
    {
        self.queue.len()
    }
}

} // verus!
