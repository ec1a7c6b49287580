//! The connection manager: one record per remote peer, holding the buffers
//! that bridge the runtime's connection callbacks back into the synchronous
//! per-tick pipeline.
//!
//! The runtime (which owns the real peer connections and data channels)
//! feeds completions in through the `note_*` methods as they happen; `poll`
//! drains them exactly once per tick into transport events, preserving each
//! connection's arrival order. Data is surfaced only once the connection's
//! open signal has been surfaced, so a consumer always sees a connection
//! open before any of its data.

use vstd::prelude::*;

use crate::ids::ConnectionId;

verus! {

/// Per-connection state: identity, role, and the buffers its callbacks
/// fill between ticks.
pub struct Connection {
    pub id: ConnectionId,
    /// Created by the offerer flow (it opened the data channel itself)
    /// rather than the answerer flow.
    pub offerer: bool,
    /// The channel reported open since the last poll.
    pub pending_open: bool,
    /// The channel or peer connection reported closed since the last poll.
    pub pending_closed: bool,
    /// Text frames received since the last poll, in arrival order.
    pub pending_messages: Vec<String>,
    /// Local descriptions that finished ICE gathering since the last poll.
    pub pending_local_sdp: Vec<String>,
    /// A `ConnectionOpen` event for this connection has been surfaced.
    pub open_delivered: bool,
    /// The data channel has reached its open state.
    pub channel_open: bool,
}

/// A connection-lifecycle signal surfaced by `poll`.
#[derive(Debug)]
pub enum TransportEvent {
    LocalSdpReady { id: ConnectionId, sdp: String },
    ConnectionOpen(ConnectionId),
    ConnectionClosed(ConnectionId),
    IncomingData { id: ConnectionId, text: String },
}

/// The events one connection's buffers yield in one poll: its open signal,
/// then its closed signal, then — only once its open has been surfaced —
/// its buffered frames in arrival order, then its ready local descriptions.
pub open spec fn spec_conn_chunk(c: Connection) -> Seq<TransportEvent> {
    (if c.pending_open {
        seq![TransportEvent::ConnectionOpen(c.id)]
    } else {
        Seq::<TransportEvent>::empty()
    }) + (if c.pending_closed {
        seq![TransportEvent::ConnectionClosed(c.id)]
    } else {
        Seq::<TransportEvent>::empty()
    }) + (if c.open_delivered || c.pending_open {
        c.pending_messages@.map_values(
            |t: String| TransportEvent::IncomingData { id: c.id, text: t },
        )
    } else {
        Seq::<TransportEvent>::empty()
    }) + c.pending_local_sdp@.map_values(
        |s: String| TransportEvent::LocalSdpReady { id: c.id, sdp: s },
    )
}

/// The events a whole poll yields, connection by connection.
pub open spec fn spec_poll_events(conns: Seq<Connection>) -> Seq<TransportEvent>
    decreases conns.len(),
{
    if conns.len() == 0 {
        Seq::<TransportEvent>::empty()
    } else {
        spec_conn_chunk(conns[0]) + spec_poll_events(conns.drop_first())
    }
}

/// One more connection appends its chunk.
proof fn lemma_poll_events_push(conns: Seq<Connection>, c: Connection)
    ensures
        spec_poll_events(conns.push(c)) == spec_poll_events(conns) + spec_conn_chunk(c),
    decreases conns.len(),
{
    if conns.len() == 0 {
        reveal_with_fuel(spec_poll_events, 3);
        assert(conns.push(c)[0] == c);
        assert(conns.push(c).drop_first() =~= Seq::<Connection>::empty());
        assert(spec_poll_events(conns.push(c)) =~= spec_poll_events(conns) + spec_conn_chunk(c));
    } else {
        assert(conns.push(c)[0] == conns[0]);
        assert(conns.push(c).drop_first() =~= conns.drop_first().push(c));
        lemma_poll_events_push(conns.drop_first(), c);
        assert(spec_poll_events(conns.push(c)) =~= spec_poll_events(conns) + spec_conn_chunk(c));
    }
}

/// First position of the record for `id`, if any.
pub open spec fn spec_find_conn(conns: Seq<Connection>, id: ConnectionId) -> Option<int>
    decreases conns.len(),
{
    if conns.len() == 0 {
        None
    } else if conns[0].id == id {
        Some(0)
    } else {
        match spec_find_conn(conns.drop_first(), id) {
            Some(i) => Some(i + 1),
            None => None,
        }
    }
}

/// A found position is the first record for that id; no position means no
/// record.
pub proof fn lemma_find_conn_props(conns: Seq<Connection>, id: ConnectionId)
    ensures
        match spec_find_conn(conns, id) {
            Some(i) => 0 <= i < conns.len() && conns[i].id == id && forall|k: int|
                0 <= k < i ==> conns[k].id != id,
            None => forall|k: int| 0 <= k < conns.len() ==> conns[k].id != id,
        },
    decreases conns.len(),
{
    if conns.len() > 0 && conns[0].id != id {
        lemma_find_conn_props(conns.drop_first(), id);
        assert forall|k: int| 1 <= k < conns.len() implies conns.drop_first()[k - 1] == conns[k]
            by {}
    }
}

/// A fresh record: nothing pending, nothing delivered.
pub open spec fn spec_fresh_conn(c: Connection, id: ConnectionId, offerer: bool) -> bool {
    &&& c.id == id
    &&& c.offerer == offerer
    &&& !c.pending_open
    &&& !c.pending_closed
    &&& c.pending_messages@ == Seq::<String>::empty()
    &&& c.pending_local_sdp@ == Seq::<String>::empty()
    &&& !c.open_delivered
    &&& !c.channel_open
}

/// Owns every connection record of this instance.
pub struct ConnectionManager {
    pub conns: Vec<Connection>,
}

impl ConnectionManager {
    /// No connections yet.
    pub fn new() -> (r: Self)
        ensures
            r.conns@ == Seq::<Connection>::empty(),
    {
        ConnectionManager { conns: Vec::new() }
    }

    /// Find the index of `id`'s record.
    fn find(&self, id: ConnectionId) -> (r: Option<usize>)
        ensures
            match spec_find_conn(self.conns@, id) {
                Some(i) => r matches Some(k) && k as int == i && 0 <= i < self.conns@.len(),
                None => r is None,
            },
    {
        let mut k: usize = 0;
        while k < self.conns.len()
            invariant
                k <= self.conns@.len(),
                forall|j: int| 0 <= j < k ==> self.conns@[j].id != id,
            decreases self.conns@.len() - k,
        {
            if self.conns[k].id.0 == id.0 {
                proof {
                    lemma_find_conn_props(self.conns@, id);
                    match spec_find_conn(self.conns@, id) {
                        Some(i) => {
                            if i < k as int {
                                assert(self.conns@[i].id != id);
                            }
                            if i > k as int {
                                assert(self.conns@[k as int].id != id);
                            }
                        },
                        None => {
                            assert(self.conns@[k as int].id != id);
                        },
                    }
                }
                proof {
                    assert(spec_find_conn(self.conns@, id) matches Some(i) && k as int == i);
                }
                return Some(k);
            }
            k = k + 1;
        }
        proof {
            lemma_find_conn_props(self.conns@, id);
            match spec_find_conn(self.conns@, id) {
                Some(i) => {
                    assert(self.conns@[i].id == id);
                    assert(false);
                },
                None => {},
            }
        }
        None
    }

    /// Start the offerer flow for a new connection id: a fresh record whose
    /// channel this instance opens. An id already in use is left alone.
    pub fn create_offer(&mut self, id: ConnectionId)
        ensures
            match spec_find_conn(old(self).conns@, id) {
                Some(_) => final(self).conns@ == old(self).conns@,
                None => final(self).conns@.len() == old(self).conns@.len() + 1
                    && final(self).conns@.subrange(0, old(self).conns@.len() as int) == old(
                    self,
                ).conns@ && spec_fresh_conn(final(self).conns@.last(), id, true),
            },
    {
        if self.find(id).is_none() {
            self.conns.push(
                Connection {
                    id,
                    offerer: true,
                    pending_open: false,
                    pending_closed: false,
                    pending_messages: Vec::new(),
                    pending_local_sdp: Vec::new(),
                    open_delivered: false,
                    channel_open: false,
                },
            );
            proof {
                assert(final(self).conns@.subrange(0, old(self).conns@.len() as int) =~= old(
                    self,
                ).conns@);
            }
        }
    }

    /// Start the answerer flow for a new connection id: a fresh record that
    /// waits for the offerer's channel. An id already in use is left alone.
    pub fn create_answer(&mut self, id: ConnectionId)
        ensures
            match spec_find_conn(old(self).conns@, id) {
                Some(_) => final(self).conns@ == old(self).conns@,
                None => final(self).conns@.len() == old(self).conns@.len() + 1
                    && final(self).conns@.subrange(0, old(self).conns@.len() as int) == old(
                    self,
                ).conns@ && spec_fresh_conn(final(self).conns@.last(), id, false),
            },
    {
        if self.find(id).is_none() {
            self.conns.push(
                Connection {
                    id,
                    offerer: false,
                    pending_open: false,
                    pending_closed: false,
                    pending_messages: Vec::new(),
                    pending_local_sdp: Vec::new(),
                    open_delivered: false,
                    channel_open: false,
                },
            );
            proof {
                assert(final(self).conns@.subrange(0, old(self).conns@.len() as int) =~= old(
                    self,
                ).conns@);
            }
        }
    }

    /// Does a record for `id` exist?
    pub fn has_connection(&self, id: ConnectionId) -> (r: bool)
        ensures
            r == (spec_find_conn(self.conns@, id) is Some),
    {
        self.find(id).is_some()
    }

    /// May data be sent on `id` right now? Only on a connection whose
    /// channel is open; sends to anything else are silently dropped.
    pub fn can_send(&self, id: ConnectionId) -> (r: bool)
        ensures
            match spec_find_conn(self.conns@, id) {
                Some(i) => r == self.conns@[i].channel_open,
                None => !r,
            },
    {
        match self.find(id) {
            Some(k) => {
                let r = self.conns[k].channel_open;
                proof {
                    match spec_find_conn(self.conns@, id) {
                        Some(i) => {
                            assert(k as int == i);
                            assert(r == self.conns@[i].channel_open);
                        },
                        None => {
                            assert(false);
                        },
                    }
                }
                r
            },
            None => false,
        }
    }

    /// The runtime reports `id`'s data channel open. A completion for a
    /// forgotten connection is discarded.
    pub fn note_channel_open(&mut self, id: ConnectionId)
        ensures
            match spec_find_conn(old(self).conns@, id) {
                Some(i) => final(self).conns@ == old(self).conns@.update(
                    i,
                    Connection {
                        pending_open: true,
                        channel_open: true,
                        ..old(self).conns@[i]
                    },
                ),
                None => final(self).conns@ == old(self).conns@,
            },
    {
        match self.find(id) {
            Some(k) => {
                let mut c = self.conns.remove(k);
                c.pending_open = true;
                c.channel_open = true;
                self.conns.insert(k, c);
                proof {
                    assert(final(self).conns@ =~= old(self).conns@.update(
                        k as int,
                        Connection {
                            pending_open: true,
                            channel_open: true,
                            ..old(self).conns@[k as int]
                        },
                    ));
                }
            },
            None => {},
        }
    }

    /// The runtime reports `id`'s channel or peer connection closed,
    /// disconnected or failed: the channel is no longer open — sends to it
    /// are refused from this instant — and the closed signal waits for the
    /// next poll. A completion for a forgotten connection is discarded.
    pub fn note_channel_closed(&mut self, id: ConnectionId)
        ensures
            match spec_find_conn(old(self).conns@, id) {
                Some(i) => final(self).conns@ == old(self).conns@.update(
                    i,
                    Connection {
                        pending_closed: true,
                        channel_open: false,
                        ..old(self).conns@[i]
                    },
                ),
                None => final(self).conns@ == old(self).conns@,
            },
    {
        match self.find(id) {
            Some(k) => {
                let mut c = self.conns.remove(k);
                c.pending_closed = true;
                c.channel_open = false;
                self.conns.insert(k, c);
                proof {
                    assert(final(self).conns@ =~= old(self).conns@.update(
                        k as int,
                        Connection {
                            pending_closed: true,
                            channel_open: false,
                            ..old(self).conns@[k as int]
                        },
                    ));
                }
            },
            None => {},
        }
    }

    /// The runtime hands over one received text frame for `id`; frames keep
    /// their arrival order. A frame for a forgotten connection is discarded.
    pub fn note_message(&mut self, id: ConnectionId, text: String)
        ensures
            match spec_find_conn(old(self).conns@, id) {
                Some(i) => ({
                    let oc = old(self).conns@[i];
                    let nc = final(self).conns@[i];
                    &&& final(self).conns@.len() == old(self).conns@.len()
                    &&& forall|k: int|
                        0 <= k < old(self).conns@.len() && k != i ==> final(self).conns@[k] == old(
                            self,
                        ).conns@[k]
                    &&& nc.pending_messages@ == oc.pending_messages@.push(text)
                    &&& nc.id == oc.id
                    &&& nc.offerer == oc.offerer
                    &&& nc.pending_open == oc.pending_open
                    &&& nc.pending_closed == oc.pending_closed
                    &&& nc.pending_local_sdp == oc.pending_local_sdp
                    &&& nc.open_delivered == oc.open_delivered
                    &&& nc.channel_open == oc.channel_open
                }),
                None => final(self).conns@ == old(self).conns@,
            },
    {
        match self.find(id) {
            Some(k) => {
                let mut c = self.conns.remove(k);
                c.pending_messages.push(text);
                self.conns.insert(k, c);
            },
            None => {},
        }
    }

    /// The runtime hands over a local description whose ICE gathering is
    /// complete for `id`. One for a forgotten connection is discarded.
    pub fn note_local_sdp(&mut self, id: ConnectionId, sdp: String)
        ensures
            match spec_find_conn(old(self).conns@, id) {
                Some(i) => ({
                    let oc = old(self).conns@[i];
                    let nc = final(self).conns@[i];
                    &&& final(self).conns@.len() == old(self).conns@.len()
                    &&& forall|k: int|
                        0 <= k < old(self).conns@.len() && k != i ==> final(self).conns@[k] == old(
                            self,
                        ).conns@[k]
                    &&& nc.pending_local_sdp@ == oc.pending_local_sdp@.push(sdp)
                    &&& nc.id == oc.id
                    &&& nc.offerer == oc.offerer
                    &&& nc.pending_open == oc.pending_open
                    &&& nc.pending_closed == oc.pending_closed
                    &&& nc.pending_messages == oc.pending_messages
                    &&& nc.open_delivered == oc.open_delivered
                    &&& nc.channel_open == oc.channel_open
                }),
                None => final(self).conns@ == old(self).conns@,
            },
    {
        match self.find(id) {
            Some(k) => {
                let mut c = self.conns.remove(k);
                c.pending_local_sdp.push(sdp);
                self.conns.insert(k, c);
            },
            None => {},
        }
    }

    /// Drain every buffer into transport events, exactly once per tick:
    /// per connection its open signal, then its closed signal, then — only
    /// once its open signal has been surfaced — its received frames in
    /// arrival order, then its ready local descriptions. Events are never
    /// duplicated: every buffer and flag surfaced here is cleared.
    pub fn poll(&mut self) -> (r: Vec<TransportEvent>)
        ensures
            r@ == spec_poll_events(old(self).conns@),
            final(self).conns@.len() == old(self).conns@.len(),
            forall|k: int|
                0 <= k < old(self).conns@.len() ==> {
                    let oc = #[trigger] old(self).conns@[k];
                    let nc = final(self).conns@[k];
                    &&& nc.id == oc.id
                    &&& nc.offerer == oc.offerer
                    &&& nc.channel_open == oc.channel_open
                    &&& !nc.pending_open
                    &&& !nc.pending_closed
                    &&& nc.pending_local_sdp@ == Seq::<String>::empty()
                    &&& nc.open_delivered == (oc.open_delivered || oc.pending_open)
                    &&& ((oc.open_delivered || oc.pending_open) ==> nc.pending_messages@
                        == Seq::<String>::empty())
                    &&& (!(oc.open_delivered || oc.pending_open) ==> nc.pending_messages@
                        == oc.pending_messages@)
                },
    {
        let ghost conns0 = self.conns@;
        let mut rest: Vec<Connection> = Vec::new();
        core::mem::swap(&mut rest, &mut self.conns);
        let mut evs: Vec<TransportEvent> = Vec::new();
        let mut done: Vec<Connection> = Vec::new();
        proof {
            assert(conns0.take(0) =~= Seq::<Connection>::empty());
        }
        while rest.len() > 0
            invariant
                done@.len() + rest@.len() == conns0.len(),
                rest@ == conns0.skip(done@.len() as int),
                evs@ == spec_poll_events(conns0.take(done@.len() as int)),
                forall|k: int|
                    0 <= k < done@.len() ==> {
                        let oc = #[trigger] conns0[k];
                        let nc = done@[k];
                        &&& nc.id == oc.id
                        &&& nc.offerer == oc.offerer
                        &&& nc.channel_open == oc.channel_open
                        &&& !nc.pending_open
                        &&& !nc.pending_closed
                        &&& nc.pending_local_sdp@ == Seq::<String>::empty()
                        &&& nc.open_delivered == (oc.open_delivered || oc.pending_open)
                        &&& ((oc.open_delivered || oc.pending_open) ==> nc.pending_messages@
                            == Seq::<String>::empty())
                        &&& (!(oc.open_delivered || oc.pending_open) ==> nc.pending_messages@
                            == oc.pending_messages@)
                    },
            decreases rest@.len(),
        {
            let mut c = rest.remove(0);
            let ghost oc = c;
            let ghost kdone = done@.len() as int;
            proof {
                assert(conns0.skip(kdone)[0] == conns0[kdone]);
                assert(oc == conns0[kdone]);
            }
            let ghost evs_start = evs@;
            if c.pending_open {
                evs.push(TransportEvent::ConnectionOpen(c.id));
                c.pending_open = false;
                c.open_delivered = true;
            }
            if c.pending_closed {
                evs.push(TransportEvent::ConnectionClosed(c.id));
                c.pending_closed = false;
            }
            let ghost evs_pre_msgs = evs@;
            if c.open_delivered {
                let mut m: usize = 0;
                while m < c.pending_messages.len()
                    invariant
                        m <= c.pending_messages@.len(),
                        evs@ == evs_pre_msgs + c.pending_messages@.take(m as int).map_values(
                            |t: String| TransportEvent::IncomingData { id: oc.id, text: t },
                        ),
                        c.id == oc.id,
                        c.pending_messages@ == oc.pending_messages@,
                    decreases c.pending_messages@.len() - m,
                {
                    evs.push(
                        TransportEvent::IncomingData {
                            id: c.id,
                            text: c.pending_messages[m].clone(),
                        },
                    );
                    proof {
                        let f = |t: String| TransportEvent::IncomingData { id: oc.id, text: t };
                        assert(c.pending_messages@.take(m + 1).map_values(f)
                            =~= c.pending_messages@.take(m as int).map_values(f).push(
                            f(c.pending_messages@[m as int]),
                        ));
                    }
                    m = m + 1;
                }
                proof {
                    let f = |t: String| TransportEvent::IncomingData { id: oc.id, text: t };
                    assert(c.pending_messages@.take(c.pending_messages@.len() as int)
                        =~= c.pending_messages@);
                }
                c.pending_messages = Vec::new();
            }
            let ghost evs_pre_sdp = evs@;
            let mut q: usize = 0;
            while q < c.pending_local_sdp.len()
                invariant
                    q <= c.pending_local_sdp@.len(),
                    evs@ == evs_pre_sdp + c.pending_local_sdp@.take(q as int).map_values(
                        |t: String| TransportEvent::LocalSdpReady { id: oc.id, sdp: t },
                    ),
                    c.id == oc.id,
                    c.pending_local_sdp@ == oc.pending_local_sdp@,
                decreases c.pending_local_sdp@.len() - q,
            {
                evs.push(
                    TransportEvent::LocalSdpReady {
                        id: c.id,
                        sdp: c.pending_local_sdp[q].clone(),
                    },
                );
                proof {
                    let f = |t: String| TransportEvent::LocalSdpReady { id: oc.id, sdp: t };
                    assert(c.pending_local_sdp@.take(q + 1).map_values(f)
                        =~= c.pending_local_sdp@.take(q as int).map_values(f).push(
                        f(c.pending_local_sdp@[q as int]),
                    ));
                }
                q = q + 1;
            }
            proof {
                assert(c.pending_local_sdp@.take(c.pending_local_sdp@.len() as int)
                    =~= c.pending_local_sdp@);
            }
            c.pending_local_sdp = Vec::new();
            done.push(c);
            proof {
                assert(evs@ =~= evs_start + spec_conn_chunk(oc));
                assert(conns0.take(kdone + 1) =~= conns0.take(kdone).push(conns0[kdone]));
                lemma_poll_events_push(conns0.take(kdone), conns0[kdone]);
                assert(rest@ =~= conns0.skip(kdone + 1));
            }
        }
        proof {
            assert(conns0.take(conns0.len() as int) =~= conns0);
        }
        core::mem::swap(&mut done, &mut self.conns);
        evs
    }

    /// Forget `id`'s record entirely; late completions for it will find no
    /// record and be discarded.
    pub fn close_connection(&mut self, id: ConnectionId)
        ensures
            match spec_find_conn(old(self).conns@, id) {
                Some(i) => 0 <= i < old(self).conns@.len() && final(self).conns@ == old(
                    self,
                ).conns@.remove(i),
                None => final(self).conns@ == old(self).conns@,
            },
    {
        match self.find(id) {
            Some(k) => {
                self.conns.remove(k);
            },
            None => {},
        }
    }

    /// Forget every record.
    pub fn close_all(&mut self)
        ensures
            final(self).conns@ == Seq::<Connection>::empty(),
    {
        self.conns.clear();
    }
}

/// Law: in the events one poll yields, a connection's data is never
/// surfaced before its open signal. Every incoming-data event belongs to a
/// connection whose open was surfaced in an earlier poll (`open_delivered`
/// going in — and `poll` is the only place that sets that flag, exactly
/// when it emits the open event), or is preceded in this same poll's events
/// by that connection's open event. With records created fresh
/// (`open_delivered` false) this gives: open first, data after, always.
pub proof fn lemma_open_before_incoming(conns: Seq<Connection>)
    ensures
        forall|i: int|
            0 <= i < spec_poll_events(conns).len() ==> match #[trigger] spec_poll_events(
                conns,
            )[i] {
                TransportEvent::IncomingData { id, .. } => (exists|k: int|
                    0 <= k < conns.len() && conns[k].id == id && conns[k].open_delivered) || (
                exists|j: int|
                    0 <= j < i && spec_poll_events(conns)[j] == TransportEvent::ConnectionOpen(
                        id,
                    )),
                _ => true,
            },
    decreases conns.len(),
{
    if conns.len() > 0 {
        let c0 = conns[0];
        let chunk = spec_conn_chunk(c0);
        let rest = spec_poll_events(conns.drop_first());
        let evs = spec_poll_events(conns);
        assert(evs == chunk + rest);
        lemma_open_before_incoming(conns.drop_first());
        let a: int = if c0.pending_open {
            1
        } else {
            0
        };
        let b: int = if c0.pending_closed {
            1
        } else {
            0
        };
        let msgs = (if c0.open_delivered || c0.pending_open {
            c0.pending_messages@.map_values(
                |t: String| TransportEvent::IncomingData { id: c0.id, text: t },
            )
        } else {
            Seq::<TransportEvent>::empty()
        });
        assert forall|i: int| 0 <= i < evs.len() implies match #[trigger] evs[i] {
            TransportEvent::IncomingData { id, .. } => (exists|k: int|
                0 <= k < conns.len() && conns[k].id == id && conns[k].open_delivered) || (
            exists|j: int|
                0 <= j < i && evs[j] == TransportEvent::ConnectionOpen(id)),
            _ => true,
        } by {
            if i < chunk.len() {
                assert(evs[i] == chunk[i]);
                match evs[i] {
                    TransportEvent::IncomingData { id, .. } => {
                        // only the message segment holds incoming data, so the
                        // chunk's connection was open (already delivered, or
                        // its open event sits at the chunk's start)
                        assert(a + b <= i < a + b + msgs.len());
                        assert(evs[i] == msgs[i - a - b]);
                        assert(id == c0.id);
                        assert(c0.open_delivered || c0.pending_open);
                        if c0.open_delivered {
                            assert(conns[0].id == id && conns[0].open_delivered);
                        } else {
                            assert(chunk[0] == TransportEvent::ConnectionOpen(c0.id));
                            assert(evs[0] == TransportEvent::ConnectionOpen(id));
                            assert(0 < i);
                        }
                    },
                    _ => {},
                }
            } else {
                let i2 = i - chunk.len();
                assert(evs[i] == rest[i2]);
                match rest[i2] {
                    TransportEvent::IncomingData { id, .. } => {
                        if exists|k: int|
                            0 <= k < conns.drop_first().len() && conns.drop_first()[k].id == id
                                && conns.drop_first()[k].open_delivered {
                            let k0 = choose|k: int|
                                0 <= k < conns.drop_first().len() && conns.drop_first()[k].id
                                    == id && conns.drop_first()[k].open_delivered;
                            assert(conns[k0 + 1].id == id && conns[k0 + 1].open_delivered);
                        } else {
                            let j0 = choose|j: int|
                                0 <= j < i2 && rest[j] == TransportEvent::ConnectionOpen(id);
                            assert(evs[chunk.len() + j0] == TransportEvent::ConnectionOpen(id));
                            assert(0 <= chunk.len() + j0 < i);
                        }
                    },
                    _ => {},
                }
            }
        }
    }
}

} // verus!
