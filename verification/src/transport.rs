//! The document-store + peer-connection transport: glues the signaling
//! state machine and the connection manager into the transport contract the
//! session layer programs against — create/join/exit lobby, sends, kick,
//! and a per-tick poll.
//!
//! Every outward effect is a command the runtime performs (an HTTP call or
//! an operation on a real peer connection); every inward fact arrives as a
//! connection event or a fetch result. What happens in between is decided,
//! and verified, here.

use vstd::prelude::*;

use crate::connection::{
    spec_find_conn, spec_poll_events, Connection, ConnectionManager, TransportEvent,
};
use crate::ids::{ConnectionId, ExitReason};
use crate::signaling::{
    spec_answer_step, spec_apply_offers, spec_join_offer_step, spec_listed, spec_mapping_lookup,
    ConnectionIdAllocator, FetchResult, JoinOfferStep, SignalingAction, SignalingState,
    NOT_FOUND_BACKOFF_MS,
};

verus! {

/// Configuration of the shared document store.
pub struct FirestoreConfig {
    pub project_id: String,
}

impl FirestoreConfig {
    /// The default relay project.
    pub fn new() -> (r: Self)
        ensures
            r.project_id@ == "p2p-relay"@,
    {
        FirestoreConfig { project_id: String::from_str("p2p-relay") }
    }
}

impl Default for FirestoreConfig {
    /// The default relay project.
    fn default() -> (r: Self)
        ensures
            r.project_id@ == "p2p-relay"@,
    {
        FirestoreConfig::new()
    }
}

/// A normalized transport-level event handed up to the session layer.
#[derive(Debug)]
pub enum TransportUpstream {
    LobbyCreated { code: String },
    LobbyJoined { code: String },
    LobbyEntered { code: String },
    LobbyExit { reason: ExitReason },
    RosterChanged { connected: Vec<u64> },
    IncomingFromClient { client_id: u64, text: String },
    IncomingFromHost { text: String },
}

/// Mathematical view of an upstream event: its lists and text as sequences.
pub enum TransportUpstreamView {
    LobbyCreated { code: Seq<char> },
    LobbyJoined { code: Seq<char> },
    LobbyEntered { code: Seq<char> },
    LobbyExit { reason: ExitReason },
    RosterChanged { connected: Seq<u64> },
    IncomingFromClient { client_id: u64, text: Seq<char> },
    IncomingFromHost { text: Seq<char> },
}

impl View for TransportUpstream {
    type V = TransportUpstreamView;

    open spec fn view(&self) -> TransportUpstreamView {
        match self {
            TransportUpstream::LobbyCreated { code } => TransportUpstreamView::LobbyCreated {
                code: code@,
            },
            TransportUpstream::LobbyJoined { code } => TransportUpstreamView::LobbyJoined {
                code: code@,
            },
            TransportUpstream::LobbyEntered { code } => TransportUpstreamView::LobbyEntered {
                code: code@,
            },
            TransportUpstream::LobbyExit { reason } => TransportUpstreamView::LobbyExit {
                reason: *reason,
            },
            TransportUpstream::RosterChanged { connected } => {
                TransportUpstreamView::RosterChanged { connected: connected@ }
            },
            TransportUpstream::IncomingFromClient { client_id, text } => {
                TransportUpstreamView::IncomingFromClient { client_id: *client_id, text: text@ }
            },
            TransportUpstream::IncomingFromHost { text } => {
                TransportUpstreamView::IncomingFromHost { text: text@ }
            },
        }
    }
}

/// The signaling bookkeeping one tick's connection events run through, and
/// the commands and upstream events they produce, as one record.
#[verifier::ext_equal]
pub struct TickState {
    pub is_host: bool,
    pub room_code: Seq<char>,
    pub client_id: Option<u64>,
    pub emitted_join: bool,
    pub mapping: Seq<(u64, u64)>,
    pub answered: Seq<u64>,
    pub joined: Seq<u64>,
    pub offer_conn: Option<ConnectionId>,
    pub commands: Seq<SignalingAction>,
    pub upstream: Seq<TransportUpstreamView>,
}

/// The bookkeeping as a tick finds it, with nothing produced yet.
pub open spec fn spec_tick_init(t: FirestoreWebRtcTransport) -> TickState {
    TickState {
        is_host: t.sig.is_host,
        room_code: t.sig.room_code@,
        client_id: t.sig.client_id,
        emitted_join: t.sig.client_emitted_join,
        mapping: t.sig.host_connection_to_client_id@,
        answered: t.sig.answered_clients@,
        joined: t.sig.joined_clients@,
        offer_conn: t.sig.offer_conn,
        commands: Seq::<SignalingAction>::empty(),
        upstream: Seq::<TransportUpstreamView>::empty(),
    }
}

/// What one connection event does, by the per-event handlers' rules: a
/// ready local description is published by role; an open makes the
/// attributed client a member (host) or surfaces joined and entered once
/// (client); a close prunes the attributed client's books (host) or ends
/// the lobby (client); a frame is attributed (host) or taken as the host's
/// (client).
pub open spec fn spec_tick_step(st: TickState, ev: TransportEvent) -> TickState {
    match ev {
        TransportEvent::LocalSdpReady { id, sdp } => TickState {
            offer_conn: if !st.is_host && st.offer_conn is None {
                Some(id)
            } else {
                st.offer_conn
            },
            commands: st.commands + (if st.room_code.len() > 0 && !st.is_host && st.client_id
                is Some {
                seq![
                    SignalingAction::PublishOffer { client_id: st.client_id->0, sdp },
                ]
            } else if st.is_host && spec_mapping_lookup(st.mapping, id.0) is Some {
                seq![
                    SignalingAction::PublishAnswer {
                        client_id: spec_mapping_lookup(st.mapping, id.0)->0,
                        sdp,
                    },
                ]
            } else {
                Seq::<SignalingAction>::empty()
            }),
            ..st
        },
        TransportEvent::ConnectionOpen(id) => if st.is_host {
            match spec_mapping_lookup(st.mapping, id.0) {
                Some(cid) => {
                    let joined2 = if spec_listed(st.joined, cid) {
                        st.joined
                    } else {
                        st.joined.push(cid)
                    };
                    TickState {
                        joined: joined2,
                        upstream: st.upstream + seq![
                            TransportUpstreamView::RosterChanged { connected: joined2 },
                        ],
                        ..st
                    }
                },
                None => st,
            }
        } else if !st.emitted_join {
            TickState {
                emitted_join: true,
                upstream: st.upstream + seq![
                    TransportUpstreamView::LobbyJoined { code: st.room_code },
                    TransportUpstreamView::LobbyEntered { code: st.room_code },
                ],
                ..st
            }
        } else {
            st
        },
        TransportEvent::ConnectionClosed(id) => if st.is_host {
            match spec_mapping_lookup(st.mapping, id.0) {
                Some(cid) => {
                    let joined2 = spec_remove_all(st.joined, cid);
                    TickState {
                        mapping: spec_remove_by_conn(st.mapping, id.0),
                        answered: spec_remove_all(st.answered, cid),
                        joined: joined2,
                        upstream: st.upstream + seq![
                            TransportUpstreamView::RosterChanged { connected: joined2 },
                        ],
                        ..st
                    }
                },
                None => st,
            }
        } else {
            TickState {
                upstream: st.upstream + seq![
                    TransportUpstreamView::LobbyExit { reason: ExitReason::Disconnected },
                ],
                ..st
            }
        },
        TransportEvent::IncomingData { id, text } => if st.is_host {
            match spec_mapping_lookup(st.mapping, id.0) {
                Some(cid) => TickState {
                    upstream: st.upstream + seq![
                        TransportUpstreamView::IncomingFromClient { client_id: cid, text: text@ },
                    ],
                    ..st
                },
                None => st,
            }
        } else {
            TickState {
                upstream: st.upstream + seq![
                    TransportUpstreamView::IncomingFromHost { text: text@ },
                ],
                ..st
            }
        },
    }
}

/// A whole run of connection events, in order.
pub open spec fn spec_tick_run(st: TickState, evs: Seq<TransportEvent>) -> TickState
    decreases evs.len(),
{
    if evs.len() == 0 {
        st
    } else {
        spec_tick_run(spec_tick_step(st, evs[0]), evs.drop_first())
    }
}

/// Sends to every currently sendable connection, in order.
pub open spec fn spec_send_all(ids: Seq<ConnectionId>, text: String) -> Seq<SignalingAction> {
    ids.map_values(|id: ConnectionId| SignalingAction::SendData { id, text })
}

/// The connections whose channel is open, in order.
pub open spec fn spec_open_ids(conns: Seq<Connection>) -> Seq<ConnectionId>
    decreases conns.len(),
{
    if conns.len() == 0 {
        Seq::<ConnectionId>::empty()
    } else if conns[0].channel_open {
        seq![conns[0].id] + spec_open_ids(conns.drop_first())
    } else {
        spec_open_ids(conns.drop_first())
    }
}

/// One more connection appends its id when open.
proof fn lemma_open_ids_push(conns: Seq<Connection>, c: Connection)
    ensures
        spec_open_ids(conns.push(c)) == spec_open_ids(conns) + (if c.channel_open {
            seq![c.id]
        } else {
            Seq::<ConnectionId>::empty()
        }),
    decreases conns.len(),
{
    if conns.len() == 0 {
        reveal_with_fuel(spec_open_ids, 3);
        assert(conns.push(c)[0] == c);
        assert(conns.push(c).drop_first() =~= Seq::<Connection>::empty());
        assert(spec_open_ids(conns.push(c)) =~= spec_open_ids(conns) + (if c.channel_open {
            seq![c.id]
        } else {
            Seq::<ConnectionId>::empty()
        }));
    } else {
        assert(conns.push(c)[0] == conns[0]);
        assert(conns.push(c).drop_first() =~= conns.drop_first().push(c));
        lemma_open_ids_push(conns.drop_first(), c);
        assert(spec_open_ids(conns.push(c)) =~= spec_open_ids(conns) + (if c.channel_open {
            seq![c.id]
        } else {
            Seq::<ConnectionId>::empty()
        }));
    }
}

/// The sends a host-side relay produces: one per attributed connection
/// whose client is not the sender, in attribution order.
pub open spec fn spec_relay_except(
    mapping: Seq<(u64, u64)>,
    sender: u64,
    text: String,
) -> Seq<SignalingAction>
    decreases mapping.len(),
{
    if mapping.len() == 0 {
        Seq::<SignalingAction>::empty()
    } else if mapping[0].1 != sender {
        seq![
            SignalingAction::SendData { id: ConnectionId(mapping[0].0), text },
        ] + spec_relay_except(mapping.drop_first(), sender, text)
    } else {
        spec_relay_except(mapping.drop_first(), sender, text)
    }
}

/// One more attribution appends its send when its client is not the sender.
proof fn lemma_relay_except_push(mapping: Seq<(u64, u64)>, e: (u64, u64), sender: u64, text: String)
    ensures
        spec_relay_except(mapping.push(e), sender, text) == spec_relay_except(
            mapping,
            sender,
            text,
        ) + (if e.1 != sender {
            seq![SignalingAction::SendData { id: ConnectionId(e.0), text }]
        } else {
            Seq::<SignalingAction>::empty()
        }),
    decreases mapping.len(),
{
    let tail = (if e.1 != sender {
        seq![SignalingAction::SendData { id: ConnectionId(e.0), text }]
    } else {
        Seq::<SignalingAction>::empty()
    });
    if mapping.len() == 0 {
        reveal_with_fuel(spec_relay_except, 3);
        assert(mapping.push(e)[0] == e);
        assert(mapping.push(e).drop_first() =~= Seq::<(u64, u64)>::empty());
        assert(spec_relay_except(mapping.push(e), sender, text) =~= spec_relay_except(
            mapping,
            sender,
            text,
        ) + tail);
    } else {
        assert(mapping.push(e)[0] == mapping[0]);
        assert(mapping.push(e).drop_first() =~= mapping.drop_first().push(e));
        lemma_relay_except_push(mapping.drop_first(), e, sender, text);
        assert(spec_relay_except(mapping.push(e), sender, text) =~= spec_relay_except(
            mapping,
            sender,
            text,
        ) + tail);
    }
}

/// The transport over a polled room document and browser peer connections.
pub struct FirestoreWebRtcTransport {
    pub sig: SignalingState,
    pub alloc: ConnectionIdAllocator,
    pub conns: ConnectionManager,
}

impl FirestoreWebRtcTransport {
    /// A fresh transport: no room, no connections, no ids handed out.
    pub fn new() -> (r: Self)
        ensures
            r.sig.is_reset(),
            r.alloc.0 == 0,
            r.conns.conns@ == Seq::<Connection>::empty(),
    {
        FirestoreWebRtcTransport {
            sig: SignalingState::new(),
            alloc: ConnectionIdAllocator::new(),
            conns: ConnectionManager::new(),
        }
    }

    /// Create a lobby from a seed of entropy: become the host of a fresh
    /// room code, ask the runtime to write the room into existence, and
    /// surface created and entered at once — the host has no join phase.
    pub fn create_lobby(
        &mut self,
        seed: u64,
        commands: &mut Vec<SignalingAction>,
        upstream: &mut Vec<TransportUpstream>,
    ) -> (code: String)
        ensures
            code@ == crate::signaling::spec_room_code(seed),
            final(self).sig.room_code == code,
            final(self).sig.is_host,
            final(self).sig.answered_clients@ == Seq::<u64>::empty(),
            !final(self).sig.room_exists,
            final(self).alloc == old(self).alloc,
            final(self).conns == old(self).conns,
            final(commands)@ == old(commands)@.push(SignalingAction::CreateRoom),
            final(upstream)@ == old(upstream)@.push(
                TransportUpstream::LobbyCreated { code },
            ).push(TransportUpstream::LobbyEntered { code }),
    {
        let code = crate::signaling::room_code_from_seed(seed);
        self.sig.on_create_request(code.clone());
        commands.push(SignalingAction::CreateRoom);
        upstream.push(TransportUpstream::LobbyCreated { code: code.clone() });
        upstream.push(TransportUpstream::LobbyEntered { code: code.clone() });
        code
    }

    /// Join the lobby `code` as a client under an id derived from a seed of
    /// entropy; nothing is surfaced until the data channel actually opens.
    pub fn join_lobby(&mut self, code: String, id_seed: u64)
        ensures
            final(self).sig.room_code == code,
            !final(self).sig.is_host,
            final(self).sig.client_id == Some(
                (id_seed % crate::signaling::CLIENT_ID_SPACE) as u64,
            ),
            !final(self).sig.client_answer_applied,
            final(self).sig.client_join_pending,
            final(self).alloc == old(self).alloc,
            final(self).conns == old(self).conns,
    {
        let client_id = crate::signaling::client_id_from_seed(id_seed);
        self.sig.on_join_request(code, client_id);
    }

    /// Leave the lobby: close every peer connection, forget every record,
    /// and reset the signaling state so nothing leaks into a later session.
    pub fn exit_lobby(&mut self, commands: &mut Vec<SignalingAction>)
        ensures
            final(self).sig.is_reset(),
            final(self).conns.conns@ == Seq::<Connection>::empty(),
            final(self).alloc == old(self).alloc,
            final(commands)@ == old(commands)@.push(SignalingAction::CloseAllConnections),
    {
        commands.push(SignalingAction::CloseAllConnections);
        self.conns.close_all();
        self.sig.reset();
    }

    /// Best-effort send to the host: a client holds exactly one connection,
    /// so the send goes there — and only while its channel is open.
    pub fn send_to_host(&mut self, text: String, commands: &mut Vec<SignalingAction>)
        ensures
            *final(self) == *old(self),
            ({
                let conns = old(self).conns.conns@;
                if conns.len() == 1 && conns[0].channel_open {
                    final(commands)@ == old(commands)@.push(
                        SignalingAction::SendData { id: conns[0].id, text },
                    )
                } else {
                    final(commands)@ == old(commands)@
                }
            }),
    {
        if self.conns.conns.len() == 1 {
            let id = self.conns.conns[0].id;
            if self.conns.can_send(id) {
                proof {
                    crate::connection::lemma_find_conn_props(self.conns.conns@, id);
                }
                commands.push(SignalingAction::SendData { id, text });
            }
        }
    }

    /// Best-effort send to every peer whose channel is open.
    pub fn send_to_all(&mut self, text: String, commands: &mut Vec<SignalingAction>)
        ensures
            *final(self) == *old(self),
            final(commands)@ == old(commands)@ + spec_send_all(
                spec_open_ids(old(self).conns.conns@),
                text,
            ),
    {
        let ghost conns0 = self.conns.conns@;
        let ghost start = commands@;
        let mut k: usize = 0;
        proof {
            assert(conns0.take(0) =~= Seq::<Connection>::empty());
            assert(start + spec_send_all(spec_open_ids(conns0.take(0)), text) =~= start);
        }
        while k < self.conns.conns.len()
            invariant
                k <= conns0.len(),
                self.conns.conns@ == conns0,
                *self == *old(self),
                commands@ == start + spec_send_all(spec_open_ids(conns0.take(k as int)), text),
            decreases conns0.len() - k,
        {
            let c_open = self.conns.conns[k].channel_open;
            let id = self.conns.conns[k].id;
            proof {
                assert(conns0.take(k + 1) =~= conns0.take(k as int).push(conns0[k as int]));
                lemma_open_ids_push(conns0.take(k as int), conns0[k as int]);
            }
            if c_open {
                commands.push(SignalingAction::SendData { id, text: text.clone() });
            }
            proof {
                assert(commands@ =~= start + spec_send_all(
                    spec_open_ids(conns0.take(k + 1)),
                    text,
                ));
            }
            k = k + 1;
        }
        proof {
            assert(conns0.take(conns0.len() as int) =~= conns0);
        }
    }

    /// Best-effort send to one client, by the host: routed through the
    /// connection attributed to that client, while its channel is open.
    pub fn send_to_client(&mut self, client_id: u64, text: String, commands: &mut Vec<SignalingAction>)
        ensures
            *final(self) == *old(self),
            ({
                let target = spec_conn_of_client(
                    old(self).sig.host_connection_to_client_id@,
                    client_id,
                );
                if old(self).sig.is_host {
                    match target {
                        Some(conn_raw) => {
                            let id = ConnectionId(conn_raw);
                            if spec_can_send(old(self).conns.conns@, id) {
                                final(commands)@ == old(commands)@.push(
                                    SignalingAction::SendData { id, text },
                                )
                            } else {
                                final(commands)@ == old(commands)@
                            }
                        },
                        None => final(commands)@ == old(commands)@,
                    }
                } else {
                    final(commands)@ == old(commands)@
                }
            }),
    {
        if !self.sig.is_host {
            return ;
        }
        match conn_of_client(&self.sig.host_connection_to_client_id, client_id) {
            Some(conn_raw) => {
                let id = ConnectionId(conn_raw);
                if self.conns.can_send(id) {
                    commands.push(SignalingAction::SendData { id, text });
                }
            },
            None => {},
        }
    }

    /// Relay a frame to every client but its sender, by the host, one send
    /// per attributed connection.
    pub fn relay_to_all_except(
        &mut self,
        sender: u64,
        text: String,
        commands: &mut Vec<SignalingAction>,
    )
        ensures
            *final(self) == *old(self),
            old(self).sig.is_host ==> final(commands)@ == old(commands)@ + spec_relay_except(
                old(self).sig.host_connection_to_client_id@,
                sender,
                text,
            ),
            !old(self).sig.is_host ==> final(commands)@ == old(commands)@,
    {
        if !self.sig.is_host {
            return ;
        }
        let ghost mapping0 = self.sig.host_connection_to_client_id@;
        let ghost start = commands@;
        let mut k: usize = 0;
        proof {
            assert(mapping0.take(0) =~= Seq::<(u64, u64)>::empty());
            assert(start + spec_relay_except(mapping0.take(0), sender, text) =~= start);
        }
        while k < self.sig.host_connection_to_client_id.len()
            invariant
                k <= mapping0.len(),
                self.sig.host_connection_to_client_id@ == mapping0,
                *self == *old(self),
                commands@ == start + spec_relay_except(mapping0.take(k as int), sender, text),
            decreases mapping0.len() - k,
        {
            let entry = (
                self.sig.host_connection_to_client_id[k].0,
                self.sig.host_connection_to_client_id[k].1,
            );
            proof {
                assert(mapping0.take(k + 1) =~= mapping0.take(k as int).push(
                    mapping0[k as int],
                ));
                lemma_relay_except_push(mapping0.take(k as int), mapping0[k as int], sender, text);
            }
            if entry.1 != sender {
                commands.push(
                    SignalingAction::SendData { id: ConnectionId(entry.0), text: text.clone() },
                );
            }
            proof {
                assert(commands@ =~= start + spec_relay_except(
                    mapping0.take(k + 1),
                    sender,
                    text,
                ));
            }
            k = k + 1;
        }
        proof {
            assert(mapping0.take(mapping0.len() as int) =~= mapping0);
        }
    }
}

/// Copy a list of ids.
fn clone_ids(xs: &Vec<u64>) -> (r: Vec<u64>)
    ensures
        r@ == xs@,
{
    let mut r: Vec<u64> = Vec::new();
    let mut k: usize = 0;
    while k < xs.len()
        invariant
            k <= xs@.len(),
            r@ == xs@.take(k as int),
        decreases xs@.len() - k,
    {
        r.push(xs[k]);
        proof {
            assert(xs@.take(k + 1) =~= xs@.take(k as int).push(xs@[k as int]));
        }
        k = k + 1;
    }
    proof {
        assert(xs@.take(xs@.len() as int) =~= xs@);
    }
    r
}

impl FirestoreWebRtcTransport {
    /// Kick one client, by the host: close the connection attributed to it,
    /// forget its attribution and membership, and report the shrunken
    /// connected set. From the kicked side this looks like any disconnect.
    pub fn kick(
        &mut self,
        client_id: u64,
        commands: &mut Vec<SignalingAction>,
        upstream: &mut Vec<TransportUpstream>,
    )
        ensures
            !old(self).sig.is_host ==> *final(self) == *old(self) && final(commands)@ == old(commands)@ && final(upstream)@ == old(upstream)@,
            old(self).sig.is_host ==> match spec_conn_of_client(
                old(self).sig.host_connection_to_client_id@,
                client_id,
            ) {
                Some(conn_raw) => {
                    &&& final(commands)@ == old(commands)@.push(
                        SignalingAction::CloseConnection { id: ConnectionId(conn_raw) },
                    )
                    &&& !spec_listed(final(self).sig.joined_clients@, client_id)
                    &&& spec_conn_of_client(
                        final(self).sig.host_connection_to_client_id@,
                        client_id,
                    ) is None
                    &&& final(self).conns.conns@ == (match spec_find_conn(
                        old(self).conns.conns@,
                        ConnectionId(conn_raw),
                    ) {
                        Some(i) => old(self).conns.conns@.remove(i),
                        None => old(self).conns.conns@,
                    })
                    &&& final(upstream)@.len() == old(upstream)@.len() + 1
                    &&& final(upstream)@.subrange(0, old(upstream)@.len() as int) == old(upstream)@
                    &&& (final(upstream)@.last() matches TransportUpstream::RosterChanged {
                        connected,
                    } && connected@ == final(self).sig.joined_clients@)
                },
                None => *final(self) == *old(self) && final(commands)@ == old(commands)@ && final(upstream)@ == old(upstream)@,
            },
    {
        if !self.sig.is_host {
            return ;
        }
        match conn_of_client(&self.sig.host_connection_to_client_id, client_id) {
            Some(conn_raw) => {
                let id = ConnectionId(conn_raw);
                commands.push(SignalingAction::CloseConnection { id });
                self.conns.close_connection(id);
                remove_mapping_by_client(&mut self.sig.host_connection_to_client_id, client_id);
                remove_all(&mut self.sig.answered_clients, client_id);
                remove_all(&mut self.sig.joined_clients, client_id);
                let connected = clone_ids(&self.sig.joined_clients);
                upstream.push(TransportUpstream::RosterChanged { connected });
                proof {
                    assert(final(upstream)@.subrange(0, old(upstream)@.len() as int) =~= old(upstream)@);
                }
            },
            None => {},
        }
    }

    /// A data channel opened. On the host, the attributed client becomes a
    /// member of the connected set, which is reported anew; on a client the
    /// lobby is joined and entered, surfaced exactly once.
    pub fn on_connection_open(&mut self, id: ConnectionId, upstream: &mut Vec<TransportUpstream>)
        ensures
            final(self).alloc == old(self).alloc,
            final(self).conns == old(self).conns,
            final(self).sig.is_host == old(self).sig.is_host,
            final(self).sig.room_code == old(self).sig.room_code,
            final(self).sig.client_id == old(self).sig.client_id,
            final(self).sig.client_answer_applied == old(self).sig.client_answer_applied,
            final(self).sig.client_join_pending == old(self).sig.client_join_pending,
            final(self).sig.offer_conn == old(self).sig.offer_conn,
            final(self).sig.answered_clients == old(self).sig.answered_clients,
            final(self).sig.host_connection_to_client_id == old(
                self,
            ).sig.host_connection_to_client_id,
            final(self).sig.in_flight == old(self).sig.in_flight,
            final(self).sig.next_allowed_fetch_at_ms == old(self).sig.next_allowed_fetch_at_ms,
            final(self).sig.not_found_logged == old(self).sig.not_found_logged,
            final(self).sig.room_exists == old(self).sig.room_exists,
            old(self).sig.is_host ==> final(self).sig.client_emitted_join == old(
                self,
            ).sig.client_emitted_join,
            old(self).sig.is_host ==> match spec_mapping_lookup(
                old(self).sig.host_connection_to_client_id@,
                id.0,
            ) {
                Some(cid) => {
                    &&& final(self).sig.joined_clients@ == (if spec_listed(
                        old(self).sig.joined_clients@,
                        cid,
                    ) {
                        old(self).sig.joined_clients@
                    } else {
                        old(self).sig.joined_clients@.push(cid)
                    })
                    &&& spec_listed(final(self).sig.joined_clients@, cid)
                    &&& final(upstream)@.len() == old(upstream)@.len() + 1
                    &&& final(upstream)@.subrange(0, old(upstream)@.len() as int) == old(upstream)@
                    &&& (final(upstream)@.last() matches TransportUpstream::RosterChanged {
                        connected,
                    } && connected@ == final(self).sig.joined_clients@)
                },
                None => *final(self) == *old(self) && final(upstream)@ == old(upstream)@,
            },
            !old(self).sig.is_host ==> final(self).sig.joined_clients == old(
                self,
            ).sig.joined_clients,
            !old(self).sig.is_host ==> {
                &&& (!old(self).sig.client_emitted_join ==> final(self).sig.client_emitted_join
                    && final(upstream)@ == old(upstream)@.push(
                    TransportUpstream::LobbyJoined { code: old(self).sig.room_code },
                ).push(TransportUpstream::LobbyEntered { code: old(self).sig.room_code }))
                &&& (old(self).sig.client_emitted_join ==> *final(self) == *old(self) && final(upstream)@ == old(upstream)@)
            },
    {
        if self.sig.is_host {
            match crate::signaling::mapping_lookup(&self.sig.host_connection_to_client_id, id.0) {
                Some(cid) => {
                    if !crate::signaling::listed(&self.sig.joined_clients, cid) {
                        self.sig.joined_clients.push(cid);
                        proof {
                            assert(self.sig.joined_clients@.last() == cid);
                        }
                    }
                    let connected = clone_ids(&self.sig.joined_clients);
                    upstream.push(TransportUpstream::RosterChanged { connected });
                    proof {
                        assert(final(upstream)@.subrange(0, old(upstream)@.len() as int) =~= old(upstream)@);
                    }
                },
                None => {},
            }
        } else if !self.sig.client_emitted_join {
            let code = self.sig.room_code.clone();
            upstream.push(TransportUpstream::LobbyJoined { code: code.clone() });
            upstream.push(TransportUpstream::LobbyEntered { code });
            self.sig.client_emitted_join = true;
        }
    }

    /// A channel or peer connection closed: its record is forgotten, so no
    /// later send targets the dead channel. The host prunes the attributed
    /// client from its books and reports the shrunken connected set; a
    /// client treats the close as the end of the lobby.
    pub fn on_connection_closed(&mut self, id: ConnectionId, upstream: &mut Vec<TransportUpstream>)
        ensures
            final(self).alloc == old(self).alloc,
            match spec_find_conn(old(self).conns.conns@, id) {
                Some(i) => 0 <= i < old(self).conns.conns@.len() && final(self).conns.conns@
                    == old(self).conns.conns@.remove(i),
                None => final(self).conns.conns@ == old(self).conns.conns@,
            },
            final(self).sig.is_host == old(self).sig.is_host,
            final(self).sig.room_code == old(self).sig.room_code,
            final(self).sig.client_id == old(self).sig.client_id,
            final(self).sig.client_answer_applied == old(self).sig.client_answer_applied,
            final(self).sig.client_join_pending == old(self).sig.client_join_pending,
            final(self).sig.client_emitted_join == old(self).sig.client_emitted_join,
            final(self).sig.offer_conn == old(self).sig.offer_conn,
            final(self).sig.in_flight == old(self).sig.in_flight,
            final(self).sig.next_allowed_fetch_at_ms == old(self).sig.next_allowed_fetch_at_ms,
            final(self).sig.not_found_logged == old(self).sig.not_found_logged,
            final(self).sig.room_exists == old(self).sig.room_exists,
            old(self).sig.is_host ==> match spec_mapping_lookup(
                old(self).sig.host_connection_to_client_id@,
                id.0,
            ) {
                Some(cid) => {
                    &&& final(self).sig.host_connection_to_client_id@ == spec_remove_by_conn(
                        old(self).sig.host_connection_to_client_id@,
                        id.0,
                    )
                    &&& final(self).sig.answered_clients@ == spec_remove_all(
                        old(self).sig.answered_clients@,
                        cid,
                    )
                    &&& final(self).sig.joined_clients@ == spec_remove_all(
                        old(self).sig.joined_clients@,
                        cid,
                    )
                    &&& !spec_listed(final(self).sig.joined_clients@, cid)
                    &&& final(upstream)@.len() == old(upstream)@.len() + 1
                    &&& final(upstream)@.subrange(0, old(upstream)@.len() as int) == old(upstream)@
                    &&& (final(upstream)@.last() matches TransportUpstream::RosterChanged {
                        connected,
                    } && connected@ == final(self).sig.joined_clients@)
                },
                None => final(self).sig == old(self).sig && final(upstream)@ == old(upstream)@,
            },
            !old(self).sig.is_host ==> final(self).sig == old(self).sig && final(upstream)@
                == old(upstream)@.push(
                TransportUpstream::LobbyExit { reason: ExitReason::Disconnected },
            ),
    {
        self.conns.close_connection(id);
        if self.sig.is_host {
            match crate::signaling::mapping_lookup(&self.sig.host_connection_to_client_id, id.0) {
                Some(cid) => {
                    remove_mapping_by_conn(&mut self.sig.host_connection_to_client_id, id.0);
                    remove_all(&mut self.sig.answered_clients, cid);
                    remove_all(&mut self.sig.joined_clients, cid);
                    let connected = clone_ids(&self.sig.joined_clients);
                    upstream.push(TransportUpstream::RosterChanged { connected });
                    proof {
                        assert(final(upstream)@.subrange(0, old(upstream)@.len() as int) =~= old(upstream)@);
                        lemma_remove_all_absent(old(self).sig.joined_clients@, cid);
                    }
                },
                None => {},
            }
        } else {
            upstream.push(TransportUpstream::LobbyExit { reason: ExitReason::Disconnected });
        }
    }

    /// A text frame arrived on `id`. The host attributes it to the mapped
    /// client — a frame on an unattributed connection is dropped — and a
    /// client takes every frame as coming from the host.
    pub fn on_incoming_data(
        &mut self,
        id: ConnectionId,
        text: String,
        upstream: &mut Vec<TransportUpstream>,
    )
        ensures
            *final(self) == *old(self),
            old(self).sig.is_host ==> match spec_mapping_lookup(
                old(self).sig.host_connection_to_client_id@,
                id.0,
            ) {
                Some(cid) => final(upstream)@ == old(upstream)@.push(
                    TransportUpstream::IncomingFromClient { client_id: cid, text },
                ),
                None => final(upstream)@ == old(upstream)@,
            },
            !old(self).sig.is_host ==> final(upstream)@ == old(upstream)@.push(
                TransportUpstream::IncomingFromHost { text },
            ),
    {
        if self.sig.is_host {
            match crate::signaling::mapping_lookup(&self.sig.host_connection_to_client_id, id.0) {
                Some(cid) => {
                    upstream.push(
                        TransportUpstream::IncomingFromClient { client_id: cid, text },
                    );
                },
                None => {},
            }
        } else {
            upstream.push(TransportUpstream::IncomingFromHost { text });
        }
    }

    /// One tick of the transport: drain the connection buffers into their
    /// handlers in arrival order, take in the completed fetch if one came
    /// back, and decide whether to start the next fetch. The single-fetch
    /// discipline holds: a fetch starts only with the slot free — the
    /// previous fetch completed or none was outstanding — no earlier than
    /// the backoff allows, and on the host never before its room exists.
    pub fn poll_transport(
        &mut self,
        now_ms: u64,
        fetch_result: Option<FetchResult>,
        commands: &mut Vec<SignalingAction>,
        upstream: &mut Vec<TransportUpstream>,
    ) -> (started_fetch: bool)
        ensures
            ({
                let run = spec_tick_run(
                    spec_tick_init(*old(self)),
                    spec_poll_events(old(self).conns.conns@),
                );
                let in1 = if fetch_result is Some {
                    false
                } else {
                    old(self).sig.in_flight
                };
                let na1 = (match fetch_result {
                    Some(FetchResult::NotFound) => if old(self).sig.next_allowed_fetch_at_ms
                        < now_ms + NOT_FOUND_BACKOFF_MS {
                        if now_ms <= u64::MAX - NOT_FOUND_BACKOFF_MS {
                            (now_ms + NOT_FOUND_BACKOFF_MS) as u64
                        } else {
                            u64::MAX
                        }
                    } else {
                        old(self).sig.next_allowed_fetch_at_ms
                    },
                    _ => old(self).sig.next_allowed_fetch_at_ms,
                });
                let re1 = (match fetch_result {
                    Some(FetchResult::Created) => true,
                    _ => old(self).sig.room_exists,
                });
                let is_doc = fetch_result matches Some(FetchResult::Doc(_));
                let host_apply = (match fetch_result {
                    Some(FetchResult::Doc(doc)) => spec_apply_offers(
                        run.answered,
                        run.mapping,
                        old(self).alloc.0,
                        Seq::<SignalingAction>::empty(),
                        doc.offers@,
                    ),
                    _ => (
                        run.answered,
                        run.mapping,
                        old(self).alloc.0,
                        Seq::<SignalingAction>::empty(),
                    ),
                });
                let client_a = (match fetch_result {
                    Some(FetchResult::Doc(doc)) => spec_answer_step(
                        old(self).sig.client_answer_applied,
                        old(self).sig.client_id,
                        run.offer_conn,
                        old(self).alloc.0,
                        doc.answers@,
                    ),
                    _ => (
                        old(self).sig.client_answer_applied,
                        old(self).alloc.0,
                        Seq::<SignalingAction>::empty(),
                    ),
                });
                let client_j = (if is_doc {
                    spec_join_offer_step(
                        old(self).sig.client_join_pending,
                        old(self).sig.is_host,
                        run.emitted_join,
                        run.offer_conn,
                        client_a.1,
                    )
                } else {
                    JoinOfferStep {
                        pending: old(self).sig.client_join_pending,
                        emitted: run.emitted_join,
                        offer_conn: run.offer_conn,
                        next: old(self).alloc.0,
                        actions: Seq::<SignalingAction>::empty(),
                    }
                });
                let fetch_acts = (if is_doc {
                    if old(self).sig.is_host {
                        host_apply.3
                    } else {
                        client_a.2 + client_j.actions
                    }
                } else {
                    Seq::<SignalingAction>::empty()
                });
                // the fetch gate, over the state the completed fetch left
                &&& started_fetch == (old(self).sig.room_code@.len() > 0 && !in1 && now_ms
                    >= na1 && (!old(self).sig.is_host || re1))
                // every command this tick produced, in order: the events'
                // commands, then the fetch's, then the fetch request
                &&& final(commands)@ == old(commands)@ + run.commands + fetch_acts + (
                if started_fetch {
                    seq![SignalingAction::StartFetch]
                } else {
                    Seq::<SignalingAction>::empty()
                })
                // every upstream event, in order, as the per-event handlers
                // produce them over the drained buffers
                &&& final(upstream)@.map_values(|u: TransportUpstream| u@) == old(
                    upstream,
                )@.map_values(|u: TransportUpstream| u@) + run.upstream
                // the bookkeeping afterwards: the events' run, then the fetch
                &&& final(self).sig.joined_clients@ == run.joined
                &&& final(self).sig.answered_clients@ == (if is_doc && old(self).sig.is_host {
                    host_apply.0
                } else {
                    run.answered
                })
                &&& final(self).sig.host_connection_to_client_id@ == (if is_doc && old(
                    self,
                ).sig.is_host {
                    host_apply.1
                } else {
                    run.mapping
                })
                &&& final(self).alloc.0 == (if is_doc {
                    if old(self).sig.is_host {
                        host_apply.2
                    } else {
                        client_j.next
                    }
                } else {
                    old(self).alloc.0
                })
                &&& final(self).sig.client_answer_applied == (if is_doc && !old(
                    self,
                ).sig.is_host {
                    client_a.0
                } else {
                    old(self).sig.client_answer_applied
                })
                &&& final(self).sig.client_join_pending == (if is_doc && !old(self).sig.is_host {
                    client_j.pending
                } else {
                    old(self).sig.client_join_pending
                })
                &&& final(self).sig.client_emitted_join == (if is_doc && !old(self).sig.is_host {
                    client_j.emitted
                } else {
                    run.emitted_join
                })
                &&& final(self).sig.offer_conn == (if is_doc && !old(self).sig.is_host {
                    client_j.offer_conn
                } else {
                    run.offer_conn
                })
                &&& final(self).sig.in_flight == (if started_fetch {
                    true
                } else {
                    in1
                })
                &&& final(self).sig.is_host == old(self).sig.is_host
                &&& final(self).sig.room_code == old(self).sig.room_code
                &&& final(self).sig.client_id == old(self).sig.client_id
            }),
            final(self).conns.conns@.len() <= old(self).conns.conns@.len(),
            final(commands)@.subrange(0, old(commands)@.len() as int) == old(commands)@,
            final(upstream)@.subrange(0, old(upstream)@.len() as int) == old(upstream)@,
    {
        let ghost f = |u: TransportUpstream| u@;
        let ghost cb = old(commands)@.len() as int;
        let ghost ub = old(upstream)@.len() as int;
        let events = self.conns.poll();
        let ghost init = spec_tick_init(*old(self));
        let ghost goal = spec_tick_run(init, events@);
        let ghost n0 = self.conns.conns@.len();
        let mut k: usize = 0;
        proof {
            assert(commands@.subrange(cb, commands@.len() as int)
                =~= Seq::<SignalingAction>::empty());
            assert(upstream@.subrange(ub, upstream@.len() as int).map_values(f)
                =~= Seq::<TransportUpstreamView>::empty());
            assert(events@.skip(0) =~= events@);
            assert(commands@.subrange(0, cb) =~= old(commands)@);
            assert(upstream@.subrange(0, ub) =~= old(upstream)@);
        }
        while k < events.len()
            invariant
                k <= events@.len(),
                cb == old(commands)@.len(),
                ub == old(upstream)@.len(),
                f == (|u: TransportUpstream| u@),
                goal == spec_tick_run(init, events@),
                self.conns.conns@.len() <= n0,
                self.sig.in_flight == old(self).sig.in_flight,
                self.sig.next_allowed_fetch_at_ms == old(self).sig.next_allowed_fetch_at_ms,
                self.sig.is_host == old(self).sig.is_host,
                self.sig.room_code == old(self).sig.room_code,
                self.sig.client_id == old(self).sig.client_id,
                self.sig.client_answer_applied == old(self).sig.client_answer_applied,
                self.sig.client_join_pending == old(self).sig.client_join_pending,
                self.sig.not_found_logged == old(self).sig.not_found_logged,
                self.sig.room_exists == old(self).sig.room_exists,
                self.alloc == old(self).alloc,
                commands@.len() >= cb,
                commands@.subrange(0, cb) == old(commands)@,
                upstream@.len() >= ub,
                upstream@.subrange(0, ub) == old(upstream)@,
                spec_tick_run(
                    TickState {
                        is_host: self.sig.is_host,
                        room_code: self.sig.room_code@,
                        client_id: self.sig.client_id,
                        emitted_join: self.sig.client_emitted_join,
                        mapping: self.sig.host_connection_to_client_id@,
                        answered: self.sig.answered_clients@,
                        joined: self.sig.joined_clients@,
                        offer_conn: self.sig.offer_conn,
                        commands: commands@.subrange(cb, commands@.len() as int),
                        upstream: upstream@.subrange(ub, upstream@.len() as int).map_values(f),
                    },
                    events@.skip(k as int),
                ) == goal,
            decreases events@.len() - k,
        {
            let ghost cur = TickState {
                is_host: self.sig.is_host,
                room_code: self.sig.room_code@,
                client_id: self.sig.client_id,
                emitted_join: self.sig.client_emitted_join,
                mapping: self.sig.host_connection_to_client_id@,
                answered: self.sig.answered_clients@,
                joined: self.sig.joined_clients@,
                offer_conn: self.sig.offer_conn,
                commands: commands@.subrange(cb, commands@.len() as int),
                upstream: upstream@.subrange(ub, upstream@.len() as int).map_values(f),
            };
            let ghost ev = events@[k as int];
            let ghost pre_cmds = commands@;
            let ghost pre_up = upstream@;
            proof {
                assert(events@.skip(k as int)[0] == ev);
                assert(events@.skip(k as int).drop_first() =~= events@.skip(k + 1));
            }
            match &events[k] {
                TransportEvent::LocalSdpReady { id, sdp } => {
                    let i = *id;
                    let s = sdp.clone();
                    self.sig.on_local_sdp_ready(i, &s, commands);
                    proof {
                        assert(upstream@.subrange(0, ub) =~= old(upstream)@);
                        assert(commands@.subrange(0, cb) =~= old(commands)@);
                        assert(commands@.subrange(cb, commands@.len() as int)
                            =~= cur.commands + (spec_tick_step(cur, ev).commands.skip(
                            cur.commands.len() as int,
                        )));
                    }
                },
                TransportEvent::ConnectionOpen(id) => {
                    let i = *id;
                    self.on_connection_open(i, upstream);
                    proof {
                        assert(commands@.subrange(0, cb) =~= old(commands)@);
                        assert(upstream@.subrange(0, ub) =~= old(upstream)@);
                        assert(upstream@.subrange(ub, upstream@.len() as int).map_values(f)
                            =~= cur.upstream + (spec_tick_step(cur, ev).upstream.skip(
                            cur.upstream.len() as int,
                        )));
                    }
                },
                TransportEvent::ConnectionClosed(id) => {
                    let i = *id;
                    self.on_connection_closed(i, upstream);
                    proof {
                        assert(commands@.subrange(0, cb) =~= old(commands)@);
                        assert(upstream@.subrange(0, ub) =~= old(upstream)@);
                        assert(upstream@.subrange(ub, upstream@.len() as int).map_values(f)
                            =~= cur.upstream + (spec_tick_step(cur, ev).upstream.skip(
                            cur.upstream.len() as int,
                        )));
                    }
                },
                TransportEvent::IncomingData { id, text } => {
                    let i = *id;
                    let t = text.clone();
                    self.on_incoming_data(i, t, upstream);
                    proof {
                        assert(commands@.subrange(0, cb) =~= old(commands)@);
                        assert(upstream@.subrange(0, ub) =~= old(upstream)@);
                        assert(upstream@.subrange(ub, upstream@.len() as int).map_values(f)
                            =~= cur.upstream + (spec_tick_step(cur, ev).upstream.skip(
                            cur.upstream.len() as int,
                        )));
                    }
                },
            }
            proof {
                let cur2 = TickState {
                    is_host: self.sig.is_host,
                    room_code: self.sig.room_code@,
                    client_id: self.sig.client_id,
                    emitted_join: self.sig.client_emitted_join,
                    mapping: self.sig.host_connection_to_client_id@,
                    answered: self.sig.answered_clients@,
                    joined: self.sig.joined_clients@,
                    offer_conn: self.sig.offer_conn,
                    commands: commands@.subrange(cb, commands@.len() as int),
                    upstream: upstream@.subrange(ub, upstream@.len() as int).map_values(f),
                };
                assert(cur2 =~~= spec_tick_step(cur, ev));
            }
            k = k + 1;
        }
        proof {
            assert(events@.skip(events@.len() as int) =~= Seq::<TransportEvent>::empty());
        }
        let ghost post_events_cmds = commands@;
        let ghost post_events_up = upstream@;
        match fetch_result {
            Some(result) => {
                let mut acts = self.sig.on_fetch_result(&mut self.alloc, now_ms, result);
                let ghost acts0 = acts@;
                let ghost mut j: int = 0;
                proof {
                    assert(acts@ =~= acts0.skip(0));
                    assert(commands@ =~= post_events_cmds + acts0.take(0));
                }
                while acts.len() > 0
                    invariant
                        0 <= j <= acts0.len(),
                        acts@ == acts0.skip(j),
                        commands@ == post_events_cmds + acts0.take(j),
                        upstream@ == post_events_up,
                    decreases acts@.len(),
                {
                    let a = acts.remove(0);
                    commands.push(a);
                    proof {
                        assert(acts0.skip(j)[0] == acts0[j]);
                        assert(acts0.skip(j).drop_first() =~= acts0.skip(j + 1));
                        assert(acts0.take(j + 1) =~= acts0.take(j).push(acts0[j]));
                        assert(commands@ =~= post_events_cmds + acts0.take(j + 1));
                        j = j + 1;
                    }
                }
                proof {
                    assert(acts0.skip(j).len() == 0);
                    assert(acts0.take(j) =~= acts0);
                    assert(commands@ =~= post_events_cmds + acts0);
                }
            },
            None => {},
        }
        let ghost pre_gate_cmds = commands@;
        let started = self.sig.should_start_fetch(now_ms);
        if started {
            commands.push(SignalingAction::StartFetch);
        }
        proof {
            if started {
                assert(final(commands)@ =~= pre_gate_cmds + seq![SignalingAction::StartFetch]);
            } else {
                assert(final(commands)@ =~= pre_gate_cmds
                    + Seq::<SignalingAction>::empty());
            }
            assert(post_events_cmds =~= old(commands)@ + spec_tick_run(init, events@).commands);
            assert(final(upstream)@.map_values(f) =~= old(upstream)@.map_values(f)
                + spec_tick_run(init, events@).upstream);
            assert(final(commands)@.subrange(0, cb) =~= old(commands)@);
            assert(final(upstream)@.subrange(0, ub) =~= old(upstream)@);
        }
        started
    }
}


/// The listed ids with every occurrence of `x` removed.
pub open spec fn spec_remove_all(xs: Seq<u64>, x: u64) -> Seq<u64>
    decreases xs.len(),
{
    if xs.len() == 0 {
        Seq::<u64>::empty()
    } else if xs[0] == x {
        spec_remove_all(xs.drop_first(), x)
    } else {
        seq![xs[0]] + spec_remove_all(xs.drop_first(), x)
    }
}

/// One more id extends the removal's result unless it is the removed one.
proof fn lemma_remove_all_push(xs: Seq<u64>, y: u64, x: u64)
    ensures
        spec_remove_all(xs.push(y), x) == spec_remove_all(xs, x) + (if y == x {
            Seq::<u64>::empty()
        } else {
            seq![y]
        }),
    decreases xs.len(),
{
    let tail = (if y == x {
        Seq::<u64>::empty()
    } else {
        seq![y]
    });
    if xs.len() == 0 {
        reveal_with_fuel(spec_remove_all, 3);
        assert(xs.push(y)[0] == y);
        assert(xs.push(y).drop_first() =~= Seq::<u64>::empty());
        assert(spec_remove_all(xs.push(y), x) =~= spec_remove_all(xs, x) + tail);
    } else {
        assert(xs.push(y)[0] == xs[0]);
        assert(xs.push(y).drop_first() =~= xs.drop_first().push(y));
        lemma_remove_all_push(xs.drop_first(), y, x);
        assert(spec_remove_all(xs.push(y), x) =~= spec_remove_all(xs, x) + tail);
    }
}

/// No occurrence of the removed id survives.
pub proof fn lemma_remove_all_absent(xs: Seq<u64>, x: u64)
    ensures
        !spec_listed(spec_remove_all(xs, x), x),
    decreases xs.len(),
{
    if xs.len() > 0 {
        lemma_remove_all_absent(xs.drop_first(), x);
        let r = spec_remove_all(xs, x);
        if xs[0] != x {
            assert forall|k: int| 0 <= k < r.len() implies r[k] != x by {
                if k > 0 {
                    assert(r[k] == spec_remove_all(xs.drop_first(), x)[k - 1]);
                }
            }
        }
    }
}

/// Remove every occurrence of `x`.
pub fn remove_all(xs: &mut Vec<u64>, x: u64)
    ensures
        final(xs)@ == spec_remove_all(old(xs)@, x),
        !spec_listed(final(xs)@, x),
{
    let mut kept: Vec<u64> = Vec::new();
    let mut k: usize = 0;
    proof {
        assert(old(xs)@.take(0) =~= Seq::<u64>::empty());
    }
    while k < xs.len()
        invariant
            k <= xs@.len(),
            xs@ == old(xs)@,
            kept@ == spec_remove_all(old(xs)@.take(k as int), x),
        decreases xs@.len() - k,
    {
        proof {
            assert(old(xs)@.take(k + 1) =~= old(xs)@.take(k as int).push(old(xs)@[k as int]));
            lemma_remove_all_push(old(xs)@.take(k as int), old(xs)@[k as int], x);
        }
        if xs[k] != x {
            kept.push(xs[k]);
        }
        proof {
            assert(kept@ =~= spec_remove_all(old(xs)@.take(k + 1), x));
        }
        k = k + 1;
    }
    proof {
        assert(old(xs)@.take(old(xs)@.len() as int) =~= old(xs)@);
        lemma_remove_all_absent(old(xs)@, x);
    }
    *xs = kept;
}

/// The attributions with every entry for `client_id` removed.
pub open spec fn spec_remove_by_client(mapping: Seq<(u64, u64)>, client_id: u64) -> Seq<(u64, u64)>
    decreases mapping.len(),
{
    if mapping.len() == 0 {
        Seq::<(u64, u64)>::empty()
    } else if mapping[0].1 == client_id {
        spec_remove_by_client(mapping.drop_first(), client_id)
    } else {
        seq![mapping[0]] + spec_remove_by_client(mapping.drop_first(), client_id)
    }
}

/// One more attribution extends the removal's result unless it is the
/// removed client's.
proof fn lemma_remove_by_client_push(mapping: Seq<(u64, u64)>, e: (u64, u64), client_id: u64)
    ensures
        spec_remove_by_client(mapping.push(e), client_id) == spec_remove_by_client(
            mapping,
            client_id,
        ) + (if e.1 == client_id {
            Seq::<(u64, u64)>::empty()
        } else {
            seq![e]
        }),
    decreases mapping.len(),
{
    let tail = (if e.1 == client_id {
        Seq::<(u64, u64)>::empty()
    } else {
        seq![e]
    });
    if mapping.len() == 0 {
        reveal_with_fuel(spec_remove_by_client, 3);
        assert(mapping.push(e)[0] == e);
        assert(mapping.push(e).drop_first() =~= Seq::<(u64, u64)>::empty());
        assert(spec_remove_by_client(mapping.push(e), client_id) =~= spec_remove_by_client(
            mapping,
            client_id,
        ) + tail);
    } else {
        assert(mapping.push(e)[0] == mapping[0]);
        assert(mapping.push(e).drop_first() =~= mapping.drop_first().push(e));
        lemma_remove_by_client_push(mapping.drop_first(), e, client_id);
        assert(spec_remove_by_client(mapping.push(e), client_id) =~= spec_remove_by_client(
            mapping,
            client_id,
        ) + tail);
    }
}

/// No attribution of the removed client survives.
proof fn lemma_remove_by_client_absent(mapping: Seq<(u64, u64)>, client_id: u64)
    ensures
        forall|k: int|
            0 <= k < spec_remove_by_client(mapping, client_id).len() ==> (
            #[trigger] spec_remove_by_client(mapping, client_id)[k]).1 != client_id,
    decreases mapping.len(),
{
    if mapping.len() > 0 {
        lemma_remove_by_client_absent(mapping.drop_first(), client_id);
        let r = spec_remove_by_client(mapping, client_id);
        if mapping[0].1 != client_id {
            assert forall|k: int| 0 <= k < r.len() implies r[k].1 != client_id by {
                if k > 0 {
                    assert(r[k] == spec_remove_by_client(mapping.drop_first(), client_id)[k - 1]);
                }
            }
        }
    }
}

/// Remove every attribution of `client_id`.
fn remove_mapping_by_client(mapping: &mut Vec<(u64, u64)>, client_id: u64)
    ensures
        final(mapping)@ == spec_remove_by_client(old(mapping)@, client_id),
        spec_conn_of_client(final(mapping)@, client_id) is None,
{
    let mut kept: Vec<(u64, u64)> = Vec::new();
    let mut k: usize = 0;
    proof {
        assert(old(mapping)@.take(0) =~= Seq::<(u64, u64)>::empty());
    }
    while k < mapping.len()
        invariant
            k <= mapping@.len(),
            mapping@ == old(mapping)@,
            kept@ == spec_remove_by_client(old(mapping)@.take(k as int), client_id),
        decreases mapping@.len() - k,
    {
        proof {
            assert(old(mapping)@.take(k + 1) =~= old(mapping)@.take(k as int).push(
                old(mapping)@[k as int],
            ));
            lemma_remove_by_client_push(
                old(mapping)@.take(k as int),
                old(mapping)@[k as int],
                client_id,
            );
        }
        if mapping[k].1 != client_id {
            kept.push((mapping[k].0, mapping[k].1));
        }
        proof {
            assert(kept@ =~= spec_remove_by_client(old(mapping)@.take(k + 1), client_id));
        }
        k = k + 1;
    }
    proof {
        assert(old(mapping)@.take(old(mapping)@.len() as int) =~= old(mapping)@);
        lemma_remove_by_client_absent(old(mapping)@, client_id);
        lemma_conn_of_client_none(spec_remove_by_client(old(mapping)@, client_id), client_id);
    }
    *mapping = kept;
}

/// The attributions with every entry for connection `conn_raw` removed.
pub open spec fn spec_remove_by_conn(mapping: Seq<(u64, u64)>, conn_raw: u64) -> Seq<(u64, u64)>
    decreases mapping.len(),
{
    if mapping.len() == 0 {
        Seq::<(u64, u64)>::empty()
    } else if mapping[0].0 == conn_raw {
        spec_remove_by_conn(mapping.drop_first(), conn_raw)
    } else {
        seq![mapping[0]] + spec_remove_by_conn(mapping.drop_first(), conn_raw)
    }
}

/// One more attribution extends the removal's result unless it is the
/// removed connection's.
proof fn lemma_remove_by_conn_push(mapping: Seq<(u64, u64)>, e: (u64, u64), conn_raw: u64)
    ensures
        spec_remove_by_conn(mapping.push(e), conn_raw) == spec_remove_by_conn(
            mapping,
            conn_raw,
        ) + (if e.0 == conn_raw {
            Seq::<(u64, u64)>::empty()
        } else {
            seq![e]
        }),
    decreases mapping.len(),
{
    let tail = (if e.0 == conn_raw {
        Seq::<(u64, u64)>::empty()
    } else {
        seq![e]
    });
    if mapping.len() == 0 {
        reveal_with_fuel(spec_remove_by_conn, 3);
        assert(mapping.push(e)[0] == e);
        assert(mapping.push(e).drop_first() =~= Seq::<(u64, u64)>::empty());
        assert(spec_remove_by_conn(mapping.push(e), conn_raw) =~= spec_remove_by_conn(
            mapping,
            conn_raw,
        ) + tail);
    } else {
        assert(mapping.push(e)[0] == mapping[0]);
        assert(mapping.push(e).drop_first() =~= mapping.drop_first().push(e));
        lemma_remove_by_conn_push(mapping.drop_first(), e, conn_raw);
        assert(spec_remove_by_conn(mapping.push(e), conn_raw) =~= spec_remove_by_conn(
            mapping,
            conn_raw,
        ) + tail);
    }
}

/// No attribution of the removed connection survives.
proof fn lemma_remove_by_conn_absent(mapping: Seq<(u64, u64)>, conn_raw: u64)
    ensures
        forall|k: int|
            0 <= k < spec_remove_by_conn(mapping, conn_raw).len() ==> (
            #[trigger] spec_remove_by_conn(mapping, conn_raw)[k]).0 != conn_raw,
    decreases mapping.len(),
{
    if mapping.len() > 0 {
        lemma_remove_by_conn_absent(mapping.drop_first(), conn_raw);
        let r = spec_remove_by_conn(mapping, conn_raw);
        if mapping[0].0 != conn_raw {
            assert forall|k: int| 0 <= k < r.len() implies r[k].0 != conn_raw by {
                if k > 0 {
                    assert(r[k] == spec_remove_by_conn(mapping.drop_first(), conn_raw)[k - 1]);
                }
            }
        }
    }
}

/// Remove every attribution of connection `conn_raw`.
fn remove_mapping_by_conn(mapping: &mut Vec<(u64, u64)>, conn_raw: u64)
    ensures
        final(mapping)@ == spec_remove_by_conn(old(mapping)@, conn_raw),
        spec_mapping_lookup(final(mapping)@, conn_raw) is None,
{
    let mut kept: Vec<(u64, u64)> = Vec::new();
    let mut k: usize = 0;
    proof {
        assert(old(mapping)@.take(0) =~= Seq::<(u64, u64)>::empty());
    }
    while k < mapping.len()
        invariant
            k <= mapping@.len(),
            mapping@ == old(mapping)@,
            kept@ == spec_remove_by_conn(old(mapping)@.take(k as int), conn_raw),
        decreases mapping@.len() - k,
    {
        proof {
            assert(old(mapping)@.take(k + 1) =~= old(mapping)@.take(k as int).push(
                old(mapping)@[k as int],
            ));
            lemma_remove_by_conn_push(
                old(mapping)@.take(k as int),
                old(mapping)@[k as int],
                conn_raw,
            );
        }
        if mapping[k].0 != conn_raw {
            kept.push((mapping[k].0, mapping[k].1));
        }
        proof {
            assert(kept@ =~= spec_remove_by_conn(old(mapping)@.take(k + 1), conn_raw));
        }
        k = k + 1;
    }
    proof {
        assert(old(mapping)@.take(old(mapping)@.len() as int) =~= old(mapping)@);
        lemma_remove_by_conn_absent(old(mapping)@, conn_raw);
        lemma_mapping_lookup_none_local(spec_remove_by_conn(old(mapping)@, conn_raw), conn_raw);
    }
    *mapping = kept;
}

/// With no key matching, the attribution lookup yields nothing.
proof fn lemma_mapping_lookup_none_local(entries: Seq<(u64, u64)>, key: u64)
    requires
        forall|j: int| 0 <= j < entries.len() ==> entries[j].0 != key,
    ensures
        spec_mapping_lookup(entries, key) is None,
    decreases entries.len(),
{
    if entries.len() > 0 {
        assert forall|j: int| 0 <= j < entries.len() - 1 implies entries.drop_first()[j].0
            != key by {
            assert(entries[j + 1].0 != key);
        }
        lemma_mapping_lookup_none_local(entries.drop_first(), key);
    }
}

/// The connection attributed to `client_id`, if any.
pub open spec fn spec_conn_of_client(mapping: Seq<(u64, u64)>, client_id: u64) -> Option<u64>
    decreases mapping.len(),
{
    if mapping.len() == 0 {
        None
    } else if mapping[0].1 == client_id {
        Some(mapping[0].0)
    } else {
        spec_conn_of_client(mapping.drop_first(), client_id)
    }
}

/// May data be sent on `id`?
pub open spec fn spec_can_send(conns: Seq<Connection>, id: ConnectionId) -> bool {
    match spec_find_conn(conns, id) {
        Some(i) => conns[i].channel_open,
        None => false,
    }
}

/// Find the connection attributed to `client_id`.
pub fn conn_of_client(mapping: &Vec<(u64, u64)>, client_id: u64) -> (r: Option<u64>)
    ensures
        r == spec_conn_of_client(mapping@, client_id),
{
    let mut k: usize = 0;
    while k < mapping.len()
        invariant
            k <= mapping@.len(),
            forall|j: int| 0 <= j < k ==> mapping@[j].1 != client_id,
        decreases mapping@.len() - k,
    {
        if mapping[k].1 == client_id {
            proof {
                lemma_conn_of_client_first(mapping@, client_id, k as int);
            }
            return Some(mapping[k].0);
        }
        k = k + 1;
    }
    proof {
        lemma_conn_of_client_none(mapping@, client_id);
    }
    None
}

/// If the first `k` clients differ and client `k` matches, the lookup
/// yields entry `k`'s connection.
proof fn lemma_conn_of_client_first(mapping: Seq<(u64, u64)>, client_id: u64, k: int)
    requires
        0 <= k < mapping.len(),
        mapping[k].1 == client_id,
        forall|j: int| 0 <= j < k ==> mapping[j].1 != client_id,
    ensures
        spec_conn_of_client(mapping, client_id) == Some(mapping[k].0),
    decreases k,
{
    if k > 0 {
        assert forall|j: int| 0 <= j < k - 1 implies mapping.drop_first()[j].1 != client_id by {
            assert(mapping[j + 1].1 != client_id);
        }
        assert(mapping.drop_first()[k - 1] == mapping[k]);
        lemma_conn_of_client_first(mapping.drop_first(), client_id, k - 1);
    }
}

/// With no client matching, the lookup yields nothing.
proof fn lemma_conn_of_client_none(mapping: Seq<(u64, u64)>, client_id: u64)
    requires
        forall|j: int| 0 <= j < mapping.len() ==> mapping[j].1 != client_id,
    ensures
        spec_conn_of_client(mapping, client_id) is None,
    decreases mapping.len(),
{
    if mapping.len() > 0 {
        assert forall|j: int| 0 <= j < mapping.len() - 1 implies mapping.drop_first()[j].1
            != client_id by {
            assert(mapping[j + 1].1 != client_id);
        }
        lemma_conn_of_client_none(mapping.drop_first(), client_id);
    }
}

} // verus!
