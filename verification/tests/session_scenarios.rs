use easy_p2p::api::{encode_outgoing, EasyP2P, EasyP2PTransportIo};
use easy_p2p::codec::decode_msg;
use easy_p2p::ids::{ConnectionId, ExitReason, NetworkedId};
use easy_p2p::router::{
    broadcast_roster_on_host, handle_client_data_update_on_host, host_broadcast_state_change,
    on_client_message, on_host_message, send_local_data_after_enter, OutboundMsg, SyncDispatch,
};
use easy_p2p::signaling::{mapping_lookup, FetchResult, RoomDoc, SignalingAction};
use easy_p2p::transport::{FirestoreWebRtcTransport, TransportUpstream};
use easy_p2p::updates::EasyP2PUpdate;

struct Peer {
    easy: EasyP2P,
    io: EasyP2PTransportIo,
    tr: FirestoreWebRtcTransport,
    dispatches: Vec<SyncDispatch>,
    fetch_owed: Option<FetchResult>,
    log: Vec<EasyP2PUpdate>,
    code_seed: u64,
    id_seed: u64,
}

impl Peer {
    fn new(code_seed: u64, id_seed: u64) -> Self {
        Peer {
            easy: EasyP2P::new(),
            io: EasyP2PTransportIo::new(),
            tr: FirestoreWebRtcTransport::new(),
            dispatches: Vec::new(),
            fetch_owed: None,
            log: Vec::new(),
            code_seed,
            id_seed,
        }
    }

    fn client_id(&self) -> u64 {
        self.id_seed % 0x20000000000000
    }
}

#[derive(Default)]
struct World {
    doc_exists: bool,
    offers: Vec<(u64, String)>,
    answers: Vec<(u64, String)>,
    /// host-side raw connection id, client index, client-side raw connection id
    links: Vec<(u64, usize, u64)>,
}

fn snapshot_doc(world: &World) -> RoomDoc {
    RoomDoc {
        offers: world
            .offers
            .iter()
            .map(|(c, s)| (*c, s.clone()))
            .collect(),
        answers: world
            .answers
            .iter()
            .map(|(c, s)| (*c, s.clone()))
            .collect(),
    }
}

fn run_commands(
    cmds: Vec<SignalingAction>,
    who: Option<usize>,
    host: &mut Peer,
    clients: &mut Vec<Peer>,
    world: &mut World,
) {
    for cmd in cmds {
        match cmd {
            SignalingAction::CreateRoom => {
                world.doc_exists = true;
                host.fetch_owed = Some(FetchResult::Created);
            },
            SignalingAction::StartFetch => {
                let result = if world.doc_exists {
                    FetchResult::Doc(snapshot_doc(world))
                } else {
                    FetchResult::NotFound
                };
                match who {
                    None => host.fetch_owed = Some(result),
                    Some(i) => clients[i].fetch_owed = Some(result),
                }
            },
            SignalingAction::PublishOffer { client_id, sdp } => {
                world.offers.push((client_id, sdp));
            },
            SignalingAction::PublishAnswer { client_id, sdp } => {
                world.answers.push((client_id, sdp));
            },
            SignalingAction::CreateOffer { id } => {
                let i = who.expect("only clients create offers here");
                let cid = clients[i].client_id();
                clients[i].tr.conns.create_offer(id);
                clients[i]
                    .tr
                    .conns
                    .note_local_sdp(id, format!("offer-sdp-{}", cid));
            },
            SignalingAction::CreateAnswer { id, remote_sdp: _ } => {
                // the host answers: pair its new connection with the offering
                // client's connection
                host.tr.conns.create_answer(id);
                host.tr
                    .conns
                    .note_local_sdp(id, format!("answer-sdp-{}", id.0));
                let cid = mapping_lookup(&host.tr.sig.host_connection_to_client_id, id.0)
                    .expect("answered connections are attributed");
                let idx = clients
                    .iter()
                    .position(|c| c.client_id() == cid)
                    .expect("offer came from a known client");
                // a stale offer of a client that left again yields an answer
                // nobody will apply; no channel ever pairs up for it
                if let Some(conn) = clients[idx].tr.sig.offer_conn {
                    world.links.push((id.0, idx, conn.0));
                }
            },
            SignalingAction::SetRemote { id, sdp: _ } => {
                // the answer is applied: the channel opens at both ends
                let i = who.expect("only clients apply answers here");
                let link = world
                    .links
                    .iter()
                    .find(|(_, idx, ccon)| *idx == i && *ccon == id.0)
                    .copied();
                if let Some((hcon, idx, ccon)) = link {
                    host.tr.conns.note_channel_open(ConnectionId(hcon));
                    clients[idx].tr.conns.note_channel_open(ConnectionId(ccon));
                }
            },
            SignalingAction::SendData { id, text } => match who {
                None => {
                    if let Some((_, idx, ccon)) =
                        world.links.iter().find(|(h, _, _)| *h == id.0).copied()
                    {
                        clients[idx].tr.conns.note_message(ConnectionId(ccon), text);
                    }
                },
                Some(i) => {
                    if let Some((hcon, _, _)) = world
                        .links
                        .iter()
                        .find(|(_, idx, c)| *idx == i && *c == id.0)
                        .copied()
                    {
                        host.tr.conns.note_message(ConnectionId(hcon), text);
                    }
                },
            },
            SignalingAction::CloseConnection { id } => match who {
                None => {
                    if let Some((_, idx, ccon)) =
                        world.links.iter().find(|(h, _, _)| *h == id.0).copied()
                    {
                        clients[idx]
                            .tr
                            .conns
                            .note_channel_closed(ConnectionId(ccon));
                    }
                },
                Some(i) => {
                    if let Some((hcon, _, _)) = world
                        .links
                        .iter()
                        .find(|(_, idx, c)| *idx == i && *c == id.0)
                        .copied()
                    {
                        host.tr.conns.note_channel_closed(ConnectionId(hcon));
                    }
                },
            },
            SignalingAction::CloseAllConnections => match who {
                None => {
                    for (_, idx, ccon) in world.links.clone() {
                        clients[idx]
                            .tr
                            .conns
                            .note_channel_closed(ConnectionId(ccon));
                    }
                },
                Some(i) => {
                    for (hcon, idx, _) in world.links.clone() {
                        if idx == i {
                            host.tr.conns.note_channel_closed(ConnectionId(hcon));
                        }
                    }
                },
            },
        }
    }
}

fn route_out(peer: &mut Peer, out: Vec<OutboundMsg>) {
    for m in out {
        match m {
            OutboundMsg::ToHost(d) => peer.easy.send_host_reqs.push(d),
            OutboundMsg::ToAll(d) => peer.easy.send_all_reqs.push(d),
            OutboundMsg::ToClient(c, d) => peer.easy.send_client_reqs.push((c, d)),
            OutboundMsg::RelayAllExcept(c, d) => peer.easy.relay_reqs.push((c, d)),
        }
    }
}

/// One peer's share of a tick, up to and including its transport poll; the
/// commands it produced are returned for the world to act on.
fn peer_phase_a(peer: &mut Peer, now: u64) -> (Vec<SignalingAction>, Vec<TransportUpstream>) {
    let mut cmds = Vec::new();
    let mut up = Vec::new();
    let creates = peer.io.take_create_requests();
    for _ in 0..creates {
        peer.tr.create_lobby(peer.code_seed, &mut cmds, &mut up);
    }
    for code in peer.io.take_join_requests() {
        peer.tr.join_lobby(code, peer.id_seed);
    }
    let exits = peer.io.take_exit_requests();
    for _ in 0..exits {
        peer.tr.exit_lobby(&mut cmds);
    }
    for cid in peer.io.take_kick_requests() {
        peer.tr.kick(cid, &mut cmds, &mut up);
    }
    encode_outgoing(&mut peer.easy, &mut peer.io);
    for text in peer.io.take_send_to_host() {
        peer.tr.send_to_host(text, &mut cmds);
    }
    for text in peer.io.take_send_to_all() {
        peer.tr.send_to_all(text, &mut cmds);
    }
    for (cid, text) in peer.io.take_send_to_client() {
        peer.tr.send_to_client(cid, text, &mut cmds);
    }
    for (sender, text) in peer.io.take_relay_to_all_except() {
        peer.tr.relay_to_all_except(sender, text, &mut cmds);
    }
    let owed = peer.fetch_owed.take();
    peer.tr.poll_transport(now, owed, &mut cmds, &mut up);
    (cmds, up)
}

/// Feed the upstream events into the mailbox and the session state machine.
fn peer_phase_b(peer: &mut Peer, up: Vec<TransportUpstream>, now: u64) -> Vec<SignalingAction> {
    for u in up {
        match u {
            TransportUpstream::LobbyCreated { code } => peer.io.emit_lobby_created(code),
            TransportUpstream::LobbyJoined { code } => peer.io.emit_lobby_joined(code),
            TransportUpstream::LobbyEntered { code } => peer.io.emit_lobby_entered(code),
            TransportUpstream::LobbyExit { reason } => peer.io.emit_lobby_exit(reason),
            TransportUpstream::RosterChanged { connected } => {
                peer.io.emit_roster_changed(connected)
            },
            TransportUpstream::IncomingFromClient { client_id, text } => {
                peer.io.emit_incoming_from_client(client_id, text)
            },
            TransportUpstream::IncomingFromHost { text } => {
                peer.io.emit_incoming_from_host(text)
            },
        }
    }
    let mut extra_cmds = Vec::new();
    for code in std::mem::take(&mut peer.io.lobby_created) {
        peer.easy.state.on_lobby_created(code, &mut peer.easy.updates);
    }
    for code in std::mem::take(&mut peer.io.lobby_joined) {
        peer.easy.state.on_lobby_joined(code, &mut peer.easy.updates);
    }
    for code in std::mem::take(&mut peer.io.lobby_entered) {
        peer.easy.state.on_lobby_entered(code, &mut peer.easy.updates);
        let mut out = Vec::new();
        send_local_data_after_enter(&peer.easy.state, &mut out);
        route_out(peer, out);
    }
    let exits = peer.io.take_lobby_exit_events();
    if let Some(reason) = exits.last() {
        peer.log.extend(peer.easy.updates.drain());
        peer.easy.state.on_external_exit(*reason, &mut peer.easy.updates);
        peer.tr.exit_lobby(&mut extra_cmds);
    }
    for (cid, text) in std::mem::take(&mut peer.io.incoming_from_client) {
        if let Some(m) = decode_msg(&text) {
            let mut out = Vec::new();
            on_client_message(&mut peer.easy.state, &mut peer.easy.updates, &mut out, cid, &m);
            handle_client_data_update_on_host(
                &mut peer.easy.state,
                &mut peer.easy.updates,
                &mut out,
                cid,
                &m,
            );
            route_out(peer, out);
        }
    }
    let slen = peer.easy.state_register.table.len();
    let elen = peer.easy.event_register.table.len();
    for text in std::mem::take(&mut peer.io.incoming_from_host) {
        if let Some(m) = decode_msg(&text) {
            on_host_message(
                &mut peer.easy.state,
                &mut peer.easy.updates,
                &mut peer.dispatches,
                &mut peer.easy.pings,
                &mut peer.easy.instantiations,
                slen,
                elen,
                now,
                &m,
            );
        }
    }
    for connected in std::mem::take(&mut peer.io.roster_changed) {
        let mut out = Vec::new();
        broadcast_roster_on_host(
            &mut peer.easy.state,
            &mut peer.easy.updates,
            &mut out,
            &connected,
        );
        route_out(peer, out);
    }
    peer.log.extend(peer.easy.updates.drain());
    extra_cmds
}

fn tick(host: &mut Peer, clients: &mut Vec<Peer>, world: &mut World, now: u64) {
    let (cmds, up) = peer_phase_a(host, now);
    run_commands(cmds, None, host, clients, world);
    let extra = peer_phase_b(host, up, now);
    run_commands(extra, None, host, clients, world);
    for i in 0..clients.len() {
        let (cmds, up) = peer_phase_a(&mut clients[i], now);
        run_commands(cmds, Some(i), host, clients, world);
        let extra = peer_phase_b(&mut clients[i], up, now);
        run_commands(extra, Some(i), host, clients, world);
    }
}

fn settle(host: &mut Peer, clients: &mut Vec<Peer>, world: &mut World, now: &mut u64, ticks: u32) {
    for _ in 0..ticks {
        *now += 600;
        tick(host, clients, world, *now);
    }
}

fn entered_code(log: &[EasyP2PUpdate]) -> Option<String> {
    log.iter().find_map(|u| match u {
        EasyP2PUpdate::LobbyEntered { code } => Some(code.clone()),
        _ => None,
    })
}

fn join_session(host: &mut Peer, clients: &mut Vec<Peer>, world: &mut World, now: &mut u64) {
    host.easy.create_lobby(&mut host.io);
    settle(host, clients, world, now, 2);
    let code = entered_code(&host.log).expect("host entered its lobby");
    for i in 0..clients.len() {
        let c = &mut clients[i];
        c.easy.set_local_player_data(format!("data-of-{}", c.client_id()));
        let mut io = std::mem::replace(&mut c.io, EasyP2PTransportIo::new());
        c.easy.join_lobby(&mut io, &code);
        c.io = io;
    }
    settle(host, clients, world, now, 12);
}

#[test]
fn host_creates_and_one_client_joins() {
    let mut host = Peer::new(77, 0);
    let mut clients = vec![Peer::new(0, 1001)];
    let mut world = World::default();
    let mut now = 0u64;
    join_session(&mut host, &mut clients, &mut world, &mut now);

    let host_code = entered_code(&host.log).expect("host entered");
    let client_code = entered_code(&clients[0].log).expect("client entered");
    assert_eq!(host_code, client_code);

    // the host's roster reflects exactly the one client, with its data
    let players = host.easy.get_players();
    assert_eq!(players.len(), 2);
    assert_eq!(players[0].id, NetworkedId::Host);
    assert_eq!(players[1].id, NetworkedId::ClientId(clients[0].client_id()));
    assert_eq!(players[1].data, format!("data-of-{}", clients[0].client_id()));

    // the client's roster reflects the other participant (the host) too
    let seen = clients[0].easy.get_players();
    assert!(seen.iter().any(|p| p.id == NetworkedId::Host));
    assert!(seen
        .iter()
        .any(|p| p.id == NetworkedId::ClientId(clients[0].client_id())));
}

#[test]
fn chat_is_relayed_to_every_other_client_but_not_back() {
    let mut host = Peer::new(78, 0);
    let mut clients = vec![Peer::new(0, 2001), Peer::new(0, 2002)];
    let mut world = World::default();
    let mut now = 0u64;
    join_session(&mut host, &mut clients, &mut world, &mut now);
    let a = clients[0].client_id();

    clients[0].log.clear();
    clients[1].log.clear();
    host.log.clear();
    clients[0].easy.send_message_all("hi".to_string());
    settle(&mut host, &mut clients, &mut world, &mut now, 4);

    // the host surfaced it as coming from A
    assert!(host.log.iter().any(
        |u| matches!(u, EasyP2PUpdate::ClientChat { client_id, text } if *client_id == a && text == "hi")
    ));
    // B received the relayed copy, attributed to A
    assert!(clients[1].log.iter().any(
        |u| matches!(u, EasyP2PUpdate::ClientChat { client_id, text } if *client_id == a && text == "hi")
    ));
    // A did not get its own message back
    assert!(!clients[0]
        .log
        .iter()
        .any(|u| matches!(u, EasyP2PUpdate::ClientChat { .. })));
}

#[test]
fn kick_removes_the_client_and_tells_it_why() {
    let mut host = Peer::new(79, 0);
    let mut clients = vec![Peer::new(0, 3001)];
    let mut world = World::default();
    let mut now = 0u64;
    join_session(&mut host, &mut clients, &mut world, &mut now);
    let c = clients[0].client_id();
    assert!(host
        .easy
        .get_players()
        .iter()
        .any(|p| p.id == NetworkedId::ClientId(c)));

    clients[0].log.clear();
    let mut io = std::mem::replace(&mut host.io, EasyP2PTransportIo::new());
    host.easy.kick(&mut io, c);
    host.io = io;
    settle(&mut host, &mut clients, &mut world, &mut now, 4);

    // the kicked client saw the lobby end with a disconnect reason
    assert!(clients[0].log.iter().any(|u| matches!(
        u,
        EasyP2PUpdate::LobbyExited {
            reason: ExitReason::Disconnected
        }
    )));
    // the host's roster no longer holds the kicked client
    assert!(!host
        .easy
        .get_players()
        .iter()
        .any(|p| p.id == NetworkedId::ClientId(c)));
}

#[test]
fn a_registered_state_change_reaches_every_client() {
    let mut host = Peer::new(80, 0);
    let mut clients = vec![Peer::new(0, 4001)];
    let mut world = World::default();
    let mut now = 0u64;
    // both participants register the same type before the session starts
    let race_key = 11u64;
    host.easy.state_register.register_state(race_key);
    clients[0].easy.state_register.register_state(race_key);
    join_session(&mut host, &mut clients, &mut world, &mut now);

    // the host's registered state changes value between two ticks
    let mut last: Option<String> = None;
    let mut out = Vec::new();
    host_broadcast_state_change(
        true,
        &host.easy.state_register,
        race_key,
        &"\"Racing\"".to_string(),
        &mut last,
        &mut out,
    );
    route_out(&mut host, out);
    settle(&mut host, &mut clients, &mut world, &mut now, 3);

    // the client's dispatch carries the host's new value under the index
    // both sides registered
    let applied: Vec<&SyncDispatch> = clients[0].dispatches.iter().collect();
    assert!(applied.iter().any(|d| matches!(
        d,
        SyncDispatch::ApplyState { index: 0, payload } if payload == "\"Racing\""
    )));
}

#[test]
fn polling_a_missing_room_publishes_nothing() {
    // a client polls a room code nobody created: no offer is ever published
    let mut host = Peer::new(81, 0);
    let mut clients = vec![Peer::new(0, 5001)];
    let mut world = World::default();
    let mut now = 0u64;
    {
        let c = &mut clients[0];
        let mut io = std::mem::replace(&mut c.io, EasyP2PTransportIo::new());
        c.easy.join_lobby(&mut io, "GHOS");
        c.io = io;
    }
    settle(&mut host, &mut clients, &mut world, &mut now, 10);
    assert!(world.offers.is_empty());
    assert!(entered_code(&clients[0].log).is_none());
}

#[test]
fn host_instantiation_reaches_the_client() {
    let mut host = Peer::new(82, 0);
    let mut clients = vec![Peer::new(0, 6001)];
    let mut world = World::default();
    let mut now = 0u64;
    join_session(&mut host, &mut clients, &mut world, &mut now);

    let t = easy_p2p::messages::NetTransform {
        translation: [1, 2, 3],
        rotation: [0, 0, 0, 4],
        scale: [5, 5, 5],
    };
    host.easy.instantiate("kart".to_string(), t);
    // the host handles it locally at once
    assert_eq!(host.easy.get_instantiations().len(), 1);
    settle(&mut host, &mut clients, &mut world, &mut now, 3);

    // the client spawned the same thing at the same transform
    let got = clients[0].easy.get_instantiations();
    assert_eq!(got.len(), 1);
    assert_eq!(got[0].instantiation, "kart");
    assert_eq!(got[0].transform, t);
    assert!(clients[0]
        .log
        .iter()
        .any(|u| matches!(u, EasyP2PUpdate::Instantiated { .. })));
}

#[test]
fn a_ping_comes_back_on_the_clients_own_clock() {
    let mut host = Peer::new(83, 0);
    let mut clients = vec![Peer::new(0, 7001)];
    let mut world = World::default();
    let mut now = 0u64;
    join_session(&mut host, &mut clients, &mut world, &mut now);

    let mut out = Vec::new();
    easy_p2p::router::send_ping(&clients[0].easy.state, &mut out, now);
    route_out(&mut clients[0], out);
    settle(&mut host, &mut clients, &mut world, &mut now, 4);
    // the echo returned; the round trip is measured against the same clock
    // that stamped the ping, so it is exactly the ticks that passed
    assert_eq!(clients[0].easy.pings.len(), 1);
    assert!(clients[0].easy.pings[0].0 > 0);
    assert!(clients[0].easy.pings[0].0 <= 4 * 600);
}

#[test]
fn a_registered_event_reaches_the_client_without_suppressing_local_delivery() {
    let mut host = Peer::new(84, 0);
    let mut clients = vec![Peer::new(0, 8001)];
    let mut world = World::default();
    let mut now = 0u64;
    let finish_key = 31u64;
    host.easy.event_register.register_event(finish_key);
    clients[0].easy.event_register.register_event(finish_key);
    join_session(&mut host, &mut clients, &mut world, &mut now);

    // the host emits one local event of the registered type and forwards it
    let mut out = Vec::new();
    easy_p2p::router::host_broadcast_event(
        true,
        &host.easy.event_register,
        finish_key,
        &"{\"finisher\":1}".to_string(),
        &mut out,
    );
    // forwarding does not replace the host's own local delivery, which the
    // consumer performs itself
    assert_eq!(out.len(), 1);
    route_out(&mut host, out);
    settle(&mut host, &mut clients, &mut world, &mut now, 3);

    assert!(clients[0].dispatches.iter().any(|d| matches!(
        d,
        SyncDispatch::EmitEvent { index: 0, payload } if payload == "{\"finisher\":1}"
    )));
}
