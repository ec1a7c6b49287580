use easy_p2p::ids::NetworkedId;
use easy_p2p::messages::{InstantiationDataNet, NetTransform, P2PData, PlayerInfo};
use easy_p2p::router::{
    broadcast_roster_on_host, handle_client_data_update_on_host, host_broadcast_event,
    host_broadcast_state_change, on_client_message, on_host_message, send_local_data_after_enter,
    send_ping, OutboundMsg, SyncDispatch,
};
use easy_p2p::registry::{SyncedEventRegister, SyncedStateRegister};
use easy_p2p::session::{EasyP2PState, P2PLobbyState};
use easy_p2p::updates::{EasyP2PUpdate, EasyP2PUpdateQueue, PingUpdate};

fn host_state() -> EasyP2PState {
    let mut s = EasyP2PState::new();
    s.is_host = true;
    s.lobby_code = "ABCD".to_string();
    s.phase = P2PLobbyState::InLobby;
    s
}

#[test]
fn host_relays_client_chat_to_everyone_else() {
    let mut state = host_state();
    let mut updates = EasyP2PUpdateQueue::new();
    let mut out = Vec::new();
    let msg = P2PData::ClientLobbyChatMessage("hi".to_string(), NetworkedId::ClientId(0));
    on_client_message(&mut state, &mut updates, &mut out, 42, &msg);
    let drained = updates.drain();
    assert!(
        matches!(&drained[0], EasyP2PUpdate::ClientChat { client_id: 42, text } if text == "hi")
    );
    assert_eq!(out.len(), 1);
    assert!(matches!(
        &out[0],
        OutboundMsg::RelayAllExcept(42, P2PData::ClientLobbyChatMessage(text, NetworkedId::ClientId(42))) if text == "hi"
    ));
}

#[test]
fn non_host_surfaces_chat_without_relaying() {
    let mut state = EasyP2PState::new();
    let mut updates = EasyP2PUpdateQueue::new();
    let mut out = Vec::new();
    let msg = P2PData::ClientLobbyChatMessage("hi".to_string(), NetworkedId::ClientId(0));
    on_client_message(&mut state, &mut updates, &mut out, 42, &msg);
    assert_eq!(updates.len(), 1);
    assert!(out.is_empty());
}

#[test]
fn host_surfaces_client_input_attributed_to_its_sender() {
    let mut state = host_state();
    let mut updates = EasyP2PUpdateQueue::new();
    let mut out = Vec::new();
    on_client_message(
        &mut state,
        &mut updates,
        &mut out,
        9,
        &P2PData::ClientInput("turn-left".to_string()),
    );
    let drained = updates.drain();
    assert!(matches!(
        &drained[0],
        EasyP2PUpdate::ClientInput { sender: NetworkedId::ClientId(9), input } if input == "turn-left"
    ));
    assert!(out.is_empty());
}

#[test]
fn host_echoes_ping_back_to_its_sender_unchanged() {
    let mut state = host_state();
    let mut updates = EasyP2PUpdateQueue::new();
    let mut out = Vec::new();
    on_client_message(
        &mut state,
        &mut updates,
        &mut out,
        5,
        &P2PData::PingRequest(777),
    );
    assert_eq!(updates.len(), 0);
    assert!(matches!(out[0], OutboundMsg::ToClient(5, P2PData::PingRequest(777))));
}

#[test]
fn data_update_merges_and_rebroadcasts_the_full_roster() {
    let mut state = host_state();
    state.local_player_data = "host-data".to_string();
    let mut updates = EasyP2PUpdateQueue::new();
    let mut out = Vec::new();
    // a new client: inserted
    handle_client_data_update_on_host(
        &mut state,
        &mut updates,
        &mut out,
        7,
        &P2PData::ClientDataUpdate("seven-v1".to_string()),
    );
    assert_eq!(state.players.len(), 1);
    assert_eq!(state.players[0].id, NetworkedId::ClientId(7));
    assert_eq!(state.players[0].data, "seven-v1");
    // overwrite by peer id, not a second entry
    handle_client_data_update_on_host(
        &mut state,
        &mut updates,
        &mut out,
        7,
        &P2PData::ClientDataUpdate("seven-v2".to_string()),
    );
    assert_eq!(state.players.len(), 1);
    assert_eq!(state.players[0].data, "seven-v2");
    // each merge broadcast the roster with the host entry first
    assert_eq!(out.len(), 2);
    match &out[1] {
        OutboundMsg::ToAll(P2PData::HostLobbyInfoUpdate(ps)) => {
            assert_eq!(ps.len(), 2);
            assert_eq!(ps[0].id, NetworkedId::Host);
            assert_eq!(ps[0].data, "host-data");
            assert_eq!(ps[1].data, "seven-v2");
        },
        other => panic!("unexpected outbound: {:?}", other),
    }
}

#[test]
fn roster_reconciliation_prunes_the_disconnected() {
    // after data updates and a roster-changed notification, the roster holds
    // exactly the still-connected peers, each with its latest data
    let mut state = host_state();
    let mut updates = EasyP2PUpdateQueue::new();
    let mut out = Vec::new();
    for (cid, data) in [(1u64, "one"), (2, "two"), (3, "three")] {
        handle_client_data_update_on_host(
            &mut state,
            &mut updates,
            &mut out,
            cid,
            &P2PData::ClientDataUpdate(data.to_string()),
        );
    }
    handle_client_data_update_on_host(
        &mut state,
        &mut updates,
        &mut out,
        2,
        &P2PData::ClientDataUpdate("two-latest".to_string()),
    );
    broadcast_roster_on_host(&mut state, &mut updates, &mut out, &vec![2, 3]);
    assert_eq!(state.players.len(), 2);
    assert_eq!(state.players[0].id, NetworkedId::ClientId(2));
    assert_eq!(state.players[0].data, "two-latest");
    assert_eq!(state.players[1].id, NetworkedId::ClientId(3));
    assert_eq!(state.players[1].data, "three");
}

#[test]
fn client_replaces_roster_wholesale_from_host_broadcast() {
    let mut state = EasyP2PState::new();
    let mut updates = EasyP2PUpdateQueue::new();
    let mut dispatches = Vec::new();
    let mut pings = Vec::new();
    let mut insts = Vec::new();
    let roster = vec![
        PlayerInfo {
            id: NetworkedId::Host,
            data: "h".to_string(),
        },
        PlayerInfo {
            id: NetworkedId::ClientId(4),
            data: "c".to_string(),
        },
    ];
    on_host_message(
        &mut state,
        &mut updates,
        &mut dispatches,
        &mut pings,
        &mut insts,
        0,
        0,
        0,
        &P2PData::HostLobbyInfoUpdate(roster.clone()),
    );
    assert_eq!(state.players, roster);
    let drained = updates.drain();
    assert!(matches!(&drained[0], EasyP2PUpdate::RosterUpdated { players } if *players == roster));
}

#[test]
fn sync_messages_dispatch_only_registered_indices() {
    let mut state = EasyP2PState::new();
    let mut updates = EasyP2PUpdateQueue::new();
    let mut dispatches = Vec::new();
    let mut pings = Vec::new();
    let mut insts = Vec::new();
    // two registered state types, one registered event type
    on_host_message(
        &mut state,
        &mut updates,
        &mut dispatches,
        &mut pings,
        &mut insts,
        2,
        1,
        0,
        &P2PData::StateSync(1, "\"Racing\"".to_string()),
    );
    assert_eq!(dispatches.len(), 1);
    assert!(matches!(
        &dispatches[0],
        SyncDispatch::ApplyState { index: 1, payload } if payload == "\"Racing\""
    ));
    // an unknown index is a silent no-op, not an error
    on_host_message(
        &mut state,
        &mut updates,
        &mut dispatches,
        &mut pings,
        &mut insts,
        2,
        1,
        0,
        &P2PData::StateSync(5, "ignored".to_string()),
    );
    on_host_message(
        &mut state,
        &mut updates,
        &mut dispatches,
        &mut pings,
        &mut insts,
        2,
        1,
        0,
        &P2PData::EventSync(3, "ignored".to_string()),
    );
    assert_eq!(dispatches.len(), 1);
    assert_eq!(updates.len(), 0);
}

#[test]
fn ping_echo_yields_round_trip_on_the_clients_own_clock() {
    let mut state = EasyP2PState::new();
    let mut updates = EasyP2PUpdateQueue::new();
    let mut dispatches = Vec::new();
    let mut pings = Vec::new();
    let mut insts = Vec::new();
    on_host_message(
        &mut state,
        &mut updates,
        &mut dispatches,
        &mut pings,
        &mut insts,
        0,
        0,
        5_250,
        &P2PData::PingRequest(5_000),
    );
    assert_eq!(pings, vec![PingUpdate(250)]);
}

#[test]
fn instantiation_is_surfaced_and_queued() {
    let mut state = EasyP2PState::new();
    let mut updates = EasyP2PUpdateQueue::new();
    let mut dispatches = Vec::new();
    let mut pings = Vec::new();
    let mut insts = Vec::new();
    let data = InstantiationDataNet {
        transform: NetTransform {
            translation: [1, 2, 3],
            rotation: [4, 5, 6, 7],
            scale: [8, 9, 10],
        },
        instantiation: "kart".to_string(),
    };
    on_host_message(
        &mut state,
        &mut updates,
        &mut dispatches,
        &mut pings,
        &mut insts,
        0,
        0,
        0,
        &P2PData::HostInstantiation(data.clone()),
    );
    assert_eq!(insts, vec![data.clone()]);
    let drained = updates.drain();
    assert!(matches!(&drained[0], EasyP2PUpdate::Instantiated { data: d } if *d == data));
}

#[test]
fn client_sends_its_data_and_pings_after_entering() {
    let mut state = EasyP2PState::new();
    state.local_player_data = "me".to_string();
    let mut out = Vec::new();
    send_local_data_after_enter(&state, &mut out);
    assert!(matches!(
        &out[0],
        OutboundMsg::ToHost(P2PData::ClientDataUpdate(d)) if d == "me"
    ));
    send_ping(&state, &mut out, 123);
    assert!(matches!(&out[1], OutboundMsg::ToHost(P2PData::PingRequest(123))));
    // the host does neither
    let mut out2 = Vec::new();
    let host = host_state();
    send_local_data_after_enter(&host, &mut out2);
    send_ping(&host, &mut out2, 123);
    assert!(out2.is_empty());
}

#[test]
fn state_changes_broadcast_only_on_change_and_only_registered() {
    let mut reg = SyncedStateRegister::new();
    reg.register_state(11);
    let mut last: Option<String> = None;
    let mut out = Vec::new();
    let v1 = "\"Lobby\"".to_string();
    host_broadcast_state_change(true, &reg, 11, &v1, &mut last, &mut out);
    assert_eq!(out.len(), 1);
    assert!(matches!(
        &out[0],
        OutboundMsg::ToAll(P2PData::StateSync(0, p)) if p == "\"Lobby\""
    ));
    // unchanged: nothing more
    host_broadcast_state_change(true, &reg, 11, &v1, &mut last, &mut out);
    assert_eq!(out.len(), 1);
    // changed: broadcast again
    let v2 = "\"Racing\"".to_string();
    host_broadcast_state_change(true, &reg, 11, &v2, &mut last, &mut out);
    assert_eq!(out.len(), 2);
    // an unregistered key broadcasts nothing, a non-host broadcasts nothing
    let mut last2: Option<String> = None;
    host_broadcast_state_change(true, &reg, 99, &v1, &mut last2, &mut out);
    host_broadcast_state_change(false, &reg, 11, &v1, &mut last2, &mut out);
    assert_eq!(out.len(), 2);
}

#[test]
fn events_broadcast_with_their_registered_index() {
    let mut reg = SyncedEventRegister::new();
    reg.register_event(21);
    reg.register_event(22);
    let mut out = Vec::new();
    host_broadcast_event(true, &reg, 22, &"payload".to_string(), &mut out);
    assert!(matches!(
        &out[0],
        OutboundMsg::ToAll(P2PData::EventSync(1, p)) if p == "payload"
    ));
    host_broadcast_event(false, &reg, 22, &"payload".to_string(), &mut out);
    host_broadcast_event(true, &reg, 99, &"payload".to_string(), &mut out);
    assert_eq!(out.len(), 1);
}

#[test]
fn a_reported_close_forgets_the_connection_and_stops_sends() {
    let mut tr = easy_p2p::transport::FirestoreWebRtcTransport::new();
    tr.sig.is_host = true;
    let id = easy_p2p::ids::ConnectionId(1);
    tr.conns.create_answer(id);
    tr.conns.note_channel_open(id);
    tr.sig.host_connection_to_client_id.push((1, 42));
    tr.sig.joined_clients.push(42);

    let mut cmds = Vec::new();
    tr.send_to_all("frame".to_string(), &mut cmds);
    assert_eq!(cmds.len(), 1);

    // the peer connection drops; the record is forgotten and no later
    // send targets the dead channel
    tr.conns.note_channel_closed(id);
    let mut cmds = Vec::new();
    tr.send_to_all("frame".to_string(), &mut cmds);
    assert!(cmds.is_empty());

    let mut up = Vec::new();
    tr.on_connection_closed(id, &mut up);
    assert!(!tr.conns.has_connection(id));
    assert!(tr.sig.joined_clients.is_empty());
    assert!(matches!(
        &up[0],
        easy_p2p::transport::TransportUpstream::RosterChanged { connected } if connected.is_empty()
    ));
    let mut cmds = Vec::new();
    tr.send_to_host("frame".to_string(), &mut cmds);
    tr.send_to_all("frame".to_string(), &mut cmds);
    assert!(cmds.is_empty());
}
