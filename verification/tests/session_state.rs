use easy_p2p::api::{EasyP2P, EasyP2PTransportIo};
use easy_p2p::ids::{ExitReason, NetworkedId};
use easy_p2p::messages::{NetTransform, PlayerInfo};
use easy_p2p::session::{EasyP2PState, P2PLobbyState};
use easy_p2p::updates::{EasyP2PUpdate, EasyP2PUpdateQueue};

#[test]
fn lobby_lifecycle_transitions() {
    let mut s = EasyP2PState::new();
    let mut q = EasyP2PUpdateQueue::new();
    assert_eq!(s.phase, P2PLobbyState::OutOfLobby);

    s.on_lobby_created("ABCD".to_string(), &mut q);
    assert!(s.is_host);
    assert_eq!(s.lobby_code, "ABCD");

    s.on_lobby_entered("ABCD".to_string(), &mut q);
    assert_eq!(s.phase, P2PLobbyState::InLobby);

    let drained = q.drain();
    assert!(matches!(&drained[0], EasyP2PUpdate::LobbyCreated { code } if code == "ABCD"));
    assert!(matches!(&drained[1], EasyP2PUpdate::LobbyEntered { code } if code == "ABCD"));

    s.on_exit_request(&mut q);
    assert!(!s.is_host);
    assert_eq!(s.lobby_code, "");
    assert!(s.players.is_empty());
    assert_eq!(s.phase, P2PLobbyState::OutOfLobby);
}

#[test]
fn external_exit_resets_and_reports_the_reason() {
    let mut s = EasyP2PState::new();
    let mut q = EasyP2PUpdateQueue::new();
    s.on_lobby_joined("WXYZ".to_string(), &mut q);
    s.on_lobby_entered("WXYZ".to_string(), &mut q);
    s.players.push(PlayerInfo {
        id: NetworkedId::ClientId(1),
        data: "x".to_string(),
    });
    // stale events are cleared; only the exit survives into the next drain
    s.on_external_exit(ExitReason::Kicked, &mut q);
    let drained = q.drain();
    assert_eq!(drained.len(), 1);
    assert!(matches!(
        drained[0],
        EasyP2PUpdate::LobbyExited {
            reason: ExitReason::Kicked
        }
    ));
    assert!(s.players.is_empty());
    assert_eq!(s.phase, P2PLobbyState::OutOfLobby);
}

#[test]
fn get_players_prepends_the_host_entry_only_when_asked() {
    let mut s = EasyP2PState::new();
    s.local_player_data = "me".to_string();
    s.players.push(PlayerInfo {
        id: NetworkedId::ClientId(5),
        data: "them".to_string(),
    });
    let with_host = s.get_players(true);
    assert_eq!(with_host.len(), 2);
    assert_eq!(with_host[0].id, NetworkedId::Host);
    assert_eq!(with_host[0].data, "me");
    let without = s.get_players(false);
    assert_eq!(without.len(), 1);
    assert_eq!(without[0].id, NetworkedId::ClientId(5));
}

#[test]
fn inputs_stay_local_on_the_host_and_upload_from_a_client() {
    let mut easy = EasyP2P::new();
    easy.state.is_host = true;
    easy.send_inputs("left".to_string());
    let drained = easy.read_updates();
    assert!(matches!(
        &drained[0],
        EasyP2PUpdate::ClientInput { sender: NetworkedId::Host, input } if input == "left"
    ));
    assert!(easy.send_host_reqs.is_empty());

    let mut easy = EasyP2P::new();
    easy.send_inputs("right".to_string());
    assert_eq!(easy.send_host_reqs.len(), 1);
    assert_eq!(easy.read_updates().len(), 0);
}

#[test]
fn instantiate_broadcasts_only_from_the_host() {
    let t = NetTransform {
        translation: [0, 0, 0],
        rotation: [0, 0, 0, 0],
        scale: [0, 0, 0],
    };
    let mut easy = EasyP2P::new();
    easy.state.is_host = true;
    easy.instantiate("kart".to_string(), t);
    assert_eq!(easy.send_all_reqs.len(), 1);
    assert_eq!(easy.get_instantiations().len(), 1);
    assert_eq!(easy.get_instantiations().len(), 0);

    let mut easy = EasyP2P::new();
    easy.instantiate("kart".to_string(), t);
    assert!(easy.send_all_reqs.is_empty());
    assert_eq!(easy.get_instantiations().len(), 1);
}

#[test]
fn local_player_data_routes_by_role() {
    let mut easy = EasyP2P::new();
    easy.state.is_host = true;
    easy.set_local_player_data("host-me".to_string());
    assert_eq!(easy.get_local_player_data(), "host-me");
    // the host rebroadcasts its roster and surfaces it locally
    assert_eq!(easy.send_all_reqs.len(), 1);
    assert_eq!(easy.read_updates().len(), 1);

    let mut easy = EasyP2P::new();
    easy.set_local_player_data("client-me".to_string());
    assert_eq!(easy.send_host_reqs.len(), 1);
    assert_eq!(easy.read_updates().len(), 0);
}

#[test]
fn player_data_is_looked_up_by_identity() {
    let mut easy = EasyP2P::new();
    easy.state.is_host = true;
    easy.state.local_player_data = "mine".to_string();
    easy.state.players.push(PlayerInfo {
        id: NetworkedId::ClientId(3),
        data: "theirs".to_string(),
    });
    assert_eq!(easy.get_player_data(NetworkedId::Host), "mine");
    assert_eq!(easy.get_player_data(NetworkedId::ClientId(3)), "theirs");
}

#[test]
fn requests_pass_through_the_transport_mailbox() {
    let mut easy = EasyP2P::new();
    let mut io = EasyP2PTransportIo::new();
    easy.create_lobby(&mut io);
    easy.join_lobby(&mut io, "ABCD");
    easy.kick(&mut io, 9);
    easy.exit_lobby(&mut io);
    assert_eq!(io.take_create_requests(), 1);
    assert_eq!(io.take_join_requests(), vec!["ABCD".to_string()]);
    assert_eq!(io.take_kick_requests(), vec![9]);
    assert_eq!(io.take_exit_requests(), 1);
    // taken exactly once
    assert_eq!(io.take_create_requests(), 0);
    assert_eq!(io.take_join_requests().len(), 0);
}
