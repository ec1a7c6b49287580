use easy_p2p::connection::{ConnectionManager, TransportEvent};
use easy_p2p::ids::ConnectionId;

fn open_index(events: &[TransportEvent], id: ConnectionId) -> Option<usize> {
    events
        .iter()
        .position(|e| matches!(e, TransportEvent::ConnectionOpen(x) if *x == id))
}

#[test]
fn open_is_delivered_before_any_incoming_data() {
    let mut mgr = ConnectionManager::new();
    let id = ConnectionId(1);
    mgr.create_offer(id);
    // the channel opens and a frame arrives between ticks
    mgr.note_channel_open(id);
    mgr.note_message(id, "first".to_string());
    mgr.note_message(id, "second".to_string());
    let events = mgr.poll();
    let open_at = open_index(&events, id).expect("open surfaced");
    for (k, e) in events.iter().enumerate() {
        if let TransportEvent::IncomingData { id: did, .. } = e {
            assert_eq!(*did, id);
            assert!(open_at < k, "data surfaced before the open signal");
        }
    }
    // per-connection arrival order is preserved
    let texts: Vec<&str> = events
        .iter()
        .filter_map(|e| match e {
            TransportEvent::IncomingData { text, .. } => Some(text.as_str()),
            _ => None,
        })
        .collect();
    assert_eq!(texts, ["first", "second"]);
}

#[test]
fn data_arriving_before_open_waits_for_the_open_signal() {
    let mut mgr = ConnectionManager::new();
    let id = ConnectionId(2);
    mgr.create_answer(id);
    mgr.note_message(id, "early".to_string());
    let events = mgr.poll();
    assert!(events.is_empty(), "no data may be surfaced before the open");
    mgr.note_channel_open(id);
    let events = mgr.poll();
    assert!(matches!(events[0], TransportEvent::ConnectionOpen(x) if x == id));
    assert!(
        matches!(&events[1], TransportEvent::IncomingData { text, .. } if text == "early")
    );
}

#[test]
fn events_are_never_duplicated_across_polls() {
    let mut mgr = ConnectionManager::new();
    let id = ConnectionId(3);
    mgr.create_offer(id);
    mgr.note_channel_open(id);
    mgr.note_local_sdp(id, "sdp".to_string());
    mgr.note_message(id, "msg".to_string());
    let first = mgr.poll();
    assert_eq!(first.len(), 3);
    let second = mgr.poll();
    assert!(second.is_empty());
}

#[test]
fn closed_connections_are_forgotten_and_late_results_discarded() {
    let mut mgr = ConnectionManager::new();
    let id = ConnectionId(4);
    mgr.create_offer(id);
    mgr.close_connection(id);
    assert!(!mgr.has_connection(id));
    // a late completion finds no record to land in
    mgr.note_message(id, "late".to_string());
    mgr.note_channel_open(id);
    assert!(mgr.poll().is_empty());
}

#[test]
fn close_all_forgets_everything() {
    let mut mgr = ConnectionManager::new();
    mgr.create_offer(ConnectionId(1));
    mgr.create_answer(ConnectionId(2));
    mgr.close_all();
    assert!(!mgr.has_connection(ConnectionId(1)));
    assert!(!mgr.has_connection(ConnectionId(2)));
}

#[test]
fn sends_are_allowed_only_while_the_channel_is_open() {
    let mut mgr = ConnectionManager::new();
    let id = ConnectionId(5);
    mgr.create_offer(id);
    assert!(!mgr.can_send(id));
    mgr.note_channel_open(id);
    assert!(mgr.can_send(id));
    assert!(!mgr.can_send(ConnectionId(99)));
    // a reported close ends sendability at once, before any poll
    mgr.note_channel_closed(id);
    assert!(!mgr.can_send(id));
}

#[test]
fn closed_signal_is_surfaced() {
    let mut mgr = ConnectionManager::new();
    let id = ConnectionId(6);
    mgr.create_offer(id);
    mgr.note_channel_open(id);
    mgr.poll();
    mgr.note_channel_closed(id);
    let events = mgr.poll();
    assert!(matches!(events[0], TransportEvent::ConnectionClosed(x) if x == id));
}

#[test]
fn local_sdp_ready_carries_the_description() {
    let mut mgr = ConnectionManager::new();
    let id = ConnectionId(7);
    mgr.create_answer(id);
    mgr.note_local_sdp(id, "v=0 answer".to_string());
    let events = mgr.poll();
    assert!(matches!(
        &events[0],
        TransportEvent::LocalSdpReady { id: x, sdp } if *x == id && sdp == "v=0 answer"
    ));
}
