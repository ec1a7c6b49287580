use easy_p2p::registry::{SyncRegistry, SyncedEventRegister, SyncedStateRegister};
use easy_p2p::updates::{EasyP2PUpdate, EasyP2PUpdateQueue};

#[test]
fn registering_twice_yields_the_same_index() {
    let mut reg = SyncRegistry::new();
    let first = reg.register(0xabc);
    let second = reg.register(0xabc);
    assert_eq!(first, Some(0));
    assert_eq!(second, Some(0));
    assert_eq!(reg.len(), 1);
}

#[test]
fn indices_are_assigned_in_registration_order() {
    let mut reg = SyncRegistry::new();
    let keys = [900u64, 7, 1000, 3, 500];
    for (i, key) in keys.iter().enumerate() {
        assert_eq!(reg.register(*key), Some(i as u8));
    }
    // re-registration anywhere in the run is a no-op
    for (i, key) in keys.iter().enumerate() {
        assert_eq!(reg.register(*key), Some(i as u8));
        assert_eq!(reg.index_of(*key), Some(i as u8));
    }
    assert_eq!(reg.len(), keys.len());
}

#[test]
fn unknown_key_has_no_index() {
    let mut reg = SyncRegistry::new();
    reg.register(1);
    assert_eq!(reg.index_of(2), None);
}

#[test]
fn a_full_table_refuses_new_keys_but_keeps_old_ones() {
    let mut reg = SyncRegistry::new();
    for k in 0..256u64 {
        assert_eq!(reg.register(k), Some(k as u8));
    }
    assert_eq!(reg.register(999), None);
    assert_eq!(reg.len(), 256);
    assert_eq!(reg.register(17), Some(17));
}

#[test]
fn state_and_event_registers_are_independent() {
    let mut states = SyncedStateRegister::new();
    let mut events = SyncedEventRegister::new();
    assert_eq!(states.register_state(5), Some(0));
    assert_eq!(events.register_event(5), Some(0));
    assert_eq!(states.register_state(6), Some(1));
    assert_eq!(events.register_event(7), Some(1));
}

#[test]
fn update_queue_preserves_order_and_drains_completely() {
    let mut q = EasyP2PUpdateQueue::new();
    q.push(EasyP2PUpdate::HostChat {
        text: "a".to_string(),
    });
    q.push(EasyP2PUpdate::ClientChat {
        client_id: 9,
        text: "b".to_string(),
    });
    assert_eq!(q.len(), 2);
    let drained = q.drain();
    assert_eq!(drained.len(), 2);
    assert!(matches!(&drained[0], EasyP2PUpdate::HostChat { text } if text == "a"));
    assert!(
        matches!(&drained[1], EasyP2PUpdate::ClientChat { client_id: 9, text } if text == "b")
    );
    assert_eq!(q.len(), 0);
    assert_eq!(q.drain().len(), 0);
}

#[test]
fn update_queue_clear_drops_everything() {
    let mut q = EasyP2PUpdateQueue::new();
    q.push(EasyP2PUpdate::LobbyCreated {
        code: "AAAA".to_string(),
    });
    q.clear();
    assert_eq!(q.drain().len(), 0);
}
