use easy_p2p::ids::ConnectionId;
use easy_p2p::signaling::{
    answer_patch_body, client_id_from_seed, firestore_patch_url, firestore_room_doc_url,
    offer_patch_body, room_code_from_seed, room_create_body, u64_to_string,
    ConnectionIdAllocator, FetchResult, RoomDoc, SignalingAction, SignalingState,
    FETCH_INTERVAL_MS, NOT_FOUND_BACKOFF_MS,
};

#[test]
fn room_codes_are_four_uppercase_letters() {
    for seed in [0u64, 1, 25, 26, 456975, u64::MAX] {
        let code = room_code_from_seed(seed);
        assert_eq!(code.chars().count(), 4);
        assert!(code.chars().all(|c| c.is_ascii_uppercase()));
    }
    assert_eq!(room_code_from_seed(0), "AAAA");
    assert_eq!(room_code_from_seed(1), "BAAA");
    assert_eq!(room_code_from_seed(26), "ABAA");
}

#[test]
fn client_ids_stay_in_the_id_space() {
    assert_eq!(client_id_from_seed(5), 5);
    assert!(client_id_from_seed(u64::MAX) < 0x20000000000000);
}

#[test]
fn document_urls_are_exact() {
    assert_eq!(
        firestore_room_doc_url("p2p-relay", "ABCD"),
        "https://firestore.googleapis.com/v1/projects/p2p-relay/databases/(default)/documents/rooms/ABCD"
    );
    assert_eq!(
        firestore_patch_url("p2p-relay", "ABCD", "offers"),
        "https://firestore.googleapis.com/v1/projects/p2p-relay/databases/(default)/documents/rooms/ABCD?updateMask.fieldPaths=offers"
    );
}

#[test]
fn patch_bodies_are_exact_and_escaped() {
    assert_eq!(
        room_create_body(),
        "{\"fields\":{\"offers\":{\"mapValue\":{\"fields\":{}}},\"answers\":{\"mapValue\":{\"fields\":{}}}}}"
    );
    assert_eq!(
        offer_patch_body(7, "v=0"),
        "{\"fields\":{\"offers\":{\"mapValue\":{\"fields\":{\"7\":{\"stringValue\":\"v=0\"}}}}}}"
    );
    // quotes, backslashes and control characters survive as JSON escapes
    assert_eq!(
        answer_patch_body(12, "a\"b\\c\nd"),
        "{\"fields\":{\"answers\":{\"mapValue\":{\"fields\":{\"12\":{\"stringValue\":\"a\\\"b\\\\c\\u000ad\"}}}}}}"
    );
}

#[test]
fn decimal_text_is_exact() {
    assert_eq!(u64_to_string(0), "0");
    assert_eq!(u64_to_string(90210), "90210");
    assert_eq!(u64_to_string(u64::MAX), "18446744073709551615");
}

#[test]
fn no_fetch_without_a_room() {
    let mut sig = SignalingState::new();
    assert!(!sig.should_start_fetch(10_000));
}

#[test]
fn host_withholds_polling_until_its_room_exists() {
    let mut sig = SignalingState::new();
    sig.on_create_request("ABCD".to_string());
    assert!(!sig.should_start_fetch(10_000));
    let mut alloc = ConnectionIdAllocator::new();
    let acts = sig.on_fetch_result(&mut alloc, 10_000, FetchResult::Created);
    assert!(acts.is_empty());
    assert!(sig.should_start_fetch(10_000));
}

#[test]
fn a_single_fetch_is_outstanding_at_a_time() {
    let mut sig = SignalingState::new();
    sig.on_join_request("ABCD".to_string(), 7);
    assert!(sig.should_start_fetch(1_000));
    // while in flight, and before the interval, nothing starts
    assert!(!sig.should_start_fetch(1_000));
    assert!(!sig.should_start_fetch(1_000 + FETCH_INTERVAL_MS));
    let mut alloc = ConnectionIdAllocator::new();
    sig.on_fetch_result(&mut alloc, 1_100, FetchResult::Failed);
    // the slot is free again, but the steady interval still applies
    assert!(!sig.should_start_fetch(1_100));
    assert!(sig.should_start_fetch(1_000 + FETCH_INTERVAL_MS));
}

#[test]
fn not_found_extends_the_backoff() {
    let mut sig = SignalingState::new();
    sig.on_join_request("ABCD".to_string(), 7);
    assert!(sig.should_start_fetch(1_000));
    let mut alloc = ConnectionIdAllocator::new();
    let acts = sig.on_fetch_result(&mut alloc, 1_200, FetchResult::NotFound);
    assert!(acts.is_empty());
    assert!(!sig.should_start_fetch(1_200 + FETCH_INTERVAL_MS));
    assert!(!sig.should_start_fetch(1_200 + NOT_FOUND_BACKOFF_MS - 1));
    assert!(sig.should_start_fetch(1_200 + NOT_FOUND_BACKOFF_MS));
}

#[test]
fn client_publishes_exactly_one_offer_once_the_room_exists() {
    // a client polls a room that does not exist yet: no connection attempt
    // proceeds; once a poll observes the room, exactly one offer is created
    let mut sig = SignalingState::new();
    let mut alloc = ConnectionIdAllocator::new();
    sig.on_join_request("ABCD".to_string(), 7);
    let acts = sig.on_fetch_result(&mut alloc, 1_000, FetchResult::NotFound);
    assert!(acts.is_empty());
    assert_eq!(alloc.0, 0);
    let doc = RoomDoc {
        offers: vec![],
        answers: vec![],
    };
    let acts = sig.on_fetch_result(&mut alloc, 3_000, FetchResult::Doc(doc));
    assert_eq!(acts.len(), 1);
    assert!(matches!(
        acts[0],
        SignalingAction::CreateOffer {
            id: ConnectionId(1)
        }
    ));
    // a later document does not create a second offer
    let doc = RoomDoc {
        offers: vec![],
        answers: vec![],
    };
    let acts = sig.on_fetch_result(&mut alloc, 3_500, FetchResult::Doc(doc));
    assert!(acts.is_empty());
    assert_eq!(alloc.0, 1);
}

#[test]
fn host_answers_each_offer_exactly_once() {
    let mut sig = SignalingState::new();
    let mut alloc = ConnectionIdAllocator::new();
    sig.on_create_request("ABCD".to_string());
    sig.on_fetch_result(&mut alloc, 0, FetchResult::Created);
    let doc = RoomDoc {
        offers: vec![(7, "sdp-seven".to_string()), (9, "sdp-nine".to_string())],
        answers: vec![],
    };
    let acts = sig.on_fetch_result(&mut alloc, 500, FetchResult::Doc(doc));
    assert_eq!(acts.len(), 2);
    assert!(matches!(
        &acts[0],
        SignalingAction::CreateAnswer { id: ConnectionId(1), remote_sdp } if remote_sdp == "sdp-seven"
    ));
    assert!(matches!(
        &acts[1],
        SignalingAction::CreateAnswer { id: ConnectionId(2), remote_sdp } if remote_sdp == "sdp-nine"
    ));
    // the same offers again: both already answered, nothing new
    let doc = RoomDoc {
        offers: vec![(7, "sdp-seven".to_string()), (9, "sdp-nine".to_string())],
        answers: vec![],
    };
    let acts = sig.on_fetch_result(&mut alloc, 1_000, FetchResult::Doc(doc));
    assert!(acts.is_empty());
    assert_eq!(alloc.0, 2);
}

#[test]
fn an_answer_is_applied_exactly_once() {
    // idempotence: applying the same answer document a second time has no
    // additional effect — the applied flag prevents re-application
    let mut sig = SignalingState::new();
    let mut alloc = ConnectionIdAllocator::new();
    sig.on_join_request("ABCD".to_string(), 7);
    let doc = RoomDoc {
        offers: vec![],
        answers: vec![],
    };
    sig.on_fetch_result(&mut alloc, 0, FetchResult::Doc(doc));
    // the offer connection exists; now the answer appears
    let doc = RoomDoc {
        offers: vec![],
        answers: vec![(7, "sdp-answer".to_string())],
    };
    let acts = sig.on_fetch_result(&mut alloc, 600, FetchResult::Doc(doc));
    assert_eq!(acts.len(), 1);
    assert!(matches!(
        &acts[0],
        SignalingAction::SetRemote { id: ConnectionId(1), sdp } if sdp == "sdp-answer"
    ));
    // the very same document again: no second application
    let doc = RoomDoc {
        offers: vec![],
        answers: vec![(7, "sdp-answer".to_string())],
    };
    let acts = sig.on_fetch_result(&mut alloc, 1_200, FetchResult::Doc(doc));
    assert!(acts.is_empty());
}

#[test]
fn an_answer_for_someone_else_is_ignored() {
    let mut sig = SignalingState::new();
    let mut alloc = ConnectionIdAllocator::new();
    sig.on_join_request("ABCD".to_string(), 7);
    let doc = RoomDoc {
        offers: vec![],
        answers: vec![(8, "not-mine".to_string())],
    };
    let acts = sig.on_fetch_result(&mut alloc, 600, FetchResult::Doc(doc));
    // only the pending join's own offer comes out of this poll
    assert_eq!(acts.len(), 1);
    assert!(matches!(acts[0], SignalingAction::CreateOffer { .. }));
}

#[test]
fn publishing_routes_by_role() {
    // a client publishes its offer under its own id
    let mut sig = SignalingState::new();
    let mut alloc = ConnectionIdAllocator::new();
    sig.on_join_request("ABCD".to_string(), 7);
    let doc = RoomDoc {
        offers: vec![],
        answers: vec![],
    };
    sig.on_fetch_result(&mut alloc, 0, FetchResult::Doc(doc));
    let mut acts = Vec::new();
    sig.on_local_sdp_ready(ConnectionId(1), &"my-offer".to_string(), &mut acts);
    assert_eq!(acts.len(), 1);
    assert!(matches!(
        &acts[0],
        SignalingAction::PublishOffer { client_id: 7, sdp } if sdp == "my-offer"
    ));

    // the host publishes an answer under the attributed client's id
    let mut sig = SignalingState::new();
    let mut alloc = ConnectionIdAllocator::new();
    sig.on_create_request("ABCD".to_string());
    sig.on_fetch_result(&mut alloc, 0, FetchResult::Created);
    let doc = RoomDoc {
        offers: vec![(9, "their-offer".to_string())],
        answers: vec![],
    };
    sig.on_fetch_result(&mut alloc, 500, FetchResult::Doc(doc));
    let mut acts = Vec::new();
    sig.on_local_sdp_ready(ConnectionId(1), &"my-answer".to_string(), &mut acts);
    assert_eq!(acts.len(), 1);
    assert!(matches!(
        &acts[0],
        SignalingAction::PublishAnswer { client_id: 9, sdp } if sdp == "my-answer"
    ));
}
