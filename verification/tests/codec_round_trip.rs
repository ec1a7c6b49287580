use easy_p2p::codec::{decode_msg, encode_msg};
use easy_p2p::ids::NetworkedId;
use easy_p2p::messages::{InstantiationDataNet, NetTransform, P2PData, PlayerInfo};

fn round_trip(m: P2PData) {
    let text = encode_msg(&m);
    let back = decode_msg(text.as_str());
    assert_eq!(back, Some(m));
}

#[test]
fn chat_round_trip() {
    round_trip(P2PData::ClientLobbyChatMessage(
        "hi".to_string(),
        NetworkedId::ClientId(7),
    ));
    round_trip(P2PData::ClientLobbyChatMessage(
        "".to_string(),
        NetworkedId::Host,
    ));
}

#[test]
fn chat_with_delimiters_round_trip() {
    // the payload may contain every character the format itself uses
    round_trip(P2PData::ClientLobbyChatMessage(
        "0:1:C H \\ \" 99:".to_string(),
        NetworkedId::ClientId(0),
    ));
}

#[test]
fn chat_with_unicode_round_trip() {
    round_trip(P2PData::ClientLobbyChatMessage(
        "héllo wörld — ünïcôdé ✓".to_string(),
        NetworkedId::ClientId(u64::MAX),
    ));
}

#[test]
fn input_round_trip() {
    round_trip(P2PData::ClientInput("{\"steer\":-1}".to_string()));
}

#[test]
fn data_update_round_trip() {
    round_trip(P2PData::ClientDataUpdate("player-blob".to_string()));
}

#[test]
fn roster_round_trip() {
    round_trip(P2PData::HostLobbyInfoUpdate(vec![
        PlayerInfo {
            id: NetworkedId::Host,
            data: "host data".to_string(),
        },
        PlayerInfo {
            id: NetworkedId::ClientId(42),
            data: "".to_string(),
        },
        PlayerInfo {
            id: NetworkedId::ClientId(1),
            data: "third:entry".to_string(),
        },
    ]));
}

#[test]
fn empty_roster_round_trip() {
    round_trip(P2PData::HostLobbyInfoUpdate(vec![]));
}

#[test]
fn state_sync_round_trip() {
    round_trip(P2PData::StateSync(0, "\"Racing\"".to_string()));
    round_trip(P2PData::StateSync(255, "x".to_string()));
}

#[test]
fn event_sync_round_trip() {
    round_trip(P2PData::EventSync(3, "[1,2,3]".to_string()));
}

#[test]
fn instantiation_round_trip() {
    round_trip(P2PData::HostInstantiation(InstantiationDataNet {
        transform: NetTransform {
            translation: [0x3f800000, 0, 0x40000000],
            rotation: [0, 0, 0, 0x3f800000],
            scale: [0x3f800000, 0x3f800000, 0x3f800000],
        },
        instantiation: "kart".to_string(),
    }));
}

#[test]
fn ping_round_trip() {
    round_trip(P2PData::PingRequest(0));
    round_trip(P2PData::PingRequest(123456789));
    round_trip(P2PData::PingRequest(u64::MAX));
}

#[test]
fn exact_encoding_of_ping() {
    // tag 7, then the stamp's digits closed by a colon
    let text = encode_msg(&P2PData::PingRequest(1500));
    assert_eq!(text, "71500:");
}

#[test]
fn exact_encoding_of_chat() {
    // tag 0, length-prefixed text, then the sender identity
    let text = encode_msg(&P2PData::ClientLobbyChatMessage(
        "hi".to_string(),
        NetworkedId::ClientId(7),
    ));
    assert_eq!(text, "02:hiC7:");
}

#[test]
fn malformed_frames_decode_to_nothing() {
    assert_eq!(decode_msg(""), None);
    assert_eq!(decode_msg("9"), None); // unknown tag
    assert_eq!(decode_msg("x"), None);
    assert_eq!(decode_msg("7"), None); // ping with no number
    assert_eq!(decode_msg("7:"), None); // number with no digits
    assert_eq!(decode_msg("75"), None); // number without its colon
    assert_eq!(decode_msg("05:hi"), None); // text shorter than its length
    assert_eq!(decode_msg("02:hiC7:extra"), None); // trailing garbage
    assert_eq!(decode_msg("02:hiX7:"), None); // bad identity letter
    assert_eq!(decode_msg("718446744073709551616:"), None); // number too big
    assert_eq!(decode_msg("4256:x1:y"), None); // sync index above one byte
}

#[test]
fn leading_zeros_parse() {
    // decoding is defensive, not strict: a zero-padded number still reads
    assert_eq!(decode_msg("7007:"), Some(P2PData::PingRequest(7)));
}
