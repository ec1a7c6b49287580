//! The signaling client: SDP blobs are exchanged between peers with no
//! direct channel yet, through a shared room document polled over HTTP.
//!
//! The document holds two maps, offers and answers, keyed by client id.
//! The host answers every offer it has not answered yet; a client publishes
//! one offer and applies the answer keyed by its id exactly once. Fetching
//! is rate limited: one fetch in flight at a time, a steady minimum
//! interval, and an extended backoff while the room does not exist yet.
//! The runtime performs the actual HTTP calls and hands the outcomes back
//! in; everything decided about them is decided here.

use vstd::prelude::*;

use crate::codec::{spec_digit_char, spec_digits};
use crate::ids::ConnectionId;

use crate::session::EasyP2PState;

verus! {

/// Minimum interval between two document fetches, in milliseconds.
pub const FETCH_INTERVAL_MS: u64 = 500;

/// Extra wait after learning the room does not exist yet, in milliseconds.
pub const NOT_FOUND_BACKOFF_MS: u64 = 1500;

/// The room document's content, as plain values: the two maps as ordered
/// key-value lists.
pub struct RoomDoc {
    pub offers: Vec<(u64, String)>,
    pub answers: Vec<(u64, String)>,
}

/// What one document fetch or room write came back as.
pub enum FetchResult {
    /// The room-creation write completed.
    Created,
    /// The room does not exist yet.
    NotFound,
    /// The room document, fetched whole.
    Doc(RoomDoc),
    /// The fetch failed; it will be retried on a later cycle.
    Failed,
}

/// What the signaling layer wants done next.
#[derive(Debug)]
pub enum SignalingAction {
    /// Begin the offerer flow on a new connection.
    CreateOffer { id: ConnectionId },
    /// Begin the answerer flow on a new connection against a remote offer.
    CreateAnswer { id: ConnectionId, remote_sdp: String },
    /// Apply an answer as the remote description of the offer connection.
    SetRemote { id: ConnectionId, sdp: String },
    /// Fetch the room document.
    StartFetch,
    /// Write the room document into existence (idempotent create-if-absent).
    CreateRoom,
    /// Ensure the room exists, then publish this client's offer under its id.
    PublishOffer { client_id: u64, sdp: String },
    /// Ensure the room exists, then publish the host's answer under the
    /// offering client's id.
    PublishAnswer { client_id: u64, sdp: String },
    /// Send one text frame on one data channel.
    SendData { id: ConnectionId, text: String },
    /// Tear one real peer connection down.
    CloseConnection { id: ConnectionId },
    /// Tear every real peer connection down.
    CloseAllConnections,
}

/// Allocates connection ids, never reusing one.
pub struct ConnectionIdAllocator(pub u64);

impl ConnectionIdAllocator {
    /// No ids handed out yet.
    pub fn new() -> (r: Self)
        ensures
            r.0 == 0,
    {
        ConnectionIdAllocator(0)
    }

    /// The next unused id.
    pub fn allocate(&mut self) -> (r: ConnectionId)
        requires
            old(self).0 < u64::MAX,
        ensures
            final(self).0 == old(self).0 + 1,
            r == ConnectionId((old(self).0 + 1) as u64),
    {
        self.0 = self.0 + 1;
        ConnectionId(self.0)
    }
}

// ---------------------------------------------------------------------------
// Room codes and client ids
// ---------------------------------------------------------------------------

/// The room-code alphabet.
pub open spec fn spec_code_char(d: int) -> char {
    "ABCDEFGHIJKLMNOPQRSTUVWXYZ"@[d]
}

/// The four-letter room code a seed produces.
pub open spec fn spec_room_code(seed: u64) -> Seq<char> {
    seq![
        spec_code_char(seed as int % 26),
        spec_code_char((seed as int / 26) % 26),
        spec_code_char((seed as int / (26int * 26)) % 26),
        spec_code_char((seed as int / (26int * 26 * 26)) % 26),
    ]
}

/// Derive a four-letter room code from a seed of entropy the runtime
/// supplies.
pub fn room_code_from_seed(seed: u64) -> (code: String)
    ensures
        code@ == spec_room_code(seed),
        code@.len() == 4,
{
    let alphabet = "ABCDEFGHIJKLMNOPQRSTUVWXYZ";
    proof {
        reveal_strlit("ABCDEFGHIJKLMNOPQRSTUVWXYZ");
    }
    let mut code = String::new();
    let c0 = alphabet.substring_char((seed % 26) as usize, (seed % 26) as usize + 1);
    let d1 = ((seed / 26) % 26) as usize;
    let c1 = alphabet.substring_char(d1, d1 + 1);
    let d2 = ((seed / (26 * 26)) % 26) as usize;
    let c2 = alphabet.substring_char(d2, d2 + 1);
    let d3 = ((seed / (26 * 26 * 26)) % 26) as usize;
    let c3 = alphabet.substring_char(d3, d3 + 1);
    code.append(c0);
    code.append(c1);
    code.append(c2);
    code.append(c3);
    proof {
        assert(code@ =~= spec_room_code(seed));
    }
    code
}

/// The client-id space: the ids a client may generate for itself.
pub const CLIENT_ID_SPACE: u64 = 0x20000000000000;

/// Derive a client id from a seed of entropy the runtime supplies; ids stay
/// inside the id space so every one of them survives a round trip through
/// the document's decimal keys unchanged.
pub fn client_id_from_seed(seed: u64) -> (r: u64)
    ensures
        r == seed % CLIENT_ID_SPACE,
        r < CLIENT_ID_SPACE,
{
    seed % CLIENT_ID_SPACE
}

// ---------------------------------------------------------------------------
// Document URLs and bodies
// ---------------------------------------------------------------------------

/// Decimal text of a number, as the document's keys carry it.
pub fn u64_to_string(n: u64) -> (r: String)
    ensures
        r@ == spec_digits(n as int),
{
    let mut out = String::new();
    crate::codec::append_digits(&mut out, n);
    out
}

/// The room document's address under the document store.
pub open spec fn spec_room_doc_url(project_id: Seq<char>, room: Seq<char>) -> Seq<char> {
    "https://firestore.googleapis.com/v1/projects/"@ + project_id
        + "/databases/(default)/documents/rooms/"@ + room
}

/// Build the room document's address.
pub fn firestore_room_doc_url(project_id: &str, room: &str) -> (r: String)
    ensures
        r@ == spec_room_doc_url(project_id@, room@),
{
    let mut out = String::new();
    out.append("https://firestore.googleapis.com/v1/projects/");
    out.append(project_id);
    out.append("/databases/(default)/documents/rooms/");
    out.append(room);
    proof {
        assert(out@ =~= spec_room_doc_url(project_id@, room@));
    }
    out
}

/// The address of a masked update of one document field.
pub open spec fn spec_patch_url(project_id: Seq<char>, room: Seq<char>, mask: Seq<char>) -> Seq<
    char,
> {
    spec_room_doc_url(project_id, room) + "?updateMask.fieldPaths="@ + mask
}

/// Build the address of a masked update of one document field.
pub fn firestore_patch_url(project_id: &str, room: &str, mask: &str) -> (r: String)
    ensures
        r@ == spec_patch_url(project_id@, room@, mask@),
{
    let mut out = firestore_room_doc_url(project_id, room);
    out.append("?updateMask.fieldPaths=");
    out.append(mask);
    proof {
        assert(out@ =~= spec_patch_url(project_id@, room@, mask@));
    }
    out
}

/// The hexadecimal digit character for a value below sixteen.
pub open spec fn spec_hex_char(d: int) -> char {
    if d < 10 {
        spec_digit_char(d)
    } else if d == 10 {
        'a'
    } else if d == 11 {
        'b'
    } else if d == 12 {
        'c'
    } else if d == 13 {
        'd'
    } else if d == 14 {
        'e'
    } else {
        'f'
    }
}

/// How one character appears inside a JSON string literal: quotes and
/// backslashes are escaped, control characters become unicode escapes,
/// everything else stands for itself.
pub open spec fn spec_escape_char(c: char) -> Seq<char> {
    if c == '"' {
        seq!['\\', '"']
    } else if c == '\\' {
        seq!['\\', '\\']
    } else if (c as u32) < 32 {
        seq![
            '\\',
            'u',
            '0',
            '0',
            spec_hex_char(c as u32 as int / 16),
            spec_hex_char(c as u32 as int % 16),
        ]
    } else {
        seq![c]
    }
}

/// A whole text as it appears inside a JSON string literal.
pub open spec fn spec_json_escape(s: Seq<char>) -> Seq<char>
    decreases s.len(),
{
    if s.len() == 0 {
        Seq::<char>::empty()
    } else {
        spec_escape_char(s[0]) + spec_json_escape(s.drop_first())
    }
}

/// One more character extends the escaped text.
proof fn lemma_json_escape_push(s: Seq<char>, c: char)
    ensures
        spec_json_escape(s.push(c)) == spec_json_escape(s) + spec_escape_char(c),
    decreases s.len(),
{
    if s.len() == 0 {
        reveal_with_fuel(spec_json_escape, 3);
        assert(s.push(c)[0] == c);
        assert(s.push(c).drop_first() =~= Seq::<char>::empty());
        assert(spec_json_escape(s.push(c)) =~= spec_json_escape(s) + spec_escape_char(c));
    } else {
        assert(s.push(c)[0] == s[0]);
        assert(s.push(c).drop_first() =~= s.drop_first().push(c));
        lemma_json_escape_push(s.drop_first(), c);
        assert(spec_json_escape(s.push(c)) =~= spec_json_escape(s) + spec_escape_char(c));
    }
}

/// The literal holding one hexadecimal digit.
fn hex_digit(d: u32) -> (r: &'static str)
    requires
        d < 16,
    ensures
        r@ == seq![spec_hex_char(d as int)],
{
    proof {
        reveal_strlit("0");
        reveal_strlit("1");
        reveal_strlit("2");
        reveal_strlit("3");
        reveal_strlit("4");
        reveal_strlit("5");
        reveal_strlit("6");
        reveal_strlit("7");
        reveal_strlit("8");
        reveal_strlit("9");
        reveal_strlit("a");
        reveal_strlit("b");
        reveal_strlit("c");
        reveal_strlit("d");
        reveal_strlit("e");
        reveal_strlit("f");
    }
    let r = if d == 0 {
        "0"
    } else if d == 1 {
        "1"
    } else if d == 2 {
        "2"
    } else if d == 3 {
        "3"
    } else if d == 4 {
        "4"
    } else if d == 5 {
        "5"
    } else if d == 6 {
        "6"
    } else if d == 7 {
        "7"
    } else if d == 8 {
        "8"
    } else if d == 9 {
        "9"
    } else if d == 10 {
        "a"
    } else if d == 11 {
        "b"
    } else if d == 12 {
        "c"
    } else if d == 13 {
        "d"
    } else if d == 14 {
        "e"
    } else {
        "f"
    };
    proof {
        assert(r@ =~= seq![spec_hex_char(d as int)]);
    }
    r
}

/// Append `s` as it must appear inside a JSON string literal.
fn append_json_escaped(out: &mut String, s: &str)
    ensures
        final(out)@ == old(out)@ + spec_json_escape(s@),
{
    let slen = s.unicode_len();
    let ghost start = out@;
    let mut i: usize = 0;
    proof {
        assert(s@.take(0) =~= Seq::<char>::empty());
    }
    while i < slen
        invariant
            i <= slen,
            slen == s@.len(),
            out@ == start + spec_json_escape(s@.take(i as int)),
        decreases slen - i,
    {
        let c = s.get_char(i);
        let u = c as u32;
        if c == '"' {
            proof {
                reveal_strlit("\\\"");
            }
            out.append("\\\"");
            proof {
                assert("\\\""@ =~= spec_escape_char('"'));
            }
        } else if c == '\\' {
            proof {
                reveal_strlit("\\\\");
            }
            out.append("\\\\");
            proof {
                assert("\\\\"@ =~= spec_escape_char('\\'));
            }
        } else if u < 32 {
            proof {
                reveal_strlit("\\u00");
            }
            out.append("\\u00");
            out.append(hex_digit(u / 16));
            out.append(hex_digit(u % 16));
            proof {
                assert("\\u00"@ + seq![spec_hex_char(u as int / 16)] + seq![
                    spec_hex_char(u as int % 16),
                ] =~= spec_escape_char(c));
            }
        } else {
            let piece = s.substring_char(i, i + 1);
            out.append(piece);
            proof {
                assert(piece@ =~= spec_escape_char(c));
            }
        }
        proof {
            assert(s@.take(i + 1) =~= s@.take(i as int).push(s@[i as int]));
            lemma_json_escape_push(s@.take(i as int), s@[i as int]);
            assert(out@ =~= start + spec_json_escape(s@.take(i + 1)));
        }
        i = i + 1;
    }
    proof {
        assert(s@.take(slen as int) =~= s@);
    }
}

/// The idempotent create-if-absent body of the room document: both maps,
/// empty.
pub open spec fn spec_room_create_body() -> Seq<char> {
    "{\"fields\":{\"offers\":{\"mapValue\":{\"fields\":{}}},\"answers\":{\"mapValue\":{\"fields\":{}}}}}"@
}

/// Build the create-if-absent body of the room document.
pub fn room_create_body() -> (r: String)
    ensures
        r@ == spec_room_create_body(),
{
    let mut out = String::new();
    out.append(
        "{\"fields\":{\"offers\":{\"mapValue\":{\"fields\":{}}},\"answers\":{\"mapValue\":{\"fields\":{}}}}}",
    );
    proof {
        assert(out@ =~= spec_room_create_body());
    }
    out
}

/// The body of a masked update writing `sdp` under `client_id` into the
/// named map of the room document.
pub open spec fn spec_sdp_patch_body(field: Seq<char>, client_id: u64, sdp: Seq<char>) -> Seq<
    char,
> {
    "{\"fields\":{\""@ + field + "\":{\"mapValue\":{\"fields\":{\""@ + spec_digits(
        client_id as int,
    ) + "\":{\"stringValue\":\""@ + spec_json_escape(sdp) + "\"}}}}}}"@
}

/// Build the body that publishes one SDP under one client id into one of
/// the document's maps.
fn sdp_patch_body(field: &str, client_id: u64, sdp: &str) -> (r: String)
    ensures
        r@ == spec_sdp_patch_body(field@, client_id, sdp@),
{
    let mut out = String::new();
    out.append("{\"fields\":{\"");
    out.append(field);
    out.append("\":{\"mapValue\":{\"fields\":{\"");
    crate::codec::append_digits(&mut out, client_id);
    out.append("\":{\"stringValue\":\"");
    append_json_escaped(&mut out, sdp);
    out.append("\"}}}}}}");
    proof {
        assert(out@ =~= spec_sdp_patch_body(field@, client_id, sdp@));
    }
    out
}

/// Build the body that publishes a client's offer.
pub fn offer_patch_body(client_id: u64, sdp: &str) -> (r: String)
    ensures
        r@ == spec_sdp_patch_body("offers"@, client_id, sdp@),
{
    sdp_patch_body("offers", client_id, sdp)
}

/// Build the body that publishes the host's answer to one client.
pub fn answer_patch_body(client_id: u64, sdp: &str) -> (r: String)
    ensures
        r@ == spec_sdp_patch_body("answers"@, client_id, sdp@),
{
    sdp_patch_body("answers", client_id, sdp)
}

// ---------------------------------------------------------------------------
// The signaling state machine
// ---------------------------------------------------------------------------

/// Everything the signaling client remembers between ticks, including the
/// fetch gate that rate-limits document polling.
pub struct SignalingState {
    pub room_code: String,
    pub is_host: bool,
    /// Client ids the host has already answered; each key of the offers map
    /// is answered at most once.
    pub answered_clients: Vec<u64>,
    /// Client ids whose data channel has opened, as the transport reports
    /// the connected set.
    pub joined_clients: Vec<u64>,
    /// This client's own generated id, while joining or joined.
    pub client_id: Option<u64>,
    /// The answer keyed by this client's id has been applied; it is applied
    /// exactly once.
    pub client_answer_applied: bool,
    /// The connection carrying this client's offer.
    pub offer_conn: Option<ConnectionId>,
    /// The host's connection-to-client-id attribution, used to route sends
    /// and attribute incoming data.
    pub host_connection_to_client_id: Vec<(u64, u64)>,
    /// A join was requested and the offer has not been created yet.
    pub client_join_pending: bool,
    /// This client already surfaced its joined/entered events.
    pub client_emitted_join: bool,
    /// A document fetch is outstanding; never start a second one.
    pub in_flight: bool,
    /// No fetch before this instant.
    pub next_allowed_fetch_at_ms: u64,
    /// The room's absence has been noted once already.
    pub not_found_logged: bool,
    /// The host's own room-creation write completed; hosts withhold all
    /// polling until then.
    pub room_exists: bool,
}

/// Is `x` one of the listed ids?
pub open spec fn spec_listed(xs: Seq<u64>, x: u64) -> bool {
    exists|k: int| 0 <= k < xs.len() && xs[k] == x
}

/// Is `x` one of the listed ids?
pub fn listed(xs: &Vec<u64>, x: u64) -> (r: bool)
    ensures
        r == spec_listed(xs@, x),
{
    let mut k: usize = 0;
    while k < xs.len()
        invariant
            k <= xs@.len(),
            forall|j: int| 0 <= j < k ==> xs@[j] != x,
        decreases xs@.len() - k,
    {
        if xs[k] == x {
            return true;
        }
        k = k + 1;
    }
    false
}

/// The value under the first occurrence of `key`, if any.
pub open spec fn spec_lookup(entries: Seq<(u64, String)>, key: u64) -> Option<String>
    decreases entries.len(),
{
    if entries.len() == 0 {
        None
    } else if entries[0].0 == key {
        Some(entries[0].1)
    } else {
        spec_lookup(entries.drop_first(), key)
    }
}

/// What answering a run of offers does: each offer whose client id has not
/// been answered yet gets a fresh connection, an answer action, a mark in
/// the answered set and an attribution entry; the rest are skipped. With
/// the id space exhausted nothing further is taken on.
pub open spec fn spec_apply_offers(
    answered: Seq<u64>,
    mapping: Seq<(u64, u64)>,
    next: u64,
    actions: Seq<SignalingAction>,
    offers: Seq<(u64, String)>,
) -> (Seq<u64>, Seq<(u64, u64)>, u64, Seq<SignalingAction>)
    decreases offers.len(),
{
    if offers.len() == 0 {
        (answered, mapping, next, actions)
    } else {
        let cid = offers[0].0;
        let sdp = offers[0].1;
        if spec_listed(answered, cid) || next == u64::MAX {
            spec_apply_offers(answered, mapping, next, actions, offers.drop_first())
        } else {
            spec_apply_offers(
                answered.push(cid),
                mapping.push((((next + 1) as u64), cid)),
                (next + 1) as u64,
                actions.push(
                    SignalingAction::CreateAnswer {
                        id: ConnectionId((next + 1) as u64),
                        remote_sdp: sdp,
                    },
                ),
                offers.drop_first(),
            )
        }
    }
}

/// What one look at the answers map does on a client: whether the applied
/// flag ends up set, the allocator afterwards, and the actions produced.
/// The answer under this client's id is applied at most once, to the offer
/// connection when one is remembered, else to a freshly allocated one.
pub open spec fn spec_answer_step(
    applied: bool,
    client_id: Option<u64>,
    offer_conn: Option<ConnectionId>,
    next: u64,
    answers: Seq<(u64, String)>,
) -> (bool, u64, Seq<SignalingAction>) {
    match client_id {
        Some(cid) => if !applied {
            match spec_lookup(answers, cid) {
                Some(sdp) => match offer_conn {
                    Some(conn) => (
                        true,
                        next,
                        seq![SignalingAction::SetRemote { id: conn, sdp }],
                    ),
                    None => if next < u64::MAX {
                        (
                            true,
                            (next + 1) as u64,
                            seq![
                                SignalingAction::SetRemote {
                                    id: ConnectionId((next + 1) as u64),
                                    sdp,
                                },
                            ],
                        )
                    } else {
                        (false, next, Seq::<SignalingAction>::empty())
                    },
                },
                None => (applied, next, Seq::<SignalingAction>::empty()),
            }
        } else {
            (true, next, Seq::<SignalingAction>::empty())
        },
        None => (applied, next, Seq::<SignalingAction>::empty()),
    }
}

/// What the pending-join check does: the join flags, the offer connection,
/// the allocator, and the actions produced — one offer connection is
/// created exactly when a client's join is still pending.
pub struct JoinOfferStep {
    pub pending: bool,
    pub emitted: bool,
    pub offer_conn: Option<ConnectionId>,
    pub next: u64,
    pub actions: Seq<SignalingAction>,
}

/// The pending-join transition itself.
pub open spec fn spec_join_offer_step(
    pending: bool,
    is_host: bool,
    emitted: bool,
    offer_conn: Option<ConnectionId>,
    next: u64,
) -> JoinOfferStep {
    if pending && !is_host && next < u64::MAX {
        JoinOfferStep {
            pending: false,
            emitted: false,
            offer_conn: Some(ConnectionId((next + 1) as u64)),
            next: (next + 1) as u64,
            actions: seq![
                SignalingAction::CreateOffer { id: ConnectionId((next + 1) as u64) },
            ],
        }
    } else {
        JoinOfferStep {
            pending,
            emitted,
            offer_conn,
            next,
            actions: Seq::<SignalingAction>::empty(),
        }
    }
}

impl SignalingState {
    /// Out of any room: no role, no ids, the fetch gate at rest.
    pub open spec fn is_reset(self) -> bool {
        &&& self.room_code@ == Seq::<char>::empty()
        &&& !self.is_host
        &&& self.answered_clients@ == Seq::<u64>::empty()
        &&& self.joined_clients@ == Seq::<u64>::empty()
        &&& self.client_id is None
        &&& !self.client_answer_applied
        &&& self.offer_conn is None
        &&& self.host_connection_to_client_id@ == Seq::<(u64, u64)>::empty()
        &&& !self.client_join_pending
        &&& !self.client_emitted_join
        &&& !self.in_flight
        &&& self.next_allowed_fetch_at_ms == 0
        &&& !self.not_found_logged
        &&& !self.room_exists
    }

    /// A fresh signaling client.
    pub fn new() -> (r: Self)
        ensures
            r.is_reset(),
    {
        SignalingState {
            room_code: String::new(),
            is_host: false,
            answered_clients: Vec::new(),
            joined_clients: Vec::new(),
            client_id: None,
            client_answer_applied: false,
            offer_conn: None,
            host_connection_to_client_id: Vec::new(),
            client_join_pending: false,
            client_emitted_join: false,
            in_flight: false,
            next_allowed_fetch_at_ms: 0,
            not_found_logged: false,
            room_exists: false,
        }
    }

    /// Leave the room: forget every role, id, attribution and the fetch
    /// gate, so nothing of this session leaks into the next.
    pub fn reset(&mut self)
        ensures
            final(self).is_reset(),
    {
        self.room_code = String::new();
        self.is_host = false;
        self.answered_clients = Vec::new();
        self.joined_clients = Vec::new();
        self.client_id = None;
        self.client_answer_applied = false;
        self.offer_conn = None;
        self.host_connection_to_client_id = Vec::new();
        self.client_join_pending = false;
        self.client_emitted_join = false;
        self.in_flight = false;
        self.next_allowed_fetch_at_ms = 0;
        self.not_found_logged = false;
        self.room_exists = false;
    }

    /// Become the host of `room`: polling stays withheld until the room
    /// creation write completes.
    pub fn on_create_request(&mut self, room: String)
        ensures
            final(self).room_code == room,
            final(self).is_host,
            final(self).answered_clients@ == Seq::<u64>::empty(),
            !final(self).room_exists,
            final(self).joined_clients == old(self).joined_clients,
            final(self).client_id == old(self).client_id,
            final(self).client_answer_applied == old(self).client_answer_applied,
            final(self).offer_conn == old(self).offer_conn,
            final(self).host_connection_to_client_id == old(self).host_connection_to_client_id,
            final(self).client_join_pending == old(self).client_join_pending,
            final(self).client_emitted_join == old(self).client_emitted_join,
            final(self).in_flight == old(self).in_flight,
            final(self).next_allowed_fetch_at_ms == old(self).next_allowed_fetch_at_ms,
            final(self).not_found_logged == old(self).not_found_logged,
    {
        self.room_code = room;
        self.is_host = true;
        self.answered_clients = Vec::new();
        self.room_exists = false;
    }

    /// Become a client of `room` under a generated id; the offer waits
    /// until a poll sees the room existing.
    pub fn on_join_request(&mut self, room: String, client_id: u64)
        ensures
            final(self).room_code == room,
            !final(self).is_host,
            final(self).client_id == Some(client_id),
            !final(self).client_answer_applied,
            final(self).client_join_pending,
            final(self).answered_clients == old(self).answered_clients,
            final(self).joined_clients == old(self).joined_clients,
            final(self).offer_conn == old(self).offer_conn,
            final(self).host_connection_to_client_id == old(self).host_connection_to_client_id,
            final(self).client_emitted_join == old(self).client_emitted_join,
            final(self).in_flight == old(self).in_flight,
            final(self).next_allowed_fetch_at_ms == old(self).next_allowed_fetch_at_ms,
            final(self).not_found_logged == old(self).not_found_logged,
            final(self).room_exists == old(self).room_exists,
    {
        self.room_code = room;
        self.is_host = false;
        self.client_id = Some(client_id);
        self.client_answer_applied = false;
        self.client_join_pending = true;
    }

    /// On the host, answer every offer not yet answered: a fresh connection
    /// per new offer, its client id marked answered and attributed.
    pub fn apply_offers_on_host(
        &mut self,
        alloc: &mut ConnectionIdAllocator,
        offers: &Vec<(u64, String)>,
        actions: &mut Vec<SignalingAction>,
    )
        ensures
            ({
                let (answered, mapping, next, acts) = spec_apply_offers(
                    old(self).answered_clients@,
                    old(self).host_connection_to_client_id@,
                    old(alloc).0,
                    old(actions)@,
                    offers@,
                );
                &&& final(self).answered_clients@ == answered
                &&& final(self).host_connection_to_client_id@ == mapping
                &&& final(alloc).0 == next
                &&& final(actions)@ == acts
            }),
            final(self).room_code == old(self).room_code,
            final(self).is_host == old(self).is_host,
            final(self).joined_clients == old(self).joined_clients,
            final(self).client_id == old(self).client_id,
            final(self).client_answer_applied == old(self).client_answer_applied,
            final(self).offer_conn == old(self).offer_conn,
            final(self).client_join_pending == old(self).client_join_pending,
            final(self).client_emitted_join == old(self).client_emitted_join,
            final(self).in_flight == old(self).in_flight,
            final(self).next_allowed_fetch_at_ms == old(self).next_allowed_fetch_at_ms,
            final(self).not_found_logged == old(self).not_found_logged,
            final(self).room_exists == old(self).room_exists,
    {
        let mut k: usize = 0;
        proof {
            assert(offers@.skip(0) =~= offers@);
        }
        while k < offers.len()
            invariant
                k <= offers@.len(),
                spec_apply_offers(
                    self.answered_clients@,
                    self.host_connection_to_client_id@,
                    alloc.0,
                    actions@,
                    offers@.skip(k as int),
                ) == spec_apply_offers(
                    old(self).answered_clients@,
                    old(self).host_connection_to_client_id@,
                    old(alloc).0,
                    old(actions)@,
                    offers@,
                ),
                self.room_code == old(self).room_code,
                self.is_host == old(self).is_host,
                self.joined_clients == old(self).joined_clients,
                self.client_id == old(self).client_id,
                self.client_answer_applied == old(self).client_answer_applied,
                self.offer_conn == old(self).offer_conn,
                self.client_join_pending == old(self).client_join_pending,
                self.client_emitted_join == old(self).client_emitted_join,
                self.in_flight == old(self).in_flight,
                self.next_allowed_fetch_at_ms == old(self).next_allowed_fetch_at_ms,
                self.not_found_logged == old(self).not_found_logged,
                self.room_exists == old(self).room_exists,
            decreases offers@.len() - k,
        {
            let ghost pre = offers@.skip(k as int);
            proof {
                assert(pre[0] == offers@[k as int]);
                assert(pre.drop_first() =~= offers@.skip(k + 1));
            }
            let cid = offers[k].0;
            if !listed(&self.answered_clients, cid) && alloc.0 < u64::MAX {
                let id = alloc.allocate();
                actions.push(
                    SignalingAction::CreateAnswer { id, remote_sdp: offers[k].1.clone() },
                );
                self.answered_clients.push(cid);
                self.host_connection_to_client_id.push((id.0, cid));
            }
            k = k + 1;
        }
        proof {
            assert(offers@.skip(offers@.len() as int) =~= Seq::<(u64, String)>::empty());
        }
    }

    /// On a client that has not applied its answer yet, look this client's
    /// id up in the answers map; when present, apply it to the offer
    /// connection exactly once. Applying the same answers a second time has
    /// no additional effect: the applied flag prevents re-application.
    pub fn apply_answer_on_client(
        &mut self,
        alloc: &mut ConnectionIdAllocator,
        answers: &Vec<(u64, String)>,
        actions: &mut Vec<SignalingAction>,
    )
        ensures
            old(self).client_answer_applied ==> *final(self) == *old(self) && final(actions)@
                == old(actions)@ && final(alloc).0 == old(alloc).0,
            ({
                let step = spec_answer_step(
                    old(self).client_answer_applied,
                    old(self).client_id,
                    old(self).offer_conn,
                    old(alloc).0,
                    answers@,
                );
                &&& final(self).client_answer_applied == step.0
                &&& final(alloc).0 == step.1
                &&& final(actions)@ == old(actions)@ + step.2
            }),
            ({
                let already = old(self).client_answer_applied;
                match old(self).client_id {
                    Some(cid) => if !already {
                        match spec_lookup(answers@, cid) {
                            Some(sdp) => match old(self).offer_conn {
                                Some(conn) => final(self).client_answer_applied && final(actions)@ == old(actions)@.push(
                                    SignalingAction::SetRemote { id: conn, sdp },
                                ) && final(alloc).0 == old(alloc).0 && final(self).offer_conn
                                    == old(self).offer_conn,
                                None => if old(alloc).0 < u64::MAX {
                                    final(self).client_answer_applied && final(actions)@ == old(actions)@.push(
                                        SignalingAction::SetRemote {
                                            id: ConnectionId((old(alloc).0 + 1) as u64),
                                            sdp,
                                        },
                                    ) && final(alloc).0 == old(alloc).0 + 1
                                } else {
                                    !final(self).client_answer_applied && final(actions)@ == old(actions)@ && final(alloc).0 == old(alloc).0
                                },
                            },
                            None => final(self).client_answer_applied == already && final(actions)@ == old(actions)@ && final(alloc).0 == old(alloc).0 && final(self).offer_conn == old(self).offer_conn,
                        }
                    } else {
                        final(self).client_answer_applied && final(actions)@ == old(actions)@
                            && final(alloc).0 == old(alloc).0 && final(self).offer_conn == old(self).offer_conn
                    },
                    None => final(self).client_answer_applied == already && final(actions)@
                        == old(actions)@ && final(alloc).0 == old(alloc).0 && final(self).offer_conn == old(self).offer_conn,
                }
            }),
            final(self).room_code == old(self).room_code,
            final(self).is_host == old(self).is_host,
            final(self).answered_clients == old(self).answered_clients,
            final(self).joined_clients == old(self).joined_clients,
            final(self).client_id == old(self).client_id,
            final(self).offer_conn == old(self).offer_conn,
            final(self).host_connection_to_client_id == old(self).host_connection_to_client_id,
            final(self).client_join_pending == old(self).client_join_pending,
            final(self).client_emitted_join == old(self).client_emitted_join,
            final(self).in_flight == old(self).in_flight,
            final(self).next_allowed_fetch_at_ms == old(self).next_allowed_fetch_at_ms,
            final(self).not_found_logged == old(self).not_found_logged,
            final(self).room_exists == old(self).room_exists,
    {
        proof {
            assert(old(actions)@ + Seq::<SignalingAction>::empty() =~= old(actions)@);
        }
        let cid = match self.client_id {
            Some(c) => c,
            None => {
                return ;
            },
        };
        if self.client_answer_applied {
            return ;
        }
        let mut k: usize = 0;
        while k < answers.len()
            invariant
                k <= answers@.len(),
                forall|j: int| 0 <= j < k ==> answers@[j].0 != cid,
                *self == *old(self),
                actions@ == old(actions)@,
                alloc.0 == old(alloc).0,
                self.client_id == Some(cid),
                !self.client_answer_applied,
            decreases answers@.len() - k,
        {
            if answers[k].0 == cid {
                proof {
                    lemma_lookup_first(answers@, cid, k as int);
                }
                let sdp = answers[k].1.clone();
                let target = match self.offer_conn {
                    Some(conn) => conn,
                    None => {
                        if alloc.0 < u64::MAX {
                            alloc.allocate()
                        } else {
                            proof {
                                assert(old(actions)@ + Seq::<SignalingAction>::empty() =~= old(actions)@);
                            }
                            return ;
                        }
                    },
                };
                actions.push(SignalingAction::SetRemote { id: target, sdp });
                self.client_answer_applied = true;
                proof {
                    assert(actions@ =~= old(actions)@ + seq![
                        SignalingAction::SetRemote { id: target, sdp: answers@[k as int].1 },
                    ]);
                }
                return ;
            }
            k = k + 1;
        }
        proof {
            lemma_lookup_none(answers@, cid);
            assert(old(actions)@ + Seq::<SignalingAction>::empty() =~= old(actions)@);
        }
    }
}

impl SignalingState {
    /// A client whose join is pending creates its single offer connection
    /// once a poll has observed the room; joined/entered stay withheld
    /// until the data channel opens.
    pub fn maybe_start_client_offer(
        &mut self,
        alloc: &mut ConnectionIdAllocator,
        actions: &mut Vec<SignalingAction>,
    )
        ensures
            ({
                let step = spec_join_offer_step(
                    old(self).client_join_pending,
                    old(self).is_host,
                    old(self).client_emitted_join,
                    old(self).offer_conn,
                    old(alloc).0,
                );
                &&& final(self).client_join_pending == step.pending
                &&& final(self).client_emitted_join == step.emitted
                &&& final(self).offer_conn == step.offer_conn
                &&& final(alloc).0 == step.next
                &&& final(actions)@ == old(actions)@ + step.actions
            }),
            ({
                let go = old(self).client_join_pending && !old(self).is_host && old(alloc).0
                    < u64::MAX;
                if go {
                    &&& !final(self).client_join_pending
                    &&& !final(self).client_emitted_join
                    &&& final(self).offer_conn == Some(ConnectionId((old(alloc).0 + 1) as u64))
                    &&& final(alloc).0 == old(alloc).0 + 1
                    &&& final(actions)@ == old(actions)@.push(
                        SignalingAction::CreateOffer {
                            id: ConnectionId((old(alloc).0 + 1) as u64),
                        },
                    )
                } else {
                    &&& *final(self) == *old(self)
                    &&& final(alloc).0 == old(alloc).0
                    &&& final(actions)@ == old(actions)@
                }
            }),
            final(self).room_code == old(self).room_code,
            final(self).is_host == old(self).is_host,
            final(self).answered_clients == old(self).answered_clients,
            final(self).joined_clients == old(self).joined_clients,
            final(self).client_id == old(self).client_id,
            final(self).client_answer_applied == old(self).client_answer_applied,
            final(self).host_connection_to_client_id == old(self).host_connection_to_client_id,
            final(self).in_flight == old(self).in_flight,
            final(self).next_allowed_fetch_at_ms == old(self).next_allowed_fetch_at_ms,
            final(self).not_found_logged == old(self).not_found_logged,
            final(self).room_exists == old(self).room_exists,
    {
        if self.client_join_pending && !self.is_host && alloc.0 < u64::MAX {
            self.client_join_pending = false;
            self.client_emitted_join = false;
            let id = alloc.allocate();
            self.offer_conn = Some(id);
            actions.push(SignalingAction::CreateOffer { id });
            proof {
                assert(actions@ =~= old(actions)@ + seq![
                    SignalingAction::CreateOffer { id },
                ]);
            }
        } else {
            proof {
                assert(old(actions)@ + Seq::<SignalingAction>::empty() =~= old(actions)@);
            }
        }
    }

    /// Take in one completed room write or document fetch. A completed
    /// room-creation write lifts the host's polling embargo; a not-found
    /// response extends the backoff instead of being an error; a failed
    /// fetch is simply retried on a later cycle; a fetched document is
    /// applied by role — the host answers new offers, a client applies the
    /// answer under its id once and creates its single offer if its join
    /// was still pending.
    pub fn on_fetch_result(
        &mut self,
        alloc: &mut ConnectionIdAllocator,
        now_ms: u64,
        result: FetchResult,
    ) -> (actions: Vec<SignalingAction>)
        ensures
            !final(self).in_flight,
            final(self).is_host == old(self).is_host,
            final(self).room_code == old(self).room_code,
            final(self).client_id == old(self).client_id,
            final(self).next_allowed_fetch_at_ms >= old(self).next_allowed_fetch_at_ms,
            old(self).room_exists ==> final(self).room_exists,
            final(self).joined_clients == old(self).joined_clients,
            match result {
                FetchResult::Created => {
                    &&& final(self).room_exists
                    &&& actions@ == Seq::<SignalingAction>::empty()
                    &&& final(alloc).0 == old(alloc).0
                    &&& final(self).next_allowed_fetch_at_ms == old(self).next_allowed_fetch_at_ms
                    &&& final(self).answered_clients == old(self).answered_clients
                    &&& final(self).host_connection_to_client_id == old(
                        self,
                    ).host_connection_to_client_id
                    &&& final(self).client_answer_applied == old(self).client_answer_applied
                    &&& final(self).client_join_pending == old(self).client_join_pending
                    &&& final(self).client_emitted_join == old(self).client_emitted_join
                    &&& final(self).offer_conn == old(self).offer_conn
                },
                FetchResult::NotFound => {
                    &&& final(self).next_allowed_fetch_at_ms == (if old(self).next_allowed_fetch_at_ms < now_ms + NOT_FOUND_BACKOFF_MS {
                        if now_ms <= u64::MAX - NOT_FOUND_BACKOFF_MS {
                            (now_ms + NOT_FOUND_BACKOFF_MS) as u64
                        } else {
                            u64::MAX
                        }
                    } else {
                        old(self).next_allowed_fetch_at_ms
                    })
                    &&& final(self).not_found_logged
                    &&& actions@ == Seq::<SignalingAction>::empty()
                    &&& final(alloc).0 == old(alloc).0
                    &&& final(self).room_exists == old(self).room_exists
                    &&& final(self).answered_clients == old(self).answered_clients
                    &&& final(self).host_connection_to_client_id == old(
                        self,
                    ).host_connection_to_client_id
                    &&& final(self).client_answer_applied == old(self).client_answer_applied
                    &&& final(self).client_join_pending == old(self).client_join_pending
                    &&& final(self).client_emitted_join == old(self).client_emitted_join
                    &&& final(self).offer_conn == old(self).offer_conn
                },
                FetchResult::Failed => {
                    &&& actions@ == Seq::<SignalingAction>::empty()
                    &&& final(alloc).0 == old(alloc).0
                    &&& final(self).next_allowed_fetch_at_ms == old(self).next_allowed_fetch_at_ms
                    &&& final(self).answered_clients == old(self).answered_clients
                    &&& final(self).host_connection_to_client_id == old(
                        self,
                    ).host_connection_to_client_id
                    &&& final(self).client_answer_applied == old(self).client_answer_applied
                    &&& final(self).client_join_pending == old(self).client_join_pending
                    &&& final(self).client_emitted_join == old(self).client_emitted_join
                    &&& final(self).offer_conn == old(self).offer_conn
                    &&& final(self).room_exists == old(self).room_exists
                },
                FetchResult::Doc(doc) => {
                    &&& (old(self).is_host ==> ({
                        let (answered, mapping, next, acts) = spec_apply_offers(
                            old(self).answered_clients@,
                            old(self).host_connection_to_client_id@,
                            old(alloc).0,
                            Seq::<SignalingAction>::empty(),
                            doc.offers@,
                        );
                        &&& final(self).answered_clients@ == answered
                        &&& final(self).host_connection_to_client_id@ == mapping
                        &&& final(alloc).0 == next
                        &&& actions@ == acts
                        &&& final(self).client_answer_applied == old(self).client_answer_applied
                        &&& final(self).client_join_pending == old(self).client_join_pending
                        &&& final(self).client_emitted_join == old(self).client_emitted_join
                        &&& final(self).offer_conn == old(self).offer_conn
                        &&& final(self).room_exists == old(self).room_exists
                        &&& final(self).next_allowed_fetch_at_ms == old(
                            self,
                        ).next_allowed_fetch_at_ms
                    }))
                    &&& (!old(self).is_host ==> ({
                        let a = spec_answer_step(
                            old(self).client_answer_applied,
                            old(self).client_id,
                            old(self).offer_conn,
                            old(alloc).0,
                            doc.answers@,
                        );
                        let j = spec_join_offer_step(
                            old(self).client_join_pending,
                            old(self).is_host,
                            old(self).client_emitted_join,
                            old(self).offer_conn,
                            a.1,
                        );
                        &&& final(self).client_answer_applied == a.0
                        &&& final(self).client_join_pending == j.pending
                        &&& final(self).client_emitted_join == j.emitted
                        &&& final(self).offer_conn == j.offer_conn
                        &&& final(alloc).0 == j.next
                        &&& actions@ == a.2 + j.actions
                        &&& final(self).answered_clients == old(self).answered_clients
                        &&& final(self).host_connection_to_client_id == old(self).host_connection_to_client_id
                        &&& final(self).room_exists == old(self).room_exists
                        &&& final(self).next_allowed_fetch_at_ms == old(
                            self,
                        ).next_allowed_fetch_at_ms
                    }))
                },
            },
    {
        self.in_flight = false;
        let mut actions: Vec<SignalingAction> = Vec::new();
        match result {
            FetchResult::Created => {
                self.room_exists = true;
            },
            FetchResult::NotFound => {
                let backoff = if now_ms <= u64::MAX - NOT_FOUND_BACKOFF_MS {
                    now_ms + NOT_FOUND_BACKOFF_MS
                } else {
                    u64::MAX
                };
                if self.next_allowed_fetch_at_ms < backoff {
                    self.next_allowed_fetch_at_ms = backoff;
                }
                self.not_found_logged = true;
            },
            FetchResult::Failed => {},
            FetchResult::Doc(doc) => {
                if self.is_host {
                    self.apply_offers_on_host(alloc, &doc.offers, &mut actions);
                } else {
                    self.apply_answer_on_client(alloc, &doc.answers, &mut actions);
                    let ghost a = spec_answer_step(
                        old(self).client_answer_applied,
                        old(self).client_id,
                        old(self).offer_conn,
                        old(alloc).0,
                        doc.answers@,
                    );
                    proof {
                        assert(actions@ =~= a.2);
                    }
                    self.maybe_start_client_offer(alloc, &mut actions);
                    proof {
                        let j = spec_join_offer_step(
                            old(self).client_join_pending,
                            old(self).is_host,
                            old(self).client_emitted_join,
                            old(self).offer_conn,
                            a.1,
                        );
                        assert(actions@ =~= a.2 + j.actions);
                    }
                }
            },
        }
        actions
    }

    /// Decide whether to fetch the document now, and if so occupy the
    /// single fetch slot and schedule the next cycle: never with a fetch
    /// outstanding, never before the allowed instant, never without a room,
    /// and on the host never before its own room-creation write completed.
    pub fn should_start_fetch(&mut self, now_ms: u64) -> (start: bool)
        ensures
            start == (old(self).room_code@.len() > 0 && !old(self).in_flight && now_ms >= old(self).next_allowed_fetch_at_ms && (!old(self).is_host || old(self).room_exists)),
            start ==> final(self).in_flight && final(self).next_allowed_fetch_at_ms == (if now_ms
                <= u64::MAX - FETCH_INTERVAL_MS {
                (now_ms + FETCH_INTERVAL_MS) as u64
            } else {
                u64::MAX
            }) && final(self).room_code == old(self).room_code && final(self).is_host == old(self).is_host && final(self).answered_clients == old(self).answered_clients && final(self).joined_clients == old(self).joined_clients && final(self).client_id == old(self).client_id && final(self).client_answer_applied == old(self).client_answer_applied
                && final(self).offer_conn == old(self).offer_conn && final(self).host_connection_to_client_id == old(self).host_connection_to_client_id && final(self).client_join_pending == old(self).client_join_pending && final(self).client_emitted_join == old(self).client_emitted_join && final(self).not_found_logged
                == old(self).not_found_logged && final(self).room_exists == old(self).room_exists,
            !start ==> *final(self) == *old(self),
    {
        if self.room_code.as_str().unicode_len() == 0 {
            return false;
        }
        if self.in_flight || now_ms < self.next_allowed_fetch_at_ms {
            return false;
        }
        if self.is_host && !self.room_exists {
            return false;
        }
        self.in_flight = true;
        self.next_allowed_fetch_at_ms = if now_ms <= u64::MAX - FETCH_INTERVAL_MS {
            now_ms + FETCH_INTERVAL_MS
        } else {
            u64::MAX
        };
        true
    }

    /// A connection's local description is ready: a client remembers its
    /// offer connection and publishes the offer under its id; the host
    /// publishes the answer under the client id attributed to that
    /// connection.
    pub fn on_local_sdp_ready(
        &mut self,
        id: ConnectionId,
        sdp: &String,
        actions: &mut Vec<SignalingAction>,
    )
        ensures
            final(self).offer_conn == (if !old(self).is_host && old(self).offer_conn is None {
                Some(id)
            } else {
                old(self).offer_conn
            }),
            ({
                let client_publishes = old(self).room_code@.len() > 0 && !old(self).is_host
                    && old(self).client_id is Some;
                let host_key = spec_mapping_lookup(
                    old(self).host_connection_to_client_id@,
                    id.0,
                );
                if client_publishes {
                    final(actions)@ == old(actions)@.push(
                        SignalingAction::PublishOffer {
                            client_id: old(self).client_id->0,
                            sdp: *sdp,
                        },
                    )
                } else if old(self).is_host && host_key is Some {
                    final(actions)@ == old(actions)@.push(
                        SignalingAction::PublishAnswer { client_id: host_key->0, sdp: *sdp },
                    )
                } else {
                    final(actions)@ == old(actions)@
                }
            }),
            final(self).room_code == old(self).room_code,
            final(self).is_host == old(self).is_host,
            final(self).answered_clients == old(self).answered_clients,
            final(self).joined_clients == old(self).joined_clients,
            final(self).client_id == old(self).client_id,
            final(self).client_answer_applied == old(self).client_answer_applied,
            final(self).host_connection_to_client_id == old(self).host_connection_to_client_id,
            final(self).client_join_pending == old(self).client_join_pending,
            final(self).client_emitted_join == old(self).client_emitted_join,
            final(self).in_flight == old(self).in_flight,
            final(self).next_allowed_fetch_at_ms == old(self).next_allowed_fetch_at_ms,
            final(self).not_found_logged == old(self).not_found_logged,
            final(self).room_exists == old(self).room_exists,
    {
        if !self.is_host && self.offer_conn.is_none() {
            self.offer_conn = Some(id);
        }
        if self.room_code.as_str().unicode_len() > 0 && !self.is_host {
            match &self.client_id {
                Some(cid) => {
                    actions.push(
                        SignalingAction::PublishOffer { client_id: *cid, sdp: sdp.clone() },
                    );
                },
                None => {},
            }
        } else if self.is_host {
            match mapping_lookup(&self.host_connection_to_client_id, id.0) {
                Some(client_id) => {
                    actions.push(
                        SignalingAction::PublishAnswer { client_id, sdp: sdp.clone() },
                    );
                },
                None => {},
            }
        }
    }
}

/// The value under the first occurrence of `key` in the attribution list.
pub open spec fn spec_mapping_lookup(entries: Seq<(u64, u64)>, key: u64) -> Option<u64>
    decreases entries.len(),
{
    if entries.len() == 0 {
        None
    } else if entries[0].0 == key {
        Some(entries[0].1)
    } else {
        spec_mapping_lookup(entries.drop_first(), key)
    }
}

/// Look a connection's client id up in the attribution list.
pub fn mapping_lookup(entries: &Vec<(u64, u64)>, key: u64) -> (r: Option<u64>)
    ensures
        r == spec_mapping_lookup(entries@, key),
{
    let mut k: usize = 0;
    while k < entries.len()
        invariant
            k <= entries@.len(),
            forall|j: int| 0 <= j < k ==> entries@[j].0 != key,
        decreases entries@.len() - k,
    {
        if entries[k].0 == key {
            proof {
                lemma_mapping_lookup_first(entries@, key, k as int);
            }
            return Some(entries[k].1);
        }
        k = k + 1;
    }
    proof {
        lemma_mapping_lookup_none(entries@, key);
    }
    None
}

/// If the first `k` keys differ and key `k` matches, the lookup yields
/// entry `k`'s value.
proof fn lemma_mapping_lookup_first(entries: Seq<(u64, u64)>, key: u64, k: int)
    requires
        0 <= k < entries.len(),
        entries[k].0 == key,
        forall|j: int| 0 <= j < k ==> entries[j].0 != key,
    ensures
        spec_mapping_lookup(entries, key) == Some(entries[k].1),
    decreases k,
{
    if k > 0 {
        assert forall|j: int| 0 <= j < k - 1 implies entries.drop_first()[j].0 != key by {
            assert(entries[j + 1].0 != key);
        }
        assert(entries.drop_first()[k - 1] == entries[k]);
        lemma_mapping_lookup_first(entries.drop_first(), key, k - 1);
    }
}

/// With no key matching, the lookup yields nothing.
proof fn lemma_mapping_lookup_none(entries: Seq<(u64, u64)>, key: u64)
    requires
        forall|j: int| 0 <= j < entries.len() ==> entries[j].0 != key,
    ensures
        spec_mapping_lookup(entries, key) is None,
    decreases entries.len(),
{
    if entries.len() > 0 {
        assert forall|j: int| 0 <= j < entries.len() - 1 implies entries.drop_first()[j].0
            != key by {
            assert(entries[j + 1].0 != key);
        }
        lemma_mapping_lookup_none(entries.drop_first(), key);
    }
}

/// If the first `k` keys differ and key `k` matches, the lookup yields
/// entry `k`'s value.
proof fn lemma_lookup_first(entries: Seq<(u64, String)>, key: u64, k: int)
    requires
        0 <= k < entries.len(),
        entries[k].0 == key,
        forall|j: int| 0 <= j < k ==> entries[j].0 != key,
    ensures
        spec_lookup(entries, key) == Some(entries[k].1),
    decreases k,
{
    if k > 0 {
        assert forall|j: int| 0 <= j < k - 1 implies entries.drop_first()[j].0 != key by {
            assert(entries[j + 1].0 != key);
        }
        assert(entries.drop_first()[k - 1] == entries[k]);
        lemma_lookup_first(entries.drop_first(), key, k - 1);
    }
}

/// With no key matching, the lookup yields nothing.
proof fn lemma_lookup_none(entries: Seq<(u64, String)>, key: u64)
    requires
        forall|j: int| 0 <= j < entries.len() ==> entries[j].0 != key,
    ensures
        spec_lookup(entries, key) is None,
    decreases entries.len(),
{
    if entries.len() > 0 {
        assert forall|j: int| 0 <= j < entries.len() - 1 implies entries.drop_first()[j].0
            != key by {
            assert(entries[j + 1].0 != key);
        }
        lemma_lookup_none(entries.drop_first(), key);
    }
}

} // verus!
