//! Wire codec for the message protocol.
//!
//! Each message is one text frame. The encoding is self-delimiting: numbers
//! are decimal digit runs closed by `:`, text is length-prefixed (length in
//! characters), an identity is `H` or `C` followed by a number, and a frame
//! starts with a one-character variant tag. Decoding is defensive: any
//! malformed frame decodes to nothing, and a frame must be consumed exactly.
//!
//! The round-trip law — decoding an encoded message yields the message back,
//! for every variant — is proved here as [`lemma_codec_round_trip`].

use vstd::prelude::*;
use vstd::arithmetic::div_mod::lemma_fundamental_div_mod;

use crate::ids::NetworkedId;
use crate::messages::{
    InstantiationDataNet, InstantiationDataNetView, NetTransform, NetTransformView, P2PData,
    P2PDataView, PlayerInfo, PlayerInfoView,
};

verus! {

// ---------------------------------------------------------------------------
// Spec-level encoding
// ---------------------------------------------------------------------------

/// Is `c` a decimal digit?
pub open spec fn is_dec_digit(c: char) -> bool {
    48 <= c as u32 <= 57
}

/// Numeric value of a decimal digit character.
pub open spec fn digit_val(c: char) -> int {
    c as u32 - 48
}

/// The decimal digit character for a value below ten.
pub open spec fn spec_digit_char(d: int) -> char {
    if d == 0 {
        '0'
    } else if d == 1 {
        '1'
    } else if d == 2 {
        '2'
    } else if d == 3 {
        '3'
    } else if d == 4 {
        '4'
    } else if d == 5 {
        '5'
    } else if d == 6 {
        '6'
    } else if d == 7 {
        '7'
    } else if d == 8 {
        '8'
    } else {
        '9'
    }
}

/// Decimal digit run of a non-negative number, most significant first.
pub open spec fn spec_digits(n: int) -> Seq<char>
    recommends
        n >= 0,
    decreases n,
{
    if n < 10 {
        seq![spec_digit_char(n)]
    } else {
        spec_digits(n / 10) + seq![spec_digit_char(n % 10)]
    }
}

/// Encoding of a non-negative number: its digits closed by `:`.
pub open spec fn spec_enc_num(n: int) -> Seq<char>
    recommends
        n >= 0,
{
    spec_digits(n) + seq![':']
}

/// Encoding of a piece of text: its character length, then its characters.
pub open spec fn spec_enc_str(t: Seq<char>) -> Seq<char> {
    spec_enc_num(t.len() as int) + t
}

/// Encoding of a participant identity.
pub open spec fn spec_enc_id(id: NetworkedId) -> Seq<char> {
    match id {
        NetworkedId::Host => seq!['H'],
        NetworkedId::ClientId(n) => seq!['C'] + spec_enc_num(n as int),
    }
}

/// Encoding of one roster entry.
pub open spec fn spec_enc_info(p: PlayerInfoView) -> Seq<char> {
    spec_enc_id(p.id) + spec_enc_str(p.data)
}

/// Encoding of a run of roster entries, in order.
pub open spec fn spec_enc_infos(ps: Seq<PlayerInfoView>) -> Seq<char>
    decreases ps.len(),
{
    if ps.len() == 0 {
        Seq::<char>::empty()
    } else {
        spec_enc_info(ps[0]) + spec_enc_infos(ps.drop_first())
    }
}

/// Encoding of a run of transform components, in order.
pub open spec fn spec_enc_u32s(xs: Seq<u32>) -> Seq<char>
    decreases xs.len(),
{
    if xs.len() == 0 {
        Seq::<char>::empty()
    } else {
        spec_enc_num(xs[0] as int) + spec_enc_u32s(xs.drop_first())
    }
}

/// Encoding of a transform: its ten components in a fixed order.
pub open spec fn spec_enc_transform(t: NetTransformView) -> Seq<char>
    recommends
        t.translation.len() == 3,
        t.rotation.len() == 4,
        t.scale.len() == 3,
{
    spec_enc_u32s(t.translation) + spec_enc_u32s(t.rotation) + spec_enc_u32s(t.scale)
}

/// The one-character variant tag of a message.
pub open spec fn spec_tag(m: P2PDataView) -> char {
    match m {
        P2PDataView::ClientLobbyChatMessage(_, _) => '0',
        P2PDataView::ClientInput(_) => '1',
        P2PDataView::ClientDataUpdate(_) => '2',
        P2PDataView::HostLobbyInfoUpdate(_) => '3',
        P2PDataView::StateSync(_, _) => '4',
        P2PDataView::EventSync(_, _) => '5',
        P2PDataView::HostInstantiation(_) => '6',
        P2PDataView::PingRequest(_) => '7',
    }
}

/// Encoding of a whole message: its tag, then its fields.
pub open spec fn spec_encode_msg(m: P2PDataView) -> Seq<char> {
    seq![spec_tag(m)] + match m {
        P2PDataView::ClientLobbyChatMessage(text, sender) => spec_enc_str(text) + spec_enc_id(
            sender,
        ),
        P2PDataView::ClientInput(payload) => spec_enc_str(payload),
        P2PDataView::ClientDataUpdate(payload) => spec_enc_str(payload),
        P2PDataView::HostLobbyInfoUpdate(ps) => spec_enc_num(ps.len() as int) + spec_enc_infos(ps),
        P2PDataView::StateSync(index, payload) => spec_enc_num(index as int) + spec_enc_str(
            payload,
        ),
        P2PDataView::EventSync(index, payload) => spec_enc_num(index as int) + spec_enc_str(
            payload,
        ),
        P2PDataView::HostInstantiation(d) => spec_enc_transform(d.transform) + spec_enc_str(
            d.instantiation,
        ),
        P2PDataView::PingRequest(stamp) => spec_enc_num(stamp as int),
    }
}

/// A message whose measurable parts fit the wire format: text lengths and
/// counts fit the number encoding, transforms have their ten components.
/// Every value built from executable strings and vectors satisfies this.
pub open spec fn wf_msg(m: P2PDataView) -> bool {
    match m {
        P2PDataView::ClientLobbyChatMessage(text, _) => text.len() <= u64::MAX,
        P2PDataView::ClientInput(payload) => payload.len() <= u64::MAX,
        P2PDataView::ClientDataUpdate(payload) => payload.len() <= u64::MAX,
        P2PDataView::HostLobbyInfoUpdate(ps) => ps.len() <= u64::MAX && forall|k: int|
            0 <= k < ps.len() ==> #[trigger] ps[k].data.len() <= u64::MAX,
        P2PDataView::StateSync(_, payload) => payload.len() <= u64::MAX,
        P2PDataView::EventSync(_, payload) => payload.len() <= u64::MAX,
        P2PDataView::HostInstantiation(d) => d.transform.translation.len() == 3
            && d.transform.rotation.len() == 4 && d.transform.scale.len() == 3
            && d.instantiation.len() <= u64::MAX,
        P2PDataView::PingRequest(_) => true,
    }
}

// ---------------------------------------------------------------------------
// Spec-level parsing
// ---------------------------------------------------------------------------

/// Consume a digit run and its closing `:` from position `i`, accumulating
/// the value; fails without at least one digit before the `:`.
pub open spec fn spec_parse_num_rec(s: Seq<char>, i: int, acc: int, seen: bool) -> Option<
    (int, int),
>
    decreases s.len() - i,
{
    if i < 0 || i >= s.len() {
        None
    } else if is_dec_digit(s[i]) {
        spec_parse_num_rec(s, i + 1, acc * 10 + digit_val(s[i]), true)
    } else if s[i] == ':' && seen {
        Some((acc, i + 1))
    } else {
        None
    }
}

/// Parse a number that must fit in a machine word.
pub open spec fn spec_parse_u64(s: Seq<char>, i: int) -> Option<(u64, int)> {
    match spec_parse_num_rec(s, i, 0, false) {
        Some((v, j)) => if v <= u64::MAX {
            Some((v as u64, j))
        } else {
            None
        },
        None => None,
    }
}

/// Parse a length-prefixed piece of text.
pub open spec fn spec_parse_str(s: Seq<char>, i: int) -> Option<(Seq<char>, int)> {
    match spec_parse_u64(s, i) {
        Some((n, j)) => if j + n <= s.len() {
            Some((s.subrange(j, j + n), j + n))
        } else {
            None
        },
        None => None,
    }
}

/// Parse a participant identity.
pub open spec fn spec_parse_id(s: Seq<char>, i: int) -> Option<(NetworkedId, int)> {
    if 0 <= i < s.len() && s[i] == 'H' {
        Some((NetworkedId::Host, i + 1))
    } else if 0 <= i < s.len() && s[i] == 'C' {
        match spec_parse_u64(s, i + 1) {
            Some((n, j)) => Some((NetworkedId::ClientId(n), j)),
            None => None,
        }
    } else {
        None
    }
}

/// Parse one roster entry.
pub open spec fn spec_parse_info(s: Seq<char>, i: int) -> Option<(PlayerInfoView, int)> {
    match spec_parse_id(s, i) {
        Some((id, j)) => match spec_parse_str(s, j) {
            Some((data, k)) => Some((PlayerInfoView { id, data }, k)),
            None => None,
        },
        None => None,
    }
}

/// Parse exactly `count` roster entries.
pub open spec fn spec_parse_infos(s: Seq<char>, i: int, count: int) -> Option<
    (Seq<PlayerInfoView>, int),
>
    decreases count,
{
    if count <= 0 {
        Some((Seq::<PlayerInfoView>::empty(), i))
    } else {
        match spec_parse_info(s, i) {
            Some((p, j)) => match spec_parse_infos(s, j, count - 1) {
                Some((rest, k)) => Some((seq![p] + rest, k)),
                None => None,
            },
            None => None,
        }
    }
}

/// Parse a number that must fit a transform component.
pub open spec fn spec_parse_u32(s: Seq<char>, i: int) -> Option<(u32, int)> {
    match spec_parse_u64(s, i) {
        Some((n, j)) => if n <= u32::MAX {
            Some((n as u32, j))
        } else {
            None
        },
        None => None,
    }
}

/// Parse exactly `count` transform components.
pub open spec fn spec_parse_u32s(s: Seq<char>, i: int, count: int) -> Option<(Seq<u32>, int)>
    decreases count,
{
    if count <= 0 {
        Some((Seq::<u32>::empty(), i))
    } else {
        match spec_parse_u32(s, i) {
            Some((x, j)) => match spec_parse_u32s(s, j, count - 1) {
                Some((rest, k)) => Some((seq![x] + rest, k)),
                None => None,
            },
            None => None,
        }
    }
}

/// Parse a transform: three translation, four rotation, three scale
/// components.
pub open spec fn spec_parse_transform(s: Seq<char>, i: int) -> Option<(NetTransformView, int)> {
    match spec_parse_u32s(s, i, 3) {
        Some((translation, j)) => match spec_parse_u32s(s, j, 4) {
            Some((rotation, k)) => match spec_parse_u32s(s, k, 3) {
                Some((scale, l)) => Some((NetTransformView { translation, rotation, scale }, l)),
                None => None,
            },
            None => None,
        },
        None => None,
    }
}

/// Parse the fields of a message whose tag is `tag`, starting at position 1.
pub open spec fn spec_decode_fields(s: Seq<char>, tag: char) -> Option<(P2PDataView, int)> {
    if tag == '0' {
        match spec_parse_str(s, 1) {
            Some((text, j)) => match spec_parse_id(s, j) {
                Some((sender, k)) => Some(
                    (P2PDataView::ClientLobbyChatMessage(text, sender), k),
                ),
                None => None,
            },
            None => None,
        }
    } else if tag == '1' {
        match spec_parse_str(s, 1) {
            Some((payload, j)) => Some((P2PDataView::ClientInput(payload), j)),
            None => None,
        }
    } else if tag == '2' {
        match spec_parse_str(s, 1) {
            Some((payload, j)) => Some((P2PDataView::ClientDataUpdate(payload), j)),
            None => None,
        }
    } else if tag == '3' {
        match spec_parse_u64(s, 1) {
            Some((count, j)) => match spec_parse_infos(s, j, count as int) {
                Some((ps, k)) => Some((P2PDataView::HostLobbyInfoUpdate(ps), k)),
                None => None,
            },
            None => None,
        }
    } else if tag == '4' {
        match spec_parse_u64(s, 1) {
            Some((index, j)) => if index <= u8::MAX {
                match spec_parse_str(s, j) {
                    Some((payload, k)) => Some((P2PDataView::StateSync(index as u8, payload), k)),
                    None => None,
                }
            } else {
                None
            },
            None => None,
        }
    } else if tag == '5' {
        match spec_parse_u64(s, 1) {
            Some((index, j)) => if index <= u8::MAX {
                match spec_parse_str(s, j) {
                    Some((payload, k)) => Some((P2PDataView::EventSync(index as u8, payload), k)),
                    None => None,
                }
            } else {
                None
            },
            None => None,
        }
    } else if tag == '6' {
        match spec_parse_transform(s, 1) {
            Some((transform, j)) => match spec_parse_str(s, j) {
                Some((instantiation, k)) => Some(
                    (
                        P2PDataView::HostInstantiation(
                            InstantiationDataNetView { transform, instantiation },
                        ),
                        k,
                    ),
                ),
                None => None,
            },
            None => None,
        }
    } else if tag == '7' {
        match spec_parse_u64(s, 1) {
            Some((stamp, j)) => Some((P2PDataView::PingRequest(stamp), j)),
            None => None,
        }
    } else {
        None
    }
}

/// Decode one frame: dispatch on the tag, and insist the frame is consumed
/// exactly.
pub open spec fn spec_decode_msg(s: Seq<char>) -> Option<P2PDataView> {
    if s.len() < 1 {
        None
    } else {
        match spec_decode_fields(s, s[0]) {
            Some((m, j)) => if j == s.len() {
                Some(m)
            } else {
                None
            },
            None => None,
        }
    }
}

// ---------------------------------------------------------------------------
// Round trip: decoding an encoding yields the original message
// ---------------------------------------------------------------------------

/// Left fold of a digit run into its value, starting from `acc`.
pub open spec fn val_left(ds: Seq<char>, acc: int) -> int
    decreases ds.len(),
{
    if ds.len() == 0 {
        acc
    } else {
        val_left(ds.drop_first(), acc * 10 + digit_val(ds[0]))
    }
}

/// If a slice of `s` equals the concatenation `a + b`, each part matches the
/// corresponding slice.
proof fn lemma_match_split(s: Seq<char>, i: int, a: Seq<char>, b: Seq<char>)
    requires
        0 <= i,
        i + a.len() + b.len() <= s.len(),
        s.subrange(i, i + a.len() + b.len()) == a + b,
    ensures
        s.subrange(i, i + a.len()) == a,
        s.subrange(i + a.len(), i + a.len() + b.len()) == b,
{
    assert forall|k: int| 0 <= k < a.len() implies s[i + k] == a[k] by {
        assert(s.subrange(i, i + a.len() + b.len())[k] == s[i + k]);
        assert((a + b)[k] == a[k]);
    }
    assert forall|k: int| 0 <= k < b.len() implies s[i + a.len() + k] == b[k] by {
        assert(s.subrange(i, i + a.len() + b.len())[a.len() + k] == s[i + a.len() + k]);
        assert((a + b)[a.len() + k] == b[k]);
    }
    assert(s.subrange(i, i + a.len()) =~= a);
    assert(s.subrange(i + a.len(), i + a.len() + b.len()) =~= b);
}

/// Folding a single digit multiplies the accumulator once.
proof fn lemma_val_left_single(c: char, acc: int)
    ensures
        val_left(seq![c], acc) == acc * 10 + digit_val(c),
{
    reveal_with_fuel(val_left, 2);
    assert(seq![c].drop_first().len() == 0);
}

/// Folding a concatenation folds the parts in order.
proof fn lemma_val_left_append(a: Seq<char>, b: Seq<char>, acc: int)
    ensures
        val_left(a + b, acc) == val_left(b, val_left(a, acc)),
    decreases a.len(),
{
    if a.len() == 0 {
        assert(a + b =~= b);
    } else {
        assert((a + b).drop_first() =~= a.drop_first() + b);
        assert((a + b)[0] == a[0]);
        lemma_val_left_append(a.drop_first(), b, acc * 10 + digit_val(a[0]));
    }
}

/// The digit run of a number folds back to the number.
proof fn lemma_digits_val(n: int)
    requires
        n >= 0,
    ensures
        val_left(spec_digits(n), 0) == n,
    decreases n,
{
    if n < 10 {
        assert(digit_val(spec_digit_char(n)) == n);
        lemma_val_left_single(spec_digit_char(n), 0);
    } else {
        lemma_digits_val(n / 10);
        lemma_val_left_append(spec_digits(n / 10), seq![spec_digit_char(n % 10)], 0);
        lemma_val_left_single(spec_digit_char(n % 10), n / 10);
        assert(digit_val(spec_digit_char(n % 10)) == n % 10);
        lemma_fundamental_div_mod(n, 10);
    }
}

/// A digit run is non-empty and made of digits only.
proof fn lemma_digits_props(n: int)
    requires
        n >= 0,
    ensures
        spec_digits(n).len() >= 1,
        forall|k: int| 0 <= k < spec_digits(n).len() ==> is_dec_digit(#[trigger] spec_digits(n)[k]),
    decreases n,
{
    if n < 10 {
        assert(is_dec_digit(spec_digit_char(n)));
    } else {
        lemma_digits_props(n / 10);
        assert(is_dec_digit(spec_digit_char(n % 10)));
        assert forall|k: int| 0 <= k < spec_digits(n).len() implies is_dec_digit(
            #[trigger] spec_digits(n)[k],
        ) by {
            if k < spec_digits(n / 10).len() {
                assert(spec_digits(n)[k] == spec_digits(n / 10)[k]);
            } else {
                assert(spec_digits(n)[k] == spec_digit_char(n % 10));
            }
        }
    }
}

/// The number parser walks through a block of digits, folding it into the
/// accumulator.
proof fn lemma_parse_digit_block(s: Seq<char>, i: int, ds: Seq<char>, acc: int, seen: bool)
    requires
        0 <= i,
        i + ds.len() <= s.len(),
        s.subrange(i, i + ds.len()) == ds,
        forall|k: int| 0 <= k < ds.len() ==> is_dec_digit(#[trigger] ds[k]),
    ensures
        spec_parse_num_rec(s, i, acc, seen) == spec_parse_num_rec(
            s,
            i + ds.len(),
            val_left(ds, acc),
            seen || ds.len() > 0,
        ),
    decreases ds.len(),
{
    if ds.len() > 0 {
        assert(s[i] == ds[0]) by {
            assert(s.subrange(i, i + ds.len())[0] == ds[0]);
        }
        let ds2 = ds.drop_first();
        assert forall|k: int| 0 <= k < ds2.len() implies s[i + 1 + k] == ds2[k] by {
            assert(s.subrange(i, i + ds.len())[k + 1] == ds[k + 1]);
        }
        assert(s.subrange(i + 1, i + 1 + ds2.len()) =~= ds2);
        lemma_parse_digit_block(s, i + 1, ds2, acc * 10 + digit_val(ds[0]), true);
    }
}

/// Parsing from a position where an encoded number sits yields that number.
proof fn lemma_parse_enc_num(s: Seq<char>, i: int, n: int)
    requires
        n >= 0,
        0 <= i,
        i + spec_enc_num(n).len() <= s.len(),
        s.subrange(i, i + spec_enc_num(n).len()) == spec_enc_num(n),
    ensures
        spec_parse_num_rec(s, i, 0, false) == Some((n, i + spec_enc_num(n).len())),
{
    let ds = spec_digits(n);
    lemma_digits_props(n);
    lemma_match_split(s, i, ds, seq![':']);
    lemma_parse_digit_block(s, i, ds, 0, false);
    lemma_digits_val(n);
    assert(s[i + ds.len()] == ':') by {
        assert(s.subrange(i + ds.len(), i + ds.len() + 1)[0] == ':');
    }
    assert(!is_dec_digit(':'));
}

/// Parsing from a position where an encoded word-sized number sits yields it.
proof fn lemma_parse_enc_u64(s: Seq<char>, i: int, n: u64)
    requires
        0 <= i,
        i + spec_enc_num(n as int).len() <= s.len(),
        s.subrange(i, i + spec_enc_num(n as int).len()) == spec_enc_num(n as int),
    ensures
        spec_parse_u64(s, i) == Some((n, i + spec_enc_num(n as int).len())),
{
    lemma_parse_enc_num(s, i, n as int);
}

/// Parsing from a position where an encoded text sits yields that text.
proof fn lemma_parse_enc_str(s: Seq<char>, i: int, t: Seq<char>)
    requires
        t.len() <= u64::MAX,
        0 <= i,
        i + spec_enc_str(t).len() <= s.len(),
        s.subrange(i, i + spec_enc_str(t).len()) == spec_enc_str(t),
    ensures
        spec_parse_str(s, i) == Some((t, i + spec_enc_str(t).len())),
{
    lemma_match_split(s, i, spec_enc_num(t.len() as int), t);
    lemma_parse_enc_u64(s, i, t.len() as u64);
}

/// Parsing from a position where an encoded identity sits yields it.
proof fn lemma_parse_enc_id(s: Seq<char>, i: int, id: NetworkedId)
    requires
        0 <= i,
        i + spec_enc_id(id).len() <= s.len(),
        s.subrange(i, i + spec_enc_id(id).len()) == spec_enc_id(id),
    ensures
        spec_parse_id(s, i) == Some((id, i + spec_enc_id(id).len())),
{
    match id {
        NetworkedId::Host => {
            assert(s[i] == 'H') by {
                assert(s.subrange(i, i + 1)[0] == 'H');
            }
        },
        NetworkedId::ClientId(n) => {
            lemma_match_split(s, i, seq!['C'], spec_enc_num(n as int));
            assert(s[i] == 'C') by {
                assert(s.subrange(i, i + 1)[0] == 'C');
            }
            lemma_parse_enc_u64(s, i + 1, n);
        },
    }
}

/// Parsing from a position where an encoded roster entry sits yields it.
proof fn lemma_parse_enc_info(s: Seq<char>, i: int, p: PlayerInfoView)
    requires
        p.data.len() <= u64::MAX,
        0 <= i,
        i + spec_enc_info(p).len() <= s.len(),
        s.subrange(i, i + spec_enc_info(p).len()) == spec_enc_info(p),
    ensures
        spec_parse_info(s, i) == Some((p, i + spec_enc_info(p).len())),
{
    lemma_match_split(s, i, spec_enc_id(p.id), spec_enc_str(p.data));
    lemma_parse_enc_id(s, i, p.id);
    lemma_parse_enc_str(s, i + spec_enc_id(p.id).len(), p.data);
    assert(spec_parse_info(s, i) matches Some((q, _)) && q =~= p);
}

/// Parsing a run of encoded roster entries yields them in order.
proof fn lemma_parse_enc_infos(s: Seq<char>, i: int, ps: Seq<PlayerInfoView>)
    requires
        forall|k: int| 0 <= k < ps.len() ==> #[trigger] ps[k].data.len() <= u64::MAX,
        0 <= i,
        i + spec_enc_infos(ps).len() <= s.len(),
        s.subrange(i, i + spec_enc_infos(ps).len()) == spec_enc_infos(ps),
    ensures
        spec_parse_infos(s, i, ps.len() as int) == Some((ps, i + spec_enc_infos(ps).len())),
    decreases ps.len(),
{
    if ps.len() == 0 {
        assert(ps =~= Seq::<PlayerInfoView>::empty());
    } else {
        let rest = ps.drop_first();
        lemma_match_split(s, i, spec_enc_info(ps[0]), spec_enc_infos(rest));
        lemma_parse_enc_info(s, i, ps[0]);
        assert(forall|k: int| 0 <= k < rest.len() ==> #[trigger] rest[k].data.len() <= u64::MAX);
        lemma_parse_enc_infos(s, i + spec_enc_info(ps[0]).len(), rest);
        assert(seq![ps[0]] + rest =~= ps);
    }
}

/// Parsing a run of encoded transform components yields them in order.
proof fn lemma_parse_enc_u32s(s: Seq<char>, i: int, xs: Seq<u32>)
    requires
        0 <= i,
        i + spec_enc_u32s(xs).len() <= s.len(),
        s.subrange(i, i + spec_enc_u32s(xs).len()) == spec_enc_u32s(xs),
    ensures
        spec_parse_u32s(s, i, xs.len() as int) == Some((xs, i + spec_enc_u32s(xs).len())),
    decreases xs.len(),
{
    if xs.len() == 0 {
        assert(xs =~= Seq::<u32>::empty());
    } else {
        let rest = xs.drop_first();
        lemma_match_split(s, i, spec_enc_num(xs[0] as int), spec_enc_u32s(rest));
        lemma_parse_enc_u64(s, i, xs[0] as u64);
        lemma_parse_enc_u32s(s, i + spec_enc_num(xs[0] as int).len(), rest);
        assert(seq![xs[0]] + rest =~= xs);
    }
}

/// Parsing from a position where an encoded transform sits yields it.
proof fn lemma_parse_enc_transform(s: Seq<char>, i: int, t: NetTransformView)
    requires
        t.translation.len() == 3,
        t.rotation.len() == 4,
        t.scale.len() == 3,
        0 <= i,
        i + spec_enc_transform(t).len() <= s.len(),
        s.subrange(i, i + spec_enc_transform(t).len()) == spec_enc_transform(t),
    ensures
        spec_parse_transform(s, i) == Some((t, i + spec_enc_transform(t).len())),
{
    let a = spec_enc_u32s(t.translation);
    let b = spec_enc_u32s(t.rotation);
    let c = spec_enc_u32s(t.scale);
    assert(spec_enc_transform(t) =~= a + (b + c));
    lemma_match_split(s, i, a, b + c);
    lemma_match_split(s, i + a.len(), b, c);
    lemma_parse_enc_u32s(s, i, t.translation);
    lemma_parse_enc_u32s(s, i + a.len(), t.rotation);
    lemma_parse_enc_u32s(s, i + a.len() + b.len(), t.scale);
    assert(spec_parse_transform(s, i) matches Some((u, _)) && u =~= t);
}

/// Round trip: decoding the encoding of any well-formed message yields that
/// message back, for every variant of the protocol.
#[verifier::rlimit(100)]
#[verifier::spinoff_prover]
pub proof fn lemma_codec_round_trip(m: P2PDataView)
    requires
        wf_msg(m),
    ensures
        spec_decode_msg(spec_encode_msg(m)) == Some(m),
{
    let s = spec_encode_msg(m);
    assert(s.subrange(0, s.len() as int) =~= s);
    assert(s[0] == spec_tag(m));
    match m {
        P2PDataView::ClientLobbyChatMessage(text, sender) => {
            lemma_match_split(s, 0, seq![spec_tag(m)], spec_enc_str(text) + spec_enc_id(sender));
            lemma_match_split(s, 1, spec_enc_str(text), spec_enc_id(sender));
            lemma_parse_enc_str(s, 1, text);
            lemma_parse_enc_id(s, 1 + spec_enc_str(text).len() as int, sender);
        },
        P2PDataView::ClientInput(payload) => {
            lemma_match_split(s, 0, seq![spec_tag(m)], spec_enc_str(payload));
            lemma_parse_enc_str(s, 1, payload);
        },
        P2PDataView::ClientDataUpdate(payload) => {
            lemma_match_split(s, 0, seq![spec_tag(m)], spec_enc_str(payload));
            lemma_parse_enc_str(s, 1, payload);
        },
        P2PDataView::HostLobbyInfoUpdate(ps) => {
            lemma_match_split(
                s,
                0,
                seq![spec_tag(m)],
                spec_enc_num(ps.len() as int) + spec_enc_infos(ps),
            );
            lemma_match_split(s, 1, spec_enc_num(ps.len() as int), spec_enc_infos(ps));
            lemma_parse_enc_u64(s, 1, ps.len() as u64);
            lemma_parse_enc_infos(s, 1 + spec_enc_num(ps.len() as int).len() as int, ps);
        },
        P2PDataView::StateSync(index, payload) => {
            lemma_match_split(
                s,
                0,
                seq![spec_tag(m)],
                spec_enc_num(index as int) + spec_enc_str(payload),
            );
            lemma_match_split(s, 1, spec_enc_num(index as int), spec_enc_str(payload));
            lemma_parse_enc_u64(s, 1, index as u64);
            lemma_parse_enc_str(s, 1 + spec_enc_num(index as int).len() as int, payload);
        },
        P2PDataView::EventSync(index, payload) => {
            lemma_match_split(
                s,
                0,
                seq![spec_tag(m)],
                spec_enc_num(index as int) + spec_enc_str(payload),
            );
            lemma_match_split(s, 1, spec_enc_num(index as int), spec_enc_str(payload));
            lemma_parse_enc_u64(s, 1, index as u64);
            lemma_parse_enc_str(s, 1 + spec_enc_num(index as int).len() as int, payload);
        },
        P2PDataView::HostInstantiation(d) => {
            lemma_match_split(
                s,
                0,
                seq![spec_tag(m)],
                spec_enc_transform(d.transform) + spec_enc_str(d.instantiation),
            );
            lemma_match_split(s, 1, spec_enc_transform(d.transform), spec_enc_str(d.instantiation));
            lemma_parse_enc_transform(s, 1, d.transform);
            lemma_parse_enc_str(s, 1 + spec_enc_transform(d.transform).len() as int, d.instantiation);
            assert(spec_decode_fields(s, s[0]) matches Some((v, _)) && v =~~= m);
        },
        P2PDataView::PingRequest(stamp) => {
            lemma_match_split(s, 0, seq![spec_tag(m)], spec_enc_num(stamp as int));
            lemma_parse_enc_u64(s, 1, stamp);
        },
    }
}

// ---------------------------------------------------------------------------
// Executable encoding
// ---------------------------------------------------------------------------

/// The literal holding one decimal digit.
fn digit_literal(d: u64) -> (r: &'static str)
    requires
        d < 10,
    ensures
        r@ == seq![spec_digit_char(d as int)],
{
    proof {
        reveal_strlit("0");
        reveal_strlit("1");
        reveal_strlit("2");
        reveal_strlit("3");
        reveal_strlit("4");
        reveal_strlit("5");
        reveal_strlit("6");
        reveal_strlit("7");
        reveal_strlit("8");
        reveal_strlit("9");
    }
    let r = if d == 0 {
        "0"
    } else if d == 1 {
        "1"
    } else if d == 2 {
        "2"
    } else if d == 3 {
        "3"
    } else if d == 4 {
        "4"
    } else if d == 5 {
        "5"
    } else if d == 6 {
        "6"
    } else if d == 7 {
        "7"
    } else if d == 8 {
        "8"
    } else {
        "9"
    };
    proof {
        assert(r@ =~= seq![spec_digit_char(d as int)]);
    }
    r
}

/// Append the decimal digit run of `n`.
pub fn append_digits(out: &mut String, n: u64)
    ensures
        final(out)@ == old(out)@ + spec_digits(n as int),
    decreases n,
{
    if n < 10 {
        out.append(digit_literal(n));
    } else {
        append_digits(out, n / 10);
        out.append(digit_literal(n % 10));
        assert(final(out)@ =~= old(out)@ + spec_digits(n as int));
    }
}

/// Append the encoding of a number.
fn append_num(out: &mut String, n: u64)
    ensures
        final(out)@ == old(out)@ + spec_enc_num(n as int),
{
    append_digits(out, n);
    proof {
        reveal_strlit(":");
    }
    out.append(":");
    assert(final(out)@ =~= old(out)@ + spec_enc_num(n as int));
}

/// Append the encoding of a piece of text.
fn append_str_enc(out: &mut String, t: &str)
    ensures
        final(out)@ == old(out)@ + spec_enc_str(t@),
{
    let n = t.unicode_len();
    assert(n as u64 as int == t@.len());
    append_num(out, n as u64);
    out.append(t);
    assert(final(out)@ =~= old(out)@ + spec_enc_str(t@));
}

/// Append the encoding of an identity.
fn append_id(out: &mut String, id: NetworkedId)
    ensures
        final(out)@ == old(out)@ + spec_enc_id(id),
{
    proof {
        reveal_strlit("H");
        reveal_strlit("C");
    }
    match id {
        NetworkedId::Host => {
            out.append("H");
            assert(final(out)@ =~= old(out)@ + spec_enc_id(id));
        },
        NetworkedId::ClientId(n) => {
            out.append("C");
            append_num(out, n);
            assert(final(out)@ =~= old(out)@ + spec_enc_id(id));
        },
    }
}

/// Append the encoding of one roster entry.
fn append_info(out: &mut String, p: &PlayerInfo)
    ensures
        final(out)@ == old(out)@ + spec_enc_info(p@),
{
    append_id(out, p.id);
    append_str_enc(out, p.data.as_str());
    assert(final(out)@ =~= old(out)@ + spec_enc_info(p@));
}

/// Appending one more entry extends the encoding of the run.
proof fn lemma_enc_infos_push(ps: Seq<PlayerInfoView>, p: PlayerInfoView)
    ensures
        spec_enc_infos(ps.push(p)) == spec_enc_infos(ps) + spec_enc_info(p),
    decreases ps.len(),
{
    if ps.len() == 0 {
        reveal_with_fuel(spec_enc_infos, 3);
        assert(ps.push(p)[0] == p);
        assert(ps.push(p).drop_first() =~= Seq::<PlayerInfoView>::empty());
        assert(spec_enc_infos(ps.push(p)) =~= spec_enc_infos(ps) + spec_enc_info(p));
    } else {
        assert(ps.push(p).drop_first() =~= ps.drop_first().push(p));
        assert(ps.push(p)[0] == ps[0]);
        lemma_enc_infos_push(ps.drop_first(), p);
        assert(spec_enc_infos(ps.push(p)) =~= spec_enc_infos(ps) + spec_enc_info(p));
    }
}

/// Append the encoding of a run of roster entries.
fn append_infos(out: &mut String, ps: &Vec<PlayerInfo>)
    ensures
        final(out)@ == old(out)@ + spec_enc_infos(ps@.map_values(|p: PlayerInfo| p@)),
{
    let ghost psv = ps@.map_values(|p: PlayerInfo| p@);
    let ghost start = out@;
    let mut k: usize = 0;
    proof {
        assert(psv.take(0) =~= Seq::<PlayerInfoView>::empty());
    }
    while k < ps.len()
        invariant
            k <= ps.len(),
            psv == ps@.map_values(|p: PlayerInfo| p@),
            out@ == start + spec_enc_infos(psv.take(k as int)),
        decreases ps.len() - k,
    {
        append_info(out, &ps[k]);
        proof {
            assert(psv.take(k + 1) =~= psv.take(k as int).push(psv[k as int]));
            lemma_enc_infos_push(psv.take(k as int), psv[k as int]);
        }
        k = k + 1;
    }
    proof {
        assert(psv.take(ps.len() as int) =~= psv);
    }
}

/// Appending one more component extends the encoding of the run.
proof fn lemma_enc_u32s_push(xs: Seq<u32>, x: u32)
    ensures
        spec_enc_u32s(xs.push(x)) == spec_enc_u32s(xs) + spec_enc_num(x as int),
    decreases xs.len(),
{
    if xs.len() == 0 {
        reveal_with_fuel(spec_enc_u32s, 3);
        assert(xs.push(x)[0] == x);
        assert(xs.push(x).drop_first() =~= Seq::<u32>::empty());
        assert(spec_enc_u32s(xs.push(x)) =~= spec_enc_u32s(xs) + spec_enc_num(x as int));
    } else {
        assert(xs.push(x).drop_first() =~= xs.drop_first().push(x));
        assert(xs.push(x)[0] == xs[0]);
        lemma_enc_u32s_push(xs.drop_first(), x);
        assert(spec_enc_u32s(xs.push(x)) =~= spec_enc_u32s(xs) + spec_enc_num(x as int));
    }
}

/// Append the encoding of a fixed run of transform components.
fn append_u32s<const N: usize>(out: &mut String, xs: &[u32; N])
    ensures
        final(out)@ == old(out)@ + spec_enc_u32s(xs@),
{
    let ghost start = out@;
    let mut k: usize = 0;
    proof {
        assert(xs@.take(0) =~= Seq::<u32>::empty());
    }
    while k < N
        invariant
            k <= N,
            xs@.len() == N,
            out@ == start + spec_enc_u32s(xs@.take(k as int)),
        decreases N - k,
    {
        let x = xs[k];
        append_num(out, x as u64);
        proof {
            assert(xs@.take(k + 1) =~= xs@.take(k as int).push(xs@[k as int]));
            lemma_enc_u32s_push(xs@.take(k as int), xs@[k as int]);
        }
        k = k + 1;
    }
    proof {
        assert(xs@.take(N as int) =~= xs@);
    }
}

/// Append the encoding of a transform.
fn append_transform(out: &mut String, t: &NetTransform)
    ensures
        final(out)@ == old(out)@ + spec_enc_transform(t@),
{
    append_u32s(out, &t.translation);
    append_u32s(out, &t.rotation);
    append_u32s(out, &t.scale);
    assert(final(out)@ =~= old(out)@ + spec_enc_transform(t@));
}

/// Encode one message into a text frame.
pub fn encode_msg(m: &P2PData) -> (r: String)
    ensures
        r@ == spec_encode_msg(m@),
{
    proof {
        reveal_strlit("0");
        reveal_strlit("1");
        reveal_strlit("2");
        reveal_strlit("3");
        reveal_strlit("4");
        reveal_strlit("5");
        reveal_strlit("6");
        reveal_strlit("7");
    }
    let mut out = String::new();
    match m {
        P2PData::ClientLobbyChatMessage(text, sender) => {
            out.append("0");
            append_str_enc(&mut out, text.as_str());
            append_id(&mut out, *sender);
        },
        P2PData::ClientInput(payload) => {
            out.append("1");
            append_str_enc(&mut out, payload.as_str());
        },
        P2PData::ClientDataUpdate(payload) => {
            out.append("2");
            append_str_enc(&mut out, payload.as_str());
        },
        P2PData::HostLobbyInfoUpdate(players) => {
            out.append("3");
            append_num(&mut out, players.len() as u64);
            append_infos(&mut out, players);
        },
        P2PData::StateSync(index, payload) => {
            out.append("4");
            append_num(&mut out, *index as u64);
            append_str_enc(&mut out, payload.as_str());
        },
        P2PData::EventSync(index, payload) => {
            out.append("5");
            append_num(&mut out, *index as u64);
            append_str_enc(&mut out, payload.as_str());
        },
        P2PData::HostInstantiation(d) => {
            out.append("6");
            append_transform(&mut out, &d.transform);
            append_str_enc(&mut out, d.instantiation.as_str());
        },
        P2PData::PingRequest(stamp) => {
            out.append("7");
            append_num(&mut out, *stamp);
        },
    }
    proof {
        assert(out@ =~= spec_encode_msg(m@));
    }
    out
}

// ---------------------------------------------------------------------------
// Executable decoding
// ---------------------------------------------------------------------------

/// Any number the parser can still produce is at least its accumulator.
proof fn lemma_parse_num_lower(s: Seq<char>, i: int, acc: int, seen: bool)
    requires
        acc >= 0,
    ensures
        spec_parse_num_rec(s, i, acc, seen) matches Some((v, _)) ==> v >= acc,
    decreases s.len() - i,
{
    if 0 <= i < s.len() && is_dec_digit(s[i]) {
        lemma_parse_num_lower(s, i + 1, acc * 10 + digit_val(s[i]), true);
    }
}

/// Parse a number from position `i`.
fn parse_u64(s: &str, slen: usize, i: usize) -> (r: Option<(u64, usize)>)
    requires
        slen == s@.len(),
        i <= slen,
    ensures
        match r {
            Some((v, j)) => spec_parse_u64(s@, i as int) == Some((v, j as int)) && i < j <= slen,
            None => spec_parse_u64(s@, i as int) is None,
        },
{
    let mut j = i;
    let mut acc: u64 = 0;
    let mut seen = false;
    loop
        invariant
            i <= j <= slen,
            slen == s@.len(),
            spec_parse_num_rec(s@, i as int, 0, false) == spec_parse_num_rec(
                s@,
                j as int,
                acc as int,
                seen,
            ),
        decreases slen - j,
    {
        if j >= slen {
            return None;
        }
        let c = s.get_char(j);
        let u = c as u32;
        if 48 <= u && u <= 57 {
            let d = (u - 48) as u64;
            let wide: u128 = acc as u128 * 10 + d as u128;
            if wide > u64::MAX as u128 {
                proof {
                    lemma_parse_num_lower(s@, j + 1, acc as int * 10 + d as int, true);
                }
                return None;
            }
            acc = wide as u64;
            seen = true;
            j = j + 1;
        } else if c == ':' && seen {
            return Some((acc, j + 1));
        } else {
            return None;
        }
    }
}

/// Parse a length-prefixed piece of text from position `i`.
fn parse_str(s: &str, slen: usize, i: usize) -> (r: Option<(String, usize)>)
    requires
        slen == s@.len(),
        i <= slen,
    ensures
        match r {
            Some((t, j)) => spec_parse_str(s@, i as int) == Some((t@, j as int)) && i <= j <= slen,
            None => spec_parse_str(s@, i as int) is None,
        },
{
    match parse_u64(s, slen, i) {
        None => None,
        Some((n, j)) => {
            if n <= (slen - j) as u64 {
                let to = j + n as usize;
                let sub = s.substring_char(j, to);
                Some((sub.to_owned(), to))
            } else {
                None
            }
        },
    }
}

/// Parse an identity from position `i`.
fn parse_id(s: &str, slen: usize, i: usize) -> (r: Option<(NetworkedId, usize)>)
    requires
        slen == s@.len(),
        i <= slen,
    ensures
        match r {
            Some((id, j)) => spec_parse_id(s@, i as int) == Some((id, j as int)) && i < j <= slen,
            None => spec_parse_id(s@, i as int) is None,
        },
{
    if i >= slen {
        return None;
    }
    let c = s.get_char(i);
    if c == 'H' {
        Some((NetworkedId::Host, i + 1))
    } else if c == 'C' {
        match parse_u64(s, slen, i + 1) {
            Some((n, j)) => Some((NetworkedId::ClientId(n), j)),
            None => None,
        }
    } else {
        None
    }
}

/// Parse one roster entry from position `i`.
fn parse_info(s: &str, slen: usize, i: usize) -> (r: Option<(PlayerInfo, usize)>)
    requires
        slen == s@.len(),
        i <= slen,
    ensures
        match r {
            Some((p, j)) => spec_parse_info(s@, i as int) == Some((p@, j as int)) && i <= j <= slen,
            None => spec_parse_info(s@, i as int) is None,
        },
{
    match parse_id(s, slen, i) {
        None => None,
        Some((id, j)) => match parse_str(s, slen, j) {
            None => None,
            Some((data, k)) => {
                let p = PlayerInfo { id, data };
                proof {
                    assert(spec_parse_info(s@, i as int) matches Some((q, _)) && q =~= p@);
                }
                Some((p, k))
            },
        },
    }
}

/// Parse exactly `count` roster entries from position `i`.
fn parse_infos(s: &str, slen: usize, i: usize, count: u64) -> (r: Option<(Vec<PlayerInfo>, usize)>)
    requires
        slen == s@.len(),
        i <= slen,
    ensures
        match r {
            Some((ps, j)) => spec_parse_infos(s@, i as int, count as int) == Some(
                (ps@.map_values(|p: PlayerInfo| p@), j as int),
            ) && i <= j <= slen,
            None => spec_parse_infos(s@, i as int, count as int) is None,
        },
    decreases count,
{
    if count == 0 {
        let ps: Vec<PlayerInfo> = Vec::new();
        proof {
            assert(ps@.map_values(|p: PlayerInfo| p@) =~= Seq::<PlayerInfoView>::empty());
        }
        Some((ps, i))
    } else {
        match parse_info(s, slen, i) {
            None => None,
            Some((p, j)) => match parse_infos(s, slen, j, count - 1) {
                None => None,
                Some((mut ps, k)) => {
                    let ghost restv = ps@.map_values(|q: PlayerInfo| q@);
                    ps.insert(0, p);
                    proof {
                        assert(ps@.map_values(|q: PlayerInfo| q@) =~= seq![p@] + restv);
                    }
                    Some((ps, k))
                },
            },
        }
    }
}

/// Parse one transform component from position `i`.
fn parse_u32(s: &str, slen: usize, i: usize) -> (r: Option<(u32, usize)>)
    requires
        slen == s@.len(),
        i <= slen,
    ensures
        match r {
            Some((x, j)) => spec_parse_u32(s@, i as int) == Some((x, j as int)) && i <= j <= slen,
            None => spec_parse_u32(s@, i as int) is None,
        },
{
    match parse_u64(s, slen, i) {
        None => None,
        Some((n, j)) => {
            if n <= u32::MAX as u64 {
                Some((n as u32, j))
            } else {
                None
            }
        },
    }
}

/// Parse exactly `count` transform components from position `i`.
fn parse_u32s(s: &str, slen: usize, i: usize, count: u64) -> (r: Option<(Vec<u32>, usize)>)
    requires
        slen == s@.len(),
        i <= slen,
    ensures
        match r {
            Some((xs, j)) => spec_parse_u32s(s@, i as int, count as int) == Some(
                (xs@, j as int),
            ) && i <= j <= slen && xs@.len() == count,
            None => spec_parse_u32s(s@, i as int, count as int) is None,
        },
    decreases count,
{
    if count == 0 {
        let xs: Vec<u32> = Vec::new();
        proof {
            assert(xs@ =~= Seq::<u32>::empty());
        }
        Some((xs, i))
    } else {
        match parse_u32(s, slen, i) {
            None => None,
            Some((x, j)) => match parse_u32s(s, slen, j, count - 1) {
                None => None,
                Some((mut xs, k)) => {
                    let ghost restv = xs@;
                    xs.insert(0, x);
                    proof {
                        assert(xs@ =~= seq![x] + restv);
                    }
                    Some((xs, k))
                },
            },
        }
    }
}

/// Parse a transform from position `i`.
fn parse_transform(s: &str, slen: usize, i: usize) -> (r: Option<(NetTransform, usize)>)
    requires
        slen == s@.len(),
        i <= slen,
    ensures
        match r {
            Some((t, j)) => spec_parse_transform(s@, i as int) == Some((t@, j as int)) && i <= j
                <= slen,
            None => spec_parse_transform(s@, i as int) is None,
        },
{
    match parse_u32s(s, slen, i, 3) {
        None => None,
        Some((tr, j)) => match parse_u32s(s, slen, j, 4) {
            None => None,
            Some((ro, k)) => match parse_u32s(s, slen, k, 3) {
                None => None,
                Some((sc, l)) => {
                    let t = NetTransform {
                        translation: [tr[0], tr[1], tr[2]],
                        rotation: [ro[0], ro[1], ro[2], ro[3]],
                        scale: [sc[0], sc[1], sc[2]],
                    };
                    proof {
                        assert(t.translation@ =~= tr@);
                        assert(t.rotation@ =~= ro@);
                        assert(t.scale@ =~= sc@);
                        assert(spec_parse_transform(s@, i as int) matches Some((u, _)) && u =~= t@);
                    }
                    Some((t, l))
                },
            },
        },
    }
}

/// Decode one text frame into a message; malformed frames decode to nothing.
pub fn decode_msg(s: &str) -> (r: Option<P2PData>)
    ensures
        match spec_decode_msg(s@) {
            Some(v) => r matches Some(m) && m@ == v,
            None => r is None,
        },
{
    let slen = s.unicode_len();
    if slen < 1 {
        return None;
    }
    let tag = s.get_char(0);
    let fields: Option<(P2PData, usize)> = if tag == '0' {
        match parse_str(s, slen, 1) {
            None => None,
            Some((text, j)) => match parse_id(s, slen, j) {
                None => None,
                Some((sender, k)) => Some((P2PData::ClientLobbyChatMessage(text, sender), k)),
            },
        }
    } else if tag == '1' {
        match parse_str(s, slen, 1) {
            None => None,
            Some((payload, j)) => Some((P2PData::ClientInput(payload), j)),
        }
    } else if tag == '2' {
        match parse_str(s, slen, 1) {
            None => None,
            Some((payload, j)) => Some((P2PData::ClientDataUpdate(payload), j)),
        }
    } else if tag == '3' {
        match parse_u64(s, slen, 1) {
            None => None,
            Some((count, j)) => match parse_infos(s, slen, j, count) {
                None => None,
                Some((ps, k)) => Some((P2PData::HostLobbyInfoUpdate(ps), k)),
            },
        }
    } else if tag == '4' {
        match parse_u64(s, slen, 1) {
            None => None,
            Some((index, j)) => if index <= u8::MAX as u64 {
                match parse_str(s, slen, j) {
                    None => None,
                    Some((payload, k)) => Some((P2PData::StateSync(index as u8, payload), k)),
                }
            } else {
                None
            },
        }
    } else if tag == '5' {
        match parse_u64(s, slen, 1) {
            None => None,
            Some((index, j)) => if index <= u8::MAX as u64 {
                match parse_str(s, slen, j) {
                    None => None,
                    Some((payload, k)) => Some((P2PData::EventSync(index as u8, payload), k)),
                }
            } else {
                None
            },
        }
    } else if tag == '6' {
        match parse_transform(s, slen, 1) {
            None => None,
            Some((transform, j)) => match parse_str(s, slen, j) {
                None => None,
                Some((instantiation, k)) => Some(
                    (
                        P2PData::HostInstantiation(
                            InstantiationDataNet { transform, instantiation },
                        ),
                        k,
                    ),
                ),
            },
        }
    } else if tag == '7' {
        match parse_u64(s, slen, 1) {
            None => None,
            Some((stamp, j)) => Some((P2PData::PingRequest(stamp), j)),
        }
    } else {
        None
    };
    match fields {
        None => None,
        Some((m, j)) => {
            if j == slen {
                proof {
                    assert(spec_decode_msg(s@) matches Some(v) && m@ =~~= v);
                }
                Some(m)
            } else {
                None
            }
        },
    }
}

} // verus!
