//! The message router: host-authoritative relay rules applied to each
//! decoded message, and the roster reconciliation that keeps the host's
//! roster in step with who is actually connected.

use vstd::prelude::*;
use vstd::pervasive::VecAdditionalExecFns;

use crate::ids::NetworkedId;
use crate::messages::{clone_players, InstantiationDataNet, P2PData, PlayerInfo, PlayerInfoView};
use crate::session::EasyP2PState;
use crate::updates::{EasyP2PUpdate, EasyP2PUpdateQueue, PingUpdate};

verus! {

/// A message the router wants sent, and to whom.
#[derive(Debug)]
pub enum OutboundMsg {
    ToHost(P2PData),
    ToAll(P2PData),
    ToClient(u64, P2PData),
    RelayAllExcept(u64, P2PData),
}

/// A sync payload a client must hand to the closure registered at `index`.
#[derive(Clone, Debug)]
pub enum SyncDispatch {
    ApplyState { index: u8, payload: String },
    EmitEvent { index: u8, payload: String },
}

// ---------------------------------------------------------------------------
// Roster model
// ---------------------------------------------------------------------------

/// First position of the entry for `id`, if any.
pub open spec fn spec_find_peer(ps: Seq<PlayerInfoView>, id: NetworkedId) -> Option<int>
    decreases ps.len(),
{
    if ps.len() == 0 {
        None
    } else if ps[0].id == id {
        Some(0)
    } else {
        match spec_find_peer(ps.drop_first(), id) {
            Some(i) => Some(i + 1),
            None => None,
        }
    }
}

/// Insert or overwrite the entry for `id` with `data`: an existing entry is
/// overwritten in place, a new peer is appended.
pub open spec fn spec_upsert(ps: Seq<PlayerInfoView>, id: NetworkedId, data: Seq<char>) -> Seq<
    PlayerInfoView,
> {
    match spec_find_peer(ps, id) {
        Some(i) => ps.update(i, PlayerInfoView { id, data }),
        None => ps.push(PlayerInfoView { id, data }),
    }
}

/// Does the connected list contain `c`?
pub open spec fn spec_connected_contains(connected: Seq<u64>, c: u64) -> bool {
    exists|k: int| 0 <= k < connected.len() && connected[k] == c
}

/// Keep the entries whose peer is still reported connected; the host
/// sentinel entry is never pruned.
pub open spec fn spec_prune(ps: Seq<PlayerInfoView>, connected: Seq<u64>) -> Seq<PlayerInfoView>
    decreases ps.len(),
{
    if ps.len() == 0 {
        Seq::<PlayerInfoView>::empty()
    } else {
        let keep = match ps[0].id {
            NetworkedId::Host => true,
            NetworkedId::ClientId(c) => spec_connected_contains(connected, c),
        };
        if keep {
            seq![ps[0]] + spec_prune(ps.drop_first(), connected)
        } else {
            spec_prune(ps.drop_first(), connected)
        }
    }
}

/// A found position is the first entry for that peer; no position means the
/// peer is absent.
pub proof fn lemma_find_peer_props(ps: Seq<PlayerInfoView>, id: NetworkedId)
    ensures
        match spec_find_peer(ps, id) {
            Some(i) => 0 <= i < ps.len() && ps[i].id == id && forall|k: int|
                0 <= k < i ==> ps[k].id != id,
            None => forall|k: int| 0 <= k < ps.len() ==> ps[k].id != id,
        },
    decreases ps.len(),
{
    if ps.len() > 0 && ps[0].id != id {
        lemma_find_peer_props(ps.drop_first(), id);
        assert forall|k: int| 1 <= k < ps.len() implies ps.drop_first()[k - 1] == ps[k] by {}
    }
}

// ---------------------------------------------------------------------------
// Exec roster mutators
// ---------------------------------------------------------------------------

/// Overwrite the data of `id`'s entry, if present; report whether one was.
fn roster_set_data(players: &mut Vec<PlayerInfo>, id: NetworkedId, data: &String) -> (found: bool)
    ensures
        ({
            let psv = old(players)@.map_values(|p: PlayerInfo| p@);
            match spec_find_peer(psv, id) {
                Some(i) => found && final(players)@.map_values(|p: PlayerInfo| p@) == psv.update(
                    i,
                    PlayerInfoView { id, data: data@ },
                ),
                None => !found && final(players)@ == old(players)@,
            }
        }),
{
    let ghost psv = players@.map_values(|p: PlayerInfo| p@);
    let mut k: usize = 0;
    while k < players.len()
        invariant
            k <= players@.len(),
            players@ == old(players)@,
            psv == players@.map_values(|p: PlayerInfo| p@),
            forall|j: int| 0 <= j < k ==> psv[j].id != id,
        decreases players@.len() - k,
    {
        if id_eq(players[k].id, id) {
            proof {
                assert(psv[k as int].id == id);
                lemma_find_peer_props(psv, id);
                match spec_find_peer(psv, id) {
                    Some(i) => {
                        if i < k as int {
                            assert(psv[i].id != id);
                        }
                        if i > k as int {
                            assert(psv[k as int].id != id);
                        }
                    },
                    None => {
                        assert(psv[k as int].id != id);
                    },
                }
            }
            players.set(k, PlayerInfo { id, data: data.clone() });
            proof {
                assert(final(players)@.map_values(|p: PlayerInfo| p@) =~= psv.update(
                    k as int,
                    PlayerInfoView { id, data: data@ },
                ));
            }
            return true;
        }
        k = k + 1;
    }
    proof {
        lemma_find_peer_props(psv, id);
        match spec_find_peer(psv, id) {
            Some(i) => {
                assert(psv[i].id == id);
                assert(false);
            },
            None => {},
        }
    }
    false
}

/// Compare two identities.
pub fn id_eq(a: NetworkedId, b: NetworkedId) -> (r: bool)
    ensures
        r == (a == b),
{
    match (a, b) {
        (NetworkedId::Host, NetworkedId::Host) => true,
        (NetworkedId::ClientId(x), NetworkedId::ClientId(y)) => x == y,
        _ => false,
    }
}

/// Insert or overwrite the entry for `id` with `data`.
pub fn roster_upsert(players: &mut Vec<PlayerInfo>, id: NetworkedId, data: &String)
    ensures
        final(players)@.map_values(|p: PlayerInfo| p@) == spec_upsert(
            old(players)@.map_values(|p: PlayerInfo| p@),
            id,
            data@,
        ),
{
    let found = roster_set_data(players, id, data);
    if !found {
        players.push(PlayerInfo { id, data: data.clone() });
        proof {
            let psv = old(players)@.map_values(|p: PlayerInfo| p@);
            assert(final(players)@.map_values(|p: PlayerInfo| p@) =~= psv.push(
                PlayerInfoView { id, data: data@ },
            ));
        }
    }
}

/// Pruning a roster extended by one entry prunes the run, then the entry.
proof fn lemma_prune_push(ps: Seq<PlayerInfoView>, p: PlayerInfoView, connected: Seq<u64>)
    ensures
        spec_prune(ps.push(p), connected) == spec_prune(ps, connected) + (match p.id {
            NetworkedId::Host => seq![p],
            NetworkedId::ClientId(c) => if spec_connected_contains(connected, c) {
                seq![p]
            } else {
                Seq::<PlayerInfoView>::empty()
            },
        }),
    decreases ps.len(),
{
    let tail = (match p.id {
        NetworkedId::Host => seq![p],
        NetworkedId::ClientId(c) => if spec_connected_contains(connected, c) {
            seq![p]
        } else {
            Seq::<PlayerInfoView>::empty()
        },
    });
    if ps.len() == 0 {
        reveal_with_fuel(spec_prune, 3);
        assert(ps.push(p)[0] == p);
        assert(ps.push(p).drop_first() =~= Seq::<PlayerInfoView>::empty());
        assert(spec_prune(ps.push(p), connected) =~= spec_prune(ps, connected) + tail);
    } else {
        assert(ps.push(p)[0] == ps[0]);
        assert(ps.push(p).drop_first() =~= ps.drop_first().push(p));
        lemma_prune_push(ps.drop_first(), p, connected);
        assert(spec_prune(ps.push(p), connected) =~= spec_prune(ps, connected) + tail);
    }
}

/// Keep only the entries whose peer the transport still reports connected.
pub fn roster_prune(players: &mut Vec<PlayerInfo>, connected: &Vec<u64>)
    ensures
        final(players)@.map_values(|p: PlayerInfo| p@) == spec_prune(
            old(players)@.map_values(|p: PlayerInfo| p@),
            connected@,
        ),
{
    let ghost psv = players@.map_values(|p: PlayerInfo| p@);
    let mut kept: Vec<PlayerInfo> = Vec::new();
    let mut k: usize = 0;
    proof {
        assert(psv.take(0) =~= Seq::<PlayerInfoView>::empty());
    }
    while k < players.len()
        invariant
            k <= players@.len(),
            psv == players@.map_values(|p: PlayerInfo| p@),
            kept@.map_values(|p: PlayerInfo| p@) == spec_prune(psv.take(k as int), connected@),
        decreases players@.len() - k,
    {
        let keep = match players[k].id {
            NetworkedId::Host => true,
            NetworkedId::ClientId(c) => connected_contains(connected, c),
        };
        proof {
            assert(psv.take(k + 1) =~= psv.take(k as int).push(psv[k as int]));
            lemma_prune_push(psv.take(k as int), psv[k as int], connected@);
        }
        if keep {
            kept.push(players[k].clone());
            proof {
                assert(kept@.map_values(|p: PlayerInfo| p@) =~= spec_prune(
                    psv.take(k + 1),
                    connected@,
                ));
            }
        } else {
            proof {
                assert(kept@.map_values(|p: PlayerInfo| p@) =~= spec_prune(
                    psv.take(k + 1),
                    connected@,
                ));
            }
        }
        k = k + 1;
    }
    proof {
        assert(psv.take(players@.len() as int) =~= psv);
    }
    *players = kept;
}

/// `new` is `old` with exactly one element appended.
pub open spec fn spec_pushed<T>(before: Seq<T>, after: Seq<T>) -> bool {
    after.len() == before.len() + 1 && after.subrange(0, before.len() as int) == before
}

/// The roster as handed to consumers and broadcast by the host: the host's
/// own entry first, then the client entries.
pub open spec fn spec_full_roster(s: EasyP2PState) -> Seq<PlayerInfoView> {
    seq![PlayerInfoView { id: NetworkedId::Host, data: s.local_player_data@ }] + s.roster()
}

/// Fields the router never touches.
pub open spec fn spec_core_unchanged(a: EasyP2PState, b: EasyP2PState) -> bool {
    a.is_host == b.is_host && a.lobby_code == b.lobby_code && a.local_player_data
        == b.local_player_data && a.phase == b.phase
}

// ---------------------------------------------------------------------------
// Router rules, message by message
// ---------------------------------------------------------------------------

/// Apply the host-side (and defensive non-host) rules to one message
/// received from the client `cid`: chat is surfaced and, on the host,
/// relayed to every other client; input is surfaced on the host attributed
/// to its sender; a data update overwrites that client's roster entry; a
/// ping is echoed back to its sender unchanged; anything else from a client
/// is ignored.
pub fn on_client_message(
    state: &mut EasyP2PState,
    updates: &mut EasyP2PUpdateQueue,
    out: &mut Vec<OutboundMsg>,
    cid: u64,
    data: &P2PData,
)
    ensures
        spec_core_unchanged(*old(state), *final(state)),
        match *data {
            P2PData::ClientLobbyChatMessage(text, _) => {
                &&& final(state).players == old(state).players
                &&& final(updates)@ == old(updates)@.push(
                    EasyP2PUpdate::ClientChat { client_id: cid, text },
                )
                &&& (old(state).is_host ==> final(out)@ == old(out)@.push(
                    OutboundMsg::RelayAllExcept(
                        cid,
                        P2PData::ClientLobbyChatMessage(text, NetworkedId::ClientId(cid)),
                    ),
                ))
                &&& (!old(state).is_host ==> final(out)@ == old(out)@)
            },
            P2PData::ClientInput(input) => {
                &&& final(state).players == old(state).players
                &&& final(out)@ == old(out)@
                &&& (old(state).is_host ==> final(updates)@ == old(updates)@.push(
                    EasyP2PUpdate::ClientInput {
                        sender: NetworkedId::ClientId(cid),
                        input,
                    },
                ))
                &&& (!old(state).is_host ==> final(updates)@ == old(updates)@)
            },
            P2PData::ClientDataUpdate(info) => {
                &&& final(out)@ == old(out)@
                &&& final(updates)@ == old(updates)@
                &&& match spec_find_peer(old(state).roster(), NetworkedId::ClientId(cid)) {
                    Some(i) => final(state).roster() == old(state).roster().update(
                        i,
                        PlayerInfoView { id: NetworkedId::ClientId(cid), data: info@ },
                    ),
                    None => final(state).players@ == old(state).players@,
                }
            },
            P2PData::PingRequest(stamp) => {
                &&& final(state).players == old(state).players
                &&& final(updates)@ == old(updates)@
                &&& (old(state).is_host ==> final(out)@ == old(out)@.push(
                    OutboundMsg::ToClient(cid, P2PData::PingRequest(stamp)),
                ))
                &&& (!old(state).is_host ==> final(out)@ == old(out)@)
            },
            _ => {
                &&& final(state).players == old(state).players
                &&& final(updates)@ == old(updates)@
                &&& final(out)@ == old(out)@
            },
        },
{
    match data {
        P2PData::ClientLobbyChatMessage(text, _sender) => {
            updates.push(EasyP2PUpdate::ClientChat { client_id: cid, text: text.clone() });
            if state.is_host {
                out.push(
                    OutboundMsg::RelayAllExcept(
                        cid,
                        P2PData::ClientLobbyChatMessage(
                            text.clone(),
                            NetworkedId::ClientId(cid),
                        ),
                    ),
                );
            }
        },
        P2PData::ClientInput(input) => {
            if state.is_host {
                updates.push(
                    EasyP2PUpdate::ClientInput {
                        sender: NetworkedId::ClientId(cid),
                        input: input.clone(),
                    },
                );
            }
        },
        P2PData::ClientDataUpdate(info) => {
            roster_set_data(&mut state.players, NetworkedId::ClientId(cid), info);
        },
        P2PData::PingRequest(stamp) => {
            if state.is_host {
                out.push(OutboundMsg::ToClient(cid, P2PData::PingRequest(*stamp)));
            }
        },
        _ => {},
    }
}

/// On the host, a client's data update merges into the roster (insert or
/// overwrite by peer id) and the full roster is rebroadcast to every client
/// and surfaced locally; elsewhere and for other messages, nothing happens.
pub fn handle_client_data_update_on_host(
    state: &mut EasyP2PState,
    updates: &mut EasyP2PUpdateQueue,
    out: &mut Vec<OutboundMsg>,
    cid: u64,
    data: &P2PData,
)
    ensures
        spec_core_unchanged(*old(state), *final(state)),
        old(state).is_host ==> (*data matches P2PData::ClientDataUpdate(info) ==> {
            &&& final(state).roster() == spec_upsert(
                old(state).roster(),
                NetworkedId::ClientId(cid),
                info@,
            )
            &&& spec_pushed(old(out)@, final(out)@)
            &&& (final(out)@.last() matches OutboundMsg::ToAll(m) && m@
                == crate::messages::P2PDataView::HostLobbyInfoUpdate(spec_full_roster(
                *final(state),
            )))
            &&& spec_pushed(old(updates)@, final(updates)@)
            &&& (final(updates)@.last() matches EasyP2PUpdate::RosterUpdated { players }
                && players@.map_values(|p: PlayerInfo| p@) == spec_full_roster(*final(state)))
        }),
        !(old(state).is_host && *data matches P2PData::ClientDataUpdate(_)) ==> {
            &&& final(state).players == old(state).players
            &&& final(updates)@ == old(updates)@
            &&& final(out)@ == old(out)@
        },
{
    if !state.is_host {
        return ;
    }
    match data {
        P2PData::ClientDataUpdate(info) => {
            roster_upsert(&mut state.players, NetworkedId::ClientId(cid), info);
            let payload = state.get_players(true);
            proof {
                assert(payload@.map_values(|p: PlayerInfo| p@) =~= spec_full_roster(*state));
            }
            out.push(OutboundMsg::ToAll(P2PData::HostLobbyInfoUpdate(payload)));
            let players = state.get_players(true);
            proof {
                assert(players@.map_values(|p: PlayerInfo| p@) =~= spec_full_roster(*state));
                assert(final(out)@.subrange(0, old(out)@.len() as int) =~= old(out)@);
            }
            updates.push(EasyP2PUpdate::RosterUpdated { players });
            proof {
                assert(final(updates)@.subrange(0, old(updates)@.len() as int) =~= old(
                    updates,
                )@);
            }
        },
        _ => {},
    }
}

/// On the host, a transport-reported change in the set of connected clients
/// prunes the roster down to those still connected, then rebroadcasts and
/// surfaces the pruned roster; a non-host ignores the notification.
pub fn broadcast_roster_on_host(
    state: &mut EasyP2PState,
    updates: &mut EasyP2PUpdateQueue,
    out: &mut Vec<OutboundMsg>,
    connected: &Vec<u64>,
)
    ensures
        spec_core_unchanged(*old(state), *final(state)),
        old(state).is_host ==> {
            &&& final(state).roster() == spec_prune(old(state).roster(), connected@)
            &&& spec_pushed(old(out)@, final(out)@)
            &&& (final(out)@.last() matches OutboundMsg::ToAll(m) && m@
                == crate::messages::P2PDataView::HostLobbyInfoUpdate(spec_full_roster(
                *final(state),
            )))
            &&& spec_pushed(old(updates)@, final(updates)@)
            &&& (final(updates)@.last() matches EasyP2PUpdate::RosterUpdated { players }
                && players@.map_values(|p: PlayerInfo| p@) == spec_full_roster(*final(state)))
        },
        !old(state).is_host ==> {
            &&& final(state).players == old(state).players
            &&& final(updates)@ == old(updates)@
            &&& final(out)@ == old(out)@
        },
{
    if !state.is_host {
        return ;
    }
    roster_prune(&mut state.players, connected);
    let payload = state.get_players(true);
    proof {
        assert(payload@.map_values(|p: PlayerInfo| p@) =~= spec_full_roster(*state));
    }
    out.push(OutboundMsg::ToAll(P2PData::HostLobbyInfoUpdate(payload)));
    let players = state.get_players(true);
    proof {
        assert(players@.map_values(|p: PlayerInfo| p@) =~= spec_full_roster(*state));
        assert(final(out)@.subrange(0, old(out)@.len() as int) =~= old(out)@);
    }
    updates.push(EasyP2PUpdate::RosterUpdated { players });
    proof {
        assert(final(updates)@.subrange(0, old(updates)@.len() as int) =~= old(updates)@);
    }
}

/// Apply the client-side rules to one message received from the host: chat
/// is surfaced as host or client chat per its sender tag; a roster broadcast
/// replaces the local roster wholesale and is surfaced; a sync payload is
/// dispatched through the registry when its index is registered and silently
/// ignored otherwise; an instantiation is surfaced; a ping echo yields the
/// round trip against the local clock; anything else from the host is
/// ignored.
pub fn on_host_message(
    state: &mut EasyP2PState,
    updates: &mut EasyP2PUpdateQueue,
    dispatches: &mut Vec<SyncDispatch>,
    pings: &mut Vec<PingUpdate>,
    instantiations: &mut Vec<InstantiationDataNet>,
    state_reg_len: usize,
    event_reg_len: usize,
    now_ms: u64,
    data: &P2PData,
)
    ensures
        spec_core_unchanged(*old(state), *final(state)),
        match *data {
            P2PData::ClientLobbyChatMessage(text, sender) => {
                &&& final(state).players == old(state).players
                &&& (sender == NetworkedId::Host ==> final(updates)@ == old(updates)@.push(
                    EasyP2PUpdate::HostChat { text },
                ))
                &&& (sender matches NetworkedId::ClientId(c) ==> final(updates)@ == old(
                    updates,
                )@.push(EasyP2PUpdate::ClientChat { client_id: c, text }))
                &&& final(dispatches)@ == old(dispatches)@
                &&& final(pings)@ == old(pings)@
                &&& final(instantiations)@ == old(instantiations)@
            },
            P2PData::HostLobbyInfoUpdate(players) => {
                &&& final(state).players@ == players@
                &&& spec_pushed(old(updates)@, final(updates)@)
                &&& (final(updates)@.last() matches EasyP2PUpdate::RosterUpdated {
                    players: ps,
                } && ps@ == players@)
                &&& final(dispatches)@ == old(dispatches)@
                &&& final(pings)@ == old(pings)@
                &&& final(instantiations)@ == old(instantiations)@
            },
            P2PData::StateSync(index, payload) => {
                &&& final(state).players == old(state).players
                &&& final(updates)@ == old(updates)@
                &&& ((index as int) < state_reg_len ==> final(dispatches)@ == old(
                    dispatches,
                )@.push(SyncDispatch::ApplyState { index, payload }))
                &&& ((index as int) >= state_reg_len ==> final(dispatches)@ == old(dispatches)@)
                &&& final(pings)@ == old(pings)@
                &&& final(instantiations)@ == old(instantiations)@
            },
            P2PData::EventSync(index, payload) => {
                &&& final(state).players == old(state).players
                &&& final(updates)@ == old(updates)@
                &&& ((index as int) < event_reg_len ==> final(dispatches)@ == old(
                    dispatches,
                )@.push(SyncDispatch::EmitEvent { index, payload }))
                &&& ((index as int) >= event_reg_len ==> final(dispatches)@ == old(dispatches)@)
                &&& final(pings)@ == old(pings)@
                &&& final(instantiations)@ == old(instantiations)@
            },
            P2PData::HostInstantiation(d) => {
                &&& final(state).players == old(state).players
                &&& final(updates)@ == old(updates)@.push(EasyP2PUpdate::Instantiated { data: d })
                &&& final(instantiations)@ == old(instantiations)@.push(d)
                &&& final(dispatches)@ == old(dispatches)@
                &&& final(pings)@ == old(pings)@
            },
            P2PData::PingRequest(stamp) => {
                &&& final(state).players == old(state).players
                &&& final(updates)@ == old(updates)@
                &&& final(pings)@ == old(pings)@.push(
                    PingUpdate(if now_ms >= stamp { (now_ms - stamp) as u64 } else { 0 }),
                )
                &&& final(dispatches)@ == old(dispatches)@
                &&& final(instantiations)@ == old(instantiations)@
            },
            _ => {
                &&& final(state).players == old(state).players
                &&& final(updates)@ == old(updates)@
                &&& final(dispatches)@ == old(dispatches)@
                &&& final(pings)@ == old(pings)@
                &&& final(instantiations)@ == old(instantiations)@
            },
        },
{
    match data {
        P2PData::ClientLobbyChatMessage(text, sender) => match sender {
            NetworkedId::Host => {
                updates.push(EasyP2PUpdate::HostChat { text: text.clone() });
            },
            NetworkedId::ClientId(c) => {
                updates.push(EasyP2PUpdate::ClientChat { client_id: *c, text: text.clone() });
            },
        },
        P2PData::HostLobbyInfoUpdate(players) => {
            state.players = clone_players(players);
            let surfaced = clone_players(players);
            updates.push(EasyP2PUpdate::RosterUpdated { players: surfaced });
            proof {
                assert(final(updates)@.subrange(0, old(updates)@.len() as int) =~= old(
                    updates,
                )@);
            }
        },
        P2PData::StateSync(index, payload) => {
            if (*index as usize) < state_reg_len {
                dispatches.push(
                    SyncDispatch::ApplyState { index: *index, payload: payload.clone() },
                );
            }
        },
        P2PData::EventSync(index, payload) => {
            if (*index as usize) < event_reg_len {
                dispatches.push(
                    SyncDispatch::EmitEvent { index: *index, payload: payload.clone() },
                );
            }
        },
        P2PData::HostInstantiation(d) => {
            instantiations.push(d.clone());
            updates.push(EasyP2PUpdate::Instantiated { data: d.clone() });
        },
        P2PData::PingRequest(stamp) => {
            let rtt = if now_ms >= *stamp {
                now_ms - *stamp
            } else {
                0
            };
            pings.push(PingUpdate(rtt));
        },
        _ => {},
    }
}

/// A client that just entered the lobby publishes its local player data to
/// the host; the host has nothing to send.
pub fn send_local_data_after_enter(state: &EasyP2PState, out: &mut Vec<OutboundMsg>)
    ensures
        !state.is_host ==> final(out)@ == old(out)@.push(
            OutboundMsg::ToHost(P2PData::ClientDataUpdate(state.local_player_data)),
        ),
        state.is_host ==> final(out)@ == old(out)@,
{
    if !state.is_host {
        out.push(OutboundMsg::ToHost(P2PData::ClientDataUpdate(state.local_player_data.clone())));
    }
}

/// A client sends the host a ping stamped with its own elapsed clock; the
/// round trip is later measured against the same clock, so no clocks need
/// agree.
pub fn send_ping(state: &EasyP2PState, out: &mut Vec<OutboundMsg>, now_ms: u64)
    ensures
        !state.is_host ==> final(out)@ == old(out)@.push(
            OutboundMsg::ToHost(P2PData::PingRequest(now_ms)),
        ),
        state.is_host ==> final(out)@ == old(out)@,
{
    if !state.is_host {
        out.push(OutboundMsg::ToHost(P2PData::PingRequest(now_ms)));
    }
}

/// On the host, broadcast a registered state type's value when it changed
/// since the last broadcast: the value is compared against the last one
/// sent, and on a change an indexed sync message goes to every client. An
/// unregistered key broadcasts nothing; a non-host broadcasts nothing.
pub fn host_broadcast_state_change(
    is_host: bool,
    register: &crate::registry::SyncedStateRegister,
    key: u64,
    current: &String,
    last: &mut Option<String>,
    out: &mut Vec<OutboundMsg>,
)
    requires
        register.table.wf(),
    ensures
        !is_host ==> *final(last) == *old(last) && final(out)@ == old(out)@,
        is_host ==> match *old(last) {
            Some(prev) if prev@ == current@ => *final(last) == *old(last) && final(out)@ == old(
                out,
            )@,
            _ => {
                &&& (*final(last) matches Some(v) && v@ == current@)
                &&& match crate::registry::spec_find(register.table@, key) {
                    Some(i) => final(out)@ == old(out)@.push(
                        OutboundMsg::ToAll(P2PData::StateSync(i as u8, *current)),
                    ),
                    None => final(out)@ == old(out)@,
                }
            },
        },
{
    if !is_host {
        return ;
    }
    let unchanged = match last {
        Some(prev) => *prev == *current,
        None => false,
    };
    if unchanged {
        return ;
    }
    *last = Some(current.clone());
    match register.table.index_of(key) {
        Some(index) => {
            out.push(OutboundMsg::ToAll(P2PData::StateSync(index, current.clone())));
        },
        None => {},
    }
}

/// On the host, forward one locally emitted event of a registered event
/// type to every client, tagged with the type's index; local delivery is
/// not suppressed by this. An unregistered key forwards nothing; a non-host
/// forwards nothing.
pub fn host_broadcast_event(
    is_host: bool,
    register: &crate::registry::SyncedEventRegister,
    key: u64,
    payload: &String,
    out: &mut Vec<OutboundMsg>,
)
    requires
        register.table.wf(),
    ensures
        !is_host ==> final(out)@ == old(out)@,
        is_host ==> match crate::registry::spec_find(register.table@, key) {
            Some(i) => final(out)@ == old(out)@.push(
                OutboundMsg::ToAll(P2PData::EventSync(i as u8, *payload)),
            ),
            None => final(out)@ == old(out)@,
        },
{
    if !is_host {
        return ;
    }
    match register.table.index_of(key) {
        Some(index) => {
            out.push(OutboundMsg::ToAll(P2PData::EventSync(index, payload.clone())));
        },
        None => {},
    }
}

// ---------------------------------------------------------------------------
// Roster laws
// ---------------------------------------------------------------------------

/// One roster-affecting occurrence on the host: a client's data update, or
/// the transport reporting the set of currently connected clients.
pub enum RosterOp {
    DataUpdate { cid: u64, data: Seq<char> },
    RosterChanged { connected: Seq<u64> },
}

/// What one occurrence does to the roster.
pub open spec fn spec_roster_step(r: Seq<PlayerInfoView>, op: RosterOp) -> Seq<PlayerInfoView> {
    match op {
        RosterOp::DataUpdate { cid, data } => spec_upsert(r, NetworkedId::ClientId(cid), data),
        RosterOp::RosterChanged { connected } => spec_prune(r, connected),
    }
}

/// The roster after a whole run of occurrences.
pub open spec fn spec_roster_run(r: Seq<PlayerInfoView>, ops: Seq<RosterOp>) -> Seq<
    PlayerInfoView,
>
    decreases ops.len(),
{
    if ops.len() == 0 {
        r
    } else {
        spec_roster_step(spec_roster_run(r, ops.drop_last()), ops.last())
    }
}

/// Every entry of a pruned roster is an entry of the original, in order.
proof fn lemma_prune_entries(ps: Seq<PlayerInfoView>, connected: Seq<u64>)
    ensures
        forall|k: int| 0 <= k < spec_prune(ps, connected).len() ==> exists|j: int|
            0 <= j < ps.len() && ps[j] == #[trigger] spec_prune(ps, connected)[k],
    decreases ps.len(),
{
    if ps.len() > 0 {
        lemma_prune_entries(ps.drop_first(), connected);
        let pr = spec_prune(ps, connected);
        assert forall|k: int| 0 <= k < pr.len() implies exists|j: int|
            0 <= j < ps.len() && ps[j] == #[trigger] pr[k] by {
            let keep = match ps[0].id {
                NetworkedId::Host => true,
                NetworkedId::ClientId(c) => spec_connected_contains(connected, c),
            };
            if keep {
                if k == 0 {
                    assert(ps[0] == pr[0]);
                } else {
                    let sub = spec_prune(ps.drop_first(), connected);
                    assert(pr[k] == sub[k - 1]);
                    let j0 = choose|j: int|
                        0 <= j < ps.drop_first().len() && ps.drop_first()[j] == sub[k - 1];
                    assert(ps[j0 + 1] == pr[k]);
                }
            } else {
                let sub = spec_prune(ps.drop_first(), connected);
                assert(pr[k] == sub[k]);
                let j0 = choose|j: int|
                    0 <= j < ps.drop_first().len() && ps.drop_first()[j] == sub[k];
                assert(ps[j0 + 1] == pr[k]);
            }
        }
    }
}

/// Law, first half: a pruned roster holds no client the transport no longer
/// reports connected — every surviving client entry is connected, with the
/// data it had.
pub proof fn lemma_prune_only_connected(ps: Seq<PlayerInfoView>, connected: Seq<u64>)
    ensures
        forall|k: int|
            0 <= k < spec_prune(ps, connected).len() ==> match (#[trigger] spec_prune(
                ps,
                connected,
            )[k]).id {
                NetworkedId::ClientId(c) => spec_connected_contains(connected, c),
                NetworkedId::Host => true,
            },
        forall|k: int| 0 <= k < spec_prune(ps, connected).len() ==> exists|j: int|
            0 <= j < ps.len() && ps[j] == #[trigger] spec_prune(ps, connected)[k],
    decreases ps.len(),
{
    lemma_prune_entries(ps, connected);
    if ps.len() > 0 {
        lemma_prune_only_connected(ps.drop_first(), connected);
    }
}

/// Law, second half: a connected client that was in the roster survives a
/// prune with its entry intact.
pub proof fn lemma_prune_keeps_connected(ps: Seq<PlayerInfoView>, connected: Seq<u64>, c: u64)
    requires
        spec_connected_contains(connected, c),
    ensures
        match spec_find_peer(ps, NetworkedId::ClientId(c)) {
            Some(i) => match spec_find_peer(spec_prune(ps, connected), NetworkedId::ClientId(c)) {
                Some(j) => spec_prune(ps, connected)[j] == ps[i],
                None => false,
            },
            None => true,
        },
    decreases ps.len(),
{
    if ps.len() > 0 {
        lemma_prune_keeps_connected(ps.drop_first(), connected, c);
        lemma_find_peer_props(ps, NetworkedId::ClientId(c));
        lemma_find_peer_props(ps.drop_first(), NetworkedId::ClientId(c));
        let pr = spec_prune(ps, connected);
        let keep = match ps[0].id {
            NetworkedId::Host => true,
            NetworkedId::ClientId(cc) => spec_connected_contains(connected, cc),
        };
        if keep {
            lemma_find_peer_props(pr, NetworkedId::ClientId(c));
            assert(pr[0] == ps[0]);
            if ps[0].id == NetworkedId::ClientId(c) {
            } else {
                assert(pr.drop_first() =~= spec_prune(ps.drop_first(), connected));
            }
        }
    }
}

/// The data a peer's entry carries after an update run: its latest update
/// if it had one, else whatever the run started with.
pub open spec fn spec_latest_update(ops: Seq<RosterOp>, c: u64) -> Option<Seq<char>>
    decreases ops.len(),
{
    if ops.len() == 0 {
        None
    } else {
        match ops.last() {
            RosterOp::DataUpdate { cid, data } => if cid == c {
                Some(data)
            } else {
                spec_latest_update(ops.drop_last(), c)
            },
            RosterOp::RosterChanged { .. } => spec_latest_update(ops.drop_last(), c),
        }
    }
}

/// An upsert leaves every other peer's entry alone and gives the named peer
/// the new data.
pub proof fn lemma_upsert_effect(ps: Seq<PlayerInfoView>, id: NetworkedId, data: Seq<char>)
    ensures
        forall|k: int|
            0 <= k < ps.len() && ps[k].id != id ==> spec_upsert(ps, id, data).contains(
                #[trigger] ps[k],
            ),
        match spec_find_peer(spec_upsert(ps, id, data), id) {
            Some(j) => spec_upsert(ps, id, data)[j] == (PlayerInfoView { id, data }),
            None => false,
        },
{
    lemma_find_peer_props(ps, id);
    let up = spec_upsert(ps, id, data);
    lemma_find_peer_props(up, id);
    match spec_find_peer(ps, id) {
        Some(i) => {
            assert forall|k: int| 0 <= k < ps.len() && ps[k].id != id implies up.contains(
                #[trigger] ps[k],
            ) by {
                assert(up[k] == ps[k]);
            }
            match spec_find_peer(up, id) {
                Some(j) => {
                    if j < i {
                        assert(up[j] == ps[j]);
                    }
                },
                None => {
                    assert(up[i].id == id);
                },
            }
        },
        None => {
            assert forall|k: int| 0 <= k < ps.len() && ps[k].id != id implies up.contains(
                #[trigger] ps[k],
            ) by {
                assert(up[k] == ps[k]);
            }
            match spec_find_peer(up, id) {
                Some(j) => {
                    if j < ps.len() {
                        assert(up[j] == ps[j]);
                    }
                },
                None => {
                    assert(up[ps.len() as int].id == id);
                },
            }
        },
    }
}

/// Updating another peer's entry in place does not move or change this
/// peer's entry.
proof fn lemma_find_peer_update_other(
    ps: Seq<PlayerInfoView>,
    i: int,
    e: PlayerInfoView,
    id: NetworkedId,
)
    requires
        0 <= i < ps.len(),
        ps[i].id != id,
        e.id != id,
    ensures
        spec_find_peer(ps.update(i, e), id) == spec_find_peer(ps, id),
    decreases ps.len(),
{
    if i == 0 {
        assert(ps.update(0, e)[0] == e);
        assert(ps.update(0, e).drop_first() =~= ps.drop_first());
    } else {
        assert(ps.update(i, e)[0] == ps[0]);
        assert(ps.update(i, e).drop_first() =~= ps.drop_first().update(i - 1, e));
        lemma_find_peer_update_other(ps.drop_first(), i - 1, e, id);
    }
}

/// Appending another peer's entry does not move or change this peer's entry.
proof fn lemma_find_peer_push_other(ps: Seq<PlayerInfoView>, e: PlayerInfoView, id: NetworkedId)
    requires
        e.id != id,
    ensures
        spec_find_peer(ps.push(e), id) == spec_find_peer(ps, id),
    decreases ps.len(),
{
    if ps.len() == 0 {
        reveal_with_fuel(spec_find_peer, 3);
        assert(ps.push(e)[0] == e);
        assert(ps.push(e).drop_first() =~= Seq::<PlayerInfoView>::empty());
    } else {
        assert(ps.push(e)[0] == ps[0]);
        assert(ps.push(e).drop_first() =~= ps.drop_first().push(e));
        lemma_find_peer_push_other(ps.drop_first(), e, id);
    }
}

/// After any run of occurrences, a peer's entry — when it has one — carries
/// its most recently received data, or its starting data when the run held
/// no update for it; a peer absent at the start with no update has no entry.
pub proof fn lemma_roster_run_latest(r0: Seq<PlayerInfoView>, ops: Seq<RosterOp>, c: u64)
    ensures
        match spec_find_peer(spec_roster_run(r0, ops), NetworkedId::ClientId(c)) {
            Some(j) => match spec_latest_update(ops, c) {
                Some(d) => spec_roster_run(r0, ops)[j].data == d && spec_roster_run(r0, ops)[j].id
                    == NetworkedId::ClientId(c),
                None => match spec_find_peer(r0, NetworkedId::ClientId(c)) {
                    Some(i) => spec_roster_run(r0, ops)[j] == r0[i],
                    None => false,
                },
            },
            None => true,
        },
    decreases ops.len(),
{
    let id = NetworkedId::ClientId(c);
    if ops.len() == 0 {
        lemma_find_peer_props(r0, id);
    } else {
        let pre = ops.drop_last();
        let rp = spec_roster_run(r0, pre);
        let run = spec_roster_run(r0, ops);
        lemma_roster_run_latest(r0, pre, c);
        lemma_find_peer_props(rp, id);
        lemma_find_peer_props(run, id);
        match ops.last() {
            RosterOp::DataUpdate { cid, data } => {
                if cid == c {
                    lemma_upsert_effect(rp, id, data);
                } else {
                    lemma_find_peer_props(rp, NetworkedId::ClientId(cid));
                    match spec_find_peer(rp, NetworkedId::ClientId(cid)) {
                        Some(i) => {
                            lemma_find_peer_update_other(
                                rp,
                                i,
                                PlayerInfoView { id: NetworkedId::ClientId(cid), data },
                                id,
                            );
                            match spec_find_peer(run, id) {
                                Some(j) => {
                                    assert(run[j] == rp[j]);
                                },
                                None => {},
                            }
                        },
                        None => {
                            lemma_find_peer_push_other(
                                rp,
                                PlayerInfoView { id: NetworkedId::ClientId(cid), data },
                                id,
                            );
                            match spec_find_peer(run, id) {
                                Some(j) => {
                                    assert(run[j] == rp[j]);
                                },
                                None => {},
                            }
                        },
                    }
                }
            },
            RosterOp::RosterChanged { connected } => {
                lemma_prune_only_connected(rp, connected);
                match spec_find_peer(run, id) {
                    Some(j) => {
                        assert(run[j].id == id);
                        assert(spec_prune(rp, connected)[j] == run[j]);
                        assert(spec_connected_contains(connected, c));
                        let j0 = choose|x: int| 0 <= x < rp.len() && rp[x] == run[j];
                        match spec_find_peer(rp, id) {
                            Some(i) => {
                                lemma_prune_keeps_connected(rp, connected, c);
                            },
                            None => {
                                assert(rp[j0].id != id);
                                assert(false);
                            },
                        }
                    },
                    None => {},
                }
            },
        }
    }
}

/// Law: after any run of player-data updates and roster-changed
/// notifications that ends with a notification reporting `connected`, the
/// roster holds no client the transport no longer reports; and every
/// connected client that had an entry when the notification arrived still
/// has one, carrying its most recently received data (or, with no update in
/// the run, the data it started with). A connected client that never
/// published data has no entry.
pub proof fn lemma_roster_reconciliation(
    r0: Seq<PlayerInfoView>,
    ops: Seq<RosterOp>,
    connected: Seq<u64>,
)
    requires
        ops.len() > 0,
        ops.last() == (RosterOp::RosterChanged { connected }),
    ensures
        forall|k: int|
            0 <= k < spec_roster_run(r0, ops).len() ==> match (#[trigger] spec_roster_run(
                r0,
                ops,
            )[k]).id {
                NetworkedId::ClientId(c) => spec_connected_contains(connected, c),
                NetworkedId::Host => true,
            },
        forall|c: u64|
            spec_connected_contains(connected, c) && #[trigger] spec_find_peer(
                spec_roster_run(r0, ops.drop_last()),
                NetworkedId::ClientId(c),
            ) is Some ==> match spec_find_peer(spec_roster_run(r0, ops), NetworkedId::ClientId(c)) {
                Some(j) => match spec_latest_update(ops, c) {
                    Some(d) => spec_roster_run(r0, ops)[j].data == d,
                    None => spec_find_peer(r0, NetworkedId::ClientId(c)) is Some,
                },
                None => false,
            },
{
    let pre = ops.drop_last();
    let rp = spec_roster_run(r0, pre);
    let run = spec_roster_run(r0, ops);
    assert(run == spec_prune(rp, connected));
    lemma_prune_only_connected(rp, connected);
    assert forall|c: u64|
        spec_connected_contains(connected, c) && #[trigger] spec_find_peer(
            rp,
            NetworkedId::ClientId(c),
        ) is Some implies match spec_find_peer(run, NetworkedId::ClientId(c)) {
        Some(j) => match spec_latest_update(ops, c) {
            Some(d) => run[j].data == d,
            None => spec_find_peer(r0, NetworkedId::ClientId(c)) is Some,
        },
        None => false,
    } by {
        lemma_prune_keeps_connected(rp, connected, c);
        lemma_roster_run_latest(r0, pre, c);
        lemma_roster_run_latest(r0, ops, c);
    }
}

/// Is `c` in the connected list?
fn connected_contains(connected: &Vec<u64>, c: u64) -> (r: bool)
    ensures
        r == spec_connected_contains(connected@, c),
{
    let mut k: usize = 0;
    while k < connected.len()
        invariant
            k <= connected@.len(),
            forall|j: int| 0 <= j < k ==> connected@[j] != c,
        decreases connected@.len() - k,
    {
        if connected[k] == c {
            return true;
        }
        k = k + 1;
    }
    false
}

} // verus!
