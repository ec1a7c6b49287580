//! The consumer-facing session API, and the mailbox between the session
//! core and the transport.
//!
//! Consumers issue commands (create/join/exit, sends, kick, instantiate)
//! and drain normalized updates once per tick; the transport takes requests
//! from the mailbox and feeds confirmations and incoming frames back
//! through it. The per-tick processing order — transport events, then
//! session state, then routing, then roster reconciliation, then encoding —
//! is driven by the runtime around this crate, one call at a time.

use vstd::prelude::*;

use crate::codec::{encode_msg, spec_encode_msg};
use crate::ids::{ExitReason, NetworkedId};
use crate::messages::{InstantiationDataNet, NetTransform, P2PData, PlayerInfo};
use crate::registry::{SyncedEventRegister, SyncedStateRegister};
use crate::router::{spec_find_peer, spec_full_roster};
use crate::session::EasyP2PState;
use crate::updates::{EasyP2PUpdate, EasyP2PUpdateQueue, PingUpdate};

verus! {

/// The mailbox between the session core and the transport: requests flow
/// down, confirmations and incoming frames flow up, each taken exactly
/// once.
pub struct EasyP2PTransportIo {
    /// How many lobby creations were requested since last taken.
    pub create_requests: u64,
    /// Lobby codes whose join was requested.
    pub join_requests: Vec<String>,
    /// How many lobby exits were requested since last taken.
    pub exit_requests: u64,
    /// Clients whose kick was requested.
    pub kick_requests: Vec<u64>,
    /// Encoded frames to send to the host.
    pub send_to_host: Vec<String>,
    /// Encoded frames to send to every peer.
    pub send_to_all: Vec<String>,
    /// Encoded frames to send to one client each.
    pub send_to_client: Vec<(u64, String)>,
    /// Encoded frames to relay to every client but the sender.
    pub relay_to_all_except: Vec<(u64, String)>,
    /// Lobby-created confirmations from the transport.
    pub lobby_created: Vec<String>,
    /// Lobby-joined confirmations from the transport.
    pub lobby_joined: Vec<String>,
    /// Lobby-entered confirmations from the transport.
    pub lobby_entered: Vec<String>,
    /// Transport-reported lobby ends.
    pub lobby_exit: Vec<ExitReason>,
    /// Transport-reported sets of currently connected clients.
    pub roster_changed: Vec<Vec<u64>>,
    /// Frames received from clients, attributed.
    pub incoming_from_client: Vec<(u64, String)>,
    /// Frames received from the host.
    pub incoming_from_host: Vec<String>,
}

impl EasyP2PTransportIo {
    /// An empty mailbox.
    pub fn new() -> (r: Self)
        ensures
            r.create_requests == 0,
            r.join_requests@ == Seq::<String>::empty(),
            r.exit_requests == 0,
            r.kick_requests@ == Seq::<u64>::empty(),
            r.send_to_host@ == Seq::<String>::empty(),
            r.send_to_all@ == Seq::<String>::empty(),
            r.send_to_client@ == Seq::<(u64, String)>::empty(),
            r.relay_to_all_except@ == Seq::<(u64, String)>::empty(),
            r.lobby_created@ == Seq::<String>::empty(),
            r.lobby_joined@ == Seq::<String>::empty(),
            r.lobby_entered@ == Seq::<String>::empty(),
            r.lobby_exit@ == Seq::<ExitReason>::empty(),
            r.roster_changed@ == Seq::<Vec<u64>>::empty(),
            r.incoming_from_client@ == Seq::<(u64, String)>::empty(),
            r.incoming_from_host@ == Seq::<String>::empty(),
    {
        EasyP2PTransportIo {
            create_requests: 0,
            join_requests: Vec::new(),
            exit_requests: 0,
            kick_requests: Vec::new(),
            send_to_host: Vec::new(),
            send_to_all: Vec::new(),
            send_to_client: Vec::new(),
            relay_to_all_except: Vec::new(),
            lobby_created: Vec::new(),
            lobby_joined: Vec::new(),
            lobby_entered: Vec::new(),
            lobby_exit: Vec::new(),
            roster_changed: Vec::new(),
            incoming_from_client: Vec::new(),
            incoming_from_host: Vec::new(),
        }
    }

    /// Take the count of pending lobby-creation requests.
    pub fn take_create_requests(&mut self) -> (r: u64)
        ensures
            r == old(self).create_requests,
            *final(self) == (EasyP2PTransportIo { create_requests: 0, ..*old(self) }),
    {
        let r = self.create_requests;
        self.create_requests = 0;
        r
    }

    /// Take the pending join requests, in order.
    pub fn take_join_requests(&mut self) -> (r: Vec<String>)
        ensures
            r == old(self).join_requests,
            final(self).join_requests@ == Seq::<String>::empty(),
            *final(self) == (EasyP2PTransportIo {
                join_requests: final(self).join_requests,
                ..*old(self)
            }),
    {
        let mut r: Vec<String> = Vec::new();
        core::mem::swap(&mut r, &mut self.join_requests);
        r
    }

    /// Take the count of pending exit requests.
    pub fn take_exit_requests(&mut self) -> (r: u64)
        ensures
            r == old(self).exit_requests,
            *final(self) == (EasyP2PTransportIo { exit_requests: 0, ..*old(self) }),
    {
        let r = self.exit_requests;
        self.exit_requests = 0;
        r
    }

    /// Take the pending kick requests, in order.
    pub fn take_kick_requests(&mut self) -> (r: Vec<u64>)
        ensures
            r == old(self).kick_requests,
            final(self).kick_requests@ == Seq::<u64>::empty(),
            *final(self) == (EasyP2PTransportIo {
                kick_requests: final(self).kick_requests,
                ..*old(self)
            }),
    {
        let mut r: Vec<u64> = Vec::new();
        core::mem::swap(&mut r, &mut self.kick_requests);
        r
    }

    /// Take the transport-reported lobby ends, in order.
    pub fn take_lobby_exit_events(&mut self) -> (r: Vec<ExitReason>)
        ensures
            r == old(self).lobby_exit,
            final(self).lobby_exit@ == Seq::<ExitReason>::empty(),
            *final(self) == (EasyP2PTransportIo {
                lobby_exit: final(self).lobby_exit,
                ..*old(self)
            }),
    {
        let mut r: Vec<ExitReason> = Vec::new();
        core::mem::swap(&mut r, &mut self.lobby_exit);
        r
    }

    /// Take the frames bound for the host, in order.
    pub fn take_send_to_host(&mut self) -> (r: Vec<String>)
        ensures
            r == old(self).send_to_host,
            final(self).send_to_host@ == Seq::<String>::empty(),
            *final(self) == (EasyP2PTransportIo {
                send_to_host: final(self).send_to_host,
                ..*old(self)
            }),
    {
        let mut r: Vec<String> = Vec::new();
        core::mem::swap(&mut r, &mut self.send_to_host);
        r
    }

    /// Take the frames bound for every peer, in order.
    pub fn take_send_to_all(&mut self) -> (r: Vec<String>)
        ensures
            r == old(self).send_to_all,
            final(self).send_to_all@ == Seq::<String>::empty(),
            *final(self) == (EasyP2PTransportIo {
                send_to_all: final(self).send_to_all,
                ..*old(self)
            }),
    {
        let mut r: Vec<String> = Vec::new();
        core::mem::swap(&mut r, &mut self.send_to_all);
        r
    }

    /// Take the frames bound for single clients, in order.
    pub fn take_send_to_client(&mut self) -> (r: Vec<(u64, String)>)
        ensures
            r == old(self).send_to_client,
            final(self).send_to_client@ == Seq::<(u64, String)>::empty(),
            *final(self) == (EasyP2PTransportIo {
                send_to_client: final(self).send_to_client,
                ..*old(self)
            }),
    {
        let mut r: Vec<(u64, String)> = Vec::new();
        core::mem::swap(&mut r, &mut self.send_to_client);
        r
    }

    /// Take the frames to relay past their senders, in order.
    pub fn take_relay_to_all_except(&mut self) -> (r: Vec<(u64, String)>)
        ensures
            r == old(self).relay_to_all_except,
            final(self).relay_to_all_except@ == Seq::<(u64, String)>::empty(),
            *final(self) == (EasyP2PTransportIo {
                relay_to_all_except: final(self).relay_to_all_except,
                ..*old(self)
            }),
    {
        let mut r: Vec<(u64, String)> = Vec::new();
        core::mem::swap(&mut r, &mut self.relay_to_all_except);
        r
    }

    /// The transport confirmed lobby creation under `code`.
    pub fn emit_lobby_created(&mut self, code: String)
        ensures
            final(self).lobby_created@ == old(self).lobby_created@.push(code),
            *final(self) == (EasyP2PTransportIo {
                lobby_created: final(self).lobby_created,
                ..*old(self)
            }),
    {
        self.lobby_created.push(code);
    }

    /// The transport confirmed joining lobby `code`.
    pub fn emit_lobby_joined(&mut self, code: String)
        ensures
            final(self).lobby_joined@ == old(self).lobby_joined@.push(code),
            *final(self) == (EasyP2PTransportIo {
                lobby_joined: final(self).lobby_joined,
                ..*old(self)
            }),
    {
        self.lobby_joined.push(code);
    }

    /// The lobby `code` is live for this instance.
    pub fn emit_lobby_entered(&mut self, code: String)
        ensures
            final(self).lobby_entered@ == old(self).lobby_entered@.push(code),
            *final(self) == (EasyP2PTransportIo {
                lobby_entered: final(self).lobby_entered,
                ..*old(self)
            }),
    {
        self.lobby_entered.push(code);
    }

    /// The transport reported the lobby over.
    pub fn emit_lobby_exit(&mut self, reason: ExitReason)
        ensures
            final(self).lobby_exit@ == old(self).lobby_exit@.push(reason),
            *final(self) == (EasyP2PTransportIo {
                lobby_exit: final(self).lobby_exit,
                ..*old(self)
            }),
    {
        self.lobby_exit.push(reason);
    }

    /// The transport reported the set of currently connected clients.
    pub fn emit_roster_changed(&mut self, roster: Vec<u64>)
        ensures
            final(self).roster_changed@ == old(self).roster_changed@.push(roster),
            *final(self) == (EasyP2PTransportIo {
                roster_changed: final(self).roster_changed,
                ..*old(self)
            }),
    {
        self.roster_changed.push(roster);
    }

    /// A frame arrived from the client `client_id`.
    pub fn emit_incoming_from_client(&mut self, client_id: u64, payload: String)
        ensures
            final(self).incoming_from_client@ == old(self).incoming_from_client@.push(
                (client_id, payload),
            ),
            *final(self) == (EasyP2PTransportIo {
                incoming_from_client: final(self).incoming_from_client,
                ..*old(self)
            }),
    {
        self.incoming_from_client.push((client_id, payload));
    }

    /// A frame arrived from the host.
    pub fn emit_incoming_from_host(&mut self, payload: String)
        ensures
            final(self).incoming_from_host@ == old(self).incoming_from_host@.push(payload),
            *final(self) == (EasyP2PTransportIo {
                incoming_from_host: final(self).incoming_from_host,
                ..*old(self)
            }),
    {
        self.incoming_from_host.push(payload);
    }
}

/// The session object consumers program against.
pub struct EasyP2P {
    pub state: EasyP2PState,
    pub updates: EasyP2PUpdateQueue,
    pub state_register: SyncedStateRegister,
    pub event_register: SyncedEventRegister,
    /// Instantiations surfaced for local handling, drained by the consumer.
    pub instantiations: Vec<InstantiationDataNet>,
    /// Measured round trips, drained by the consumer.
    pub pings: Vec<PingUpdate>,
    /// Messages the session wants encoded and sent, in order.
    pub send_host_reqs: Vec<P2PData>,
    pub send_all_reqs: Vec<P2PData>,
    pub send_client_reqs: Vec<(u64, P2PData)>,
    pub relay_reqs: Vec<(u64, P2PData)>,
}

impl EasyP2P {
    /// A fresh session: out of lobby, registries empty.
    pub fn new() -> (r: Self)
        ensures
            r.state.is_reset(),
            r.updates@ == Seq::<EasyP2PUpdate>::empty(),
            r.state_register.table@ == Seq::<u64>::empty(),
            r.state_register.table.wf(),
            r.event_register.table@ == Seq::<u64>::empty(),
            r.event_register.table.wf(),
            r.instantiations@ == Seq::<InstantiationDataNet>::empty(),
            r.pings@ == Seq::<PingUpdate>::empty(),
            r.send_host_reqs@ == Seq::<P2PData>::empty(),
            r.send_all_reqs@ == Seq::<P2PData>::empty(),
            r.send_client_reqs@ == Seq::<(u64, P2PData)>::empty(),
            r.relay_reqs@ == Seq::<(u64, P2PData)>::empty(),
    {
        EasyP2P {
            state: EasyP2PState::new(),
            updates: EasyP2PUpdateQueue::new(),
            state_register: SyncedStateRegister::new(),
            event_register: SyncedEventRegister::new(),
            instantiations: Vec::new(),
            pings: Vec::new(),
            send_host_reqs: Vec::new(),
            send_all_reqs: Vec::new(),
            send_client_reqs: Vec::new(),
            relay_reqs: Vec::new(),
        }
    }

    /// Ask the transport to create a lobby.
    pub fn create_lobby(&mut self, io: &mut crate::api::EasyP2PTransportIo)
        ensures
            *final(self) == *old(self),
            final(io).create_requests == (if old(io).create_requests < u64::MAX {
                (old(io).create_requests + 1) as u64
            } else {
                u64::MAX
            }),
            *final(io) == (EasyP2PTransportIo {
                create_requests: final(io).create_requests,
                ..*old(io)
            }),
    {
        if io.create_requests < u64::MAX {
            io.create_requests = io.create_requests + 1;
        }
    }

    /// Ask the transport to join the lobby `code`.
    pub fn join_lobby(&mut self, io: &mut EasyP2PTransportIo, code: &str)
        ensures
            *final(self) == *old(self),
            final(io).join_requests@.len() == old(io).join_requests@.len() + 1,
            final(io).join_requests@.last()@ == code@,
            final(io).join_requests@.subrange(0, old(io).join_requests@.len() as int) == old(
                io,
            ).join_requests@,
            *final(io) == (EasyP2PTransportIo {
                join_requests: final(io).join_requests,
                ..*old(io)
            }),
    {
        io.join_requests.push(code.to_owned());
        proof {
            assert(final(io).join_requests@.subrange(0, old(io).join_requests@.len() as int)
                =~= old(io).join_requests@);
        }
    }

    /// Ask the transport to leave the lobby.
    pub fn exit_lobby(&mut self, io: &mut EasyP2PTransportIo)
        ensures
            *final(self) == *old(self),
            final(io).exit_requests == (if old(io).exit_requests < u64::MAX {
                (old(io).exit_requests + 1) as u64
            } else {
                u64::MAX
            }),
            *final(io) == (EasyP2PTransportIo {
                exit_requests: final(io).exit_requests,
                ..*old(io)
            }),
    {
        if io.exit_requests < u64::MAX {
            io.exit_requests = io.exit_requests + 1;
        }
    }

    /// Ask the transport to kick one client.
    pub fn kick(&mut self, io: &mut EasyP2PTransportIo, client_id: u64)
        ensures
            *final(self) == *old(self),
            final(io).kick_requests@ == old(io).kick_requests@.push(client_id),
            *final(io) == (EasyP2PTransportIo {
                kick_requests: final(io).kick_requests,
                ..*old(io)
            }),
    {
        io.kick_requests.push(client_id);
    }

    /// Send chat text to the host. The embedded sender tag is a
    /// placeholder: the host attributes a client's chat by the connection
    /// it arrived on, never by the tag.
    pub fn send_message_to_host(&mut self, text: String)
        ensures
            final(self).send_host_reqs@ == old(self).send_host_reqs@.push(
                P2PData::ClientLobbyChatMessage(text, NetworkedId::ClientId(0)),
            ),
            *final(self) == (EasyP2P { send_host_reqs: final(self).send_host_reqs, ..*old(self) }),
    {
        self.send_host_reqs.push(
            P2PData::ClientLobbyChatMessage(text, NetworkedId::ClientId(0)),
        );
    }

    /// Send chat text to every participant, tagged as coming from the host.
    pub fn send_message_all(&mut self, text: String)
        ensures
            final(self).send_all_reqs@ == old(self).send_all_reqs@.push(
                P2PData::ClientLobbyChatMessage(text, NetworkedId::Host),
            ),
            *final(self) == (EasyP2P { send_all_reqs: final(self).send_all_reqs, ..*old(self) }),
    {
        self.send_all_reqs.push(P2PData::ClientLobbyChatMessage(text, NetworkedId::Host));
    }

    /// Publish this tick's inputs: the host surfaces them locally, a client
    /// uploads them to the host.
    pub fn send_inputs(&mut self, input: String)
        ensures
            old(self).state.is_host ==> final(self).updates@ == old(self).updates@.push(
                EasyP2PUpdate::ClientInput { sender: NetworkedId::Host, input },
            ) && *final(self) == (EasyP2P { updates: final(self).updates, ..*old(self) }),
            !old(self).state.is_host ==> final(self).send_host_reqs@ == old(
                self,
            ).send_host_reqs@.push(P2PData::ClientInput(input)) && *final(self) == (EasyP2P {
                send_host_reqs: final(self).send_host_reqs,
                ..*old(self)
            }),
    {
        if self.state.is_host {
            self.updates.push(EasyP2PUpdate::ClientInput { sender: NetworkedId::Host, input });
        } else {
            self.send_host_reqs.push(P2PData::ClientInput(input));
        }
    }

    /// Spawn something everywhere: surfaced locally at once, and broadcast
    /// by the host so every client spawns it too.
    pub fn instantiate(&mut self, instantiation: String, transform: NetTransform)
        ensures
            final(self).instantiations@ == old(self).instantiations@.push(
                InstantiationDataNet { transform, instantiation },
            ),
            old(self).state.is_host ==> final(self).send_all_reqs@ == old(
                self,
            ).send_all_reqs@.push(
                P2PData::HostInstantiation(InstantiationDataNet { transform, instantiation }),
            ) && *final(self) == (EasyP2P {
                instantiations: final(self).instantiations,
                send_all_reqs: final(self).send_all_reqs,
                ..*old(self)
            }),
            !old(self).state.is_host ==> *final(self) == (EasyP2P {
                instantiations: final(self).instantiations,
                ..*old(self)
            }),
    {
        let data = InstantiationDataNet { transform, instantiation };
        self.instantiations.push(data.clone());
        if self.state.is_host {
            self.send_all_reqs.push(P2PData::HostInstantiation(data));
        }
    }

    /// Drain the instantiations surfaced for local handling.
    pub fn get_instantiations(&mut self) -> (r: Vec<InstantiationDataNet>)
        ensures
            r == old(self).instantiations,
            final(self).instantiations@ == Seq::<InstantiationDataNet>::empty(),
            *final(self) == (EasyP2P { instantiations: final(self).instantiations, ..*old(self) }),
    {
        let mut r: Vec<InstantiationDataNet> = Vec::new();
        core::mem::swap(&mut r, &mut self.instantiations);
        r
    }

    /// Is this instance the host?
    pub fn is_host(&self) -> (r: bool)
        ensures
            r == self.state.is_host,
    {
        self.state.is_host
    }

    /// The roster as consumers see it: on the host its own entry comes
    /// first, then the clients.
    pub fn get_players(&self) -> (r: Vec<PlayerInfo>)
        ensures
            self.state.is_host ==> r@.map_values(|p: PlayerInfo| p@) == spec_full_roster(
                self.state,
            ),
            !self.state.is_host ==> r@ == self.state.players@,
    {
        let r = self.state.get_players(self.state.is_host);
        proof {
            if self.state.is_host {
                assert(r@.map_values(|p: PlayerInfo| p@) =~= spec_full_roster(self.state));
            }
        }
        r
    }

    /// This instance's own published data.
    pub fn get_local_player_data(&self) -> (r: String)
        ensures
            r == self.state.local_player_data,
    {
        self.state.local_player_data.clone()
    }

    /// Publish this instance's data: the host folds it into the roster it
    /// broadcasts; a client uploads it to the host.
    pub fn set_local_player_data(&mut self, data: String)
        ensures
            final(self).state.local_player_data == data,
            final(self).state == (EasyP2PState {
                local_player_data: final(self).state.local_player_data,
                ..old(self).state
            }),
            old(self).state.is_host ==> {
                &&& final(self).send_all_reqs@.len() == old(self).send_all_reqs@.len() + 1
                &&& final(self).send_all_reqs@.subrange(
                    0,
                    old(self).send_all_reqs@.len() as int,
                ) == old(self).send_all_reqs@
                &&& (final(self).send_all_reqs@.last() matches P2PData::HostLobbyInfoUpdate(ps)
                    && ps@.map_values(|p: PlayerInfo| p@) == spec_full_roster(final(self).state))
                &&& final(self).updates@.len() == old(self).updates@.len() + 1
                &&& final(self).updates@.subrange(0, old(self).updates@.len() as int) == old(
                    self,
                ).updates@
                &&& (final(self).updates@.last() matches EasyP2PUpdate::RosterUpdated { players }
                    && players@.map_values(|p: PlayerInfo| p@) == spec_full_roster(
                    final(self).state,
                ))
            },
            !old(self).state.is_host ==> final(self).send_host_reqs@ == old(
                self,
            ).send_host_reqs@.push(P2PData::ClientDataUpdate(data)) && final(self).updates@ == old(
                self,
            ).updates@ && final(self).send_all_reqs@ == old(self).send_all_reqs@,
    {
        self.state.local_player_data = data.clone();
        if self.state.is_host {
            let players = self.state.get_players(true);
            proof {
                assert(players@.map_values(|p: PlayerInfo| p@) =~= spec_full_roster(self.state));
            }
            let surfaced = crate::messages::clone_players(&players);
            self.send_all_reqs.push(P2PData::HostLobbyInfoUpdate(players));
            self.updates.push(EasyP2PUpdate::RosterUpdated { players: surfaced });
            proof {
                assert(final(self).send_all_reqs@.subrange(
                    0,
                    old(self).send_all_reqs@.len() as int,
                ) =~= old(self).send_all_reqs@);
                assert(final(self).updates@.subrange(0, old(self).updates@.len() as int) =~= old(
                    self,
                ).updates@);
            }
        } else {
            self.send_host_reqs.push(P2PData::ClientDataUpdate(data));
        }
    }

    /// Drain every normalized update, in producer order.
    pub fn read_updates(&mut self) -> (r: Vec<EasyP2PUpdate>)
        ensures
            r@ == old(self).updates@,
            final(self).updates@ == Seq::<EasyP2PUpdate>::empty(),
            *final(self) == (EasyP2P { updates: final(self).updates, ..*old(self) }),
    {
        self.updates.drain()
    }

    /// The published data of one participant, who must be on the roster
    /// this instance sees.
    pub fn get_player_data(&self, id: NetworkedId) -> (r: String)
        requires
            self.state.is_host ==> spec_find_peer(spec_full_roster(self.state), id) is Some,
            !self.state.is_host ==> spec_find_peer(self.state.roster(), id) is Some,
        ensures
            self.state.is_host ==> (match spec_find_peer(spec_full_roster(self.state), id) {
                Some(i) => r@ == spec_full_roster(self.state)[i].data,
                None => false,
            }),
            !self.state.is_host ==> (match spec_find_peer(self.state.roster(), id) {
                Some(i) => r@ == self.state.roster()[i].data,
                None => false,
            }),
    {
        let players = self.get_players();
        let ghost roster = if self.state.is_host {
            spec_full_roster(self.state)
        } else {
            self.state.roster()
        };
        proof {
            assert(players@.map_values(|p: PlayerInfo| p@) =~= roster);
            crate::router::lemma_find_peer_props(roster, id);
        }
        let mut k: usize = 0;
        while k < players.len()
            invariant
                k <= players@.len(),
                roster == (if self.state.is_host {
                    spec_full_roster(self.state)
                } else {
                    self.state.roster()
                }),
                players@.map_values(|p: PlayerInfo| p@) == roster,
                spec_find_peer(roster, id) is Some,
                forall|j: int| 0 <= j < k ==> roster[j].id != id,
            decreases players@.len() - k,
        {
            if crate::router::id_eq(players[k].id, id) {
                proof {
                    assert(players@.map_values(|p: PlayerInfo| p@)[k as int] == players@[k as int]@);
                    assert(roster[k as int].id == id);
                    crate::router::lemma_find_peer_props(roster, id);
                    match spec_find_peer(roster, id) {
                        Some(i) => {
                            if i < k as int {
                                assert(roster[i].id != id);
                            }
                            if i > k as int {
                                assert(roster[k as int].id != id);
                            }
                        },
                        None => {
                            assert(roster[k as int].id != id);
                        },
                    }
                    assert(spec_find_peer(roster, id) == Some(k as int));
                }
                return players[k].data.clone();
            }
            k = k + 1;
        }
        proof {
            crate::router::lemma_find_peer_props(roster, id);
            match spec_find_peer(roster, id) {
                Some(i) => {
                    assert(roster[i].id != id);
                    assert(false);
                },
                None => {},
            }
        }
        String::new()
    }
}

/// Encode every queued outgoing message into the transport mailbox, in
/// order: host-bound, broadcast, per-client, and relay frames each carry
/// exactly the encoding of their message.
pub fn encode_outgoing(easy: &mut EasyP2P, io: &mut EasyP2PTransportIo)
    ensures
        final(easy).send_host_reqs@ == Seq::<P2PData>::empty(),
        final(easy).send_all_reqs@ == Seq::<P2PData>::empty(),
        final(easy).send_client_reqs@ == Seq::<(u64, P2PData)>::empty(),
        final(easy).relay_reqs@ == Seq::<(u64, P2PData)>::empty(),
        *final(easy) == (EasyP2P {
            send_host_reqs: final(easy).send_host_reqs,
            send_all_reqs: final(easy).send_all_reqs,
            send_client_reqs: final(easy).send_client_reqs,
            relay_reqs: final(easy).relay_reqs,
            ..*old(easy)
        }),
        final(io).send_to_host@.len() == old(io).send_to_host@.len() + old(
            easy,
        ).send_host_reqs@.len(),
        final(io).send_to_host@.subrange(0, old(io).send_to_host@.len() as int) == old(
            io,
        ).send_to_host@,
        forall|k: int|
            0 <= k < old(easy).send_host_reqs@.len() ==> final(io).send_to_host@[old(
                io,
            ).send_to_host@.len() + k]@ == spec_encode_msg(
                #[trigger] old(easy).send_host_reqs@[k]@,
            ),
        final(io).send_to_all@.len() == old(io).send_to_all@.len() + old(
            easy,
        ).send_all_reqs@.len(),
        final(io).send_to_all@.subrange(0, old(io).send_to_all@.len() as int) == old(
            io,
        ).send_to_all@,
        forall|k: int|
            0 <= k < old(easy).send_all_reqs@.len() ==> final(io).send_to_all@[old(
                io,
            ).send_to_all@.len() + k]@ == spec_encode_msg(
                #[trigger] old(easy).send_all_reqs@[k]@,
            ),
        final(io).send_to_client@.len() == old(io).send_to_client@.len() + old(
            easy,
        ).send_client_reqs@.len(),
        final(io).send_to_client@.subrange(0, old(io).send_to_client@.len() as int) == old(
            io,
        ).send_to_client@,
        forall|k: int|
            0 <= k < old(easy).send_client_reqs@.len() ==> {
                let entry = final(io).send_to_client@[old(io).send_to_client@.len() + k];
                entry.0 == (#[trigger] old(easy).send_client_reqs@[k]).0 && entry.1@
                    == spec_encode_msg(old(easy).send_client_reqs@[k].1@)
            },
        final(io).relay_to_all_except@.len() == old(io).relay_to_all_except@.len() + old(
            easy,
        ).relay_reqs@.len(),
        final(io).relay_to_all_except@.subrange(
            0,
            old(io).relay_to_all_except@.len() as int,
        ) == old(io).relay_to_all_except@,
        forall|k: int|
            0 <= k < old(easy).relay_reqs@.len() ==> {
                let entry = final(io).relay_to_all_except@[old(io).relay_to_all_except@.len() + k];
                entry.0 == (#[trigger] old(easy).relay_reqs@[k]).0 && entry.1@ == spec_encode_msg(
                    old(easy).relay_reqs@[k].1@,
                )
            },
        final(io).create_requests == old(io).create_requests,
        final(io).join_requests == old(io).join_requests,
        final(io).exit_requests == old(io).exit_requests,
        final(io).kick_requests == old(io).kick_requests,
        final(io).lobby_created == old(io).lobby_created,
        final(io).lobby_joined == old(io).lobby_joined,
        final(io).lobby_entered == old(io).lobby_entered,
        final(io).lobby_exit == old(io).lobby_exit,
        final(io).roster_changed == old(io).roster_changed,
        final(io).incoming_from_client == old(io).incoming_from_client,
        final(io).incoming_from_host == old(io).incoming_from_host,
{
    let mut host_reqs: Vec<P2PData> = Vec::new();
    core::mem::swap(&mut host_reqs, &mut easy.send_host_reqs);
    let mut k: usize = 0;
    while k < host_reqs.len()
        invariant
            k <= host_reqs@.len(),
            io.send_to_host@.len() == old(io).send_to_host@.len() + k,
            io.send_to_host@.subrange(0, old(io).send_to_host@.len() as int) == old(
                io,
            ).send_to_host@,
            forall|j: int|
                0 <= j < k ==> io.send_to_host@[old(io).send_to_host@.len() + j]@
                    == spec_encode_msg(#[trigger] host_reqs@[j]@),
            *io == (EasyP2PTransportIo { send_to_host: io.send_to_host, ..*old(io) }),
        decreases host_reqs@.len() - k,
    {
        let text = encode_msg(&host_reqs[k]);
        io.send_to_host.push(text);
        proof {
            assert(io.send_to_host@.subrange(0, old(io).send_to_host@.len() as int) =~= old(
                io,
            ).send_to_host@);
        }
        k = k + 1;
    }
    let ghost host_done = io.send_to_host@;
    let mut all_reqs: Vec<P2PData> = Vec::new();
    core::mem::swap(&mut all_reqs, &mut easy.send_all_reqs);
    let mut k2: usize = 0;
    while k2 < all_reqs.len()
        invariant
            k2 <= all_reqs@.len(),
            io.send_to_all@.len() == old(io).send_to_all@.len() + k2,
            io.send_to_all@.subrange(0, old(io).send_to_all@.len() as int) == old(
                io,
            ).send_to_all@,
            forall|j: int|
                0 <= j < k2 ==> io.send_to_all@[old(io).send_to_all@.len() + j]@
                    == spec_encode_msg(#[trigger] all_reqs@[j]@),
            io.send_to_host@ == host_done,
            *io == (EasyP2PTransportIo {
                send_to_host: io.send_to_host,
                send_to_all: io.send_to_all,
                ..*old(io)
            }),
        decreases all_reqs@.len() - k2,
    {
        let text = encode_msg(&all_reqs[k2]);
        io.send_to_all.push(text);
        proof {
            assert(io.send_to_all@.subrange(0, old(io).send_to_all@.len() as int) =~= old(
                io,
            ).send_to_all@);
        }
        k2 = k2 + 1;
    }
    let ghost all_done = io.send_to_all@;
    let mut client_reqs: Vec<(u64, P2PData)> = Vec::new();
    core::mem::swap(&mut client_reqs, &mut easy.send_client_reqs);
    let mut k3: usize = 0;
    while k3 < client_reqs.len()
        invariant
            k3 <= client_reqs@.len(),
            io.send_to_client@.len() == old(io).send_to_client@.len() + k3,
            io.send_to_client@.subrange(0, old(io).send_to_client@.len() as int) == old(
                io,
            ).send_to_client@,
            forall|j: int|
                0 <= j < k3 ==> {
                    let entry = io.send_to_client@[old(io).send_to_client@.len() + j];
                    entry.0 == (#[trigger] client_reqs@[j]).0 && entry.1@ == spec_encode_msg(
                        client_reqs@[j].1@,
                    )
                },
            io.send_to_host@ == host_done,
            io.send_to_all@ == all_done,
            *io == (EasyP2PTransportIo {
                send_to_host: io.send_to_host,
                send_to_all: io.send_to_all,
                send_to_client: io.send_to_client,
                ..*old(io)
            }),
        decreases client_reqs@.len() - k3,
    {
        let text = encode_msg(&client_reqs[k3].1);
        io.send_to_client.push((client_reqs[k3].0, text));
        proof {
            assert(io.send_to_client@.subrange(0, old(io).send_to_client@.len() as int) =~= old(
                io,
            ).send_to_client@);
        }
        k3 = k3 + 1;
    }
    let ghost client_done = io.send_to_client@;
    let mut relay_reqs: Vec<(u64, P2PData)> = Vec::new();
    core::mem::swap(&mut relay_reqs, &mut easy.relay_reqs);
    let mut k4: usize = 0;
    while k4 < relay_reqs.len()
        invariant
            k4 <= relay_reqs@.len(),
            io.relay_to_all_except@.len() == old(io).relay_to_all_except@.len() + k4,
            io.relay_to_all_except@.subrange(
                0,
                old(io).relay_to_all_except@.len() as int,
            ) == old(io).relay_to_all_except@,
            forall|j: int|
                0 <= j < k4 ==> {
                    let entry = io.relay_to_all_except@[old(io).relay_to_all_except@.len() + j];
                    entry.0 == (#[trigger] relay_reqs@[j]).0 && entry.1@ == spec_encode_msg(
                        relay_reqs@[j].1@,
                    )
                },
            io.send_to_host@ == host_done,
            io.send_to_all@ == all_done,
            io.send_to_client@ == client_done,
            *io == (EasyP2PTransportIo {
                send_to_host: io.send_to_host,
                send_to_all: io.send_to_all,
                send_to_client: io.send_to_client,
                relay_to_all_except: io.relay_to_all_except,
                ..*old(io)
            }),
        decreases relay_reqs@.len() - k4,
    {
        let text = encode_msg(&relay_reqs[k4].1);
        io.relay_to_all_except.push((relay_reqs[k4].0, text));
        proof {
            assert(io.relay_to_all_except@.subrange(
                0,
                old(io).relay_to_all_except@.len() as int,
            ) =~= old(io).relay_to_all_except@);
        }
        k4 = k4 + 1;
    }
}

} // verus!
