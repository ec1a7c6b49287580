//! The session state machine: lobby phase, host flag, lobby code, the local
//! player's data and the roster.
//!
//! Transitions follow the lobby lifecycle: out of lobby, joining, in lobby,
//! and back out on an exit or a transport-reported disconnect. Only the
//! active role requests transitions; transport errors never transition state.

use vstd::prelude::*;

use crate::ids::{ExitReason, NetworkedId};
use crate::messages::{clone_players, PlayerInfo, PlayerInfoView};
use crate::updates::{EasyP2PUpdate, EasyP2PUpdateQueue};

verus! {

/// The lobby phase of this instance.
#[derive(Clone, Copy, Debug, PartialEq, Eq, Structural, Hash)]
pub enum P2PLobbyState {
    OutOfLobby,
    JoiningLobby,
    InLobby,
}

/// Everything the session knows between ticks.
pub struct EasyP2PState {
    pub local_player_data: String,
    pub is_host: bool,
    pub lobby_code: String,
    pub players: Vec<PlayerInfo>,
    pub phase: P2PLobbyState,
}

impl EasyP2PState {
    /// Mathematical model of the roster.
    pub open spec fn roster(self) -> Seq<PlayerInfoView> {
        self.players@.map_values(|p: PlayerInfo| p@)
    }

    /// The state is out of any lobby: no role, no code, no roster.
    pub open spec fn is_reset(self) -> bool {
        &&& !self.is_host
        &&& self.lobby_code@ == Seq::<char>::empty()
        &&& self.players@ == Seq::<PlayerInfo>::empty()
        &&& self.phase == P2PLobbyState::OutOfLobby
    }

    /// A fresh instance: out of lobby, empty everything.
    pub fn new() -> (r: Self)
        ensures
            r.is_reset(),
            r.local_player_data@ == Seq::<char>::empty(),
    {
        EasyP2PState {
            local_player_data: String::new(),
            is_host: false,
            lobby_code: String::new(),
            players: Vec::new(),
            phase: P2PLobbyState::OutOfLobby,
        }
    }

    /// The roster handed to callers: the host entry first when asked for,
    /// then the client entries in roster order.
    pub fn get_players(&self, add_host: bool) -> (r: Vec<PlayerInfo>)
        ensures
            add_host ==> r@ == seq![
                PlayerInfo { id: NetworkedId::Host, data: self.local_player_data },
            ] + self.players@,
            !add_host ==> r@ == self.players@,
    {
        let mut r: Vec<PlayerInfo> = Vec::new();
        if add_host {
            r.push(PlayerInfo { id: NetworkedId::Host, data: self.local_player_data.clone() });
        }
        let rest = clone_players(&self.players);
        let mut k: usize = 0;
        let ghost head = r@;
        while k < rest.len()
            invariant
                k <= rest@.len(),
                rest@ == self.players@,
                r@ == head + self.players@.take(k as int),
            decreases rest@.len() - k,
        {
            r.push(rest[k].clone());
            proof {
                assert(self.players@.take(k + 1) =~= self.players@.take(k as int).push(
                    self.players@[k as int],
                ));
            }
            k = k + 1;
        }
        proof {
            assert(self.players@.take(self.players@.len() as int) =~= self.players@);
            if !add_host {
                assert(head + self.players@ =~= self.players@);
            }
        }
        r
    }

    /// Transport confirmed lobby creation: this instance becomes the host
    /// of `code` and the consumer learns the code.
    pub fn on_lobby_created(&mut self, code: String, updates: &mut EasyP2PUpdateQueue)
        ensures
            final(self).is_host,
            final(self).lobby_code == code,
            final(self).local_player_data == old(self).local_player_data,
            final(self).players == old(self).players,
            final(self).phase == old(self).phase,
            final(updates)@ == old(updates)@.push(EasyP2PUpdate::LobbyCreated { code }),
    {
        self.is_host = true;
        self.lobby_code = code.clone();
        updates.push(EasyP2PUpdate::LobbyCreated { code });
    }

    /// Transport confirmed the join handshake: this instance is a client of
    /// lobby `code`.
    pub fn on_lobby_joined(&mut self, code: String, updates: &mut EasyP2PUpdateQueue)
        ensures
            !final(self).is_host,
            final(self).lobby_code == code,
            final(self).local_player_data == old(self).local_player_data,
            final(self).players == old(self).players,
            final(self).phase == old(self).phase,
            final(updates)@ == old(updates)@.push(EasyP2PUpdate::LobbyJoined { code }),
    {
        self.is_host = false;
        self.lobby_code = code.clone();
        updates.push(EasyP2PUpdate::LobbyJoined { code });
    }

    /// The lobby is live for this instance: the phase moves to in-lobby.
    pub fn on_lobby_entered(&mut self, code: String, updates: &mut EasyP2PUpdateQueue)
        ensures
            final(self).lobby_code == code,
            final(self).phase == P2PLobbyState::InLobby,
            final(self).is_host == old(self).is_host,
            final(self).local_player_data == old(self).local_player_data,
            final(self).players == old(self).players,
            final(updates)@ == old(updates)@.push(EasyP2PUpdate::LobbyEntered { code }),
    {
        self.lobby_code = code.clone();
        self.phase = P2PLobbyState::InLobby;
        updates.push(EasyP2PUpdate::LobbyEntered { code });
    }

    /// The consumer asked to leave: reset to out-of-lobby and drop every
    /// queued event, so nothing stale leaks into a later session.
    pub fn on_exit_request(&mut self, updates: &mut EasyP2PUpdateQueue)
        ensures
            final(self).is_reset(),
            final(self).local_player_data == old(self).local_player_data,
            final(updates)@ == Seq::<EasyP2PUpdate>::empty(),
    {
        self.is_host = false;
        self.lobby_code = String::new();
        self.players = Vec::new();
        self.phase = P2PLobbyState::OutOfLobby;
        updates.clear();
    }

    /// The transport reported a disconnect or kick: reset to out-of-lobby,
    /// drop stale queued events, and tell the consumer why the lobby ended.
    pub fn on_external_exit(&mut self, reason: ExitReason, updates: &mut EasyP2PUpdateQueue)
        ensures
            final(self).is_reset(),
            final(self).local_player_data == old(self).local_player_data,
            final(updates)@ == seq![EasyP2PUpdate::LobbyExited { reason }],
    {
        self.is_host = false;
        self.lobby_code = String::new();
        self.players = Vec::new();
        self.phase = P2PLobbyState::OutOfLobby;
        updates.clear();
        updates.push(EasyP2PUpdate::LobbyExited { reason });
        proof {
            assert(Seq::<EasyP2PUpdate>::empty().push(EasyP2PUpdate::LobbyExited { reason })
                =~= seq![EasyP2PUpdate::LobbyExited { reason }]);
        }
    }
}

} // verus!
