//! The wire message protocol: a closed tagged union, one value per text frame.
//!
//! Application payloads (player data, inputs, instantiation descriptions,
//! synced state and events) travel as opaque already-encoded text chosen by
//! the consumer; this layer never inspects them. Transform components travel
//! as the bit patterns of their numeric components, so the envelope itself
//! stays free of machine-specific rounding.

use vstd::prelude::*;

use crate::ids::NetworkedId;

verus! {

/// One roster entry: a peer and its most recently published data payload.
#[derive(Debug, PartialEq)]
pub struct PlayerInfo {
    pub id: NetworkedId,
    pub data: String,
}

/// Mathematical model of a roster entry.
#[verifier::ext_equal]
pub struct PlayerInfoView {
    pub id: NetworkedId,
    pub data: Seq<char>,
}

impl View for PlayerInfo {
    type V = PlayerInfoView;

    open spec fn view(&self) -> PlayerInfoView {
        PlayerInfoView { id: self.id, data: self.data@ }
    }
}

/// A transform sent with a remote instantiation: translation, rotation and
/// scale components, each carried as the bit pattern of the original
/// single-precision component.
#[derive(Clone, Copy, Debug, PartialEq, Eq)]
pub struct NetTransform {
    pub translation: [u32; 3],
    pub rotation: [u32; 4],
    pub scale: [u32; 3],
}

/// Mathematical model of a transform: the three component sequences.
#[verifier::ext_equal]
pub struct NetTransformView {
    pub translation: Seq<u32>,
    pub rotation: Seq<u32>,
    pub scale: Seq<u32>,
}

impl View for NetTransform {
    type V = NetTransformView;

    open spec fn view(&self) -> NetTransformView {
        NetTransformView {
            translation: self.translation@,
            rotation: self.rotation@,
            scale: self.scale@,
        }
    }
}

/// What a remote instantiation carries: where to spawn, and the consumer's
/// encoded description of what to spawn.
#[derive(Debug, PartialEq)]
pub struct InstantiationDataNet {
    pub transform: NetTransform,
    pub instantiation: String,
}

/// Mathematical model of an instantiation payload.
#[verifier::ext_equal]
pub struct InstantiationDataNetView {
    pub transform: NetTransformView,
    pub instantiation: Seq<char>,
}

impl View for InstantiationDataNet {
    type V = InstantiationDataNetView;

    open spec fn view(&self) -> InstantiationDataNetView {
        InstantiationDataNetView {
            transform: self.transform@,
            instantiation: self.instantiation@,
        }
    }
}

/// The message envelope: every data-channel frame encodes exactly one of
/// these. `StateSync` and `EventSync` carry a registry index and the encoded
/// value; `PingRequest` carries the sender's own elapsed-time stamp in
/// milliseconds, echoed back unchanged by the host.
#[derive(Debug, PartialEq)]
pub enum P2PData {
    ClientLobbyChatMessage(String, NetworkedId),
    ClientInput(String),
    ClientDataUpdate(String),
    HostLobbyInfoUpdate(Vec<PlayerInfo>),
    StateSync(u8, String),
    EventSync(u8, String),
    HostInstantiation(InstantiationDataNet),
    PingRequest(u64),
}

/// Mathematical model of a message envelope.
#[verifier::ext_equal]
pub enum P2PDataView {
    ClientLobbyChatMessage(Seq<char>, NetworkedId),
    ClientInput(Seq<char>),
    ClientDataUpdate(Seq<char>),
    HostLobbyInfoUpdate(Seq<PlayerInfoView>),
    StateSync(u8, Seq<char>),
    EventSync(u8, Seq<char>),
    HostInstantiation(InstantiationDataNetView),
    PingRequest(u64),
}

impl View for P2PData {
    type V = P2PDataView;

    open spec fn view(&self) -> P2PDataView {
        match self {
            P2PData::ClientLobbyChatMessage(text, sender) => P2PDataView::ClientLobbyChatMessage(
                text@,
                *sender,
            ),
            P2PData::ClientInput(payload) => P2PDataView::ClientInput(payload@),
            P2PData::ClientDataUpdate(payload) => P2PDataView::ClientDataUpdate(payload@),
            P2PData::HostLobbyInfoUpdate(players) => P2PDataView::HostLobbyInfoUpdate(
                players@.map_values(|p: PlayerInfo| p@),
            ),
            P2PData::StateSync(index, payload) => P2PDataView::StateSync(*index, payload@),
            P2PData::EventSync(index, payload) => P2PDataView::EventSync(*index, payload@),
            P2PData::HostInstantiation(data) => P2PDataView::HostInstantiation(data@),
            P2PData::PingRequest(stamp) => P2PDataView::PingRequest(*stamp),
        }
    }
}

impl Clone for PlayerInfo {
    /// A cloned roster entry equals the original.
    fn clone(&self) -> (r: Self)
        ensures
            r == *self,
    {
        PlayerInfo { id: self.id, data: self.data.clone() }
    }
}

impl Clone for InstantiationDataNet {
    /// A cloned instantiation payload equals the original.
    fn clone(&self) -> (r: Self)
        ensures
            r == *self,
    {
        InstantiationDataNet {
            transform: self.transform,
            instantiation: self.instantiation.clone(),
        }
    }
}

/// Clone a roster, entry by entry.
pub fn clone_players(players: &Vec<PlayerInfo>) -> (r: Vec<PlayerInfo>)
    ensures
        r@ == players@,
{
    let mut r: Vec<PlayerInfo> = Vec::new();
    let mut k: usize = 0;
    while k < players.len()
        invariant
            k <= players@.len(),
            r@ == players@.take(k as int),
        decreases players@.len() - k,
    {
        r.push(players[k].clone());
        proof {
            assert(players@.take(k + 1) =~= players@.take(k as int).push(players@[k as int]));
        }
        k = k + 1;
    }
    proof {
        assert(players@.take(players@.len() as int) =~= players@);
    }
    r
}

impl Clone for P2PData {
    /// A cloned message has the same mathematical value as the original.
    fn clone(&self) -> (r: Self)
        ensures
            r@ == self@,
    {
        match self {
            P2PData::ClientLobbyChatMessage(text, sender) => P2PData::ClientLobbyChatMessage(
                text.clone(),
                *sender,
            ),
            P2PData::ClientInput(payload) => P2PData::ClientInput(payload.clone()),
            P2PData::ClientDataUpdate(payload) => P2PData::ClientDataUpdate(payload.clone()),
            P2PData::HostLobbyInfoUpdate(players) => P2PData::HostLobbyInfoUpdate(
                clone_players(players),
            ),
            P2PData::StateSync(index, payload) => P2PData::StateSync(*index, payload.clone()),
            P2PData::EventSync(index, payload) => P2PData::EventSync(*index, payload.clone()),
            P2PData::HostInstantiation(d) => P2PData::HostInstantiation(d.clone()),
            P2PData::PingRequest(stamp) => P2PData::PingRequest(*stamp),
        }
    }
}

} // verus!
