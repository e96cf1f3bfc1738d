//! Notifications handed to the user interface: their names and payloads.
use vstd::prelude::*;
use crate::discovery::PeerEvent;
use crate::lobby::Player;
use crate::tunnel::ConnectionStatus;

verus! {

pub const EVENT_PLAYER_JOINED: &'static str = "player-joined";

pub const EVENT_PLAYER_LEFT: &'static str = "player-left";

pub const EVENT_PLAYER_STATUS_UPDATE: &'static str = "player-status-update";

pub const EVENT_NETWORK_STATUS_CHANGE: &'static str = "network-status-change";

pub const EVENT_ERROR: &'static str = "error";

pub const EVENT_LOBBY_UPDATE: &'static str = "lobby-update";

pub const EVENT_MIC_STATUS_CHANGE: &'static str = "mic-status-change";

pub const EVENT_APP_STATE_CHANGE: &'static str = "app-state-change";

/// Name of the notification that carries relayed offers, answers and
/// candidates.
pub const EVENT_WEBRTC_SIGNALING: &'static str = "webrtc-signaling";

/// A member joined, with when (milliseconds since the Unix epoch).
#[derive(Debug, Clone)]
pub struct PlayerJoinedEvent {
    pub player: Player,
    pub timestamp: i64,
}

#[derive(Debug, Clone)]
pub struct PlayerLeftEvent {
    pub player_id: String,
    pub player_name: String,
    pub timestamp: i64,
}

#[derive(Debug, Clone)]
pub struct NetworkStatusChangeEvent {
    pub status: ConnectionStatus,
    pub timestamp: i64,
}

#[derive(Debug, Clone)]
pub struct ErrorEvent {
    pub message: String,
    pub code: Option<String>,
    pub recoverable: bool,
    pub timestamp: i64,
}

#[derive(Debug, Clone)]
pub struct LobbyUpdateEvent {
    pub lobby_id: String,
    pub lobby_name: String,
    pub player_count: usize,
    pub timestamp: i64,
}

#[derive(Debug, Clone)]
pub struct MicStatusChangeEvent {
    pub enabled: bool,
    pub timestamp: i64,
}

#[derive(Debug, Clone)]
pub struct AppStateChangeEvent {
    pub state: String,
    pub timestamp: i64,
}

/// The name a discovery event is announced under.
pub fn peer_event_name(event: &PeerEvent) -> (r: &'static str)
    ensures
        event is Joined ==> r@ == EVENT_PLAYER_JOINED@,
        event is Left ==> r@ == EVENT_PLAYER_LEFT@,
        event is Signal ==> r@ == EVENT_WEBRTC_SIGNALING@,
        event is Status ==> r@ == EVENT_PLAYER_STATUS_UPDATE@,
{
    match event {
        PeerEvent::Joined { .. } => EVENT_PLAYER_JOINED,
        PeerEvent::Left { .. } => EVENT_PLAYER_LEFT,
        PeerEvent::Signal(_) => EVENT_WEBRTC_SIGNALING,
        PeerEvent::Status { .. } => EVENT_PLAYER_STATUS_UPDATE,
    }
}

} // verus!
