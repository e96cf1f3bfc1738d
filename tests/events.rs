use mctier::discovery::{P2PMessage, PeerEvent};
use mctier::events::{
    peer_event_name, EVENT_APP_STATE_CHANGE, EVENT_ERROR, EVENT_LOBBY_UPDATE,
    EVENT_MIC_STATUS_CHANGE, EVENT_NETWORK_STATUS_CHANGE, EVENT_PLAYER_JOINED, EVENT_PLAYER_LEFT,
    EVENT_PLAYER_STATUS_UPDATE,
};

#[test]
fn test_event_name_constants() {
    assert_eq!(EVENT_PLAYER_JOINED, "player-joined");
    assert_eq!(EVENT_PLAYER_LEFT, "player-left");
    assert_eq!(EVENT_PLAYER_STATUS_UPDATE, "player-status-update");
    assert_eq!(EVENT_NETWORK_STATUS_CHANGE, "network-status-change");
    assert_eq!(EVENT_ERROR, "error");
    assert_eq!(EVENT_LOBBY_UPDATE, "lobby-update");
    assert_eq!(EVENT_MIC_STATUS_CHANGE, "mic-status-change");
    assert_eq!(EVENT_APP_STATE_CHANGE, "app-state-change");
}

#[test]
fn peer_event_names() {
    let j = PeerEvent::Joined { player_id: "a".to_string(), player_name: "A".to_string() };
    assert_eq!(peer_event_name(&j), "player-joined");
    assert_eq!(peer_event_name(&PeerEvent::Left { player_id: "a".to_string() }), "player-left");
    let s = PeerEvent::Signal(P2PMessage::Offer { from: "a".to_string(), sdp: "x".to_string() });
    assert_eq!(peer_event_name(&s), "webrtc-signaling");
}
