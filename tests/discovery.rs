use mctier::discovery::{
    bind_candidate, discovery_interval_secs, P2PMessage, P2PSignalingService, PeerEvent,
};
use mctier::error::AppError;

fn discover(id: &str, port: u16) -> P2PMessage {
    P2PMessage::PlayerDiscovery { player_id: id.to_string(), player_name: format!("name-{}", id), port }
}

fn heartbeat(id: &str) -> P2PMessage {
    P2PMessage::Heartbeat { player_id: id.to_string(), timestamp: 0 }
}

fn started(id: &str) -> P2PSignalingService {
    let mut node = P2PSignalingService::new(47777);
    node.start(id.to_string(), format!("name-{}", id), "10.0.0.1".to_string(), 47778);
    node
}

#[test]
fn two_announcements_join_once() {
    let mut node = started("me");
    let r1 = node.handle_message(discover("p", 5000), "10.0.0.2".to_string(), 1000);
    assert!(matches!(r1.event, Some(PeerEvent::Joined { ref player_id, .. }) if player_id == "p"));
    let r2 = node.handle_message(discover("p", 5000), "10.0.0.2".to_string(), 2000);
    assert!(r2.event.is_none());
    assert_eq!(node.get_peers().len(), 1);
    assert_eq!(node.get_peers()[0].last_seen, 2000);
}

#[test]
fn announcement_is_answered_at_the_named_port() {
    let mut node = started("me");
    let r = node.handle_message(discover("p", 5001), "10.0.0.9".to_string(), 10);
    let reply = r.reply.expect("a reply");
    assert_eq!(reply.to.host, "10.0.0.9");
    assert_eq!(reply.to.port, 5001);
    match reply.message {
        P2PMessage::PlayerDiscoveryResponse { player_id, player_name, port } => {
            assert_eq!(player_id, "me");
            assert_eq!(player_name, "name-me");
            assert_eq!(port, 47778);
        }
        other => panic!("unexpected {:?}", other),
    }
    let answer = P2PMessage::PlayerDiscoveryResponse { player_id: "q".to_string(), player_name: "Q".to_string(), port: 6000 };
    let r = node.handle_message(answer, "10.0.0.8".to_string(), 20);
    assert!(r.reply.is_none());
    assert!(matches!(r.event, Some(PeerEvent::Joined { .. })));
    let ep = node.peer_endpoint("q").unwrap();
    assert_eq!((ep.host.as_str(), ep.port), ("10.0.0.8", 6000));
}

#[test]
fn own_id_is_never_listed() {
    let mut a = started("same");
    let r = a.handle_message(discover("same", 5000), "10.0.0.3".to_string(), 10);
    assert!(r.reply.is_none() && r.event.is_none());
    let resp = P2PMessage::PlayerDiscoveryResponse { player_id: "same".to_string(), player_name: "x".to_string(), port: 1 };
    a.handle_message(resp, "10.0.0.3".to_string(), 11);
    assert!(a.get_peers().is_empty());
    assert!(a.peer_endpoint("same").is_err());
}

#[test]
fn heartbeats_keep_a_peer_and_silence_removes_it_once() {
    let mut node = started("me");
    node.handle_message(discover("p", 5000), "10.0.0.2".to_string(), 0);
    for t in [15_000u64, 30_000, 45_000, 60_000, 75_000] {
        node.handle_message(heartbeat("p"), "10.0.0.2".to_string(), t);
        assert!(node.sweep(t).is_empty());
    }
    assert!(node.sweep(90_000).is_empty());
    assert!(node.sweep(165_000).is_empty());
    assert_eq!(node.sweep(165_001), vec!["p".to_string()]);
    assert!(node.get_peers().is_empty());
    assert!(node.sweep(500_000).is_empty());
}

#[test]
fn departure_drops_and_reports() {
    let mut node = started("me");
    node.handle_message(discover("p", 5000), "10.0.0.2".to_string(), 0);
    let r = node.handle_message(P2PMessage::PlayerLeft { player_id: "p".to_string() }, "10.0.0.2".to_string(), 5);
    assert!(matches!(r.event, Some(PeerEvent::Left { ref player_id }) if player_id == "p"));
    assert!(node.get_peers().is_empty());
    match node.peer_endpoint("p") {
        Err(AppError::NetworkError(m)) => assert_eq!(m, "玩家不存在: p"),
        other => panic!("unexpected {:?}", other),
    }
}

#[test]
fn payload_messages_are_passed_on() {
    let mut node = started("me");
    let r = node.handle_message(P2PMessage::Offer { from: "p".to_string(), sdp: "v=0".to_string() }, "h".to_string(), 1);
    assert!(matches!(r.event, Some(PeerEvent::Signal(P2PMessage::Offer { .. }))));
    let r = node.handle_message(P2PMessage::StatusUpdate { player_id: "p".to_string(), mic_enabled: true }, "h".to_string(), 1);
    assert!(matches!(r.event, Some(PeerEvent::Status { mic_enabled: true, .. })));
    assert!(node.get_peers().is_empty());
}

#[test]
fn stop_announces_departure_and_empties() {
    let mut node = started("me");
    node.handle_message(discover("p", 5000), "10.0.0.2".to_string(), 0);
    match node.stop() {
        Some(P2PMessage::PlayerLeft { player_id }) => assert_eq!(player_id, "me"),
        other => panic!("unexpected {:?}", other),
    }
    assert!(node.get_peers().is_empty());
    let mut idle = P2PSignalingService::default();
    assert!(idle.stop().is_none());
    assert!(idle.discovery_message().is_none());
}

#[test]
fn timers_and_ports() {
    assert_eq!(discovery_interval_secs(0), 1);
    assert_eq!(discovery_interval_secs(9), 1);
    assert_eq!(discovery_interval_secs(10), 5);
    assert_eq!(bind_candidate(47777, 0), Some(47777));
    assert_eq!(bind_candidate(47777, 100), Some(47877));
    assert_eq!(bind_candidate(47777, 101), None);
    assert_eq!(bind_candidate(65535, 1), None);
    let node = started("me");
    assert_eq!(node.broadcast_endpoint().host, "255.255.255.255");
    assert_eq!(node.broadcast_endpoint().port, 47778);
    match node.discovery_message() {
        Some(P2PMessage::PlayerDiscovery { player_id, port, .. }) => {
            assert_eq!(player_id, "me");
            assert_eq!(port, 47778);
        }
        other => panic!("unexpected {:?}", other),
    }
}
