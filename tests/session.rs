use mctier::error::AppError;
use mctier::lobby::{LobbyError, LobbyManager, Player};

fn invalid(r: Result<(), LobbyError>) -> String {
    match r {
        Err(LobbyError::InvalidInput(m)) => m,
        other => panic!("expected InvalidInput, got {:?}", other),
    }
}

#[test]
fn lobby_name_length_bounds() {
    assert_eq!(invalid(LobbyManager::validate_lobby_name("abc")), "大厅名称至少需要 4 个字符");
    assert_eq!(invalid(LobbyManager::validate_lobby_name("  abc  ")), "大厅名称至少需要 4 个字符");
    assert!(LobbyManager::validate_lobby_name("abcd").is_ok());
    assert!(LobbyManager::validate_lobby_name(&"a".repeat(32)).is_ok());
    assert_eq!(invalid(LobbyManager::validate_lobby_name(&"a".repeat(33))), "大厅名称最多 32 个字符");
    assert!(LobbyManager::validate_lobby_name("测试大厅").is_ok());
}

#[test]
fn lobby_name_characters() {
    assert_eq!(invalid(LobbyManager::validate_lobby_name("____")), "大厅名称必须包含至少一个字母或数字");
    assert_eq!(
        invalid(LobbyManager::validate_lobby_name("room!")),
        "大厅名称只能包含中文、字母、数字、下划线、连字符和空格"
    );
    assert!(LobbyManager::validate_lobby_name("my room_1-a").is_ok());
    // Only the plain space is allowed inside a name.
    assert_eq!(
        invalid(LobbyManager::validate_lobby_name("my\troom")),
        "大厅名称只能包含中文、字母、数字、下划线、连字符和空格"
    );
    assert!(LobbyManager::validate_lobby_name("my\u{3000}room").is_err());
    assert!(LobbyManager::validate_lobby_name("   ").is_err());
}

#[test]
fn password_rules() {
    assert_eq!(invalid(LobbyManager::validate_password("ab1")), "密码至少需要 8 个字符");
    assert_eq!(invalid(LobbyManager::validate_password(&"a1".repeat(17))), "密码最多 32 个字符");
    assert_eq!(invalid(LobbyManager::validate_password("abcdefgh")), "密码必须包含至少一个数字");
    assert_eq!(invalid(LobbyManager::validate_password("12345678")), "密码必须包含至少一个字母");
    assert!(LobbyManager::validate_password("pass1234").is_ok());
    assert!(LobbyManager::validate_password("  pass 1234  ").is_ok());
    // Length is counted in characters.
    assert!(LobbyManager::validate_password("密码密码密码密1").is_ok());
    assert_eq!(invalid(LobbyManager::validate_password("密码密码1")), "密码至少需要 8 个字符");
    assert!(LobbyManager::validate_password(&format!("{}1", "密".repeat(31))).is_ok());
}

#[test]
fn create_then_create_again_fails() {
    let mut manager = LobbyManager::new();
    let creds = manager.prepare_lobby("Test Lobby", "pass1234", "Alice", "tcp://node:11010").unwrap();
    assert_eq!(creds.network_name, "MCTier-Test Lobby");
    assert_eq!(creds.network_key, "pass1234");
    assert_eq!(creds.server_node, "tcp://node:11010");
    let reported = "10.144.144.1".to_string();
    let lobby = manager
        .create_lobby("Test Lobby".to_string(), Player::new("Alice".to_string()), Ok(reported.clone()))
        .unwrap();
    assert_eq!(lobby.virtual_ip, reported);
    assert_eq!(lobby.creator_virtual_ip, "10.126.126.1");
    assert_eq!(lobby.name, "Test Lobby");
    assert_eq!(manager.get_current_lobby(), Some(&lobby));
    let roster = manager.get_players();
    assert_eq!(roster.len(), 1);
    assert_eq!(roster[0].name, "Alice");
    assert!(matches!(
        manager.prepare_lobby("Test Lobby", "pass1234", "Alice", "tcp://node:11010"),
        Err(LobbyError::AlreadyInLobby)
    ));
    assert!(matches!(
        manager.create_lobby("Test Lobby".to_string(), Player::new("Bob".to_string()), Ok(reported)),
        Err(LobbyError::AlreadyInLobby)
    ));
}

#[test]
fn failed_bring_up_leaves_no_session() {
    let mut manager = LobbyManager::new();
    let r = manager.join_lobby(
        "Room".to_string(),
        Player::new("A".to_string()),
        Err(AppError::NetworkError("超时".to_string())),
    );
    match r {
        Err(LobbyError::NetworkError(m)) => assert_eq!(m, "网络错误: 超时"),
        other => panic!("unexpected {:?}", other),
    }
    assert!(!manager.is_in_lobby());
    assert_eq!(manager.get_player_count(), 0);
}

#[test]
fn prepare_checks_fields_in_order() {
    let manager = LobbyManager::new();
    assert!(matches!(manager.prepare_lobby("ab", "x", " ", " "), Err(LobbyError::InvalidInput(m)) if m == "大厅名称至少需要 4 个字符"));
    assert!(matches!(manager.prepare_lobby("abcd", "x", " ", " "), Err(LobbyError::InvalidInput(m)) if m == "密码至少需要 8 个字符"));
    assert!(matches!(manager.prepare_lobby("abcd", "pass1234", " ", " "), Err(LobbyError::InvalidInput(m)) if m == "玩家名称不能为空或仅包含空白字符"));
    assert!(matches!(manager.prepare_lobby("abcd", "pass1234", "p", "\t"), Err(LobbyError::InvalidInput(m)) if m == "服务器节点不能为空或仅包含空白字符"));
}

#[test]
fn leave_twice_reports_not_in_lobby() {
    let mut manager = LobbyManager::new();
    manager
        .create_lobby("Room".to_string(), Player::new("A".to_string()), Ok("10.1.1.2".to_string()))
        .unwrap();
    assert!(manager.leave_lobby().is_ok());
    assert!(!manager.is_in_lobby());
    assert_eq!(manager.get_player_count(), 0);
    assert!(matches!(manager.leave_lobby(), Err(LobbyError::NotInLobby)));
    assert!(!manager.is_in_lobby());
}
