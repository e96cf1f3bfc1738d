use mctier::error::AppError;
use mctier::lobby::{Lobby, LobbyError, LobbyManager, Player};

#[test]
fn test_lobby_creation() {
    let lobby = Lobby::new("测试大厅".to_string(), "10.144.144.1".to_string(), "10.144.144.1".to_string());
    assert_eq!(lobby.name, "测试大厅");
    assert_eq!(lobby.virtual_ip, "10.144.144.1");
    assert_eq!(lobby.creator_virtual_ip, "10.144.144.1");
    assert!(!lobby.id.is_empty());
}

#[test]
fn test_player_creation() {
    let player = Player::new("测试玩家".to_string());
    assert_eq!(player.name, "测试玩家");
    assert!(!player.mic_enabled);
    assert!(!player.is_muted);
    assert!(!player.id.is_empty());
}

#[test]
fn test_validate_input_empty_string() {
    let result = LobbyManager::validate_input("", "测试字段");
    assert!(result.is_err());
    if let Err(LobbyError::InvalidInput(msg)) = result {
        assert!(msg.contains("测试字段"));
        assert!(msg.contains("不能为空"));
    } else {
        panic!("期望得到 InvalidInput 错误");
    }
}

#[test]
fn test_validate_input_whitespace_only() {
    let test_cases = vec!["   ", "\t", "\n", "\r", " \t\n\r "];
    for input in test_cases {
        let result = LobbyManager::validate_input(input, "测试字段");
        assert!(result.is_err(), "应该拒绝空白字符串: {:?}", input);
    }
}

#[test]
fn test_validate_input_valid() {
    let test_cases = vec!["测试", "Test", "测试123", " 有效输入 "];
    for input in test_cases {
        let result = LobbyManager::validate_input(input, "测试字段");
        assert!(result.is_ok(), "应该接受有效输入: {:?}", input);
    }
}

#[test]
fn test_lobby_manager_creation() {
    let manager = LobbyManager::new();
    assert!(!manager.is_in_lobby());
    assert_eq!(manager.get_player_count(), 0);
    assert!(manager.get_current_lobby().is_none());
}

#[test]
fn test_add_and_remove_player() {
    let mut manager = LobbyManager::new();
    let player1 = Player::new("玩家1".to_string());
    let player2 = Player::new("玩家2".to_string());
    let player1_id = player1.id.clone();
    let player2_id = player2.id.clone();
    manager.add_player(player1);
    manager.add_player(player2);
    assert_eq!(manager.get_player_count(), 2);
    assert!(manager.get_player(&player1_id).is_some());
    assert!(manager.get_player(&player2_id).is_some());
    let removed = manager.remove_player(&player1_id);
    assert!(removed.is_some());
    assert_eq!(removed.unwrap().id, player1_id);
    assert_eq!(manager.get_player_count(), 1);
    assert!(manager.get_player(&player1_id).is_none());
    assert!(manager.get_player(&player2_id).is_some());
}

#[test]
fn test_get_players_sorted() {
    let mut manager = LobbyManager::new();
    let player1 = Player::new("玩家1".to_string());
    let player2 = Player::new("玩家2".to_string());
    let player3 = Player::new("玩家3".to_string());
    manager.add_player(player1.clone());
    manager.add_player(player2.clone());
    manager.add_player(player3.clone());
    let players = manager.get_players();
    assert_eq!(players.len(), 3);
    assert_eq!(players[0].id, player1.id);
    assert_eq!(players[1].id, player2.id);
    assert_eq!(players[2].id, player3.id);
}

#[test]
fn get_players_orders_by_join_time() {
    let mut manager = LobbyManager::new();
    let mk = |id: &str, t: i64| Player {
        id: id.to_string(),
        name: id.to_string(),
        mic_enabled: false,
        is_muted: false,
        joined_at: t,
    };
    manager.add_player(mk("c", 30));
    manager.add_player(mk("a", 10));
    manager.add_player(mk("b", 20));
    manager.add_player(mk("a2", 10));
    let ids: Vec<String> = manager.get_players().into_iter().map(|p| p.id).collect();
    assert_eq!(ids, vec!["a", "a2", "b", "c"]);
}

#[test]
fn test_update_player_mic_status() {
    let mut manager = LobbyManager::new();
    let player = Player::new("测试玩家".to_string());
    let player_id = player.id.clone();
    manager.add_player(player);
    assert!(!manager.get_player(&player_id).unwrap().mic_enabled);
    let result = manager.update_player_mic_status(&player_id, true);
    assert!(result.is_ok());
    assert!(manager.get_player(&player_id).unwrap().mic_enabled);
    let result = manager.update_player_mic_status(&player_id, false);
    assert!(result.is_ok());
    assert!(!manager.get_player(&player_id).unwrap().mic_enabled);
}

#[test]
fn test_update_player_mute_status() {
    let mut manager = LobbyManager::new();
    let player = Player::new("测试玩家".to_string());
    let player_id = player.id.clone();
    manager.add_player(player);
    assert!(!manager.get_player(&player_id).unwrap().is_muted);
    let result = manager.update_player_mute_status(&player_id, true);
    assert!(result.is_ok());
    assert!(manager.get_player(&player_id).unwrap().is_muted);
    let result = manager.update_player_mute_status(&player_id, false);
    assert!(result.is_ok());
    assert!(!manager.get_player(&player_id).unwrap().is_muted);
}

#[test]
fn test_update_nonexistent_player() {
    let mut manager = LobbyManager::new();
    let result = manager.update_player_mic_status("nonexistent_id", true);
    assert!(result.is_err());
    if let Err(LobbyError::PlayerNotFound(id)) = result {
        assert_eq!(id, "nonexistent_id");
    } else {
        panic!("期望得到 PlayerNotFound 错误");
    }
}

#[test]
fn test_clear_players() {
    let mut manager = LobbyManager::new();
    manager.add_player(Player::new("玩家1".to_string()));
    manager.add_player(Player::new("玩家2".to_string()));
    assert_eq!(manager.get_player_count(), 2);
    manager.clear_players();
    assert_eq!(manager.get_player_count(), 0);
}

#[test]
fn test_lobby_error_conversion() {
    let error = LobbyError::InvalidInput("测试错误".to_string());
    let app_error: AppError = error.into();
    match app_error {
        AppError::ValidationError(msg) => assert_eq!(msg, "测试错误"),
        _ => panic!("错误类型转换失败"),
    }
}

#[test]
fn test_validate_lobby_name_empty() {
    let result = LobbyManager::validate_input("", "大厅名称");
    assert!(result.is_err());
    if let Err(LobbyError::InvalidInput(msg)) = result {
        assert!(msg.contains("大厅名称"));
        assert!(msg.contains("不能为空"));
    }
}

#[test]
fn test_validate_lobby_name_whitespace() {
    let whitespace_inputs = vec!["   ", "\t", "\n", "\r", " \t\n\r "];
    for input in whitespace_inputs {
        let result = LobbyManager::validate_input(input, "大厅名称");
        assert!(result.is_err(), "应该拒绝空白字符串: {:?}", input);
    }
}

#[test]
fn test_validate_password_empty() {
    let result = LobbyManager::validate_input("", "密码");
    assert!(result.is_err());
    if let Err(LobbyError::InvalidInput(msg)) = result {
        assert!(msg.contains("密码"));
    }
}

#[test]
fn test_validate_password_whitespace() {
    let result = LobbyManager::validate_input("   ", "密码");
    assert!(result.is_err());
}

#[test]
fn test_validate_player_name_empty() {
    let result = LobbyManager::validate_input("", "玩家名称");
    assert!(result.is_err());
    if let Err(LobbyError::InvalidInput(msg)) = result {
        assert!(msg.contains("玩家名称"));
    }
}

#[test]
fn test_validate_player_name_whitespace() {
    let result = LobbyManager::validate_input("\t\n", "玩家名称");
    assert!(result.is_err());
}

#[test]
fn test_validate_server_node_empty() {
    let result = LobbyManager::validate_input("", "服务器节点");
    assert!(result.is_err());
    if let Err(LobbyError::InvalidInput(msg)) = result {
        assert!(msg.contains("服务器节点"));
    }
}

#[test]
fn test_validate_server_node_whitespace() {
    let result = LobbyManager::validate_input("   ", "服务器节点");
    assert!(result.is_err());
}

#[test]
fn test_validate_all_fields_valid() {
    assert!(LobbyManager::validate_input("测试大厅", "大厅名称").is_ok());
    assert!(LobbyManager::validate_input("password123", "密码").is_ok());
    assert!(LobbyManager::validate_input("玩家1", "玩家名称").is_ok());
    assert!(LobbyManager::validate_input("tcp://server:11010", "服务器节点").is_ok());
}

#[test]
fn test_validate_mixed_whitespace() {
    let test_cases = vec![
        (" ", "单个空格"),
        ("  ", "多个空格"),
        ("\t", "制表符"),
        ("\n", "换行符"),
        ("\r", "回车符"),
        (" \t", "空格+制表符"),
        ("\n\r", "换行+回车"),
        (" \t\n\r ", "所有空白字符"),
    ];
    for (input, desc) in test_cases {
        let result = LobbyManager::validate_input(input, "测试字段");
        assert!(result.is_err(), "应该拒绝: {}", desc);
    }
}

#[test]
fn test_validate_with_leading_trailing_spaces() {
    let result = LobbyManager::validate_input(" 有效内容 ", "测试字段");
    assert!(result.is_ok(), "前后有空格但中间有内容应该通过验证");
}

#[test]
fn test_lobby_error_types() {
    let errors = vec![
        LobbyError::InvalidInput("无效输入".to_string()),
        LobbyError::NetworkError("网络错误".to_string()),
        LobbyError::AlreadyInLobby,
        LobbyError::NotInLobby,
        LobbyError::PlayerNotFound("player123".to_string()),
    ];
    for error in errors {
        let error_str = error.to_string();
        assert!(!error_str.is_empty(), "错误消息不应为空");
    }
}

#[test]
fn test_lobby_error_to_app_error_conversion() {
    let app_error: AppError = LobbyError::InvalidInput("测试".to_string()).into();
    assert!(matches!(app_error, AppError::ValidationError(_)));
    let app_error: AppError = LobbyError::NetworkError("测试".to_string()).into();
    assert!(matches!(app_error, AppError::NetworkError(_)));
    let app_error: AppError = LobbyError::AlreadyInLobby.into();
    assert!(matches!(app_error, AppError::ValidationError(_)));
    let app_error: AppError = LobbyError::NotInLobby.into();
    assert!(matches!(app_error, AppError::ValidationError(_)));
    let app_error: AppError = LobbyError::PlayerNotFound("test".to_string()).into();
    assert!(matches!(app_error, AppError::ValidationError(_)));
}

#[test]
fn lobby_error_messages() {
    assert_eq!(LobbyError::AlreadyInLobby.to_string(), "已经在大厅中");
    assert_eq!(LobbyError::NotInLobby.to_string(), "不在大厅中");
    assert_eq!(LobbyError::PlayerNotFound("guest".to_string()).to_string(), "玩家不存在: guest");
    assert_eq!(LobbyError::InvalidInput("x".to_string()).to_string(), "输入验证失败: x");
    match LobbyError::PlayerNotFound("guest".to_string()).to_app_error() {
        AppError::ValidationError(m) => assert_eq!(m, "玩家不存在: guest"),
        other => panic!("unexpected {:?}", other),
    }
}

#[test]
fn test_lobby_struct_fields() {
    let lobby = Lobby::new("测试大厅".to_string(), "10.144.144.1".to_string(), "10.144.144.1".to_string());
    assert!(!lobby.id.is_empty(), "大厅 ID 不应为空");
    assert_eq!(lobby.name, "测试大厅", "大厅名称应该匹配");
    assert_eq!(lobby.virtual_ip, "10.144.144.1", "虚拟 IP 应该匹配");
    assert_eq!(lobby.creator_virtual_ip, "10.144.144.1", "创建者虚拟 IP 应该匹配");
    assert!(lobby.created_at <= chrono::Utc::now().timestamp_millis(), "创建时间应该在当前时间之前或等于");
}

#[test]
fn test_player_struct_fields() {
    let player = Player::new("测试玩家".to_string());
    assert!(!player.id.is_empty(), "玩家 ID 不应为空");
    assert_eq!(player.name, "测试玩家", "玩家名称应该匹配");
    assert!(!player.mic_enabled, "麦克风默认应该关闭");
    assert!(!player.is_muted, "默认不应该被静音");
    assert!(player.joined_at <= chrono::Utc::now().timestamp_millis(), "加入时间应该在当前时间之前或等于");
}

#[test]
fn test_lobby_manager_initial_state() {
    let manager = LobbyManager::new();
    assert!(!manager.is_in_lobby(), "初始状态不应该在大厅中");
    assert_eq!(manager.get_player_count(), 0, "初始玩家数量应该为 0");
    assert!(manager.get_current_lobby().is_none(), "初始大厅应该为 None");
    assert_eq!(manager.get_players().len(), 0, "初始玩家列表应该为空");
}

#[test]
fn test_multiple_players_management() {
    let mut manager = LobbyManager::new();
    for i in 1..=5 {
        manager.add_player(Player::new(format!("玩家{}", i)));
    }
    assert_eq!(manager.get_player_count(), 5, "应该有 5 个玩家");
    let players = manager.get_players();
    assert_eq!(players.len(), 5, "玩家列表长度应该为 5");
    for (i, player) in players.iter().enumerate() {
        assert_eq!(player.name, format!("玩家{}", i + 1));
    }
}

#[test]
fn test_player_id_uniqueness() {
    let player1 = Player::new("玩家1".to_string());
    let player2 = Player::new("玩家2".to_string());
    assert_ne!(player1.id, player2.id, "玩家 ID 应该是唯一的");
}

#[test]
fn test_lobby_id_uniqueness() {
    let lobby1 = Lobby::new("大厅1".to_string(), "10.144.144.1".to_string(), "10.144.144.1".to_string());
    let lobby2 = Lobby::new("大厅2".to_string(), "10.144.144.2".to_string(), "10.144.144.2".to_string());
    assert_ne!(lobby1.id, lobby2.id, "大厅 ID 应该是唯一的");
}

#[test]
fn test_lobby_equality() {
    let lobby1 = Lobby::new("测试大厅".to_string(), "10.144.144.1".to_string(), "10.144.144.1".to_string());
    let lobby2 = lobby1.clone();
    assert_eq!(lobby1, lobby2, "克隆的大厅应该相等");
}

#[test]
fn test_player_equality() {
    let player1 = Player::new("测试玩家".to_string());
    let player2 = player1.clone();
    assert_eq!(player1, player2, "克隆的玩家应该相等");
}

#[test]
fn test_get_player_by_id() {
    let mut manager = LobbyManager::new();
    let player = Player::new("测试玩家".to_string());
    let player_id = player.id.clone();
    manager.add_player(player);
    let retrieved = manager.get_player(&player_id);
    assert!(retrieved.is_some(), "应该能获取到玩家");
    assert_eq!(retrieved.unwrap().id, player_id, "玩家 ID 应该匹配");
    let not_found = manager.get_player("nonexistent_id");
    assert!(not_found.is_none(), "不存在的玩家应该返回 None");
}

#[test]
fn test_remove_nonexistent_player() {
    let mut manager = LobbyManager::new();
    let result = manager.remove_player("nonexistent_id");
    assert!(result.is_none(), "移除不存在的玩家应该返回 None");
}

#[test]
fn test_update_player_status_comprehensive() {
    let mut manager = LobbyManager::new();
    let player = Player::new("测试玩家".to_string());
    let player_id = player.id.clone();
    manager.add_player(player);
    assert!(manager.update_player_mic_status(&player_id, true).is_ok());
    assert!(manager.get_player(&player_id).unwrap().mic_enabled);
    assert!(manager.update_player_mic_status(&player_id, false).is_ok());
    assert!(!manager.get_player(&player_id).unwrap().mic_enabled);
    assert!(manager.update_player_mute_status(&player_id, true).is_ok());
    assert!(manager.get_player(&player_id).unwrap().is_muted);
    assert!(manager.update_player_mute_status(&player_id, false).is_ok());
    assert!(!manager.get_player(&player_id).unwrap().is_muted);
}

#[test]
fn test_clear_players_preserves_lobby() {
    let mut manager = LobbyManager::new();
    manager.add_player(Player::new("玩家1".to_string()));
    manager.add_player(Player::new("玩家2".to_string()));
    assert_eq!(manager.get_player_count(), 2);
    manager.clear_players();
    assert_eq!(manager.get_player_count(), 0);
    assert_eq!(manager.get_players().len(), 0);
}

#[test]
fn test_default_trait() {
    let manager1 = LobbyManager::new();
    let manager2 = LobbyManager::default();
    assert_eq!(manager1.is_in_lobby(), manager2.is_in_lobby());
    assert_eq!(manager1.get_player_count(), manager2.get_player_count());
}

#[test]
fn adding_a_known_id_replaces_the_member() {
    let mut manager = LobbyManager::new();
    let p = Player::new("A".to_string());
    let mut q = p.clone();
    q.name = "B".to_string();
    manager.add_player(p);
    manager.add_player(q.clone());
    assert_eq!(manager.get_player_count(), 1);
    assert_eq!(manager.get_player(&q.id).unwrap().name, "B");
}
