use mctier::launcher::{MinecraftAgentInjector, MinecraftConfig, MinecraftLauncher};

#[test]
fn test_launcher_creation() {
    let launcher = MinecraftLauncher::new();
    assert!(launcher.agent_jar_path().contains("minecraft-offline-agent.jar"));
}

#[test]
fn test_injector_creation() {
    let injector = MinecraftAgentInjector::new();
    assert!(injector.agent_jar_path().contains("minecraft-offline-agent.jar"));
}

#[test]
fn test_get_agent_argument() {
    let launcher = MinecraftLauncher::new();
    let arg = launcher.get_agent_argument(Some(launcher.agent_jar_path()));
    assert!(arg.is_ok());
    let arg_str = arg.unwrap();
    assert!(arg_str.starts_with("-javaagent:"));
    assert!(arg_str.contains("minecraft-offline-agent.jar"));
    assert_eq!(launcher.get_agent_argument(Some("/a b/x.jar")).unwrap(), "-javaagent:\"/a b/x.jar\"");
    assert!(launcher.get_agent_argument(None).is_err());
}

#[test]
fn detect_launcher_type_cases() {
    assert_eq!(MinecraftLauncher::detect_launcher_type("/games/PCL2", false, false), Some("PCL".to_string()));
    assert_eq!(MinecraftLauncher::detect_launcher_type("/games/x", true, true), Some("PCL".to_string()));
    assert_eq!(MinecraftLauncher::detect_launcher_type("/games/HMCL", false, false), Some("HMCL".to_string()));
    assert_eq!(MinecraftLauncher::detect_launcher_type("/games/x", false, true), Some("HMCL".to_string()));
    assert_eq!(MinecraftLauncher::detect_launcher_type("/games/x", false, false), None);
}

#[test]
fn auto_configure_texts() {
    let l = MinecraftLauncher::new();
    let cfg = |t: &str| MinecraftConfig {
        launcher_type: t.to_string(),
        version_dir: "v".to_string(),
        launcher_config_path: None,
    };
    let hmcl = l.auto_configure(&cfg("HMCL"), Ok("ARG".to_string())).unwrap();
    assert_eq!(hmcl, "请手动在 HMCL 启动器中：\n\n1. 选择版本\n2. 点击「编辑版本」\n3. 在「Java 虚拟机参数」中添加：\n\nARG\n\n4. 保存并重启游戏");
    let other = l.auto_configure(&cfg("Other"), Ok("ARG".to_string())).unwrap();
    assert_eq!(other, "请手动在启动器的 JVM 参数中添加以下内容：\n\nARG\n\n添加后重启 Minecraft 即可自动关闭正版验证。");
    assert!(l.auto_configure(&cfg("PCL2"), Ok("ARG".to_string())).unwrap().starts_with("PCL 启动器配置说明"));
    assert_eq!(l.auto_configure(&cfg("PCL"), Err("e".to_string())), Err("e".to_string()));
}
