use mctier::hosts::HostsManager;

const FILE: &str = "127.0.0.1 localhost\n# MCTier Magic DNS - 测试大厅\n10.126.126.1 test.mct.net\n# MCTier Magic DNS End\n192.168.1.1 router\n";

#[test]
fn test_split_content() {
    let manager = HostsManager::new("测试大厅");
    let content = r#"127.0.0.1 localhost
# MCTier Magic DNS - 测试大厅
10.126.126.1 test.mct.net
# MCTier Magic DNS End
192.168.1.1 router
"#;
    let (before, mctier, after) = manager.split_content(content);
    assert!(before.contains("127.0.0.1 localhost"));
    assert!(mctier.contains("10.126.126.1 test.mct.net"));
    assert!(after.contains("192.168.1.1 router"));
}

#[test]
fn add_entry_goes_before_the_closing_line() {
    let m = HostsManager::new("测试大厅");
    let out = m.add_entry(FILE, "b.mct.net", "10.126.126.2");
    assert_eq!(
        out,
        "127.0.0.1 localhost\n# MCTier Magic DNS - 测试大厅\n10.126.126.1 test.mct.net\n10.126.126.2 b.mct.net\n# MCTier Magic DNS End\n192.168.1.1 router\n"
    );
    assert_eq!(m.add_entry(&out, "b.mct.net", "10.126.126.2"), out);
}

#[test]
fn add_entry_creates_a_block() {
    let m = HostsManager::new("room");
    let out = m.add_entry("127.0.0.1 localhost\r\n", "a.mct.net", "10.0.0.2");
    assert_eq!(out, "127.0.0.1 localhost\n# MCTier Magic DNS - room\n10.0.0.2 a.mct.net\n# MCTier Magic DNS End\n");
    let out2 = m.add_entries("", &vec![("a".to_string(), "10.0.0.2".to_string()), ("b".to_string(), "10.0.0.3".to_string())]);
    assert_eq!(out2, "# MCTier Magic DNS - room\n10.0.0.2 a\n10.0.0.3 b\n# MCTier Magic DNS End\n");
}

#[test]
fn remove_and_clear() {
    let m = HostsManager::new("测试大厅");
    assert_eq!(
        m.remove_entry(FILE, "test.mct.net"),
        "127.0.0.1 localhost\n# MCTier Magic DNS - 测试大厅\n# MCTier Magic DNS End\n192.168.1.1 router\n"
    );
    assert_eq!(m.clear_all(FILE), "127.0.0.1 localhost\n192.168.1.1 router\n");
}

#[test]
fn cleanup_drops_from_the_first_block_on() {
    assert_eq!(HostsManager::cleanup_all_mctier_entries("a\nb\n"), "a\nb\n");
    assert_eq!(HostsManager::cleanup_all_mctier_entries(FILE), "127.0.0.1 localhost\n");
    assert_eq!(HostsManager::cleanup_all_mctier_entries(""), "");
}

#[test]
fn hosts_path() {
    assert_eq!(HostsManager::new("x").hosts_path(), "/etc/hosts");
    assert_eq!(HostsManager::with_hosts_path("x", "C:/h").hosts_path(), "C:/h");
}
