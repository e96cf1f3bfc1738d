use mctier::adapters::{second_field_of, split_words, tunnel_adapter_names, wintun_device_ids};

#[test]
fn device_ids_of_wintun_adapters() {
    let listing = "Instance ID:    ROOT\\NET\\0001\r\nDevice Description: WinTun Userspace Tunnel\r\n\r\nInstance ID: PCI\\VEN_8086\nDevice Description: Intel(R) Ethernet\nInstance ID: ROOT\\NET\\0002\nDriver: wintun.sys\n";
    assert_eq!(wintun_device_ids(listing), vec!["ROOT\\NET\\0001".to_string(), "ROOT\\NET\\0002".to_string()]);
    assert!(wintun_device_ids("Device Description: WinTun").is_empty());
    assert_eq!(second_field_of("实例 ID: A : B"), "A");
    assert_eq!(second_field_of("no colon"), "");
}

#[test]
fn adapter_names_from_netsh() {
    let listing = "Admin State    State          Type             Interface Name\n-------------------------------------------------------------------------\nEnabled        Connected      Dedicated        Ethernet\nEnabled        Connected      Dedicated        EasyTier\nEnabled        Disconnected   Dedicated        wintun0\nWinTun Type\n";
    assert_eq!(tunnel_adapter_names(listing), vec!["EasyTier".to_string(), "wintun0".to_string()]);
    assert_eq!(split_words("  a\tbb  c "), vec!["a".to_string(), "bb".to_string(), "c".to_string()]);
    assert!(split_words(" \t ").is_empty());
}
