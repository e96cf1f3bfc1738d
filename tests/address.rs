use mctier::address::{
    address_from_log_line, address_in_output_line, extract_ip_from_line, first_usable_address,
    is_fatal_error_line, is_host_address, is_loopback, is_private_ip, is_valid_ip,
};

fn extract(line: &str) -> Option<String> {
    extract_ip_from_line(line)
}

#[test]
fn test_extract_ip_from_line() {
    let test_cases = vec![
        ("Virtual IP: 10.144.144.1", Some("10.144.144.1")),
        ("Got IP: 192.168.1.100", Some("192.168.1.100")),
        ("Assigned IP: 172.16.0.1", Some("172.16.0.1")),
        ("No IP here", None),
        ("Invalid IP: 999.999.999.999", None),
        ("Localhost: 127.0.0.1", None),
    ];
    for (input, expected) in test_cases {
        assert_eq!(extract(input), expected.map(|s| s.to_string()), "Failed for input: {}", input);
    }
}

#[test]
fn test_is_valid_ip() {
    assert!(is_valid_ip("10.144.144.1"));
    assert!(is_valid_ip("192.168.1.1"));
    assert!(is_valid_ip("172.16.0.1"));
    assert!(is_valid_ip("0.0.0.0"));
    assert!(is_valid_ip("255.255.255.255"));

    assert!(!is_valid_ip("256.1.1.1"));
    assert!(!is_valid_ip("1.1.1"));
    assert!(!is_valid_ip("1.1.1.1.1"));
    assert!(!is_valid_ip("abc.def.ghi.jkl"));
}

#[test]
fn test_extract_ip_comprehensive() {
    let test_cases = vec![
        ("Virtual IP: 10.144.144.1", Some("10.144.144.1")),
        ("Got IP: 192.168.1.100", Some("192.168.1.100")),
        ("Assigned IP: 172.16.0.1", Some("172.16.0.1")),
        ("IP address is 10.0.0.1", Some("10.0.0.1")),
        ("Your IP: 192.168.0.1", Some("192.168.0.1")),
        ("Connected with IP 10.10.10.10", Some("10.10.10.10")),
        ("No IP here", None),
        ("Invalid IP: 999.999.999.999", None),
        ("Localhost: 127.0.0.1", None),
        ("Zero IP: 0.0.0.0", None),
        ("", None),
        ("Just some text", None),
    ];
    for (input, expected) in test_cases {
        assert_eq!(extract(input), expected.map(|s| s.to_string()), "input: {}", input);
    }
}

#[test]
fn test_ip_validation_comprehensive() {
    let valid_ips = vec![
        "10.144.144.1",
        "192.168.1.1",
        "172.16.0.1",
        "1.2.3.4",
        "255.255.255.255",
        "0.0.0.0",
        "127.0.0.1",
        "10.0.0.1",
        "192.168.0.1",
    ];
    for ip in valid_ips {
        assert!(is_valid_ip(ip), "should accept: {}", ip);
    }
    let invalid_ips = vec![
        "256.1.1.1",
        "1.256.1.1",
        "1.1.256.1",
        "1.1.1.256",
        "1.1.1",
        "1.1",
        "1",
        "1.1.1.1.1",
        "abc.def.ghi.jkl",
        "",
        "...",
        "1..1.1",
        "1.1.1.",
        ".1.1.1",
        "-1.1.1.1",
        "1.1.1.1a",
    ];
    for ip in invalid_ips {
        assert!(!is_valid_ip(ip), "should reject: {}", ip);
    }
}

#[test]
fn test_extract_ip_with_multiple_ips() {
    let line = "Connecting from 127.0.0.1 to 10.144.144.1";
    assert_eq!(extract(line), Some("10.144.144.1".to_string()));
}

#[test]
fn test_extract_ip_edge_cases() {
    // Only private, non-loopback addresses are taken: 0.0.0.1 and
    // 255.255.255.254 lie in no private range.
    let test_cases = vec![
        ("IP: 0.0.0.1", None),
        ("IP: 255.255.255.254", None),
        ("IP:10.144.144.1", Some("10.144.144.1")),
        ("IP: 10.144.144.1 ", Some("10.144.144.1")),
        (" IP: 10.144.144.1", Some("10.144.144.1")),
        ("The virtual IP is 10.144.144.1 and ready", Some("10.144.144.1")),
        ("Network: 10.144.144.1/24", Some("10.144.144.1")),
    ];
    for (input, expected) in test_cases {
        assert_eq!(extract(input), expected.map(|s: &str| s.to_string()), "input: {}", input);
    }
}

#[test]
fn test_ip_validation_boundary_values() {
    assert!(is_valid_ip("0.0.0.0"));
    assert!(is_valid_ip("255.255.255.255"));
    assert!(is_valid_ip("0.0.0.1"));
    assert!(is_valid_ip("255.255.255.254"));

    assert!(!is_valid_ip("256.0.0.0"));
    assert!(!is_valid_ip("0.256.0.0"));
    assert!(!is_valid_ip("0.0.256.0"));
    assert!(!is_valid_ip("0.0.0.256"));
}

#[test]
fn test_extract_ip_no_false_positives() {
    let test_cases = vec!["Port: 11010", "Version: 1.2.3.4.5", "Count: 192", "ID: 12345"];
    for input in test_cases {
        if let Some(ip) = extract(input) {
            assert!(is_valid_ip(&ip), "extracted: {}", ip);
        }
    }
}

#[test]
fn octets_are_digits_only() {
    assert!(!is_valid_ip("+1.2.3.4"));
    assert!(!is_valid_ip("1.2.+3.4"));
    assert!(is_valid_ip("010.001.0.00"));
    assert!(!is_valid_ip("+.1.1.1"));
    assert!(!is_valid_ip("1 .1.1.1"));
}

#[test]
fn private_and_loopback_ranges() {
    assert!(is_private_ip("10.0.0.1"));
    assert!(is_private_ip("172.16.0.1"));
    assert!(is_private_ip("172.31.255.255"));
    assert!(!is_private_ip("172.32.0.1"));
    assert!(!is_private_ip("172.15.0.1"));
    assert!(is_private_ip("192.168.5.5"));
    assert!(!is_private_ip("192.169.0.1"));
    assert!(!is_private_ip("8.8.8.8"));
    assert!(is_loopback("127.0.0.1"));
    assert!(is_loopback("127.255.0.9"));
    assert!(!is_loopback("128.0.0.1"));
}

#[test]
fn host_octet_excludes_network_and_broadcast() {
    assert!(is_host_address("10.0.0.1"));
    assert!(is_host_address("10.0.0.254"));
    assert!(!is_host_address("10.0.0.0"));
    assert!(!is_host_address("10.0.0.255"));
    assert!(!is_host_address("10.0.0"));
}

#[test]
fn first_usable_candidate_wins() {
    let c = vec!["127.0.0.1".to_string(), "8.8.8.8".to_string(), "10.1.2.3".to_string(), "10.9.9.9".to_string()];
    assert_eq!(first_usable_address(&c), Some("10.1.2.3".to_string()));
    assert_eq!(first_usable_address(&vec![]), None);
}

#[test]
fn output_line_reports_address_only_when_it_announces_one() {
    assert_eq!(
        address_in_output_line("DHCP assigned 10.126.126.5", "dhcp assigned 10.126.126.5"),
        Some("10.126.126.5".to_string())
    );
    // No announcing keyword.
    assert_eq!(address_in_output_line("peer 10.126.126.5 up", "peer 10.126.126.5 up"), None);
    // Configuration echo.
    assert_eq!(
        address_in_output_line("listeners: virtual ip 10.126.126.5", "listeners: virtual ip 10.126.126.5"),
        None
    );
    // Network address is no host.
    assert_eq!(address_in_output_line("virtual ip 10.126.126.0", "virtual ip 10.126.126.0"), None);
    // ipv4 with '='.
    assert_eq!(
        address_in_output_line("IPV4=10.1.1.9", "ipv4=10.1.1.9"),
        Some("10.1.1.9".to_string())
    );
}

#[test]
fn log_line_is_judged_on_its_lower_case_form() {
    // "VIRTUAL IP" only announces once lower-cased.
    assert_eq!(address_from_log_line("VIRTUAL IP: 10.144.144.7"), Some("10.144.144.7".to_string()));
    assert_eq!(address_from_log_line("Virtual IP: 127.0.0.1"), None);
}

#[test]
fn fatal_error_lines() {
    assert!(is_fatal_error_line("ERROR: tun device error: access denied"));
    assert!(is_fatal_error_line("Error: Failed to create adapter"));
    assert!(!is_fatal_error_line("Failed to create adapter"));
    assert!(!is_fatal_error_line("error: connection reset"));
}

#[test]
fn address_extraction_examples() {
    assert_eq!(extract("Virtual IP: 10.144.144.1"), Some("10.144.144.1".to_string()));
    assert_eq!(extract("Localhost: 127.0.0.1"), None);
    assert_eq!(extract("IP: 256.1.1.1"), None);
    assert_eq!(extract("from 127.0.0.1 via 10.144.144.1"), Some("10.144.144.1".to_string()));
}

#[test]
fn network_and_broadcast_candidates_are_skipped() {
    assert_eq!(extract("net 10.0.0.0 bcast 10.0.0.255 host 10.0.0.5"), Some("10.0.0.5".to_string()));
    assert_eq!(
        address_in_output_line("virtual ip 10.1.1.0 or 10.1.1.7", "virtual ip 10.1.1.0 or 10.1.1.7"),
        Some("10.1.1.7".to_string())
    );
    let c = vec!["10.0.0.255".to_string(), "10.0.0.6".to_string()];
    assert_eq!(first_usable_address(&c), Some("10.0.0.6".to_string()));
}
