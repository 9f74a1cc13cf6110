use seer::monitor::network::{get_service_name, listening_ports_from, parse_net_line};

#[test]
fn test_parse_net_line_security() {
    // Test normal valid input
    let valid_line = "  1: 00000000:0016 00000000:0000 0A 00000000:00000000 00:00000000 00000000     0        0 10000 1 0000000000000000 100 0 0 10 0";
    let result = parse_net_line(valid_line, "tcp");
    assert!(result.is_some());

    // Test input validation: oversized line should be rejected
    let oversized_line = "x".repeat(2000);
    let result = parse_net_line(&oversized_line, "tcp");
    assert!(result.is_none());

    // Test invalid protocol should be rejected
    let result = parse_net_line(valid_line, "invalid_protocol");
    assert!(result.is_none());

    // Test malformed local_addr should be rejected
    let malformed_line = "  1: malformed_addr 00000000:0000 0A 00000000:00000000 00:00000000 00000000     0        0 10000 1 0000000000000000 100 0 0 10 0";
    let result = parse_net_line(malformed_line, "tcp");
    assert!(result.is_none());

    // Test line with insufficient fields should be rejected
    let short_line = "1: 00000000:0016 00000000:0000";
    let result = parse_net_line(short_line, "tcp");
    assert!(result.is_none());
}

#[test]
fn net_line_fields() {
    let line = "  1: 00000000:0016 00000000:0000 0A 00000000:00000000 00:00000000 00000000     0        0 10000 1 0000000000000000 100 0 0 10 0";
    let p = parse_net_line(line, "tcp").unwrap();
    assert_eq!(p.port, 22);
    assert_eq!(p.protocol, "TCP");
    assert_eq!(p.service_name.as_deref(), Some("SSH"));
    assert!(p.pid.is_none() && p.process_name.is_none());
    // A TCP row not listening is skipped; the same row in the UDP table is kept.
    let established = line.replacen(" 0A ", " 01 ", 1);
    assert!(parse_net_line(&established, "tcp").is_none());
    let u = parse_net_line(&established, "udp").unwrap();
    assert_eq!(u.protocol, "UDP");
    assert_eq!(u.service_name, None);
}

#[test]
fn service_names() {
    assert_eq!(get_service_name(53, "udp").as_deref(), Some("DNS"));
    assert_eq!(get_service_name(53, "tcp").as_deref(), Some("DNS"));
    assert_eq!(get_service_name(80, "udp"), None);
    assert_eq!(get_service_name(27017, "tcp").as_deref(), Some("MongoDB"));
    assert_eq!(get_service_name(8080, "tcp"), None);
}

#[test]
fn listening_ports_from_table_skips_header() {
    let table = "  sl  local_address rem_address   st tx_queue rx_queue tr tm->when retrnsmt   uid  timeout inode\n   0: 0100007F:0050 00000000:0000 0A 00000000:00000000 00:00000000 00000000     0        0 1 1 0 100 0 0 10 0\n   1: 0100007F:01BB 00000000:0000 0A 00000000:00000000 00:00000000 00000000     0        0 2 1 0 100 0 0 10 0\n";
    let ports = listening_ports_from(table, "tcp");
    assert_eq!(ports.len(), 2);
    assert_eq!(ports[0].port, 80);
    assert_eq!(ports[1].port, 443);
    assert_eq!(ports[1].service_name.as_deref(), Some("HTTPS"));
    assert!(listening_ports_from("", "tcp").is_empty());
}
