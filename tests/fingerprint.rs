use scout::aggregate::group_open_ports;
use scout::cli::{discovery_service_name, format_open_ports, info_cell, resolve_port_range, ttl_cell};
use scout::fingerprint::{
    classify_ttl, http_banner_from_reply, http_request, parse_reply_ttl, parse_u8, probe_plan,
    ssh_banner_from_greeting, ttl_hint, ttl_hint_text, HostFingerprint, OsFamily, ServiceProbe,
};
use scout::target::ipv4;
use scout::text::{decimal_string, format_ipv4};

#[test]
fn ttl_buckets() {
    let g = classify_ttl(64);
    assert_eq!((g.base, g.hops, g.os), (64, 0, OsFamily::UnixLike));
    let g = classify_ttl(48);
    assert_eq!((g.base, g.hops, g.os), (64, 16, OsFamily::UnixLike));
    let g = classify_ttl(128);
    assert_eq!((g.base, g.hops, g.os), (128, 0, OsFamily::WindowsLike));
    let g = classify_ttl(200);
    assert_eq!((g.base, g.hops, g.os), (255, 55, OsFamily::Other));
    let g = classify_ttl(0);
    assert_eq!((g.base, g.hops, g.os), (255, 255, OsFamily::Other));
    assert_eq!(OsFamily::UnixLike.label(), "Linux/macOS/iOS-like");
}

#[test]
fn ttl_hint_texts() {
    assert_eq!(ttl_hint_text(64), "64 (Linux/macOS/iOS-like)");
    assert_eq!(ttl_hint_text(48), "48 (Linux/macOS/iOS-like, 16 hop(s) away)");
    assert_eq!(ttl_hint_text(128), "128 (Windows-like)");
    assert_eq!(ttl_hint_text(200), "200 (network gear/other, 55 hop(s) away)");
}

#[test]
fn ttl_from_ping_output() {
    let out = b"PING 10.0.0.1 (10.0.0.1) 56(84) bytes of data.\n64 bytes from 10.0.0.1: icmp_seq=1 ttl=63 time=0.41 ms\n";
    assert_eq!(parse_reply_ttl(out), Some(63));
    assert_eq!(
        ttl_hint(true, out),
        Some("63 (Linux/macOS/iOS-like, 1 hop(s) away)".to_string())
    );
    assert_eq!(ttl_hint(false, out), None);
    assert_eq!(ttl_hint(true, b"Request timeout for icmp_seq 0\n"), None);
    assert_eq!(parse_reply_ttl(b"ttl=abc ttl=300 ttl=+7"), Some(7));
    assert_eq!(parse_reply_ttl(b"xttl=5 ttl="), None);
    assert_eq!(parse_reply_ttl(b"ttl=255"), Some(255));
}

#[test]
fn decimal_u8_parsing() {
    assert_eq!(parse_u8(b"0"), Some(0));
    assert_eq!(parse_u8(b"255"), Some(255));
    assert_eq!(parse_u8(b"0064"), Some(64));
    assert_eq!(parse_u8(b"256"), None);
    assert_eq!(parse_u8(b"+"), None);
    assert_eq!(parse_u8(b"-1"), None);
    assert_eq!(parse_u8(b""), None);
    assert_eq!(parse_u8(b"99999x"), None);
}

#[test]
fn probes_follow_open_ports() {
    assert_eq!(
        probe_plan(&[22, 80, 443, 3306, 8080]),
        vec![
            ServiceProbe::Http(80),
            ServiceProbe::Http(443),
            ServiceProbe::Http(8080),
            ServiceProbe::Ssh(22)
        ]
    );
    assert!(probe_plan(&[21, 25]).is_empty());
}

#[test]
fn http_request_text() {
    assert_eq!(
        http_request(ipv4(192, 168, 0, 10)),
        "HEAD / HTTP/1.0\r\nHost: 192.168.0.10\r\nUser-Agent: scout\r\nConnection: close\r\n\r\n"
    );
    assert_eq!(format_ipv4(ipv4(0, 255, 7, 100)), "0.255.7.100");
    assert_eq!(decimal_string(0), "0");
    assert_eq!(decimal_string(40960), "40960");
}

#[test]
fn http_banners() {
    let reply = b"HTTP/1.1 200 OK\r\nContent-Type: text/html\r\nSERVER: nginx/1.25\r\n\r\n";
    assert_eq!(
        http_banner_from_reply(8080, reply),
        Some("HTTP:8080 HTTP/1.1 200 OK | SERVER: nginx/1.25".to_string())
    );
    assert_eq!(
        http_banner_from_reply(80, b"HTTP/1.0 404 Not Found\r\n\r\n"),
        Some("HTTP:80 HTTP/1.0 404 Not Found".to_string())
    );
    assert_eq!(
        http_banner_from_reply(80, b"HTTP/1.0 200 OK\nServer: x\xff"),
        Some("HTTP:80 HTTP/1.0 200 OK | Server: x\u{fffd}".to_string())
    );
    assert_eq!(http_banner_from_reply(443, b""), None);
}

#[test]
fn ssh_banners() {
    assert_eq!(
        ssh_banner_from_greeting(22, b"SSH-2.0-OpenSSH_9.6\r\n"),
        Some("SSH:22 SSH-2.0-OpenSSH_9.6".to_string())
    );
    assert_eq!(ssh_banner_from_greeting(22, b" \r\n"), None);
    assert_eq!(
        ssh_banner_from_greeting(2222, "\u{a0}SSH-2.0-x\u{3000}\n".as_bytes()),
        Some("SSH:2222 SSH-2.0-x".to_string())
    );
    assert_eq!(ssh_banner_from_greeting(22, b""), None);
}

#[test]
fn fingerprint_keeps_captured_banners() {
    let banners = vec![Some("HTTP:80 a".to_string()), None, Some("SSH:22 b".to_string())];
    let fp = HostFingerprint::new(Some("64 (Linux/macOS/iOS-like)".to_string()), &banners);
    assert_eq!(fp.services, vec!["HTTP:80 a".to_string(), "SSH:22 b".to_string()]);
    assert_eq!(fp.ttl_guess.as_deref(), Some("64 (Linux/macOS/iOS-like)"));
}

#[test]
fn open_port_text() {
    assert_eq!(format_open_ports(&[22, 80, 3306, 8000]), "22(ssh), 80(http), 3306, 8000(http-alt)");
    assert_eq!(format_open_ports(&[]), "");
    assert_eq!(discovery_service_name(445), Some("smb"));
    assert_eq!(discovery_service_name(8443), Some("https-alt"));
    assert_eq!(discovery_service_name(1), None);
}

#[test]
fn port_range_defaults() {
    assert_eq!(resolve_port_range(None, None), Some((1, 1024)));
    assert_eq!(resolve_port_range(Some(20), Some(25)), Some((20, 25)));
    assert_eq!(resolve_port_range(Some(2000), None), None);
}

#[test]
fn table_cells() {
    let services = vec!["SSH:22 x".to_string(), "HTTP:80 y".to_string(), "HTTP:443 z".to_string()];
    assert_eq!(info_cell(&services), "HTTP:80 y\nHTTP:443 z\nSSH:22 x");
    assert_eq!(info_cell(&Vec::new()), "-");
    assert_eq!(ttl_cell(&None), "-");
    assert_eq!(ttl_cell(&Some("5 (x)".to_string())), "5 (x)");
}

#[test]
fn open_ports_grouped_per_host() {
    let results = vec![
        (ipv4(10, 0, 0, 9), 443, true),
        (ipv4(10, 0, 0, 2), 80, true),
        (ipv4(10, 0, 0, 9), 22, true),
        (ipv4(10, 0, 0, 3), 80, false),
        (ipv4(10, 0, 0, 9), 22, true),
    ];
    assert_eq!(
        group_open_ports(&results),
        vec![(ipv4(10, 0, 0, 2), vec![80]), (ipv4(10, 0, 0, 9), vec![22, 443])]
    );
    assert!(group_open_ports(&[]).is_empty());
}
