use chimera::stealth_transport::{
    classify_request, host_addr, Http2FrameConfig, ProxyDecision, TlsFingerprint,
};

#[test]
fn chrome_fingerprint_tables() {
    let f = TlsFingerprint::chrome_124();
    assert_eq!(f.ja4, "t13d1516h2_8daaf6152771_0c1b2b3b4b5b6b7b8b9b");
    assert_eq!(f.cipher_suites, vec![0x1303, 0x1302, 0xcca8, 0xcca9, 0xc02f, 0xc02b]);
    assert_eq!(
        f.extensions,
        vec![0x0000, 0x000a, 0x000b, 0x000d, 0x0010, 0x0017, 0x002b, 0x002d, 0x0033, 0x4489]
    );
    assert_eq!(f.alpn_protocols, vec!["h2".to_string(), "http/1.1".to_string()]);
    assert_eq!(f.supported_groups, vec![0x001d, 0x0017, 0x0018]);
    assert_eq!(
        f.signature_algorithms,
        vec![0x0804, 0x0805, 0x0806, 0x0401, 0x0501, 0x0601]
    );
    // the newer version carries the same baseline shape
    let g = TlsFingerprint::chrome_133();
    assert_eq!(g.cipher_suites, f.cipher_suites);
}

#[test]
fn ja4_verification() {
    let f = TlsFingerprint::chrome_124();
    assert!(f.verify_ja4("t13d1516h2_8daaf6152771_0c1b2b3b4b5b6b7b8b9b"));
    assert!(!f.verify_ja4("t13d1516h2_other"));
}

#[test]
fn h2_settings() {
    let c = Http2FrameConfig::chrome_124();
    assert_eq!(c.initial_window_size, 65535);
    assert_eq!(c.max_frame_size, 16384);
    assert_eq!(c.header_table_size, 4096);
    assert!(c.enable_push);
    let d = Http2FrameConfig::default();
    assert_eq!(d.initial_window_size, 65535);
}

#[test]
fn priority_normalization() {
    let c = Http2FrameConfig::chrome_124();
    assert_eq!(c.normalize_priority_frame(7, "html"), (7, 256, true));
    assert_eq!(c.normalize_priority_frame(7, "document"), (7, 256, true));
    assert_eq!(c.normalize_priority_frame(9, "css"), (9, 220, false));
    assert_eq!(c.normalize_priority_frame(9, "script"), (9, 220, false));
    assert_eq!(c.normalize_priority_frame(3, "img"), (3, 110, false));
    assert_eq!(c.normalize_priority_frame(3, "font"), (3, 180, false));
}

#[test]
fn window_update_normalization() {
    let c = Http2FrameConfig::chrome_124();
    assert_eq!(c.normalize_window_update(0), 65535);
    assert_eq!(c.normalize_window_update(32767), 32767 + 65535);
    assert_eq!(c.normalize_window_update(32768), 32768);
    assert_eq!(c.normalize_window_update(100_000), 100_000);
}

#[test]
fn connect_requests_open_tunnels_and_plaintext_is_denied() {
    // a CONNECT with an authority tunnels to host:port, defaulting to 443
    match classify_request("CONNECT", Some(("httpbin.test", None))) {
        ProxyDecision::OpenTunnel(addr) => assert_eq!(addr, "httpbin.test:443"),
        _ => panic!("expected a tunnel"),
    }
    match classify_request("CONNECT", Some(("example.test", Some(8443)))) {
        ProxyDecision::OpenTunnel(addr) => assert_eq!(addr, "example.test:8443"),
        _ => panic!("expected a tunnel"),
    }
    let bad = classify_request("CONNECT", None);
    assert_eq!(bad.status_code(), 400);
    let deny = classify_request("GET", Some(("example.test", Some(80))));
    assert_eq!(deny.status_code(), 403);
    let ok = classify_request("CONNECT", Some(("h.test", None)));
    assert_eq!(ok.status_code(), 200);
}

#[test]
fn host_addr_joins_host_and_port() {
    assert_eq!(host_addr("a.example", None), "a.example:443");
    assert_eq!(host_addr("a.example", Some(80)), "a.example:80");
}
