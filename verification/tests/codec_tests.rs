use chimera::identity_grafting::IdentityGrafting;
use chimera::profile_codec::{decode_profile, decode_profiles, encode_profile, encode_profiles, sanitize_plain};

#[test]
fn profile_round_trip_is_byte_identical() {
    let p = IdentityGrafting::create_profile(
        "windows_chrome_124",
        "Windows 11",
        "Chrome 124",
        (1920, 1080),
        10_000_000,
    );
    let text = encode_profile(&p);
    let q = decode_profile(text.as_str()).expect("canonical text decodes");
    let text2 = encode_profile(&q);
    assert_eq!(text, text2);
    assert_eq!(q.id, p.id);
    assert_eq!(q.metadata.os, p.metadata.os);
    assert_eq!(q.metadata.viewport, p.metadata.viewport);
    assert_eq!(q.visit_history.len(), p.visit_history.len());
    assert_eq!(q.visit_history[2].title, p.visit_history[2].title);
    assert_eq!(q.fingerprint.timezone_offset, -300);
    assert_eq!(q.cache_size_mb, p.cache_size_mb);
}

#[test]
fn encoded_profile_is_compact_json() {
    let p = IdentityGrafting::create_profile("a", "os1", "br1", (2, 3), 10_000_000);
    let text = encode_profile(&p);
    assert!(text.starts_with("{\"id\":\"a\",\"metadata\":{\"os\":\"os1\",\"browser\":\"br1\",\"viewport\":[2,3],"));
    assert!(text.contains("\"timezone\":\"America/New_York\""));
    assert!(text.contains("\"cache_size_mb\":500,\"cookie_count\":42,"));
    assert!(text.contains("\"timezone_offset\":-300,"));
    assert!(text.ends_with("\"profile_dir\":\"/tmp/chimera-profiles/a\"}"));
}

#[test]
fn snapshot_round_trip_is_byte_identical() {
    let mut m = IdentityGrafting::new("/tmp/p".to_string(), None);
    m.create_default_profiles(10_000_000).unwrap();
    let text = encode_profiles(&m.profiles);
    assert!(text.starts_with("[{\"id\":\"windows_chrome_124\""));
    let pool = decode_profiles(text.as_str()).expect("canonical snapshot decodes");
    assert_eq!(pool.len(), 3);
    let text2 = encode_profiles(&pool);
    assert_eq!(text, text2);
}

#[test]
fn empty_snapshot_round_trips() {
    let empty: Vec<chimera::identity_grafting::SyntheticProfile> = Vec::new();
    let text = encode_profiles(&empty);
    assert_eq!(text, "[]");
    let pool = decode_profiles(text.as_str()).unwrap();
    assert_eq!(pool.len(), 0);
}

#[test]
fn sanitizer_keeps_only_plain_characters() {
    assert_eq!(sanitize_plain("search box"), "search box");
    assert_eq!(sanitize_plain("say \"hi\"\\now\n"), "say hinow");
    assert_eq!(sanitize_plain(""), "");
}

#[test]
fn malformed_texts_are_rejected() {
    assert!(decode_profile("").is_none());
    assert!(decode_profile("{\"id\":\"x\"}").is_none());
    assert!(decode_profile("not json at all").is_none());
    assert!(decode_profiles("[").is_none());
    // trailing garbage after a valid profile is rejected
    let p = IdentityGrafting::create_profile("a", "o", "b", (1, 1), 10_000_000);
    let mut text = encode_profile(&p);
    text.push_str("x");
    assert!(decode_profile(text.as_str()).is_none());
}
