use chimera::identity_grafting::IdentityGrafting;

fn manager_with_defaults() -> IdentityGrafting {
    let mut m = IdentityGrafting::new("/tmp/profiles".to_string(), None);
    m.create_default_profiles(10_000_000).unwrap();
    m
}

#[test]
fn default_profiles_are_created() {
    let m = manager_with_defaults();
    assert_eq!(m.profiles.len(), 3);
    assert_eq!(m.profiles[0].id, "windows_chrome_124");
    assert_eq!(m.profiles[0].metadata.os, "Windows 11");
    assert_eq!(m.profiles[0].metadata.viewport, (1920, 1080));
    assert_eq!(m.profiles[0].cache_size_mb, 500);
    assert_eq!(m.profiles[0].cookie_count, 42);
    assert_eq!(m.profiles[0].visit_history.len(), 3);
    assert_eq!(m.profiles[0].visit_history[0].url, "https://www.youtube.com");
    assert_eq!(m.profiles[0].visit_history[0].visit_count, 45);
    assert_eq!(m.profiles[1].id, "mac_safari_17");
    assert_eq!(m.profiles[1].metadata.viewport, (2560, 1600));
    assert_eq!(m.profiles[2].id, "linux_firefox_120");
    assert_eq!(
        m.profiles[0].fingerprint.user_agent,
        "Mozilla/5.0 (Windows NT 10.0; Win64; x64) AppleWebKit/537.36 (KHTML, like Gecko) Chrome/124.0.0.0 Safari/537.36"
    );
    assert_eq!(m.profiles[2].fingerprint.platform, "Linux");
    assert_eq!(m.profiles[0].fingerprint.hardware_concurrency, 8);
    assert_eq!(m.profiles[0].profile_dir, "/tmp/chimera-profiles/windows_chrome_124");
}

#[test]
fn rotation_visits_every_profile_at_least_k_over_m_times() {
    // seven rotations over a pool of three: every id seen at least twice
    let mut m = manager_with_defaults();
    let mut counts = [0usize; 3];
    for _ in 0..7 {
        let p = m.get_profile(None).unwrap();
        let id = p.id.clone();
        if id == "windows_chrome_124" {
            counts[0] += 1;
        } else if id == "mac_safari_17" {
            counts[1] += 1;
        } else if id == "linux_firefox_120" {
            counts[2] += 1;
        }
    }
    assert!(counts[0] >= 2);
    assert!(counts[1] >= 2);
    assert!(counts[2] >= 2);
    assert_eq!(counts[0] + counts[1] + counts[2], 7);
}

#[test]
fn get_profile_by_id_and_missing() {
    let mut m = manager_with_defaults();
    let p = m.get_profile(Some("mac_safari_17")).unwrap();
    assert_eq!(p.metadata.browser, "Safari 17");
    assert!(m.get_profile(Some("nonexistent")).is_err());
}

#[test]
fn profile_dir_lookup() {
    let m = manager_with_defaults();
    let d = m.get_profile_dir("linux_firefox_120").unwrap();
    assert_eq!(d, "/tmp/chimera-profiles/linux_firefox_120");
    assert!(m.get_profile_dir("nope").is_err());
}

#[test]
fn update_profile_advances_usage() {
    let mut m = manager_with_defaults();
    m.update_profile("windows_chrome_124", 20_000_000).unwrap();
    let p = m.get_profile(Some("windows_chrome_124")).unwrap();
    assert_eq!(p.metadata.last_used, 20_000_000);
    assert_eq!(p.cache_size_mb, 501);
    assert_eq!(p.cookie_count, 43);
    // an unknown id is not an error and changes nothing
    let mut m2 = manager_with_defaults();
    m2.update_profile("missing", 1).unwrap();
    assert_eq!(m2.profiles.len(), 3);
}

#[test]
fn install_replaces_by_id() {
    let mut m = manager_with_defaults();
    let mut p = IdentityGrafting::create_profile(
        "windows_chrome_124",
        "Windows 11",
        "Chrome 124",
        (1280, 720),
        10_000_000,
    );
    p.cache_size_mb = 7;
    m.install_profile(p);
    assert_eq!(m.profiles.len(), 3);
    assert_eq!(m.get_profile(Some("windows_chrome_124")).unwrap().cache_size_mb, 7);
}
