use chimera::dbi::{apply_entropy, initialize_dbi, DbiConfig, DbiManager};

#[test]
fn test_dbi_config() {
    let config = DbiConfig::default();
    assert!(config.canvas_entropy);
    assert!(config.webgl_entropy);
    assert!(config.entropy_strength_permille > 0);
}

#[test]
fn test_hook_script_generation() {
    let manager = DbiManager::new(DbiConfig::default());
    let script = manager.get_canvas_hook_script();
    assert!(script.contains("getImageData"));
    assert!(script.contains("readPixels"));
}

#[test]
fn script_embeds_seed_and_strength() {
    let mut c = DbiConfig::default();
    c.session_seed = 424242;
    let manager = DbiManager::new(c);
    let script = manager.get_canvas_hook_script();
    assert!(script.contains("const SESSION_SEED = 424242;"));
    assert!(script.contains("const ENTROPY_STRENGTH = 0.010;"));
    assert_eq!(script, manager.get_webgl_hook_script());
}

#[test]
fn initialize_seeds_from_the_clock() {
    let m = initialize_dbi(None, 1_700_000_000);
    assert_eq!(m.config.session_seed, 1_700_000_000);
    assert_eq!(m.config.entropy_strength_permille, 10);
    let mut c = DbiConfig::default();
    c.entropy_strength_permille = 25;
    let m2 = initialize_dbi(Some(c), 55);
    assert_eq!(m2.config.entropy_strength_permille, 25);
    assert_eq!(m2.config.session_seed, 0);
}

#[test]
fn entropy_preserves_alpha_and_length() {
    // a 10 by 10 gray region
    let mut pixels = vec![128u8; 10 * 10 * 4];
    for i in 0..100 {
        pixels[i * 4 + 3] = 255;
    }
    let before = pixels.clone();
    apply_entropy(&mut pixels, 7, 200);
    assert_eq!(pixels.len(), before.len());
    for i in 0..100 {
        assert_eq!(pixels[i * 4 + 3], 255, "alpha changed at pixel {}", i);
    }
}

#[test]
fn two_sessions_read_different_bytes() {
    // identical content under two session seeds differs on at least 90%
    // of pixels in at least one color channel
    let base = vec![128u8; 10 * 10 * 4];
    let mut a = base.clone();
    let mut b = base.clone();
    apply_entropy(&mut a, 1111, 200);
    apply_entropy(&mut b, 9999, 200);
    let mut differing = 0;
    for i in 0..100 {
        let pa = &a[i * 4..i * 4 + 3];
        let pb = &b[i * 4..i * 4 + 3];
        if pa != pb {
            differing += 1;
        }
    }
    assert!(differing >= 90, "only {} of 100 pixels differ", differing);
}
