use chimera::browser::{bio_bios_script, launch_args, to_hex};
use chimera::error::ChimeraError;

#[test]
fn launch_args_bind_the_session_to_the_sidecar() {
    let args = launch_args(8080);
    assert_eq!(args.len(), 5);
    assert_eq!(args[0], "--disable-blink-features=AutomationControlled");
    assert_eq!(args[1], "--disable-dev-shm-usage");
    assert_eq!(args[2], "--no-sandbox");
    assert_eq!(args[3], "--disable-gpu");
    assert_eq!(args[4], "--proxy-server=http://127.0.0.1:8080");
    let other = launch_args(9999);
    assert_eq!(other[4], "--proxy-server=http://127.0.0.1:9999");
}

#[test]
fn sanitization_script_rewrites_the_hardware_getters() {
    let s = bio_bios_script();
    assert!(s.contains("hardwareConcurrency"));
    assert!(s.contains("deviceMemory"));
    assert!(s.contains("webdriver"));
    assert!(s.contains("37445"));
    assert!(s.contains("37446"));
    assert!(s.contains("Intel(R) Iris(R) Xe Graphics"));
}

#[test]
fn hex_rendering() {
    assert_eq!(to_hex(&vec![]), "");
    assert_eq!(to_hex(&vec![0x00, 0xff, 0x1a]), "00ff1a");
}

#[test]
fn errors_carry_their_prefixes() {
    let e = ChimeraError::SessionNotFound("s1".to_string());
    assert_eq!(e.describe(), "Session not found: s1");
    let v = ChimeraError::Vision("unreachable".to_string());
    assert_eq!(v.describe(), "Vision service error: unreachable");
    let a = ChimeraError::ActionFailed("screen did not change".to_string());
    assert_eq!(a.describe(), "Action failed: screen did not change");
}
