use chimera::browser::get_visual_hash;
use chimera::error::ChimeraError;
use chimera::ooda::{
    action_failed_message, action_success_message, click_verdict, low_confidence,
    objective_start, objective_step, run_click_attempts, ObjectiveConfig, ObjectiveEvent,
    ObjectivePhase, ObjectiveStatus, OodaVerdict,
};

#[test]
fn visual_hash_is_the_hex_sha256_of_the_bytes() {
    // the digest of the empty byte string is a fixed, well-known value;
    // this fails if the hash handed back were the input echoed
    let empty: Vec<u8> = Vec::new();
    assert_eq!(
        get_visual_hash(&empty),
        "e3b0c44298fc1c149afbf4c8996fb92427ae41e4649b934ca495991b7852b855"
    );
    let abc = vec![b'a', b'b', b'c'];
    assert_eq!(
        get_visual_hash(&abc),
        "ba7816bf8f01cfea414140de5dae2223b00361a396177a9cb410ff61f20015ad"
    );
}

#[test]
fn verdicts_follow_the_hash_comparison() {
    let h0 = "aaaa".to_string();
    let h1 = "bbbb".to_string();
    assert_eq!(click_verdict(&h0, &h1, 0, 3), OodaVerdict::Success);
    assert_eq!(click_verdict(&h0, &h0, 0, 3), OodaVerdict::Retry);
    assert_eq!(click_verdict(&h0, &h0, 2, 3), OodaVerdict::Failed);
}

#[test]
fn click_and_verify_succeeds_when_the_screen_changes() {
    // the screen changes on the first attempt; the reported message names
    // the collaborator's confidence
    let before = vec!["h0".to_string(), "h0".to_string(), "h0".to_string()];
    let after = vec!["h1".to_string(), "h0".to_string(), "h0".to_string()];
    let r = run_click_attempts(&before, &after, 3);
    assert_eq!(r.unwrap(), 0);
    let msg = action_success_message(900);
    assert!(msg.contains("confidence: 0.9"));
    assert_eq!(msg, "Action completed with confidence: 0.9");
    // the stub's coordinates are echoed in the new state
    assert_eq!(
        chimera::ooda::action_state_message(400, 300),
        "Action completed at (400, 300)"
    );
    assert!(!low_confidence(900));
    assert!(low_confidence(250));
}

#[test]
fn retry_exhaustion_names_the_retry_count() {
    // a static page: the hash never changes across three attempts
    let h = "static".to_string();
    let before = vec![h.clone(), h.clone(), h.clone()];
    let after = vec![h.clone(), h.clone(), h.clone()];
    match run_click_attempts(&before, &after, 3) {
        Err(ChimeraError::ActionFailed(m)) => {
            assert!(m.contains("3 retries"));
            assert_eq!(m, "Action failed after 3 retries - screen state did not change");
        },
        _ => panic!("expected the exhausted-retries error"),
    }
    assert_eq!(action_failed_message(3), "Action failed after 3 retries - screen state did not change");
}

#[test]
fn typing_retry_exhaustion() {
    let h = "static".to_string();
    let before = vec![h.clone(), h.clone(), h.clone()];
    let after = vec![h.clone(), h.clone(), h.clone()];
    match chimera::ooda::run_type_attempts(&before, &after, 3) {
        Err(ChimeraError::ActionFailed(m)) => assert_eq!(m, "Typing failed after 3 retries"),
        _ => panic!("expected the typing error"),
    }
    let changed = vec!["x".to_string()];
    let to = vec!["y".to_string()];
    assert_eq!(chimera::ooda::run_type_attempts(&changed, &to, 1).unwrap(), 0);
}

#[test]
fn success_on_a_later_attempt() {
    let before = vec!["a".to_string(), "a".to_string(), "a".to_string()];
    let after = vec!["a".to_string(), "a".to_string(), "b".to_string()];
    assert_eq!(run_click_attempts(&before, &after, 3).unwrap(), 2);
}

#[test]
fn vision_failure_aborts_without_retry() {
    // a successful resolution hands the values through; a failed one is an
    // immediate vision error, never retried
    assert_eq!(
        chimera::ooda::resolve_vision(true, 400_000, 300_000, 900, "").unwrap(),
        (400_000, 300_000, 900)
    );
    match chimera::ooda::resolve_vision(false, 0, 0, 0, "element not found") {
        Err(e) => assert_eq!(e.describe(), "Vision service error: element not found"),
        Ok(_) => panic!("expected the vision error"),
    }
}

#[test]
fn objective_stream_shape() {
    // the single-step objective emits observing, exactly one thinking,
    // exactly one acting, and ends with complete
    let c = ObjectiveConfig { single_step: true, max_iterations: 20 };
    let s0 = objective_start();
    let mut emitted: Vec<ObjectiveStatus> = Vec::new();
    let (s1, e1) = objective_step(s0, ObjectiveEvent::ScreenCaptured(true), c);
    emitted.extend(e1);
    let (s2, e2) = objective_step(s1, ObjectiveEvent::CoordinatesResolved(true), c);
    emitted.extend(e2);
    let (s3, e3) = objective_step(s2, ObjectiveEvent::Clicked(true), c);
    emitted.extend(e3);
    let (s4, e4) = objective_step(s3, ObjectiveEvent::Settled, c);
    emitted.extend(e4);
    assert_eq!(
        emitted,
        vec![
            ObjectiveStatus::Observing,
            ObjectiveStatus::Thinking,
            ObjectiveStatus::Acting,
            ObjectiveStatus::Complete
        ]
    );
    assert_eq!(s4.phase, ObjectivePhase::Done);
    assert_eq!(emitted.iter().filter(|s| **s == ObjectiveStatus::Thinking).count(), 1);
    assert_eq!(emitted.iter().filter(|s| **s == ObjectiveStatus::Acting).count(), 1);
}

#[test]
fn objective_stream_fails_cleanly_on_vision_error() {
    let c = ObjectiveConfig { single_step: true, max_iterations: 20 };
    let s0 = objective_start();
    let (s1, _) = objective_step(s0, ObjectiveEvent::ScreenCaptured(true), c);
    let (s2, e2) = objective_step(s1, ObjectiveEvent::CoordinatesResolved(false), c);
    assert_eq!(e2, Some(ObjectiveStatus::Error));
    assert_eq!(s2.phase, ObjectivePhase::Done);
}
