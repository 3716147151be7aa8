use chimera::world_model::{
    ActionCandidate, ActionType, CurrentState, Outcome, PredictedState, RiskIndicator,
    SafetyClassifier, WorldModel,
};

fn state(hash: &str) -> CurrentState {
    CurrentState::from_observation(hash.to_string(), Some("https://x.test".to_string()), None)
}

fn click_at(x: i64, y: i64, element: Option<&str>) -> ActionCandidate {
    ActionCandidate {
        action_type: ActionType::Click,
        target_coordinates: (x, y),
        target_element: element.map(|s| s.to_string()),
        confidence_permille: 900,
    }
}

#[test]
fn learned_danger_dominates_prediction() {
    let mut w = WorldModel::new();
    w.learn("h1".to_string(), (5, 5), "h2".to_string(), Outcome::Honeypot);
    let p = w.predict(&state("h1"), &click_at(5, 5, None));
    assert_eq!(p.risk_permille, 900);
    assert_eq!(p.risk_indicators, vec![RiskIndicator::HoneypotDetected]);
    let c = w.predict(&state("h1"), &click_at(9, 9, None));
    assert_eq!(c.risk_permille, 900);
}

#[test]
fn learned_safety_lowers_risk_for_the_same_target() {
    let mut w = WorldModel::new();
    w.learn("h1".to_string(), (5, 5), "h2".to_string(), Outcome::Success);
    let p = w.predict(&state("h1"), &click_at(5, 5, None));
    // confidence starts at 0.8, so the residual risk is (1000-800)/10
    assert_eq!(p.risk_permille, 20);
    assert_eq!(p.visual_hash, "h2");
    assert!(p.risk_indicators.is_empty());
    // a different target falls back to the heuristics
    let q = w.predict(&state("h1"), &click_at(7, 7, None));
    assert_eq!(q.risk_permille, 0);
}

#[test]
fn heuristics_flag_suspicious_elements() {
    let w = WorldModel::new();
    let p = w.predict(&state("h"), &click_at(1, 1, Some("honeypot-button-3")));
    assert_eq!(p.risk_permille, 500);
    assert_eq!(p.risk_indicators, vec![RiskIndicator::HoneypotDetected]);
    let q = w.predict(&state("h"), &click_at(1, 1, Some("main-submit")));
    assert_eq!(q.risk_permille, 0);
    let scroll = ActionCandidate {
        action_type: ActionType::Scroll(0, 500),
        target_coordinates: (0, 0),
        target_element: None,
        confidence_permille: 1000,
    };
    assert_eq!(w.predict(&state("h"), &scroll).risk_permille, 100);
    let wait = ActionCandidate {
        action_type: ActionType::Wait,
        target_coordinates: (0, 0),
        target_element: None,
        confidence_permille: 1000,
    };
    assert_eq!(w.predict(&state("h"), &wait).risk_permille, 0);
}

#[test]
fn failure_only_joins_history() {
    let mut w = WorldModel::new();
    w.learn("h1".to_string(), (1, 1), "h1".to_string(), Outcome::Failure);
    assert_eq!(w.state_history.len(), 1);
    assert_eq!(w.safe_patterns.len(), 0);
    assert_eq!(w.dangerous_patterns.len(), 0);
}

#[test]
fn assessment_adds_penalties_and_caps() {
    let c = SafetyClassifier;
    let p = PredictedState {
        visual_hash: "h".to_string(),
        predicted_url: None,
        predicted_title: None,
        risk_indicators: vec![RiskIndicator::HoneypotDetected, RiskIndicator::PopupBlocking],
        risk_permille: 100,
    };
    assert_eq!(c.assess(&p), 100 + 300 + 100);
    assert!(c.is_safe(&p, 600));
    assert!(!c.is_safe(&p, 500));
    let hot = PredictedState {
        visual_hash: "h".to_string(),
        predicted_url: None,
        predicted_title: None,
        risk_indicators: vec![
            RiskIndicator::CaptchaAppeared,
            RiskIndicator::InfiniteLoop,
            RiskIndicator::ErrorPage,
        ],
        risk_permille: 900,
    };
    assert_eq!(c.assess(&hot), 1000);
}
