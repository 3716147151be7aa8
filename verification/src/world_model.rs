//! Predictive action verification: before acting, consult what is known of
//! the current state's hash, classify the risk of the candidate action,
//! and learn from the observed outcome afterwards.
//!
//! This is the optional extension around the core loop; it keeps two maps
//! from visual hashes to known-safe and known-dangerous patterns, updated
//! only at the end of an action with an observed outcome.

use vstd::prelude::*;

verus! {

use crate::text::{str_eq, str_contains, seq_contains};

/// A candidate action proposed for the current state.
pub struct ActionCandidate {
    /// What kind of action.
    pub action_type: ActionType,
    /// Target coordinates in milli-pixels.
    pub target_coordinates: (i64, i64),
    /// Target node id in the accessibility tree, when known.
    pub target_element: Option<String>,
    /// The proposer's confidence, in thousandths.
    pub confidence_permille: u32,
}

/// The kinds of actions the executor can take.
pub enum ActionType {
    /// A pointer click.
    Click,
    /// Typing text.
    Type(String),
    /// Scrolling by a delta.
    Scroll(i32, i32),
    /// Waiting.
    Wait,
}

/// Risk signals a predicted state can carry.
#[derive(Clone, Copy, Debug, PartialEq, Eq, Structural)]
pub enum RiskIndicator {
    /// The target looks like a trap element.
    HoneypotDetected,
    /// The action may summon a challenge.
    CaptchaAppeared,
    /// The action may land on an error page.
    ErrorPage,
    /// The action may redirect unexpectedly.
    UnexpectedRedirect,
    /// The action may be blocked by a popup.
    PopupBlocking,
    /// The action may loop without progress.
    InfiniteLoop,
}

/// The predicted state after an action.
pub struct PredictedState {
    /// Predicted visual hash.
    pub visual_hash: String,
    /// Predicted URL.
    pub predicted_url: Option<String>,
    /// Predicted title.
    pub predicted_title: Option<String>,
    /// Risk signals.
    pub risk_indicators: Vec<RiskIndicator>,
    /// Overall risk in thousandths: zero is safe, a thousand is certain
    /// danger.
    pub risk_permille: u32,
}

/// A remembered safe transition.
pub struct SafePattern {
    /// The state's visual hash.
    pub state_hash: String,
    /// Coordinates the safe action targeted.
    pub target_coordinates: (i64, i64),
    /// The hash observed after it.
    pub expected_outcome: String,
    /// Confidence in thousandths.
    pub confidence_permille: u32,
}

/// A remembered dangerous state.
pub struct DangerousPattern {
    /// The state's visual hash.
    pub state_hash: String,
    /// What kind of risk was observed.
    pub risk_type: RiskIndicator,
    /// Where the knowledge came from.
    pub description: String,
}

/// One observed transition.
pub struct StateTransition {
    /// Hash before the action.
    pub from_state: String,
    /// Coordinates the action targeted.
    pub target_coordinates: (i64, i64),
    /// Hash after the action.
    pub to_state: String,
    /// What happened.
    pub outcome: Outcome,
}

/// The observed outcome of an action.
#[derive(Clone, Copy, Debug, PartialEq, Eq, Structural)]
pub enum Outcome {
    /// The action did what was wanted.
    Success,
    /// The action failed.
    Failure,
    /// The action sprang a trap element.
    Honeypot,
    /// The action summoned a challenge.
    Captcha,
}

/// The current state of the browser, as observed.
pub struct CurrentState {
    /// Visual hash of the screen.
    pub visual_hash: String,
    /// Current URL, when known.
    pub url: Option<String>,
    /// Current title, when known.
    pub title: Option<String>,
}

impl CurrentState {
    /// Assemble the state from one observation.
    pub fn from_observation(visual_hash: String, url: Option<String>, title: Option<String>) -> (r:
        Self)
        ensures
            r.visual_hash == visual_hash,
            r.url == url,
            r.title == title,
    {
        CurrentState { visual_hash, url, title }
    }
}

/// An element id that suggests a trap: it names itself invisible, hidden,
/// or a honeypot.
pub open spec fn spec_suspicious_element(id: Seq<char>) -> bool {
    seq_contains(id, "invisible"@) || seq_contains(id, "hidden"@) || seq_contains(id, "honeypot"@)
}

/// Whether an element id suggests a trap.
pub fn is_suspicious_element(id: &str) -> (r: bool)
    ensures
        r == spec_suspicious_element(id@),
{
    str_contains(id, "invisible") || str_contains(id, "hidden") || str_contains(id, "honeypot")
}

/// First position of a safe pattern for a hash.
pub open spec fn spec_find_safe(ps: Seq<SafePattern>, hash: Seq<char>) -> Option<int>
    decreases ps.len(),
{
    if ps.len() == 0 {
        None
    } else if ps[0].state_hash@ == hash {
        Some(0int)
    } else {
        match spec_find_safe(ps.drop_first(), hash) {
            Some(j) => Some(j + 1),
            None => None,
        }
    }
}

/// First position of a dangerous pattern for a hash.
pub open spec fn spec_find_dangerous(ps: Seq<DangerousPattern>, hash: Seq<char>) -> Option<int>
    decreases ps.len(),
{
    if ps.len() == 0 {
        None
    } else if ps[0].state_hash@ == hash {
        Some(0int)
    } else {
        match spec_find_dangerous(ps.drop_first(), hash) {
            Some(j) => Some(j + 1),
            None => None,
        }
    }
}

/// A prediction that carries the observed context through unchanged.
pub open spec fn carried_context(r: &PredictedState, cs: &CurrentState) -> bool {
    &&& (match cs.url {
        Some(u) => r.predicted_url matches Some(v) && v@ == u@,
        None => r.predicted_url is None,
    })
    &&& (match cs.title {
        Some(u) => r.predicted_title matches Some(v) && v@ == u@,
        None => r.predicted_title is None,
    })
}

/// The heuristic prediction for a state nothing is remembered of: a click
/// on a suspicious element signals a honeypot at half risk, scrolling
/// carries a small residual risk, typing and waiting are safe; the hash
/// and context are carried through.
pub open spec fn spec_simulated(r: &PredictedState, cs: &CurrentState, a: &ActionCandidate) -> bool {
    &&& r.visual_hash@ == cs.visual_hash@
    &&& carried_context(r, cs)
    &&& (match a.action_type {
        ActionType::Click => match a.target_element {
            Some(id) => if spec_suspicious_element(id@) {
                r.risk_permille == 500 && r.risk_indicators@.len() == 1 && r.risk_indicators@[0]
                    == RiskIndicator::HoneypotDetected
            } else {
                r.risk_permille == 0 && r.risk_indicators@.len() == 0
            },
            None => r.risk_permille == 0 && r.risk_indicators@.len() == 0,
        },
        ActionType::Type(_) => r.risk_permille == 0 && r.risk_indicators@.len() == 0,
        ActionType::Scroll(_, _) => r.risk_permille == 100 && r.risk_indicators@.len() == 0,
        ActionType::Wait => r.risk_permille == 0 && r.risk_indicators@.len() == 0,
    })
}

/// A safe pattern as `learn` installs it.
pub open spec fn installed_safe(
    p: &SafePattern,
    from: Seq<char>,
    coords: (i64, i64),
    to: Seq<char>,
) -> bool {
    &&& p.state_hash@ == from
    &&& p.target_coordinates == coords
    &&& p.expected_outcome@ == to
    &&& p.confidence_permille == 800
}

/// A dangerous pattern as `learn` installs it.
pub open spec fn installed_dangerous(p: &DangerousPattern, from: Seq<char>, risk: RiskIndicator) -> bool {
    p.state_hash@ == from && p.risk_type == risk
}

/// The world model: remembered transitions and the two pattern maps.
pub struct WorldModel {
    /// Observed transitions, for learning.
    pub state_history: Vec<StateTransition>,
    /// Known safe patterns, one per state hash.
    pub safe_patterns: Vec<SafePattern>,
    /// Known dangerous patterns, one per state hash.
    pub dangerous_patterns: Vec<DangerousPattern>,
}

impl WorldModel {
    /// An empty model.
    pub fn new() -> (r: Self)
        ensures
            r.state_history@.len() == 0,
            r.safe_patterns@.len() == 0,
            r.dangerous_patterns@.len() == 0,
    {
        WorldModel { state_history: Vec::new(), safe_patterns: Vec::new(), dangerous_patterns: Vec::new() }
    }

    /// Find the position of a safe pattern by hash.
    fn find_safe(&self, hash: &str) -> (r: Option<usize>)
        ensures
            match r {
                Some(j) => spec_find_safe(self.safe_patterns@, hash@) == Some(j as int) && j
                    < self.safe_patterns@.len() && self.safe_patterns@[j as int].state_hash@
                    == hash@,
                None => spec_find_safe(self.safe_patterns@, hash@) is None,
            },
    {
        let n = self.safe_patterns.len();
        let mut j: usize = 0;
        while j < n
            invariant
                n == self.safe_patterns@.len(),
                j <= n,
                forall|t: int|
                    0 <= t < j ==> (#[trigger] self.safe_patterns@[t]).state_hash@ != hash@,
            decreases n - j,
        {
            if str_eq(self.safe_patterns[j].state_hash.as_str(), hash) {
                proof {
                    lemma_find_safe_at(self.safe_patterns@, hash@, j as int);
                }
                return Some(j);
            }
            j += 1;
        }
        proof {
            lemma_find_safe_none(self.safe_patterns@, hash@);
        }
        None
    }

    /// Find the position of a dangerous pattern by hash.
    fn find_dangerous(&self, hash: &str) -> (r: Option<usize>)
        ensures
            match r {
                Some(j) => spec_find_dangerous(self.dangerous_patterns@, hash@) == Some(
                    j as int,
                ) && j < self.dangerous_patterns@.len()
                    && self.dangerous_patterns@[j as int].state_hash@ == hash@,
                None => spec_find_dangerous(self.dangerous_patterns@, hash@) is None,
            },
    {
        let n = self.dangerous_patterns.len();
        let mut j: usize = 0;
        while j < n
            invariant
                n == self.dangerous_patterns@.len(),
                j <= n,
                forall|t: int|
                    0 <= t < j ==> (#[trigger] self.dangerous_patterns@[t]).state_hash@ != hash@,
            decreases n - j,
        {
            if str_eq(self.dangerous_patterns[j].state_hash.as_str(), hash) {
                proof {
                    lemma_find_dangerous_at(self.dangerous_patterns@, hash@, j as int);
                }
                return Some(j);
            }
            j += 1;
        }
        proof {
            lemma_find_dangerous_none(self.dangerous_patterns@, hash@);
        }
        None
    }

    /// Predict the outcome of an action: a remembered dangerous state is
    /// high risk; a remembered safe pattern with the same target is low
    /// risk, scaled by its confidence; otherwise heuristics over the
    /// action kind decide.
    pub fn predict(&self, current_state: &CurrentState, action: &ActionCandidate) -> (r:
        PredictedState)
        ensures
            r.risk_permille <= 1000,
            ({
                let hash = current_state.visual_hash@;
                match spec_find_dangerous(self.dangerous_patterns@, hash) {
                    Some(j) => {
                        &&& r.risk_permille == 900
                        &&& r.risk_indicators@.len() == 1
                        &&& r.risk_indicators@[0] == self.dangerous_patterns@[j].risk_type
                        &&& r.visual_hash@ == hash
                        &&& carried_context(&r, current_state)
                    },
                    None => match spec_find_safe(self.safe_patterns@, hash) {
                        Some(j) => {
                            let sp = self.safe_patterns@[j];
                            if sp.target_coordinates == action.target_coordinates {
                                &&& r.visual_hash@ == sp.expected_outcome@
                                &&& r.risk_indicators@.len() == 0
                                &&& r.risk_permille == (1000 - (if sp.confidence_permille > 1000 {
                                    1000int
                                } else {
                                    sp.confidence_permille as int
                                })) / 10
                                &&& carried_context(&r, current_state)
                            } else {
                                spec_simulated(&r, current_state, action)
                            }
                        },
                        None => spec_simulated(&r, current_state, action),
                    },
                }
            }),
    {
        match self.find_dangerous(current_state.visual_hash.as_str()) {
            Some(j) => {
                let mut indicators: Vec<RiskIndicator> = Vec::new();
                indicators.push(self.dangerous_patterns[j].risk_type);
                PredictedState {
                    visual_hash: current_state.visual_hash.clone(),
                    predicted_url: clone_opt(&current_state.url),
                    predicted_title: clone_opt(&current_state.title),
                    risk_indicators: indicators,
                    risk_permille: 900,
                }
            },
            None => {
                proof {
                    lemma_find_dangerous_none_converse(
                        self.dangerous_patterns@,
                        current_state.visual_hash@,
                    );
                }
                match self.find_safe(current_state.visual_hash.as_str()) {
                    Some(j) => {
                        let sp = &self.safe_patterns[j];
                        if sp.target_coordinates.0 == action.target_coordinates.0
                            && sp.target_coordinates.1 == action.target_coordinates.1 {
                            let conf = if sp.confidence_permille > 1000 {
                                1000
                            } else {
                                sp.confidence_permille
                            };
                            return PredictedState {
                                visual_hash: sp.expected_outcome.clone(),
                                predicted_url: clone_opt(&current_state.url),
                                predicted_title: clone_opt(&current_state.title),
                                risk_indicators: Vec::new(),
                                risk_permille: (1000 - conf) / 10,
                            };
                        }
                        self.simulate_action(current_state, action)
                    },
                    None => self.simulate_action(current_state, action),
                }
            },
        }
    }

    /// Heuristic prediction when nothing is remembered of the state: a
    /// click on a suspicious element signals a honeypot; scrolling carries
    /// a small residual risk; typing and waiting are safe.
    fn simulate_action(&self, current_state: &CurrentState, action: &ActionCandidate) -> (r:
        PredictedState)
        ensures
            r.risk_permille <= 1000,
            spec_simulated(&r, current_state, action),
    {
        let mut indicators: Vec<RiskIndicator> = Vec::new();
        let mut risk: u32 = 0;
        match &action.action_type {
            ActionType::Click => {
                match &action.target_element {
                    Some(id) => {
                        if is_suspicious_element(id.as_str()) {
                            indicators.push(RiskIndicator::HoneypotDetected);
                            risk = 500;
                        }
                    },
                    None => {},
                }
            },
            ActionType::Type(_) => {},
            ActionType::Scroll(_, _) => {
                risk = 100;
            },
            ActionType::Wait => {},
        }
        PredictedState {
            visual_hash: current_state.visual_hash.clone(),
            predicted_url: clone_opt(&current_state.url),
            predicted_title: clone_opt(&current_state.title),
            risk_indicators: indicators,
            risk_permille: risk,
        }
    }

    /// Learn from an observed transition: a success becomes a safe
    /// pattern for its source hash; a honeypot or a challenge becomes a
    /// dangerous pattern; failures only join the history.
    pub fn learn(
        &mut self,
        from_state: String,
        target_coordinates: (i64, i64),
        to_state: String,
        outcome: Outcome,
    )
        ensures
            final(self).state_history@.len() == old(self).state_history@.len() + 1,
            forall|t: int|
                0 <= t < old(self).state_history@.len() ==> final(self).state_history@[t] == old(self).state_history@[t],
            final(self).state_history@.last().from_state@ == from_state@,
            final(self).state_history@.last().target_coordinates == target_coordinates,
            final(self).state_history@.last().to_state@ == to_state@,
            final(self).state_history@.last().outcome == outcome,
            outcome is Failure ==> final(self).safe_patterns == old(self).safe_patterns
                && final(self).dangerous_patterns == old(self).dangerous_patterns,
            outcome is Success ==> final(self).dangerous_patterns == old(self).dangerous_patterns
                && (match spec_find_safe(old(self).safe_patterns@, from_state@) {
                Some(j) => {
                    &&& final(self).safe_patterns@.len() == old(self).safe_patterns@.len()
                    &&& (forall|t: int|
                        0 <= t < old(self).safe_patterns@.len() && t != j ==> final(self).safe_patterns@[t] == old(self).safe_patterns@[t])
                    &&& installed_safe(
                        &final(self).safe_patterns@[j],
                        from_state@,
                        target_coordinates,
                        to_state@,
                    )
                },
                None => {
                    &&& final(self).safe_patterns@.len() == old(self).safe_patterns@.len() + 1
                    &&& (forall|t: int|
                        0 <= t < old(self).safe_patterns@.len() ==> final(self).safe_patterns@[t]
                            == old(self).safe_patterns@[t])
                    &&& installed_safe(
                        &final(self).safe_patterns@.last(),
                        from_state@,
                        target_coordinates,
                        to_state@,
                    )
                },
            }),
            (outcome is Honeypot || outcome is Captcha) ==> final(self).safe_patterns == old(self).safe_patterns && ({
                let risk = if outcome is Honeypot {
                    RiskIndicator::HoneypotDetected
                } else {
                    RiskIndicator::CaptchaAppeared
                };
                match spec_find_dangerous(old(self).dangerous_patterns@, from_state@) {
                    Some(j) => {
                        &&& final(self).dangerous_patterns@.len() == old(self).dangerous_patterns@.len()
                        &&& (forall|t: int|
                            0 <= t < old(self).dangerous_patterns@.len() && t != j ==> final(self).dangerous_patterns@[t] == old(self).dangerous_patterns@[t])
                        &&& installed_dangerous(
                            &final(self).dangerous_patterns@[j],
                            from_state@,
                            risk,
                        )
                    },
                    None => {
                        &&& final(self).dangerous_patterns@.len() == old(self).dangerous_patterns@.len() + 1
                        &&& (forall|t: int|
                            0 <= t < old(self).dangerous_patterns@.len() ==> final(self).dangerous_patterns@[t] == old(self).dangerous_patterns@[t])
                        &&& installed_dangerous(
                            &final(self).dangerous_patterns@.last(),
                            from_state@,
                            risk,
                        )
                    },
                }
            }),
    {
        let transition = StateTransition {
            from_state: from_state.clone(),
            target_coordinates,
            to_state: to_state.clone(),
            outcome,
        };
        self.state_history.push(transition);
        match outcome {
            Outcome::Success => {
                let pattern = SafePattern {
                    state_hash: from_state,
                    target_coordinates,
                    expected_outcome: to_state,
                    confidence_permille: 800,
                };
                let found = self.find_safe(pattern.state_hash.as_str());
                match found {
                    Some(j) => {
                        self.safe_patterns.set(j, pattern);
                    },
                    None => {
                        self.safe_patterns.push(pattern);
                    },
                }
            },
            Outcome::Honeypot | Outcome::Captcha => {
                let pattern = DangerousPattern {
                    state_hash: from_state,
                    risk_type: if matches!(outcome, Outcome::Honeypot) {
                        RiskIndicator::HoneypotDetected
                    } else {
                        RiskIndicator::CaptchaAppeared
                    },
                    description: String::from_str("learned from an observed outcome"),
                };
                let found = self.find_dangerous(pattern.state_hash.as_str());
                match found {
                    Some(j) => {
                        self.dangerous_patterns.set(j, pattern);
                    },
                    None => {
                        self.dangerous_patterns.push(pattern);
                    },
                }
            },
            Outcome::Failure => {},
        }
    }
}

/// Clone an optional string.
fn clone_opt(s: &Option<String>) -> (r: Option<String>)
    ensures
        match s {
            Some(v) => r matches Some(w) && w@ == v@,
            None => r is None,
        },
{
    match s {
        Some(v) => Some(v.clone()),
        None => None,
    }
}

/// The first position carrying the hash is what the search returns.
proof fn lemma_find_safe_at(ps: Seq<SafePattern>, hash: Seq<char>, j: int)
    requires
        0 <= j < ps.len(),
        ps[j].state_hash@ == hash,
        forall|t: int| 0 <= t < j ==> (#[trigger] ps[t]).state_hash@ != hash,
    ensures
        spec_find_safe(ps, hash) == Some(j),
    decreases j,
{
    if j == 0 {
    } else {
        assert(ps[0].state_hash@ != hash);
        assert(ps.drop_first()[j - 1] == ps[j]);
        assert(forall|t: int| 0 <= t < j - 1 ==> #[trigger] ps.drop_first()[t] == ps[t + 1]);
        lemma_find_safe_at(ps.drop_first(), hash, j - 1);
    }
}

/// The first position carrying the hash is what the search returns.
proof fn lemma_find_dangerous_at(ps: Seq<DangerousPattern>, hash: Seq<char>, j: int)
    requires
        0 <= j < ps.len(),
        ps[j].state_hash@ == hash,
        forall|t: int| 0 <= t < j ==> (#[trigger] ps[t]).state_hash@ != hash,
    ensures
        spec_find_dangerous(ps, hash) == Some(j),
    decreases j,
{
    if j == 0 {
    } else {
        assert(ps[0].state_hash@ != hash);
        assert(ps.drop_first()[j - 1] == ps[j]);
        assert(forall|t: int| 0 <= t < j - 1 ==> #[trigger] ps.drop_first()[t] == ps[t + 1]);
        lemma_find_dangerous_at(ps.drop_first(), hash, j - 1);
    }
}

/// No safe pattern carries the hash when none is found.
proof fn lemma_find_safe_none(ps: Seq<SafePattern>, hash: Seq<char>)
    requires
        forall|t: int| 0 <= t < ps.len() ==> (#[trigger] ps[t]).state_hash@ != hash,
    ensures
        spec_find_safe(ps, hash) is None,
    decreases ps.len(),
{
    if ps.len() > 0 {
        assert(forall|t: int|
            0 <= t < ps.drop_first().len() ==> #[trigger] ps.drop_first()[t] == ps[t + 1]);
        lemma_find_safe_none(ps.drop_first(), hash);
    }
}

/// No dangerous pattern carries the hash when none is found.
proof fn lemma_find_dangerous_none(ps: Seq<DangerousPattern>, hash: Seq<char>)
    requires
        forall|t: int| 0 <= t < ps.len() ==> (#[trigger] ps[t]).state_hash@ != hash,
    ensures
        spec_find_dangerous(ps, hash) is None,
    decreases ps.len(),
{
    if ps.len() > 0 {
        assert(forall|t: int|
            0 <= t < ps.drop_first().len() ==> #[trigger] ps.drop_first()[t] == ps[t + 1]);
        lemma_find_dangerous_none(ps.drop_first(), hash);
    }
}

/// A hash that a pattern carries is found.
proof fn lemma_find_dangerous_none_converse(ps: Seq<DangerousPattern>, hash: Seq<char>)
    requires
        spec_find_dangerous(ps, hash) is None,
    ensures
        forall|t: int| 0 <= t < ps.len() ==> (#[trigger] ps[t]).state_hash@ != hash,
    decreases ps.len(),
{
    if ps.len() > 0 {
        lemma_find_dangerous_none_converse(ps.drop_first(), hash);
        assert forall|t: int| 0 <= t < ps.len() implies (#[trigger] ps[t]).state_hash@ != hash by {
            if t > 0 {
                assert(ps.drop_first()[t - 1] == ps[t]);
            }
        }
    }
}

/// The risk penalty of one indicator, in thousandths.
pub open spec fn spec_indicator_penalty(i: RiskIndicator) -> nat {
    match i {
        RiskIndicator::HoneypotDetected => 300,
        RiskIndicator::CaptchaAppeared => 400,
        RiskIndicator::ErrorPage => 200,
        RiskIndicator::UnexpectedRedirect => 200,
        RiskIndicator::PopupBlocking => 100,
        RiskIndicator::InfiniteLoop => 500,
    }
}

/// The summed penalties of a prefix of indicators.
pub open spec fn spec_penalties(s: Seq<RiskIndicator>) -> nat
    decreases s.len(),
{
    if s.len() == 0 {
        0
    } else {
        spec_penalties(s.drop_last()) + spec_indicator_penalty(s.last())
    }
}

/// The assessed risk of a predicted state: its own risk plus the penalty
/// of each indicator, capped at certainty.
pub open spec fn spec_assess(p: &PredictedState) -> nat {
    let total = p.risk_permille + spec_penalties(p.risk_indicators@);
    if total > 1000 {
        1000
    } else {
        total as nat
    }
}

/// Risk classifier over predicted states.
pub struct SafetyClassifier;

impl SafetyClassifier {
    /// Assess a predicted state's risk in thousandths.
    pub fn assess(&self, predicted: &PredictedState) -> (r: u32)
        requires
            predicted.risk_permille <= 1000,
            predicted.risk_indicators@.len() <= 1000,
        ensures
            r == spec_assess(predicted),
    {
        let n = predicted.risk_indicators.len();
        let mut total: u32 = predicted.risk_permille;
        let mut k: usize = 0;
        while k < n
            invariant
                n == predicted.risk_indicators@.len(),
                n <= 1000,
                k <= n,
                total == predicted.risk_permille + spec_penalties(
                    predicted.risk_indicators@.take(k as int),
                ),
                total <= 1000 + 500 * k,
            decreases n - k,
        {
            let penalty: u32 = match predicted.risk_indicators[k] {
                RiskIndicator::HoneypotDetected => 300,
                RiskIndicator::CaptchaAppeared => 400,
                RiskIndicator::ErrorPage => 200,
                RiskIndicator::UnexpectedRedirect => 200,
                RiskIndicator::PopupBlocking => 100,
                RiskIndicator::InfiniteLoop => 500,
            };
            proof {
                assert(predicted.risk_indicators@.take(k + 1).drop_last()
                    =~= predicted.risk_indicators@.take(k as int));
                assert(predicted.risk_indicators@.take(k + 1).last()
                    == predicted.risk_indicators@[k as int]);
            }
            total = total + penalty;
            k += 1;
        }
        proof {
            assert(predicted.risk_indicators@.take(n as int) =~= predicted.risk_indicators@);
        }
        if total > 1000 {
            1000
        } else {
            total
        }
    }

    /// Whether the assessed risk stays below a threshold.
    pub fn is_safe(&self, predicted: &PredictedState, threshold_permille: u32) -> (r: bool)
        requires
            predicted.risk_permille <= 1000,
            predicted.risk_indicators@.len() <= 1000,
        ensures
            r == (spec_assess(predicted) < threshold_permille),
    {
        self.assess(predicted) < threshold_permille
    }
}

} // verus!
