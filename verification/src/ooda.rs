//! The closed action loop: observe a visual hash, act, re-hash, and retry
//! until the screen actually changed; and the streaming objective loop's
//! status machine.
//!
//! Screenshots, clicks and sleeps happen outside the library; it receives
//! the observed hashes and events and decides, exactly, what follows.

use vstd::prelude::*;

verus! {

use crate::error::ChimeraError;
use crate::text::{str_eq, u64_to_string, spec_dec_u64, spec_digit_char};
use crate::dbi::{spec_frac3};

/// The verdict after one attempt of an action.
#[derive(Debug, PartialEq, Eq, Structural)]
pub enum OodaVerdict {
    /// The screen changed: the action took effect.
    Success,
    /// The screen did not change and attempts remain: pause and retry.
    Retry,
    /// The screen did not change and the attempt budget is spent.
    Failed,
}

/// Decide one attempt: success iff the visual hash changed; else retry
/// while attempts remain, and fail on the last one.
pub fn click_verdict(hash_before: &String, hash_after: &String, attempt: u32, max_retries: u32) -> (r:
    OodaVerdict)
    requires
        attempt < max_retries,
    ensures
        r is Success <==> hash_before@ != hash_after@,
        r is Failed <==> (hash_before@ == hash_after@ && attempt + 1 == max_retries),
        r is Retry <==> (hash_before@ == hash_after@ && attempt + 1 < max_retries),
{
    if !str_eq(hash_before.as_str(), hash_after.as_str()) {
        OodaVerdict::Success
    } else if attempt + 1 == max_retries {
        OodaVerdict::Failed
    } else {
        OodaVerdict::Retry
    }
}

/// The message of an exhausted retry budget.
pub open spec fn spec_action_failed_message(max_retries: nat) -> Seq<char> {
    "Action failed after "@ + spec_dec_u64(max_retries)
        + " retries - screen state did not change"@
}

/// Render the exhausted-retries message.
pub fn action_failed_message(max_retries: u32) -> (r: String)
    ensures
        r@ == spec_action_failed_message(max_retries as nat),
{
    let mut s = String::from_str("Action failed after ");
    let n = u64_to_string(max_retries as u64);
    s.append(n.as_str());
    s.append(" retries - screen state did not change");
    proof {
        assert(s@ =~= spec_action_failed_message(max_retries as nat));
    }
    s
}

/// A confidence in thousandths rendered as its decimal fraction.
pub open spec fn spec_confidence_text(p: nat) -> Seq<char> {
    if p == 1000 {
        "1"@
    } else if p % 100 == 0 {
        seq!['0', '.', spec_digit_char(p / 100)]
    } else if p % 10 == 0 {
        seq!['0', '.', spec_digit_char(p / 100), spec_digit_char(p / 10 % 10)]
    } else {
        spec_frac3(p)
    }
}

/// Render a confidence in thousandths as a decimal fraction, trailing
/// zeros trimmed, as the collaborating service's floating value prints.
pub fn confidence_text(p: u32) -> (r: String)
    requires
        p <= 1000,
    ensures
        r@ == spec_confidence_text(p as nat),
{
    proof {
        reveal_strlit("1");
        reveal_strlit("0");
        reveal_strlit(".");
    }
    if p == 1000 {
        String::from_str("1")
    } else if p % 100 == 0 {
        let mut s = String::from_str("0");
        s.append(".");
        s.append(crate::text::digit_str((p as u64) / 100));
        proof {
            assert(s@ =~= spec_confidence_text(p as nat));
        }
        s
    } else if p % 10 == 0 {
        let mut s = String::from_str("0");
        s.append(".");
        s.append(crate::text::digit_str((p as u64) / 100));
        s.append(crate::text::digit_str((p as u64) / 10 % 10));
        proof {
            assert(s@ =~= spec_confidence_text(p as nat));
        }
        s
    } else {
        let mut s = String::from_str("0");
        s.append(".");
        s.append(crate::text::digit_str((p as u64) / 100 % 10));
        s.append(crate::text::digit_str((p as u64) / 10 % 10));
        s.append(crate::text::digit_str((p as u64) % 10));
        proof {
            assert((p as u64) / 100 % 10 == (p as u64) / 100);
            assert(s@ =~= spec_confidence_text(p as nat));
        }
        s
    }
}

/// The message of a completed action, naming the confidence.
pub open spec fn spec_action_success_message(confidence_permille: nat) -> Seq<char> {
    "Action completed with confidence: "@ + spec_confidence_text(confidence_permille)
}

/// Render the completed-action message.
pub fn action_success_message(confidence_permille: u32) -> (r: String)
    requires
        confidence_permille <= 1000,
    ensures
        r@ == spec_action_success_message(confidence_permille as nat),
{
    let mut s = String::from_str("Action completed with confidence: ");
    let c = confidence_text(confidence_permille);
    s.append(c.as_str());
    proof {
        assert(s@ =~= spec_action_success_message(confidence_permille as nat));
    }
    s
}

/// The state description of a completed action, naming the target.
pub open spec fn spec_action_state_message(x: int, y: int) -> Seq<char> {
    "Action completed at ("@ + crate::text::spec_dec_i64(x) + ", "@ + crate::text::spec_dec_i64(y)
        + ")"@
}

/// Render the completed-action state, naming the target coordinates.
pub fn action_state_message(x: i64, y: i64) -> (r: String)
    ensures
        r@ == spec_action_state_message(x as int, y as int),
{
    let mut s = String::from_str("Action completed at (");
    let xs = crate::text::i64_to_string(x);
    s.append(xs.as_str());
    s.append(", ");
    let ys = crate::text::i64_to_string(y);
    s.append(ys.as_str());
    s.append(")");
    proof {
        assert(s@ =~= spec_action_state_message(x as int, y as int));
    }
    s
}

/// A confidence below 0.3 is low: logged as a warning, but the action
/// proceeds.
pub fn low_confidence(confidence_permille: u32) -> (r: bool)
    ensures
        r == (confidence_permille < 300),
{
    confidence_permille < 300
}

/// The action loop's vision rule: a failed resolution aborts the attempt
/// at once with a vision error and is never retried; only an unchanged
/// screen after an executed action is retried. A successful resolution
/// hands the coordinates and the confidence through unchanged.
pub fn resolve_vision(found: bool, x: i64, y: i64, confidence_permille: u32, detail: &str) -> (r:
    Result<(i64, i64, u32), ChimeraError>)
    ensures
        found ==> (r matches Ok(c) && c.0 == x && c.1 == y && c.2 == confidence_permille),
        !found ==> (r matches Err(e) && (e matches ChimeraError::Vision(m) && m@ == detail@)),
{
    if found {
        Ok((x, y, confidence_permille))
    } else {
        Err(ChimeraError::Vision(String::from_str(detail)))
    }
}

/// Run the verification rule over the observed hash pairs of a whole
/// action: succeed on the first attempt whose hash changed, and fail with
/// the exhausted-retries message when none did.
pub fn run_click_attempts(
    hashes_before: &Vec<String>,
    hashes_after: &Vec<String>,
    max_retries: u32,
) -> (r: Result<u32, ChimeraError>)
    requires
        hashes_before@.len() == max_retries,
        hashes_after@.len() == max_retries,
    ensures
        match r {
            Ok(a) => a < max_retries && hashes_before@[a as int]@ != hashes_after@[a as int]@
                && forall|t: int|
                0 <= t < a ==> (#[trigger] hashes_before@[t])@ == hashes_after@[t]@,
            Err(e) => (forall|t: int|
                0 <= t < max_retries ==> (#[trigger] hashes_before@[t])@ == hashes_after@[t]@) && (
            e matches ChimeraError::ActionFailed(m) && m@ == spec_action_failed_message(
                max_retries as nat,
            )),
        },
{
    let mut attempt: u32 = 0;
    while attempt < max_retries
        invariant
            hashes_before@.len() == max_retries,
            hashes_after@.len() == max_retries,
            attempt <= max_retries,
            forall|t: int|
                0 <= t < attempt ==> (#[trigger] hashes_before@[t])@ == hashes_after@[t]@,
        decreases max_retries - attempt,
    {
        let verdict = click_verdict(
            &hashes_before[attempt as usize],
            &hashes_after[attempt as usize],
            attempt,
            max_retries,
        );
        match verdict {
            OodaVerdict::Success => {
                return Ok(attempt);
            },
            OodaVerdict::Failed => {
                return Err(ChimeraError::ActionFailed(action_failed_message(max_retries)));
            },
            OodaVerdict::Retry => {},
        }
        attempt += 1;
    }
    Err(ChimeraError::ActionFailed(action_failed_message(max_retries)))
}

/// The message of an exhausted typing-retry budget.
pub open spec fn spec_typing_failed_message(max_retries: nat) -> Seq<char> {
    "Typing failed after "@ + spec_dec_u64(max_retries) + " retries"@
}

/// Render the exhausted typing-retries message.
pub fn typing_failed_message(max_retries: u32) -> (r: String)
    ensures
        r@ == spec_typing_failed_message(max_retries as nat),
{
    let mut s = String::from_str("Typing failed after ");
    let n = u64_to_string(max_retries as u64);
    s.append(n.as_str());
    s.append(" retries");
    proof {
        assert(s@ =~= spec_typing_failed_message(max_retries as nat));
    }
    s
}

/// The typed-input variant of the verification rule: after the click on
/// the field and the keystrokes, the screen must have changed; succeed on
/// the first attempt whose hash changed, and fail with the typing message
/// when none did.
pub fn run_type_attempts(
    hashes_before: &Vec<String>,
    hashes_after: &Vec<String>,
    max_retries: u32,
) -> (r: Result<u32, ChimeraError>)
    requires
        hashes_before@.len() == max_retries,
        hashes_after@.len() == max_retries,
    ensures
        match r {
            Ok(a) => a < max_retries && hashes_before@[a as int]@ != hashes_after@[a as int]@
                && forall|t: int|
                0 <= t < a ==> (#[trigger] hashes_before@[t])@ == hashes_after@[t]@,
            Err(e) => (forall|t: int|
                0 <= t < max_retries ==> (#[trigger] hashes_before@[t])@ == hashes_after@[t]@) && (
            e matches ChimeraError::ActionFailed(m) && m@ == spec_typing_failed_message(
                max_retries as nat,
            )),
        },
{
    let mut attempt: u32 = 0;
    while attempt < max_retries
        invariant
            hashes_before@.len() == max_retries,
            hashes_after@.len() == max_retries,
            attempt <= max_retries,
            forall|t: int|
                0 <= t < attempt ==> (#[trigger] hashes_before@[t])@ == hashes_after@[t]@,
        decreases max_retries - attempt,
    {
        let verdict = click_verdict(
            &hashes_before[attempt as usize],
            &hashes_after[attempt as usize],
            attempt,
            max_retries,
        );
        match verdict {
            OodaVerdict::Success => {
                return Ok(attempt);
            },
            OodaVerdict::Failed => {
                return Err(ChimeraError::ActionFailed(typing_failed_message(max_retries)));
            },
            OodaVerdict::Retry => {},
        }
        attempt += 1;
    }
    Err(ChimeraError::ActionFailed(typing_failed_message(max_retries)))
}

// ---------------------------------------------------------------------------
// The streaming objective loop
// ---------------------------------------------------------------------------

/// The statuses an objective stream emits.
#[derive(Clone, Copy, Debug, PartialEq, Eq, Structural)]
pub enum ObjectiveStatus {
    /// A screenshot of the current state was taken.
    Observing,
    /// Coordinates for the instruction were resolved.
    Thinking,
    /// The action was executed.
    Acting,
    /// The objective ended.
    Complete,
    /// The objective failed.
    Error,
}

/// The phases of the objective loop.
#[derive(Clone, Copy, Debug, PartialEq, Eq, Structural)]
pub enum ObjectivePhase {
    /// Waiting to observe.
    Start,
    /// Observed; waiting for coordinates.
    Observed,
    /// Coordinates in hand; waiting for the click.
    Resolved,
    /// Clicked; waiting for the page to settle.
    Acted,
    /// Terminal.
    Done,
}

/// The events the runner feeds back into the machine.
#[derive(Clone, Copy, Debug, PartialEq, Eq, Structural)]
pub enum ObjectiveEvent {
    /// A screenshot was captured (or failed).
    ScreenCaptured(bool),
    /// The vision collaborator answered (or failed).
    CoordinatesResolved(bool),
    /// The click was dispatched (or failed).
    Clicked(bool),
    /// The settle pause elapsed.
    Settled,
}

/// The loop's configuration: the current behavior completes after the
/// first iteration; the flag stands so that a future version can enable
/// true multi-step objectives once a termination oracle exists.
#[derive(Clone, Copy, Debug, PartialEq, Eq, Structural)]
pub struct ObjectiveConfig {
    /// Stop after one observe-think-act round.
    pub single_step: bool,
    /// Iteration bound when multi-step running is enabled.
    pub max_iterations: u32,
}

/// The loop's state: its phase and how many rounds have completed.
#[derive(Clone, Copy, Debug, PartialEq, Eq, Structural)]
pub struct ObjectiveState {
    /// Current phase.
    pub phase: ObjectivePhase,
    /// Completed rounds.
    pub iteration: u32,
}

/// One transition of the objective machine.
pub open spec fn spec_objective_step(
    s: ObjectiveState,
    e: ObjectiveEvent,
    c: ObjectiveConfig,
) -> (ObjectiveState, Option<ObjectiveStatus>) {
    match (s.phase, e) {
        (ObjectivePhase::Start, ObjectiveEvent::ScreenCaptured(true)) => (
            ObjectiveState { phase: ObjectivePhase::Observed, iteration: s.iteration },
            Some(ObjectiveStatus::Observing),
        ),
        (ObjectivePhase::Observed, ObjectiveEvent::CoordinatesResolved(true)) => (
            ObjectiveState { phase: ObjectivePhase::Resolved, iteration: s.iteration },
            Some(ObjectiveStatus::Thinking),
        ),
        (ObjectivePhase::Resolved, ObjectiveEvent::Clicked(true)) => (
            ObjectiveState { phase: ObjectivePhase::Acted, iteration: s.iteration },
            Some(ObjectiveStatus::Acting),
        ),
        (ObjectivePhase::Acted, ObjectiveEvent::Settled) => {
            if c.single_step || s.iteration + 1 >= c.max_iterations {
                (
                    ObjectiveState { phase: ObjectivePhase::Done, iteration: s.iteration },
                    Some(ObjectiveStatus::Complete),
                )
            } else {
                (
                    ObjectiveState {
                        phase: ObjectivePhase::Start,
                        iteration: (s.iteration + 1) as u32,
                    },
                    None,
                )
            }
        },
        _ => (
            ObjectiveState { phase: ObjectivePhase::Done, iteration: s.iteration },
            Some(ObjectiveStatus::Error),
        ),
    }
}

/// Step the objective machine.
pub fn objective_step(s: ObjectiveState, e: ObjectiveEvent, c: ObjectiveConfig) -> (r: (
    ObjectiveState,
    Option<ObjectiveStatus>,
))
    requires
        s.iteration < u32::MAX,
    ensures
        r == spec_objective_step(s, e, c),
{
    match (s.phase, e) {
        (ObjectivePhase::Start, ObjectiveEvent::ScreenCaptured(true)) => (
            ObjectiveState { phase: ObjectivePhase::Observed, iteration: s.iteration },
            Some(ObjectiveStatus::Observing),
        ),
        (ObjectivePhase::Observed, ObjectiveEvent::CoordinatesResolved(true)) => (
            ObjectiveState { phase: ObjectivePhase::Resolved, iteration: s.iteration },
            Some(ObjectiveStatus::Thinking),
        ),
        (ObjectivePhase::Resolved, ObjectiveEvent::Clicked(true)) => (
            ObjectiveState { phase: ObjectivePhase::Acted, iteration: s.iteration },
            Some(ObjectiveStatus::Acting),
        ),
        (ObjectivePhase::Acted, ObjectiveEvent::Settled) => {
            if c.single_step || s.iteration + 1 >= c.max_iterations {
                (
                    ObjectiveState { phase: ObjectivePhase::Done, iteration: s.iteration },
                    Some(ObjectiveStatus::Complete),
                )
            } else {
                (
                    ObjectiveState { phase: ObjectivePhase::Start, iteration: s.iteration + 1 },
                    None,
                )
            }
        },
        _ => (
            ObjectiveState { phase: ObjectivePhase::Done, iteration: s.iteration },
            Some(ObjectiveStatus::Error),
        ),
    }
}

/// The fresh state of an objective.
pub fn objective_start() -> (s: ObjectiveState)
    ensures
        s.phase is Start,
        s.iteration == 0,
{
    ObjectiveState { phase: ObjectivePhase::Start, iteration: 0 }
}

/// The single-step objective's happy path emits exactly the sequence
/// observing, thinking, acting, complete, and ends terminal: one round of
/// the loop, then a clean close.
pub proof fn lemma_objective_single_step_trace(c: ObjectiveConfig)
    requires
        c.single_step,
    ensures
        ({
            let s0 = ObjectiveState { phase: ObjectivePhase::Start, iteration: 0 };
            let (s1, e1) = spec_objective_step(s0, ObjectiveEvent::ScreenCaptured(true), c);
            let (s2, e2) = spec_objective_step(s1, ObjectiveEvent::CoordinatesResolved(true), c);
            let (s3, e3) = spec_objective_step(s2, ObjectiveEvent::Clicked(true), c);
            let (s4, e4) = spec_objective_step(s3, ObjectiveEvent::Settled, c);
            &&& e1 == Some(ObjectiveStatus::Observing)
            &&& e2 == Some(ObjectiveStatus::Thinking)
            &&& e3 == Some(ObjectiveStatus::Acting)
            &&& e4 == Some(ObjectiveStatus::Complete)
            &&& s4.phase is Done
        }),
{
}

} // verus!
