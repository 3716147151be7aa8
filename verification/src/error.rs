//! Error kinds of the library, each mapped to a distinct transport status
//! at the process boundary.

use vstd::prelude::*;

verus! {

/// One error kind per failure class. Variants carry the underlying cause
/// as plain text so that the boundary can surface it.
#[derive(Debug)]
pub enum ChimeraError {
    /// Launch, navigation, screenshot, input dispatch, or debugger call failed.
    Browser(String),
    /// The vision collaborator was unreachable or found no element.
    Vision(String),
    /// A session id missed the session map.
    SessionNotFound(String),
    /// The action loop exhausted its retries without a visual change.
    ActionFailed(String),
    /// The sidecar listener failed.
    Proxy(String),
    /// A profile id missed the profile store.
    Profile(String),
    /// A persisted record could not be decoded.
    Codec(String),
}

impl ChimeraError {
    /// The variant's message prefix, as the boundary prints it.
    pub open spec fn spec_describe(&self) -> Seq<char> {
        match self {
            ChimeraError::Browser(m) => "Browser error: "@ + m@,
            ChimeraError::Vision(m) => "Vision service error: "@ + m@,
            ChimeraError::SessionNotFound(m) => "Session not found: "@ + m@,
            ChimeraError::ActionFailed(m) => "Action failed: "@ + m@,
            ChimeraError::Proxy(m) => "Proxy error: "@ + m@,
            ChimeraError::Profile(m) => "Profile error: "@ + m@,
            ChimeraError::Codec(m) => "Serialization error: "@ + m@,
        }
    }

    /// Render the error as the text the boundary reports.
    pub fn describe(&self) -> (r: String)
        ensures
            r@ == self.spec_describe(),
    {
        match self {
            ChimeraError::Browser(m) => prefixed("Browser error: ", m),
            ChimeraError::Vision(m) => prefixed("Vision service error: ", m),
            ChimeraError::SessionNotFound(m) => prefixed("Session not found: ", m),
            ChimeraError::ActionFailed(m) => prefixed("Action failed: ", m),
            ChimeraError::Proxy(m) => prefixed("Proxy error: ", m),
            ChimeraError::Profile(m) => prefixed("Profile error: ", m),
            ChimeraError::Codec(m) => prefixed("Serialization error: ", m),
        }
    }
}

/// Concatenate a static prefix with a message.
fn prefixed(p: &str, m: &String) -> (r: String)
    ensures
        r@ == p@ + m@,
{
    let mut s = String::new();
    s.append(p);
    s.append(m.as_str());
    s
}

} // verus!
