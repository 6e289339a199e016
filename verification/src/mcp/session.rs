//! Per-session identity, taken from two required request headers.

use vstd::prelude::*;

use crate::text::{trim, trimmed};

verus! {

/// HTTP header carrying the caller's own agent full id.
pub const HEADER_AGENT_FULL_ID: &'static str = "X-OBJECTIVEAI-AGENT-FULL-ID";

/// HTTP header carrying the caller's agent instance hierarchy (the
/// subscription / notification owner).
pub const HEADER_AGENT_INSTANCE_HIERARCHY: &'static str = "X-OBJECTIVEAI-AGENT-INSTANCE-HIERARCHY";

/// The identities of a session.
pub struct SessionState {
    /// The caller's own agent full id: the soul owner/reader for the `get`
    /// / `set` / `delete` tools.
    pub agent_full_id: String,
    /// The caller's agent instance hierarchy: the owner of subscriptions
    /// and notifications.
    pub agent_instance_hierarchy: String,
}

/// Which identity header a connection lacked.
#[derive(Debug)]
pub enum MissingHeader {
    AgentFullId,
    AgentInstanceHierarchy,
}

impl MissingHeader {
    /// The rejection message.
    pub fn message(&self) -> (m: String)
        ensures
            m@ == match self {
                MissingHeader::AgentFullId => "missing or empty X-OBJECTIVEAI-AGENT-FULL-ID header"@,
                MissingHeader::AgentInstanceHierarchy =>
                    "missing or empty X-OBJECTIVEAI-AGENT-INSTANCE-HIERARCHY header"@,
            },
    {
        match self {
            MissingHeader::AgentFullId => String::from_str(
                "missing or empty X-OBJECTIVEAI-AGENT-FULL-ID header",
            ),
            MissingHeader::AgentInstanceHierarchy => String::from_str(
                "missing or empty X-OBJECTIVEAI-AGENT-INSTANCE-HIERARCHY header",
            ),
        }
    }
}

/// A header's trimmed value, or nothing if absent or blank.
pub open spec fn header_value(raw: Option<Seq<char>>) -> Option<Seq<char>> {
    match raw {
        Some(s) => if trimmed(s).len() > 0 {
            Some(trimmed(s))
        } else {
            None
        },
        None => None,
    }
}

pub open spec fn opt_str(o: Option<&str>) -> Option<Seq<char>> {
    match o {
        Some(s) => Some(s@),
        None => None,
    }
}

/// A header's trimmed value, or `None` if absent or blank.
pub fn header_text(raw: Option<&str>) -> (v: Option<String>)
    ensures
        match v {
            Some(s) => header_value(opt_str(raw)) == Some(s@),
            None => header_value(opt_str(raw)) is None,
        },
{
    match raw {
        Some(s) => {
            let t = trim(s);
            if t.unicode_len() > 0 {
                Some(t)
            } else {
                None
            }
        },
        None => None,
    }
}

/// The session identities from the raw values of the two identity headers
/// (`None` when a header is absent or not text). Both are required and
/// trimmed; a blank one counts as missing, the full id checked first.
pub fn session_state(
    agent_full_id: Option<&str>,
    agent_instance_hierarchy: Option<&str>,
) -> (r: Result<SessionState, MissingHeader>)
    ensures
        match (header_value(opt_str(agent_full_id)), header_value(opt_str(agent_instance_hierarchy))) {
            (Some(f), Some(h)) => r matches Ok(s) && s.agent_full_id@ == f
                && s.agent_instance_hierarchy@ == h,
            (None, _) => r matches Err(MissingHeader::AgentFullId),
            (Some(_), None) => r matches Err(MissingHeader::AgentInstanceHierarchy),
        },
{
    let full_id = match header_text(agent_full_id) {
        Some(f) => f,
        None => return Err(MissingHeader::AgentFullId),
    };
    let hierarchy = match header_text(agent_instance_hierarchy) {
        Some(h) => h,
        None => return Err(MissingHeader::AgentInstanceHierarchy),
    };
    Ok(SessionState { agent_full_id: full_id, agent_instance_hierarchy: hierarchy })
}

/// Why a request could not be tied to a session.
#[derive(Debug)]
pub enum SessionMiss {
    /// The request names no session.
    MissingId,
    /// The request names a session that is not registered.
    Unknown,
}

/// The session of a request, given the session id it names (if any) and
/// what the registry holds under that id (looked up only when one is
/// named): the registered session, or why there is none.
pub fn lookup_outcome<T>(id: Option<&str>, found: Option<T>) -> (r: Result<T, SessionMiss>)
    ensures
        id is None ==> r matches Err(SessionMiss::MissingId),
        id is Some ==> match found {
            Some(t) => r == Ok::<T, SessionMiss>(t),
            None => r matches Err(SessionMiss::Unknown),
        },
{
    match id {
        None => Err(SessionMiss::MissingId),
        Some(_) => match found {
            Some(t) => Ok(t),
            None => Err(SessionMiss::Unknown),
        },
    }
}

} // verus!
