//! The library's own failures.

use vstd::prelude::*;

verus! {

/// A failure of a command, before or apart from the soul store.
#[derive(Debug)]
pub enum Error {
    /// No agent full id was given and none is configured. Agents running
    /// inside objectiveai get `OBJECTIVEAI_AGENT_FULL_ID` from the
    /// environment; anything outside must pass `--agent-full-id`.
    AgentFullIdRequired,
    /// An agent tried to subscribe to (or unsubscribe from) its own soul.
    SelfSubscription,
    /// Anything without a more specific variant.
    Other(String),
}

impl Error {
    /// The human-readable message of the failure.
    pub fn message(&self) -> (m: String)
        ensures
            m@ == match self {
                Error::AgentFullIdRequired =>
                    "agent full ID is required for agents operating outside of objectiveai"@,
                Error::SelfSubscription => "an agent cannot subscribe to its own soul"@,
                Error::Other(s) => s@,
            },
    {
        match self {
            Error::AgentFullIdRequired => String::from_str(
                "agent full ID is required for agents operating outside of objectiveai",
            ),
            Error::SelfSubscription => String::from_str("an agent cannot subscribe to its own soul"),
            Error::Other(s) => s.clone(),
        }
    }
}

/// A failure of a command that runs against a soul store whose errors are
/// of type `E`.
#[derive(Debug)]
pub enum CommandError<E> {
    /// The command itself failed.
    Command(Error),
    /// The soul store failed.
    Db(E),
}

} // verus!
