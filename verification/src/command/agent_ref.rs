//! Shared `--agent-full-id` selector of the soul commands.

use vstd::prelude::*;

use crate::config::{clone_opt, opt_view, Config};
use crate::context::{chosen_agent, resolve_agent_full_id};
use crate::error::Error;

verus! {

/// The agent whose soul a command acts on, selected by `--agent-full-id`.
pub struct AgentRef {
    /// Full id of the agent whose soul to act on; the configured
    /// `OBJECTIVEAI_AGENT_FULL_ID` when omitted.
    pub agent_full_id: Option<String>,
}

impl AgentRef {
    /// The agent full id: the explicit flag when given, otherwise the
    /// configured one; [`Error::AgentFullIdRequired`] when neither is set.
    pub fn resolve(&self, cfg: &Config) -> (r: Result<String, Error>)
        ensures
            match chosen_agent(opt_view(self.agent_full_id), opt_view(cfg.objectiveai_agent_full_id)) {
                Some(a) => r matches Ok(s) && s@ == a,
                None => r matches Err(Error::AgentFullIdRequired),
            },
    {
        resolve_agent_full_id(clone_opt(&self.agent_full_id), cfg)
    }
}

} // verus!
