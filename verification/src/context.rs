//! Per-process context threaded through every command handler: the
//! configuration and the identities derived from it.

use vstd::prelude::*;

use crate::config::{clone_opt, opt_view, Config};
use crate::error::Error;

verus! {

/// The command context.
pub struct Context {
    /// The env-derived runtime configuration.
    pub config: Config,
}

/// `<parent>/<instance>`.
pub open spec fn child_hierarchy(parent: Seq<char>, instance: Seq<char>) -> Seq<char> {
    parent + seq!['/'] + instance
}

/// The subscription owner selected by an optional instance: the configured
/// hierarchy, `<configured>/<instance>`, or `<parent>/<instance>`.
pub open spec fn owner_hierarchy(
    configured: Seq<char>,
    instance: Option<Seq<char>>,
    parent: Option<Seq<char>>,
) -> Seq<char> {
    match (instance, parent) {
        (None, _) => configured,
        (Some(i), None) => child_hierarchy(configured, i),
        (Some(i), Some(p)) => child_hierarchy(p, i),
    }
}

/// The explicit agent full id if given, otherwise the configured one.
pub open spec fn chosen_agent(arg: Option<Seq<char>>, configured: Option<Seq<char>>) -> Option<Seq<char>> {
    match arg {
        Some(a) => Some(a),
        None => configured,
    }
}

/// `parent/instance` as text.
pub fn join_hierarchy(parent: &str, instance: &str) -> (h: String)
    ensures
        h@ == child_hierarchy(parent@, instance@),
{
    let mut h = parent.to_owned();
    h.append("/");
    h.append(instance);
    proof {
        reveal_strlit("/");
        assert(h@ =~= child_hierarchy(parent@, instance@));
    }
    h
}

/// The agent full id a soul command acts on: the explicit one if given,
/// otherwise the configured `OBJECTIVEAI_AGENT_FULL_ID`; an error when
/// neither is set.
pub fn resolve_agent_full_id(arg: Option<String>, cfg: &Config) -> (r: Result<String, Error>)
    ensures
        match chosen_agent(opt_view(arg), opt_view(cfg.objectiveai_agent_full_id)) {
            Some(a) => r matches Ok(s) && s@ == a,
            None => r matches Err(Error::AgentFullIdRequired),
        },
{
    match arg {
        Some(a) => Ok(a),
        None => match clone_opt(&cfg.objectiveai_agent_full_id) {
            Some(a) => Ok(a),
            None => Err(Error::AgentFullIdRequired),
        },
    }
}

impl Context {
    /// A context over the given configuration.
    pub fn new(config: Config) -> (c: Self)
        ensures
            c.config == config,
    {
        Context { config }
    }

    /// The subscription owner: this agent's instance hierarchy.
    pub fn caller(&self) -> (c: &str)
        ensures
            c@ == self.config.objectiveai_agent_instance_hierarchy@,
    {
        self.config.objectiveai_agent_instance_hierarchy.as_str()
    }

    /// The target agent full id of a soul command: the explicit one if
    /// given, otherwise the configured one; an error when neither is set.
    pub fn agent_full_id(&self, arg: Option<String>) -> (r: Result<String, Error>)
        ensures
            match chosen_agent(opt_view(arg), opt_view(self.config.objectiveai_agent_full_id)) {
                Some(a) => r matches Ok(s) && s@ == a,
                None => r matches Err(Error::AgentFullIdRequired),
            },
    {
        resolve_agent_full_id(arg, &self.config)
    }

    /// The subscription owner selected by an optional instance:
    /// - no instance: the configured hierarchy;
    /// - an instance only: `<configured hierarchy>/<instance>`;
    /// - a parent and an instance: `<parent>/<instance>`.
    pub fn agent_instance_hierarchy(
        &self,
        agent_instance: Option<String>,
        parent_agent_instance_hierarchy: Option<String>,
    ) -> (h: String)
        ensures
            h@ == owner_hierarchy(
                self.config.objectiveai_agent_instance_hierarchy@,
                opt_view(agent_instance),
                opt_view(parent_agent_instance_hierarchy),
            ),
    {
        match agent_instance {
            None => self.caller().to_owned(),
            Some(instance) => match parent_agent_instance_hierarchy {
                None => join_hierarchy(self.caller(), instance.as_str()),
                Some(parent) => join_hierarchy(parent.as_str(), instance.as_str()),
            },
        }
    }
}

} // verus!
