//! Shared arguments and resolution of `subscribe` / `unsubscribe`.

use vstd::prelude::*;

use crate::config::opt_view;
use crate::context::Context;
use crate::model::{Scope, ScopeView};

verus! {

/// Exactly one of `key` (a single key) or `soul` (the whole key set), and
/// the full id of the target agent to watch.
pub struct SubscriptionArgs {
    /// Watch a single key's value changes / deletion.
    pub key: Option<String>,
    /// Watch the whole soul: its key set.
    pub soul: bool,
    /// Full id of the target agent whose soul to watch. May be the caller's
    /// own.
    pub agent_full_id: String,
}

/// A resolved subscription: who watches (`caller`, an instance hierarchy),
/// whom (`target`, an agent full id), and which part (`scope`).
pub struct Resolved {
    pub caller: String,
    pub target: String,
    pub scope: Scope,
}

/// The scope the arguments select: the key when given, otherwise the soul.
pub open spec fn selected_scope(key: Option<Seq<char>>) -> ScopeView {
    match key {
        Some(k) => ScopeView::Key(k),
        None => ScopeView::Soul,
    }
}

impl SubscriptionArgs {
    /// Resolves against the caller's instance hierarchy. Watching one's own
    /// full id is allowed.
    pub fn resolve(self, ctx: &Context) -> (r: Resolved)
        ensures
            r.caller@ == ctx.config.objectiveai_agent_instance_hierarchy@,
            r.target@ == self.agent_full_id@,
            r.scope@ == selected_scope(opt_view(self.key)),
    {
        let caller = ctx.caller().to_owned();
        let target = self.agent_full_id;
        let scope = match self.key {
            Some(key) => Scope::Key(key),
            None => Scope::Soul,
        };
        Resolved { caller, target, scope }
    }
}

} // verus!
