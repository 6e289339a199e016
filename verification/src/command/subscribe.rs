//! `subscribe`: watch an agent's soul, a single `key` or the whole key set.

use vstd::prelude::*;

use crate::command::subscription::{selected_scope, SubscriptionArgs};
use crate::config::opt_view;
use crate::context::{owner_hierarchy, Context};
use crate::error::CommandError;
use crate::model::{Scope, ScopeView};
use crate::output::Output;
use crate::store::Database;

verus! {

pub struct Args {
    /// Which soul, and which part of it.
    pub subscription: SubscriptionArgs,
    /// The owner is `<configured hierarchy>/<agent_instance>` (or
    /// `<parent>/<agent_instance>`); the configured hierarchy when omitted.
    pub agent_instance: Option<String>,
    /// Explicit parent hierarchy for `agent_instance`.
    pub parent_agent_instance_hierarchy: Option<String>,
}

impl Args {
    /// Registers the watch; `Null`.
    pub fn run<D: Database>(self, ctx: &Context, db: &mut D) -> (r: Result<
        Output,
        CommandError<D::Error>,
    >)
        requires
            old(db).inv(),
        ensures
            final(db).inv(),
            old(db).serves() ==> r is Ok,
            ({
                let owner = owner_hierarchy(
                    ctx.config.objectiveai_agent_instance_hierarchy@,
                    opt_view(self.agent_instance),
                    opt_view(self.parent_agent_instance_hierarchy),
                );
                let target = self.subscription.agent_full_id@;
                match r {
                    Ok(Output::Null) => final(db).model() == match selected_scope(
                        opt_view(self.subscription.key),
                    ) {
                        ScopeView::Key(k) => old(db).model().subscribe_key(owner, target, k),
                        ScopeView::Soul => old(db).model().subscribe_soul(owner, target),
                    },
                    Ok(_) => false,
                    Err(e) => e is Db && final(db).model() == old(db).model(),
                }
            }),
    {
        let owner = ctx.agent_instance_hierarchy(
            self.agent_instance,
            self.parent_agent_instance_hierarchy,
        );
        let r = self.subscription.resolve(ctx);
        let done = match &r.scope {
            Scope::Key(key) => db.subscribe_key(owner.as_str(), r.target.as_str(), key.as_str()),
            Scope::Soul => db.subscribe_soul(owner.as_str(), r.target.as_str()),
        };
        match done {
            Ok(()) => Ok(Output::Null),
            Err(e) => Err(CommandError::Db(e)),
        }
    }
}

} // verus!
