//! `notifications`: list a subscriber's pending soul-change notifications.
//! Read-only: it resolves nothing.

use vstd::prelude::*;

use crate::config::opt_view;
use crate::context::{owner_hierarchy, Context};
use crate::error::CommandError;
use crate::model::notifications_view;
use crate::output::Output;
use crate::store::Database;

verus! {

pub struct Args {
    /// Read notifications for `<configured hierarchy>/<agent_instance>` (or
    /// `<parent>/<agent_instance>`); the configured hierarchy when omitted.
    pub agent_instance: Option<String>,
    /// Explicit parent hierarchy for `agent_instance`.
    pub parent_agent_instance_hierarchy: Option<String>,
}

impl Args {
    /// The selected subscriber's pending notifications (`Notifications`).
    pub fn run<D: Database>(self, ctx: &Context, db: &mut D) -> (r: Result<
        Output,
        CommandError<D::Error>,
    >)
        requires
            old(db).inv(),
        ensures
            final(db).inv(),
            old(db).serves() ==> r is Ok,
            final(db).model() == old(db).model(),
            ({
                let sub = owner_hierarchy(
                    ctx.config.objectiveai_agent_instance_hierarchy@,
                    opt_view(self.agent_instance),
                    opt_view(self.parent_agent_instance_hierarchy),
                );
                match r {
                    Ok(Output::Notifications(ns)) => notifications_view(ns@) == old(db).model().pending(sub),
                    Ok(_) => false,
                    Err(e) => e is Db,
                }
            }),
    {
        let subscriber = ctx.agent_instance_hierarchy(
            self.agent_instance,
            self.parent_agent_instance_hierarchy,
        );
        match db.notifications(subscriber.as_str()) {
            Ok(ns) => Ok(Output::Notifications(ns)),
            Err(e) => Err(CommandError::Db(e)),
        }
    }
}

} // verus!
