//! `subscriptions`: list the subscriptions owned by an entity.

use vstd::prelude::*;

use crate::config::opt_view;
use crate::context::{owner_hierarchy, Context};
use crate::error::CommandError;
use crate::model::subscriptions_view;
use crate::output::Output;
use crate::store::Database;

verus! {

pub struct Args {
    /// List subscriptions owned by `<configured hierarchy>/<agent_instance>`
    /// (or `<parent>/<agent_instance>`); the configured hierarchy when
    /// omitted.
    pub agent_instance: Option<String>,
    /// Explicit parent hierarchy for `agent_instance`.
    pub parent_agent_instance_hierarchy: Option<String>,
}

impl Args {
    /// The selected entity's subscriptions (`Subscriptions`): key ones by
    /// (target, key), then soul ones by target.
    pub fn run<D: Database>(self, ctx: &Context, db: &mut D) -> (r: Result<
        Output,
        CommandError<D::Error>,
    >)
        requires
            old(db).inv(),
        ensures
            final(db).inv(),
            old(db).serves() ==> r is Ok,
            final(db).model() == old(db).model(),
            ({
                let entity = owner_hierarchy(
                    ctx.config.objectiveai_agent_instance_hierarchy@,
                    opt_view(self.agent_instance),
                    opt_view(self.parent_agent_instance_hierarchy),
                );
                match r {
                    Ok(Output::Subscriptions(subs)) => subscriptions_view(subs@) == old(
                        db,
                    ).model().subscriptions(entity),
                    Ok(_) => false,
                    Err(e) => e is Db,
                }
            }),
    {
        let entity = ctx.agent_instance_hierarchy(
            self.agent_instance,
            self.parent_agent_instance_hierarchy,
        );
        match db.subscriptions(entity.as_str()) {
            Ok(subs) => Ok(Output::Subscriptions(subs)),
            Err(e) => Err(CommandError::Db(e)),
        }
    }
}

} // verus!
