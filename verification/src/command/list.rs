//! `list`: list every key in an agent's soul.

use vstd::prelude::*;

use crate::config::opt_view;
use crate::context::{chosen_agent, Context};
use crate::error::{CommandError, Error};
use crate::model::{sorted_strs, strs_view};
use crate::output::Output;
use crate::store::Database;

verus! {

pub struct Args {
    /// Full id of the agent whose soul to list; the configured one when
    /// omitted.
    pub agent_full_id: Option<String>,
}

impl Args {
    /// The soul's keys in code-point order (`Keys`). A command-line listing
    /// is anonymous: it resolves no notification.
    pub fn run<D: Database>(self, ctx: &Context, db: &mut D) -> (r: Result<
        Output,
        CommandError<D::Error>,
    >)
        requires
            old(db).inv(),
        ensures
            final(db).inv(),
            chosen_agent(opt_view(self.agent_full_id), opt_view(ctx.config.objectiveai_agent_full_id)) is Some
                && old(db).serves() ==> r is Ok,
            final(db).model() == old(db).model(),
            match chosen_agent(opt_view(self.agent_full_id), opt_view(ctx.config.objectiveai_agent_full_id)) {
                None => r matches Err(CommandError::Command(Error::AgentFullIdRequired)),
                Some(a) => match r {
                    Ok(Output::Keys(ks)) => strs_view(ks@) == sorted_strs(old(db).model().keys(a)),
                    Ok(_) => false,
                    Err(e) => e is Db,
                },
            },
    {
        let agent = match ctx.agent_full_id(self.agent_full_id) {
            Ok(a) => a,
            Err(e) => return Err(CommandError::Command(e)),
        };
        match db.list_keys(None, agent.as_str()) {
            Ok(keys) => Ok(Output::Keys(keys)),
            Err(e) => Err(CommandError::Db(e)),
        }
    }
}

} // verus!
