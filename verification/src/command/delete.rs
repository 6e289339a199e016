//! `delete`: remove a key from an agent's soul.

use vstd::prelude::*;

use crate::config::opt_view;
use crate::context::{chosen_agent, Context};
use crate::error::{CommandError, Error};
use crate::output::Output;
use crate::store::Database;

verus! {

pub struct Args {
    /// The soul key to delete.
    pub key: String,
    /// Full id of the agent whose soul to delete from; the configured one
    /// when omitted.
    pub agent_full_id: Option<String>,
}

impl Args {
    /// Deletes the key; tells (`Bool`) whether it existed.
    pub fn run<D: Database>(self, ctx: &Context, db: &mut D) -> (r: Result<
        Output,
        CommandError<D::Error>,
    >)
        requires
            old(db).inv(),
        ensures
            final(db).inv(),
            chosen_agent(opt_view(self.agent_full_id), opt_view(ctx.config.objectiveai_agent_full_id)) is Some
                && old(db).serves() ==> r is Ok,
            match chosen_agent(opt_view(self.agent_full_id), opt_view(ctx.config.objectiveai_agent_full_id)) {
                None => r matches Err(CommandError::Command(Error::AgentFullIdRequired))
                    && final(db).model() == old(db).model(),
                Some(a) => match r {
                    Ok(Output::Bool(existed)) => existed == old(db).model().souls.contains_key(
                        seq![a, self.key@],
                    ) && final(db).model() == old(db).model().delete_key(a, self.key@),
                    Ok(_) => false,
                    Err(e) => e is Db && final(db).model() == old(db).model(),
                },
            },
    {
        let agent = match ctx.agent_full_id(self.agent_full_id) {
            Ok(a) => a,
            Err(e) => return Err(CommandError::Command(e)),
        };
        match db.delete_key(agent.as_str(), self.key.as_str()) {
            Ok(existed) => Ok(Output::Bool(existed)),
            Err(e) => Err(CommandError::Db(e)),
        }
    }
}

} // verus!
