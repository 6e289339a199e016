//! `get`: read the value of a single key from an agent's soul.

use vstd::prelude::*;

use crate::config::opt_view;
use crate::context::{chosen_agent, Context};
use crate::error::{CommandError, Error};
use crate::output::Output;
use crate::store::Database;

verus! {

pub struct Args {
    /// The soul key to read.
    pub key: String,
    /// Full id of the agent whose soul to read; the configured one when
    /// omitted.
    pub agent_full_id: Option<String>,
}

impl Args {
    /// The value of the key (`Text`), or `Null` when unset. A command-line
    /// read is anonymous: it resolves no notification.
    pub fn run<D: Database>(self, ctx: &Context, db: &mut D) -> (r: Result<
        Output,
        CommandError<D::Error>,
    >)
        requires
            old(db).inv(),
        ensures
            final(db).inv(),
            chosen_agent(opt_view(self.agent_full_id), opt_view(ctx.config.objectiveai_agent_full_id)) is Some
                && old(db).serves() ==> r is Ok,
            final(db).model() == old(db).model(),
            match chosen_agent(opt_view(self.agent_full_id), opt_view(ctx.config.objectiveai_agent_full_id)) {
                None => r matches Err(CommandError::Command(Error::AgentFullIdRequired)),
                Some(a) => match r {
                    Ok(Output::Null) => old(db).model().value(a, self.key@) is None,
                    Ok(Output::Text(v)) => old(db).model().value(a, self.key@) == Some(v@),
                    Ok(_) => false,
                    Err(e) => e is Db,
                },
            },
    {
        let agent = match ctx.agent_full_id(self.agent_full_id) {
            Ok(a) => a,
            Err(e) => return Err(CommandError::Command(e)),
        };
        match db.get_key(None, agent.as_str(), self.key.as_str()) {
            Ok(Some(v)) => Ok(Output::Text(v)),
            Ok(None) => Ok(Output::Null),
            Err(e) => Err(CommandError::Db(e)),
        }
    }
}

} // verus!
