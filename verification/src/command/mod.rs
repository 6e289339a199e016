//! The command-line surface: one module per subcommand, each with its
//! arguments and its handler.

pub mod agent_ref;
pub mod delete;
pub mod get;
pub mod list;
pub mod notifications;
pub mod set;
pub mod subscribe;
pub mod subscription;
pub mod subscriptions;
pub mod unsubscribe;

use vstd::prelude::*;

verus! {

/// Why the command line could not be turned into a command.
#[derive(Debug)]
pub enum ParseFailure {
    /// `--help` was asked for.
    DisplayHelp,
    /// `--version` was asked for.
    DisplayVersion,
    /// No subcommand was given, so the help is shown.
    DisplayHelpOnMissingArgumentOrSubcommand,
    /// Anything else: a real usage error.
    Other,
}

/// `--help`, `--version` and a missing subcommand are informational, not
/// failures.
pub fn is_informational(failure: &ParseFailure) -> (r: bool)
    ensures
        r == !(failure is Other),
{
    match failure {
        ParseFailure::Other => false,
        _ => true,
    }
}

} // verus!
