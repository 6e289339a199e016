//! mundus-animarum: the soul store of ObjectiveAI agents, with key and soul
//! subscriptions and a coalesced notification queue.

pub mod text;
pub mod table;
pub mod model;
pub mod store;
pub mod config;
pub mod error;
pub mod context;
pub mod output;
pub mod command;
pub mod mcp;
pub mod laws;
