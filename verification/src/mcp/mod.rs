//! The soul store as MCP tools. Identity is per session: the soul owner is
//! the session's agent full id, the subscription owner its agent instance
//! hierarchy, both taken from request headers.

pub mod session;
pub mod tools;
