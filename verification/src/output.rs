//! The result a command hands back to its caller, who renders it as JSON.

use vstd::prelude::*;

use crate::model::{Notification, Subscription};

verus! {

/// A command's result.
///
/// Rendered as JSON: `Null` as `null`, `Bool` as a boolean, `Text` as a
/// string, `Keys` as an array of strings; each notification or subscription
/// as `{"target": .., "key": ..}` for a key scope and
/// `{"target": .., "soul": true}` for a soul scope; `Page` as
/// `{"notifications": [..], "remaining": n}`.
#[derive(Debug)]
pub enum Output {
    Null,
    Bool(bool),
    Text(String),
    Keys(Vec<String>),
    Subscriptions(Vec<Subscription>),
    Notifications(Vec<Notification>),
    Page { notifications: Vec<Notification>, remaining: usize },
}

} // verus!
