//! The soul tools: `get` / `list` / `set` / `delete`, `subscribe_key` /
//! `subscribe_soul`, `unsubscribe_key` / `unsubscribe_soul`, and
//! `notifications`.
//!
//! The soul owner (for `set` / `delete`) is the session's agent full id; the
//! subscription owner (for the subscription tools, and the reader whose
//! notifications `get` / `list` resolve) is the session's instance
//! hierarchy. The soul `get` / `list` read is the caller's own unless the
//! request names another.

use vstd::prelude::*;

use crate::mcp::session::SessionState;
use crate::model::{notifications_view, opt_string_view, sorted_strs, strs_view};
use crate::output::Output;
use crate::store::Database;

verus! {

pub struct GetRequest {
    /// The soul key to read.
    pub key: String,
    /// Full id of the agent whose soul to read; your own when omitted.
    pub agent_full_id: Option<String>,
}

pub struct ListRequest {
    /// Full id of the agent whose soul keys to list; your own when omitted.
    pub agent_full_id: Option<String>,
}

pub struct SetRequest {
    /// The soul key to write.
    pub key: String,
    /// The value to store.
    pub value: String,
}

pub struct DeleteRequest {
    /// The soul key to delete.
    pub key: String,
}

pub struct SubscribeKeyRequest {
    /// Full id of the target agent whose soul to watch.
    pub agent_full_id: String,
    /// The soul key to watch for value changes / deletion.
    pub key: String,
}

pub struct SubscribeSoulRequest {
    /// Full id of the target agent whose soul (key set) to watch.
    pub agent_full_id: String,
}

pub struct UnsubscribeKeyRequest {
    /// Full id of the target agent to stop watching.
    pub agent_full_id: String,
    /// The soul key to stop watching.
    pub key: String,
}

pub struct UnsubscribeSoulRequest {
    /// Full id of the target agent whose soul (key set) to stop watching.
    pub agent_full_id: String,
}

pub struct NotificationsRequest {
    /// Maximum number of notifications to return (at most 10; 10 when
    /// omitted).
    pub count: Option<u32>,
}

/// The soul a read acts on: the one named, or the caller's own.
pub open spec fn read_target(named: Option<String>, own: Seq<char>) -> Seq<char> {
    match opt_string_view(named) {
        Some(a) => a,
        None => own,
    }
}

/// How many notifications one read claims at most.
pub open spec fn notification_limit(count: Option<u32>) -> nat {
    match count {
        Some(c) => if c < 10 {
            c as nat
        } else {
            10
        },
        None => 10,
    }
}

/// The per-read claim limit: `count`, at most 10, 10 when omitted.
pub fn claim_limit(count: Option<u32>) -> (l: u32)
    ensures
        l == notification_limit(count),
{
    let c = match count {
        Some(c) => c,
        None => 10,
    };
    if c < 10 {
        c
    } else {
        10
    }
}

/// `get`: the value (`Text`) or `Null`; resolves the caller's notification
/// on the key read.
pub fn get<D: Database>(state: &SessionState, req: GetRequest, db: &mut D) -> (r: Result<Output, D::Error>)
    requires
        old(db).inv(),
    ensures
        final(db).inv(),
        old(db).serves() ==> r is Ok,
        ({
            let target = read_target(req.agent_full_id, state.agent_full_id@);
            match r {
                Ok(out) => final(db).model() == old(db).model().read_key(
                    Some(state.agent_instance_hierarchy@),
                    target,
                    req.key@,
                ) && match out {
                    Output::Null => old(db).model().value(target, req.key@) is None,
                    Output::Text(v) => old(db).model().value(target, req.key@) == Some(v@),
                    _ => false,
                },
                Err(_) => final(db).model() == old(db).model(),
            }
        }),
{
    let reader = state.agent_instance_hierarchy.as_str();
    let target = match &req.agent_full_id {
        Some(a) => a.as_str(),
        None => state.agent_full_id.as_str(),
    };
    match db.get_key(Some(reader), target, req.key.as_str()) {
        Ok(Some(v)) => Ok(Output::Text(v)),
        Ok(None) => Ok(Output::Null),
        Err(e) => Err(e),
    }
}

/// `list`: the soul's keys in order (`Keys`); resolves the caller's
/// notification on the soul listed.
pub fn list<D: Database>(state: &SessionState, req: ListRequest, db: &mut D) -> (r: Result<Output, D::Error>)
    requires
        old(db).inv(),
    ensures
        final(db).inv(),
        old(db).serves() ==> r is Ok,
        ({
            let target = read_target(req.agent_full_id, state.agent_full_id@);
            match r {
                Ok(out) => final(db).model() == old(db).model().read_keys(
                    Some(state.agent_instance_hierarchy@),
                    target,
                ) && match out {
                    Output::Keys(ks) => strs_view(ks@) == sorted_strs(old(db).model().keys(target)),
                    _ => false,
                },
                Err(_) => final(db).model() == old(db).model(),
            }
        }),
{
    let reader = state.agent_instance_hierarchy.as_str();
    let target = match &req.agent_full_id {
        Some(a) => a.as_str(),
        None => state.agent_full_id.as_str(),
    };
    match db.list_keys(Some(reader), target) {
        Ok(keys) => Ok(Output::Keys(keys)),
        Err(e) => Err(e),
    }
}

/// `set`: writes the caller's own soul and echoes the value (`Text`).
pub fn set<D: Database>(state: &SessionState, req: SetRequest, db: &mut D) -> (r: Result<Output, D::Error>)
    requires
        old(db).inv(),
    ensures
        final(db).inv(),
        old(db).serves() ==> r is Ok,
        match r {
            Ok(out) => {
                &&& final(db).model() == old(db).model().set_key(
                    state.agent_full_id@,
                    req.key@,
                    req.value@,
                )
                &&& out matches Output::Text(v) && v@ == req.value@
            },
            Err(_) => final(db).model() == old(db).model(),
        },
{
    match db.set_key(state.agent_full_id.as_str(), req.key.as_str(), req.value.as_str()) {
        Ok(()) => Ok(Output::Text(req.value)),
        Err(e) => Err(e),
    }
}

/// `delete`: deletes a key of the caller's own soul; tells (`Bool`) whether
/// it existed.
pub fn delete<D: Database>(state: &SessionState, req: DeleteRequest, db: &mut D) -> (r: Result<Output, D::Error>)
    requires
        old(db).inv(),
    ensures
        final(db).inv(),
        old(db).serves() ==> r is Ok,
        match r {
            Ok(out) => {
                &&& final(db).model() == old(db).model().delete_key(state.agent_full_id@, req.key@)
                &&& out matches Output::Bool(b) && b == old(db).model().souls.contains_key(
                    seq![state.agent_full_id@, req.key@],
                )
            },
            Err(_) => final(db).model() == old(db).model(),
        },
{
    match db.delete_key(state.agent_full_id.as_str(), req.key.as_str()) {
        Ok(existed) => Ok(Output::Bool(existed)),
        Err(e) => Err(e),
    }
}

/// `subscribe_key`: watches a key of a soul; `Null`.
pub fn subscribe_key<D: Database>(state: &SessionState, req: SubscribeKeyRequest, db: &mut D) -> (r:
    Result<Output, D::Error>)
    requires
        old(db).inv(),
    ensures
        final(db).inv(),
        old(db).serves() ==> r is Ok,
        match r {
            Ok(out) => final(db).model() == old(db).model().subscribe_key(
                state.agent_instance_hierarchy@,
                req.agent_full_id@,
                req.key@,
            ) && out is Null,
            Err(_) => final(db).model() == old(db).model(),
        },
{
    match db.subscribe_key(
        state.agent_instance_hierarchy.as_str(),
        req.agent_full_id.as_str(),
        req.key.as_str(),
    ) {
        Ok(()) => Ok(Output::Null),
        Err(e) => Err(e),
    }
}

/// `subscribe_soul`: watches the key set of a soul; `Null`.
pub fn subscribe_soul<D: Database>(state: &SessionState, req: SubscribeSoulRequest, db: &mut D) -> (r:
    Result<Output, D::Error>)
    requires
        old(db).inv(),
    ensures
        final(db).inv(),
        old(db).serves() ==> r is Ok,
        match r {
            Ok(out) => final(db).model() == old(db).model().subscribe_soul(
                state.agent_instance_hierarchy@,
                req.agent_full_id@,
            ) && out is Null,
            Err(_) => final(db).model() == old(db).model(),
        },
{
    match db.subscribe_soul(state.agent_instance_hierarchy.as_str(), req.agent_full_id.as_str()) {
        Ok(()) => Ok(Output::Null),
        Err(e) => Err(e),
    }
}

/// `unsubscribe_key`: stops watching a key of a soul; `Null`.
pub fn unsubscribe_key<D: Database>(state: &SessionState, req: UnsubscribeKeyRequest, db: &mut D) -> (r:
    Result<Output, D::Error>)
    requires
        old(db).inv(),
    ensures
        final(db).inv(),
        old(db).serves() ==> r is Ok,
        match r {
            Ok(out) => final(db).model() == old(db).model().unsubscribe_key(
                state.agent_instance_hierarchy@,
                req.agent_full_id@,
                req.key@,
            ) && out is Null,
            Err(_) => final(db).model() == old(db).model(),
        },
{
    match db.unsubscribe_key(
        state.agent_instance_hierarchy.as_str(),
        req.agent_full_id.as_str(),
        req.key.as_str(),
    ) {
        Ok(()) => Ok(Output::Null),
        Err(e) => Err(e),
    }
}

/// `unsubscribe_soul`: stops watching the key set of a soul; `Null`.
pub fn unsubscribe_soul<D: Database>(state: &SessionState, req: UnsubscribeSoulRequest, db: &mut D) -> (r:
    Result<Output, D::Error>)
    requires
        old(db).inv(),
    ensures
        final(db).inv(),
        old(db).serves() ==> r is Ok,
        match r {
            Ok(out) => final(db).model() == old(db).model().unsubscribe_soul(
                state.agent_instance_hierarchy@,
                req.agent_full_id@,
            ) && out is Null,
            Err(_) => final(db).model() == old(db).model(),
        },
{
    match db.unsubscribe_soul(state.agent_instance_hierarchy.as_str(), req.agent_full_id.as_str()) {
        Ok(()) => Ok(Output::Null),
        Err(e) => Err(e),
    }
}

/// `notifications`: claims up to `count` (at most 10) of the caller's
/// pending notifications, which are resolved, and tells how many remain
/// (`Page`).
pub fn notifications<D: Database>(state: &SessionState, req: NotificationsRequest, db: &mut D) -> (r:
    Result<Output, D::Error>)
    requires
        old(db).inv(),
    ensures
        final(db).inv(),
        old(db).serves() ==> r is Ok,
        ({
            let sub = state.agent_instance_hierarchy@;
            let limit = notification_limit(req.count);
            match r {
                Ok(Output::Page { notifications, remaining }) => {
                    &&& notifications_view(notifications@) == old(db).model().claimed(sub, limit)
                    &&& remaining == old(db).model().pending(sub).len() - old(
                        db,
                    ).model().claim_count(sub, limit)
                    &&& final(db).model() == old(db).model().claim(sub, limit)
                },
                Ok(_) => false,
                Err(_) => final(db).model() == old(db).model(),
            }
        }),
{
    let limit = claim_limit(req.count);
    match db.take_notifications(state.agent_instance_hierarchy.as_str(), limit) {
        Ok((notifications, remaining)) => Ok(Output::Page { notifications, remaining }),
        Err(e) => Err(e),
    }
}

} // verus!
