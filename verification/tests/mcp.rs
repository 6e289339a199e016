use mundus_animarum::command::get as cli_get;
use mundus_animarum::command::list as cli_list;
use mundus_animarum::config::Config;
use mundus_animarum::context::Context;
use mundus_animarum::mcp::session::SessionState;
use mundus_animarum::mcp::tools::{
    self, claim_limit, DeleteRequest, GetRequest, ListRequest, NotificationsRequest,
    SetRequest, SubscribeKeyRequest, SubscribeSoulRequest, UnsubscribeKeyRequest,
    UnsubscribeSoulRequest,
};
use mundus_animarum::model::{Notification, Scope};
use mundus_animarum::output::Output;
use mundus_animarum::store::{Database, SoulStore};

fn agent(full_id: &str, aih: &str) -> SessionState {
    SessionState { agent_full_id: full_id.to_string(), agent_instance_hierarchy: aih.to_string() }
}

fn me() -> SessionState {
    agent("mock-agent", "lineage/mock-agent-1")
}

fn text(o: Output) -> Option<String> {
    match o {
        Output::Text(v) => Some(v),
        Output::Null => None,
        other => panic!("unexpected {other:?}"),
    }
}

fn keys(o: Output) -> Vec<String> {
    match o {
        Output::Keys(k) => k,
        other => panic!("unexpected {other:?}"),
    }
}

fn entry(n: Notification) -> (String, Option<String>) {
    match n.scope {
        Scope::Key(k) => (n.target, Some(k)),
        Scope::Soul => (n.target, None),
    }
}

fn page(o: Output) -> (Vec<(String, Option<String>)>, usize) {
    match o {
        Output::Page { notifications, remaining } => (notifications.into_iter().map(entry).collect(), remaining),
        other => panic!("unexpected {other:?}"),
    }
}

fn get(db: &mut SoulStore, s: &SessionState, key: &str, target: Option<&str>) -> Option<String> {
    text(tools::get(s, GetRequest { key: key.into(), agent_full_id: target.map(Into::into) }, db).unwrap())
}

fn list(db: &mut SoulStore, s: &SessionState, target: Option<&str>) -> Vec<String> {
    keys(tools::list(s, ListRequest { agent_full_id: target.map(Into::into) }, db).unwrap())
}

fn set(db: &mut SoulStore, s: &SessionState, key: &str, value: &str) -> Option<String> {
    text(tools::set(s, SetRequest { key: key.into(), value: value.into() }, db).unwrap())
}

fn notifications(db: &mut SoulStore, s: &SessionState, count: Option<u32>) -> (Vec<(String, Option<String>)>, usize) {
    page(tools::notifications(s, NotificationsRequest { count }, db).unwrap())
}

fn cli_set_value(db: &mut SoulStore, target: &str, key: &str, value: &str) {
    let c = Context::new(Config::default());
    mundus_animarum::command::set::Args { key: key.into(), value: value.into(), agent_full_id: Some(target.into()) }
        .run(&c, db)
        .unwrap();
}

fn key(t: &str, k: &str) -> (String, Option<String>) {
    (t.to_string(), Some(k.to_string()))
}

fn soul(t: &str) -> (String, Option<String>) {
    (t.to_string(), None)
}

#[test]
fn mcp_set_and_get() {
    let mut db = SoulStore::new();
    let s = me();
    assert_eq!(set(&mut db, &s, "color", "blue").as_deref(), Some("blue"));
    assert_eq!(get(&mut db, &s, "color", None).as_deref(), Some("blue"));
    assert_eq!(get(&mut db, &s, "color", Some("mock-agent")).as_deref(), Some("blue"));
}

#[test]
fn mcp_get_other_soul() {
    let mut db = SoulStore::new();
    cli_set_value(&mut db, "other-soul", "shared", "hello");
    let s = me();
    assert_eq!(get(&mut db, &s, "shared", Some("other-soul")).as_deref(), Some("hello"));
    assert_eq!(get(&mut db, &s, "shared", None), None);
}

#[test]
fn mcp_list() {
    let mut db = SoulStore::new();
    cli_set_value(&mut db, "other-soul", "alpha", "1");
    cli_set_value(&mut db, "other-soul", "beta", "2");
    let s = me();
    assert!(list(&mut db, &s, None).is_empty());
    set(&mut db, &s, "y", "1");
    set(&mut db, &s, "x", "2");
    assert_eq!(list(&mut db, &s, None), vec!["x", "y"]);
    assert_eq!(list(&mut db, &s, Some("other-soul")), vec!["alpha", "beta"]);
}

#[test]
fn mcp_delete() {
    let mut db = SoulStore::new();
    let s = me();
    assert_eq!(set(&mut db, &s, "k", "v").as_deref(), Some("v"));
    assert!(matches!(tools::delete(&s, DeleteRequest { key: "k".into() }, &mut db), Ok(Output::Bool(true))));
    assert_eq!(get(&mut db, &s, "k", None), None);
    assert!(matches!(tools::delete(&s, DeleteRequest { key: "k".into() }, &mut db), Ok(Output::Bool(false))));
}

#[test]
fn mcp_subscribe() {
    let mut db = SoulStore::new();
    let s = me();
    let r = tools::subscribe_key(&s, SubscribeKeyRequest { agent_full_id: "target-X".into(), key: "status".into() }, &mut db);
    assert!(matches!(r, Ok(Output::Null)));
    let r = tools::subscribe_soul(&s, SubscribeSoulRequest { agent_full_id: "target-Y".into() }, &mut db);
    assert!(matches!(r, Ok(Output::Null)));
    let subs: Vec<_> = db
        .subscriptions("lineage/mock-agent-1")
        .unwrap()
        .into_iter()
        .map(|s| match s.scope {
            Scope::Key(k) => (s.target, Some(k)),
            Scope::Soul => (s.target, None),
        })
        .collect();
    assert_eq!(subs, vec![key("target-X", "status"), soul("target-Y")]);
}

#[test]
fn mcp_unsubscribe() {
    let mut db = SoulStore::new();
    let s = me();
    tools::subscribe_key(&s, SubscribeKeyRequest { agent_full_id: "target-X".into(), key: "status".into() }, &mut db).unwrap();
    tools::subscribe_soul(&s, SubscribeSoulRequest { agent_full_id: "target-Y".into() }, &mut db).unwrap();
    let r = tools::unsubscribe_key(&s, UnsubscribeKeyRequest { agent_full_id: "target-X".into(), key: "status".into() }, &mut db);
    assert!(matches!(r, Ok(Output::Null)));
    let r = tools::unsubscribe_soul(&s, UnsubscribeSoulRequest { agent_full_id: "target-Y".into() }, &mut db);
    assert!(matches!(r, Ok(Output::Null)));
    assert!(db.subscriptions("lineage/mock-agent-1").unwrap().is_empty());
}

#[test]
fn mcp_notifications_basic() {
    let mut db = SoulStore::new();
    let s = me();
    let victim = "victim-agent";
    tools::subscribe_soul(&s, SubscribeSoulRequest { agent_full_id: victim.into() }, &mut db).unwrap();
    assert_eq!(notifications(&mut db, &s, None), (vec![], 0));
    cli_set_value(&mut db, victim, "k", "v");
    tools::subscribe_soul(&s, SubscribeSoulRequest { agent_full_id: victim.into() }, &mut db).unwrap();
    assert_eq!(notifications(&mut db, &s, None), (vec![soul(victim)], 0));
    assert_eq!(notifications(&mut db, &s, None), (vec![], 0));
}

#[test]
fn mcp_notifications_count_and_remaining() {
    let mut db = SoulStore::new();
    let s = me();
    let victim = "victim-agent";
    tools::subscribe_key(&s, SubscribeKeyRequest { agent_full_id: victim.into(), key: "k1".into() }, &mut db).unwrap();
    tools::subscribe_soul(&s, SubscribeSoulRequest { agent_full_id: victim.into() }, &mut db).unwrap();
    cli_set_value(&mut db, victim, "k1", "v");
    assert_eq!(notifications(&mut db, &s, Some(1)), (vec![key(victim, "k1")], 1));
    assert_eq!(notifications(&mut db, &s, Some(1)), (vec![soul(victim)], 0));
}

#[test]
fn mcp_notifications_cleared_by_read() {
    let mut db = SoulStore::new();
    let s = me();
    let victim = "victim-agent";
    tools::subscribe_key(&s, SubscribeKeyRequest { agent_full_id: victim.into(), key: "k".into() }, &mut db).unwrap();
    cli_set_value(&mut db, victim, "k", "v");
    assert_eq!(get(&mut db, &s, "k", Some(victim)).as_deref(), Some("v"));
    assert_eq!(notifications(&mut db, &s, None), (vec![], 0));
}

#[test]
fn mcp_notifications_cleared_by_list() {
    let mut db = SoulStore::new();
    let s = me();
    let victim = "victim-agent";
    tools::subscribe_soul(&s, SubscribeSoulRequest { agent_full_id: victim.into() }, &mut db).unwrap();
    cli_set_value(&mut db, victim, "k", "v");
    assert_eq!(list(&mut db, &s, Some(victim)), vec!["k"]);
    assert_eq!(notifications(&mut db, &s, None), (vec![], 0));
}

#[test]
fn cli_set_then_mcp_get() {
    let mut db = SoulStore::new();
    cli_set_value(&mut db, "shared-agent", "k", "from-cli");
    assert_eq!(get(&mut db, &me(), "k", Some("shared-agent")).as_deref(), Some("from-cli"));
}

#[test]
fn mcp_set_then_cli_get() {
    let mut db = SoulStore::new();
    let s = me();
    set(&mut db, &s, "k", "from-mcp");
    let c = Context::new(Config::default());
    let out = cli_get::Args { key: "k".into(), agent_full_id: Some("mock-agent".into()) }.run(&c, &mut db).unwrap();
    assert_eq!(text(out).as_deref(), Some("from-mcp"));
}

#[test]
fn cli_get_does_not_resolve_notification() {
    let mut db = SoulStore::new();
    let s = me();
    let victim = "victim-agent";
    tools::subscribe_key(&s, SubscribeKeyRequest { agent_full_id: victim.into(), key: "k".into() }, &mut db).unwrap();
    cli_set_value(&mut db, victim, "k", "v");
    let c = Context::new(Config {
        objectiveai_agent_instance_hierarchy: "lineage/mock-agent-1".to_string(),
        ..Config::default()
    });
    let out = cli_get::Args { key: "k".into(), agent_full_id: Some(victim.into()) }.run(&c, &mut db).unwrap();
    assert_eq!(text(out).as_deref(), Some("v"));
    assert_eq!(notifications(&mut db, &s, None), (vec![key(victim, "k")], 0));
}

#[test]
fn cli_list_does_not_resolve_notification() {
    let mut db = SoulStore::new();
    let s = me();
    let victim = "victim-agent";
    tools::subscribe_soul(&s, SubscribeSoulRequest { agent_full_id: victim.into() }, &mut db).unwrap();
    cli_set_value(&mut db, victim, "k", "v");
    let c = Context::new(Config {
        objectiveai_agent_instance_hierarchy: "lineage/mock-agent-1".to_string(),
        ..Config::default()
    });
    let out = cli_list::Args { agent_full_id: Some(victim.into()) }.run(&c, &mut db).unwrap();
    assert_eq!(keys(out), vec!["k".to_string()]);
    assert_eq!(notifications(&mut db, &s, None), (vec![soul(victim)], 0));
}

#[test]
fn notifications_are_per_subscriber() {
    let mut db = SoulStore::new();
    let a = agent("a", "p/a");
    let b = agent("b", "p/b");
    tools::subscribe_soul(&a, SubscribeSoulRequest { agent_full_id: "t".into() }, &mut db).unwrap();
    tools::subscribe_soul(&b, SubscribeSoulRequest { agent_full_id: "t".into() }, &mut db).unwrap();
    cli_set_value(&mut db, "t", "k", "v");
    assert_eq!(notifications(&mut db, &a, None), (vec![soul("t")], 0));
    assert_eq!(notifications(&mut db, &b, None), (vec![soul("t")], 0));
}

#[test]
fn notifications_count_is_capped_at_ten() {
    let mut db = SoulStore::new();
    let s = me();
    for i in 0..12 {
        let k = format!("k{i:02}");
        tools::subscribe_key(&s, SubscribeKeyRequest { agent_full_id: "t".into(), key: k.clone() }, &mut db).unwrap();
        cli_set_value(&mut db, "t", &k, "v");
    }
    let (first, remaining) = notifications(&mut db, &s, Some(50));
    assert_eq!(first.len(), 10);
    assert_eq!(remaining, 2);
    assert_eq!(first[0], key("t", "k00"));
    let (rest, remaining) = notifications(&mut db, &s, None);
    assert_eq!(rest, vec![key("t", "k10"), key("t", "k11")]);
    assert_eq!(remaining, 0);
}

#[test]
fn notifications_count_zero_claims_nothing() {
    let mut db = SoulStore::new();
    let s = me();
    tools::subscribe_soul(&s, SubscribeSoulRequest { agent_full_id: "t".into() }, &mut db).unwrap();
    cli_set_value(&mut db, "t", "k", "v");
    assert_eq!(notifications(&mut db, &s, Some(0)), (vec![], 1));
    assert_eq!(notifications(&mut db, &s, Some(3)), (vec![soul("t")], 0));
}

#[test]
fn claim_limit_values() {
    assert_eq!(claim_limit(None), 10);
    assert_eq!(claim_limit(Some(1)), 1);
    assert_eq!(claim_limit(Some(10)), 10);
    assert_eq!(claim_limit(Some(11)), 10);
    assert_eq!(claim_limit(Some(0)), 0);
}
