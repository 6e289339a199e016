use mundus_animarum::command::subscription::SubscriptionArgs;
use mundus_animarum::command::{
    delete, get, list, notifications, subscribe, subscriptions, unsubscribe,
};
use mundus_animarum::config::Config;
use mundus_animarum::context::Context;
use mundus_animarum::error::{CommandError, Error};
use mundus_animarum::model::{Notification, Scope, Subscription};
use mundus_animarum::output::Output;
use mundus_animarum::store::{SoulStore, StoreError};

type R = Result<Output, CommandError<StoreError>>;

fn ctx() -> Context {
    Context::new(Config {
        objectiveai_agent_instance_hierarchy: "mundus-animarum".to_string(),
        ..Config::default()
    })
}

fn set(db: &mut SoulStore, agent: &str, key: &str, value: &str) -> R {
    mundus_animarum::command::set::Args { key: key.into(), value: value.into(), agent_full_id: Some(agent.into()) }.run(&ctx(), db)
}

fn get(db: &mut SoulStore, agent: &str, key: &str) -> R {
    get::Args { key: key.into(), agent_full_id: Some(agent.into()) }.run(&ctx(), db)
}

fn delete(db: &mut SoulStore, agent: &str, key: &str) -> R {
    delete::Args { key: key.into(), agent_full_id: Some(agent.into()) }.run(&ctx(), db)
}

fn list(db: &mut SoulStore, agent: &str) -> R {
    list::Args { agent_full_id: Some(agent.into()) }.run(&ctx(), db)
}

fn split_owner(aih: &str) -> (String, String) {
    let (parent, instance) = aih.rsplit_once('/').unwrap();
    (parent.to_string(), instance.to_string())
}

fn watch(sub: &str, target: &str, key: Option<&str>) -> (SubscriptionArgs, Option<String>, Option<String>) {
    let (parent, instance) = split_owner(sub);
    (
        SubscriptionArgs { key: key.map(Into::into), soul: key.is_none(), agent_full_id: target.into() },
        Some(instance),
        Some(parent),
    )
}

fn subscribe(db: &mut SoulStore, sub: &str, target: &str, key: Option<&str>) -> R {
    let (subscription, agent_instance, parent) = watch(sub, target, key);
    subscribe::Args { subscription, agent_instance, parent_agent_instance_hierarchy: parent }.run(&ctx(), db)
}

fn unsubscribe(db: &mut SoulStore, sub: &str, target: &str, key: Option<&str>) -> R {
    let (subscription, agent_instance, parent) = watch(sub, target, key);
    unsubscribe::Args { subscription, agent_instance, parent_agent_instance_hierarchy: parent }
        .run(&ctx(), db)
}

fn subs(db: &mut SoulStore, sub: &str) -> Vec<(String, Option<String>)> {
    let (parent, instance) = split_owner(sub);
    let out = subscriptions::Args { agent_instance: Some(instance), parent_agent_instance_hierarchy: Some(parent) }
        .run(&ctx(), db);
    match out {
        Ok(Output::Subscriptions(v)) => v.into_iter().map(entry_of_sub).collect(),
        other => panic!("unexpected {other:?}"),
    }
}

fn pending(db: &mut SoulStore, sub: &str) -> Vec<(String, Option<String>)> {
    let (parent, instance) = split_owner(sub);
    let out = notifications::Args { agent_instance: Some(instance), parent_agent_instance_hierarchy: Some(parent) }
        .run(&ctx(), db);
    match out {
        Ok(Output::Notifications(v)) => v.into_iter().map(entry_of_note).collect(),
        other => panic!("unexpected {other:?}"),
    }
}

fn entry_of_sub(s: Subscription) -> (String, Option<String>) {
    match s.scope {
        Scope::Key(k) => (s.target, Some(k)),
        Scope::Soul => (s.target, None),
    }
}

fn entry_of_note(n: Notification) -> (String, Option<String>) {
    match n.scope {
        Scope::Key(k) => (n.target, Some(k)),
        Scope::Soul => (n.target, None),
    }
}

fn text(r: R) -> Option<String> {
    match r {
        Ok(Output::Text(v)) => Some(v),
        Ok(Output::Null) => None,
        other => panic!("unexpected {other:?}"),
    }
}

fn boolean(r: R) -> bool {
    match r {
        Ok(Output::Bool(b)) => b,
        other => panic!("unexpected {other:?}"),
    }
}

fn keys(r: R) -> Vec<String> {
    match r {
        Ok(Output::Keys(k)) => k,
        other => panic!("unexpected {other:?}"),
    }
}

fn is_null(r: R) -> bool {
    matches!(r, Ok(Output::Null))
}

fn key(t: &str, k: &str) -> (String, Option<String>) {
    (t.to_string(), Some(k.to_string()))
}

fn soul(t: &str) -> (String, Option<String>) {
    (t.to_string(), None)
}

#[test]
fn cli_set_and_get() {
    let mut db = SoulStore::new();
    let agent = "agent-A";
    assert_eq!(text(set(&mut db, agent, "color", "blue")).as_deref(), Some("blue"));
    assert_eq!(text(get(&mut db, agent, "color")).as_deref(), Some("blue"));
    assert_eq!(text(set(&mut db, agent, "color", "green")).as_deref(), Some("green"));
    assert_eq!(text(get(&mut db, agent, "color")).as_deref(), Some("green"));
    assert_eq!(text(get(&mut db, agent, "missing")), None);
    assert_eq!(text(get(&mut db, "agent-B", "color")), None);
}

#[test]
fn cli_delete() {
    let mut db = SoulStore::new();
    let agent = "agent-A";
    assert_eq!(text(set(&mut db, agent, "k", "v")).as_deref(), Some("v"));
    assert!(boolean(delete(&mut db, agent, "k")));
    assert_eq!(text(get(&mut db, agent, "k")), None);
    assert!(!boolean(delete(&mut db, agent, "k")));
    assert!(!boolean(delete(&mut db, agent, "never")));
}

#[test]
fn cli_list() {
    let mut db = SoulStore::new();
    let agent = "agent-A";
    assert!(keys(list(&mut db, agent)).is_empty());
    set(&mut db, agent, "banana", "1").unwrap();
    set(&mut db, agent, "apple", "2").unwrap();
    set(&mut db, agent, "cherry", "3").unwrap();
    assert_eq!(keys(list(&mut db, agent)), vec!["apple", "banana", "cherry"]);
    assert!(boolean(delete(&mut db, agent, "banana")));
    assert_eq!(keys(list(&mut db, agent)), vec!["apple", "cherry"]);
    assert!(keys(list(&mut db, "agent-B")).is_empty());
}

#[test]
fn cli_subscribe_and_subscriptions() {
    let mut db = SoulStore::new();
    let sub = "lineage/watcher-1";
    assert!(subs(&mut db, sub).is_empty());
    assert!(is_null(subscribe(&mut db, sub, "target-X", Some("status"))));
    assert!(is_null(subscribe(&mut db, sub, "target-Y", None)));
    assert_eq!(subs(&mut db, sub), vec![key("target-X", "status"), soul("target-Y")]);
    assert!(is_null(subscribe(&mut db, sub, "target-X", Some("status"))));
    assert_eq!(subs(&mut db, sub), vec![key("target-X", "status"), soul("target-Y")]);
    assert!(subs(&mut db, "lineage/watcher-2").is_empty());
}

#[test]
fn cli_unsubscribe() {
    let mut db = SoulStore::new();
    let sub = "lineage/watcher";
    subscribe(&mut db, sub, "target-X", Some("status")).unwrap();
    subscribe(&mut db, sub, "target-Y", None).unwrap();
    assert!(is_null(unsubscribe(&mut db, sub, "target-X", Some("status"))));
    assert_eq!(subs(&mut db, sub), vec![soul("target-Y")]);
    assert!(is_null(unsubscribe(&mut db, sub, "target-Y", None)));
    assert!(subs(&mut db, sub).is_empty());
    assert!(is_null(unsubscribe(&mut db, sub, "target-X", Some("status"))));
    assert!(is_null(unsubscribe(&mut db, sub, "nope", None)));
}

#[test]
fn cli_reads_resolve_nothing() {
    let mut db = SoulStore::new();
    let sub = "lineage/watcher";
    subscribe(&mut db, sub, "victim", Some("k")).unwrap();
    subscribe(&mut db, sub, "victim", None).unwrap();
    set(&mut db, "victim", "k", "v").unwrap();
    assert_eq!(text(get(&mut db, "victim", "k")).as_deref(), Some("v"));
    assert_eq!(keys(list(&mut db, "victim")), vec!["k"]);
    assert_eq!(pending(&mut db, sub), vec![key("victim", "k"), soul("victim")]);
    // Listing notifications resolves nothing either.
    assert_eq!(pending(&mut db, sub), vec![key("victim", "k"), soul("victim")]);
}

#[test]
fn subscriptions_are_sorted_keys_first() {
    let mut db = SoulStore::new();
    let sub = "p/w";
    subscribe(&mut db, sub, "b", None).unwrap();
    subscribe(&mut db, sub, "b", Some("z")).unwrap();
    subscribe(&mut db, sub, "a", None).unwrap();
    subscribe(&mut db, sub, "b", Some("a")).unwrap();
    subscribe(&mut db, sub, "a", Some("y")).unwrap();
    assert_eq!(
        subs(&mut db, sub),
        vec![key("a", "y"), key("b", "a"), key("b", "z"), soul("a"), soul("b")]
    );
}

#[test]
fn overwrite_fires_key_but_not_soul() {
    let mut db = SoulStore::new();
    let sub = "p/w";
    set(&mut db, "t", "k", "1").unwrap();
    subscribe(&mut db, sub, "t", Some("k")).unwrap();
    subscribe(&mut db, sub, "t", None).unwrap();
    assert!(pending(&mut db, sub).is_empty());
    set(&mut db, "t", "k", "2").unwrap();
    assert_eq!(pending(&mut db, sub), vec![key("t", "k")]);
}

#[test]
fn delete_fires_key_and_soul() {
    let mut db = SoulStore::new();
    let sub = "p/w";
    set(&mut db, "t", "k", "1").unwrap();
    subscribe(&mut db, sub, "t", Some("k")).unwrap();
    subscribe(&mut db, sub, "t", None).unwrap();
    assert!(!boolean(delete(&mut db, "t", "absent")));
    assert!(pending(&mut db, sub).is_empty());
    assert!(boolean(delete(&mut db, "t", "k")));
    assert_eq!(pending(&mut db, sub), vec![key("t", "k"), soul("t")]);
}

#[test]
fn missing_agent_full_id_is_an_error() {
    let mut db = SoulStore::new();
    let out = get::Args { key: "k".into(), agent_full_id: None }.run(&ctx(), &mut db);
    assert!(matches!(out, Err(CommandError::Command(Error::AgentFullIdRequired))));
    let out = mundus_animarum::command::set::Args { key: "k".into(), value: "v".into(), agent_full_id: None }.run(&ctx(), &mut db);
    assert!(matches!(out, Err(CommandError::Command(Error::AgentFullIdRequired))));
    let out = delete::Args { key: "k".into(), agent_full_id: None }.run(&ctx(), &mut db);
    assert!(matches!(out, Err(CommandError::Command(Error::AgentFullIdRequired))));
    let out = list::Args { agent_full_id: None }.run(&ctx(), &mut db);
    assert!(matches!(out, Err(CommandError::Command(Error::AgentFullIdRequired))));
}

#[test]
fn configured_agent_is_the_default_soul() {
    let mut db = SoulStore::new();
    let c = Context::new(Config {
        objectiveai_agent_full_id: Some("me".to_string()),
        objectiveai_agent_instance_hierarchy: "h".to_string(),
        ..Config::default()
    });
    mundus_animarum::command::set::Args { key: "k".into(), value: "v".into(), agent_full_id: None }.run(&c, &mut db).unwrap();
    assert_eq!(text(get(&mut db, "me", "k")).as_deref(), Some("v"));
}

#[test]
fn resolve_uses_the_configured_hierarchy() {
    let c = ctx();
    let r = SubscriptionArgs { key: Some("k".into()), soul: false, agent_full_id: "t".into() }.resolve(&c);
    assert_eq!(r.caller, "mundus-animarum");
    assert_eq!(r.target, "t");
    assert!(matches!(r.scope, Scope::Key(ref k) if k == "k"));
    let r = SubscriptionArgs { key: None, soul: true, agent_full_id: "t".into() }.resolve(&c);
    assert!(matches!(r.scope, Scope::Soul));
}
