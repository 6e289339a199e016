use mundus_animarum::command::{is_informational, ParseFailure};
use mundus_animarum::mcp::session::{header_text, lookup_outcome, session_state, MissingHeader, SessionMiss};
use mundus_animarum::model::{claim_split, delete_fires, write_fires_soul};
use mundus_animarum::model::{Notification, Scope};
use mundus_animarum::store::{Database, SoulStore};
use mundus_animarum::text::{compare_text, trim, Order};

fn entries(v: Vec<Notification>) -> Vec<(String, Option<String>)> {
    v.into_iter()
        .map(|n| match n.scope {
            Scope::Key(k) => (n.target, Some(k)),
            Scope::Soul => (n.target, None),
        })
        .collect()
}

#[test]
fn store_read_after_write() {
    let mut db = SoulStore::new();
    db.set_key("a", "k", "v1").unwrap();
    assert_eq!(db.get_key(None, "a", "k").unwrap().as_deref(), Some("v1"));
    db.set_key("a", "k", "v2").unwrap();
    assert_eq!(db.get_key(None, "a", "k").unwrap().as_deref(), Some("v2"));
    assert_eq!(db.get_key(None, "b", "k").unwrap(), None);
}

#[test]
fn store_delete_reports_existence() {
    let mut db = SoulStore::new();
    assert!(!db.delete_key("a", "k").unwrap());
    db.set_key("a", "k", "v").unwrap();
    assert!(db.delete_key("a", "k").unwrap());
    assert!(!db.delete_key("a", "k").unwrap());
    assert_eq!(db.get_key(None, "a", "k").unwrap(), None);
}

#[test]
fn store_lists_in_code_point_order() {
    let mut db = SoulStore::new();
    for k in ["b", "B", "a", "ab", "", "é"] {
        db.set_key("x", k, "v").unwrap();
    }
    db.set_key("y", "zzz", "v").unwrap();
    assert_eq!(db.list_keys(None, "x").unwrap(), vec!["", "B", "a", "ab", "b", "é"]);
}

#[test]
fn store_subscribe_starts_caught_up() {
    let mut db = SoulStore::new();
    db.set_key("t", "k", "v").unwrap();
    db.subscribe_key("s", "t", "k").unwrap();
    db.subscribe_soul("s", "t").unwrap();
    assert!(db.notifications("s").unwrap().is_empty());
}

#[test]
fn store_resubscribe_keeps_pending() {
    let mut db = SoulStore::new();
    db.subscribe_key("s", "t", "k").unwrap();
    db.set_key("t", "k", "v").unwrap();
    db.subscribe_key("s", "t", "k").unwrap();
    assert_eq!(entries(db.notifications("s").unwrap()), vec![("t".to_string(), Some("k".to_string()))]);
}

#[test]
fn store_notifications_coalesce() {
    let mut db = SoulStore::new();
    db.subscribe_key("s", "t", "k").unwrap();
    db.set_key("t", "k", "1").unwrap();
    db.set_key("t", "k", "2").unwrap();
    db.delete_key("t", "k").unwrap();
    assert_eq!(entries(db.notifications("s").unwrap()), vec![("t".to_string(), Some("k".to_string()))]);
}

#[test]
fn store_reader_clears_only_its_own() {
    let mut db = SoulStore::new();
    db.subscribe_key("s1", "t", "k").unwrap();
    db.subscribe_key("s2", "t", "k").unwrap();
    db.set_key("t", "k", "v").unwrap();
    db.get_key(Some("s1"), "t", "k").unwrap();
    assert!(db.notifications("s1").unwrap().is_empty());
    assert_eq!(db.notifications("s2").unwrap().len(), 1);
}

#[test]
fn store_read_of_deleted_key_still_clears() {
    let mut db = SoulStore::new();
    db.set_key("t", "k", "v").unwrap();
    db.subscribe_key("s", "t", "k").unwrap();
    db.delete_key("t", "k").unwrap();
    assert_eq!(db.get_key(Some("s"), "t", "k").unwrap(), None);
    assert!(db.notifications("s").unwrap().is_empty());
}

#[test]
fn store_take_then_rest() {
    let mut db = SoulStore::new();
    db.subscribe_key("s", "t", "a").unwrap();
    db.subscribe_key("s", "t", "b").unwrap();
    db.subscribe_soul("s", "t").unwrap();
    db.set_key("t", "a", "1").unwrap();
    db.set_key("t", "b", "1").unwrap();
    let (first, remaining) = db.take_notifications("s", 2).unwrap();
    assert_eq!(
        entries(first),
        vec![("t".to_string(), Some("a".to_string())), ("t".to_string(), Some("b".to_string()))]
    );
    assert_eq!(remaining, 1);
    assert_eq!(entries(db.notifications("s").unwrap()), vec![("t".to_string(), None)]);
}

#[test]
fn compare_text_orders_by_code_point() {
    assert!(matches!(compare_text("a", "b"), Order::Less));
    assert!(matches!(compare_text("b", "a"), Order::Greater));
    assert!(matches!(compare_text("ab", "ab"), Order::Equal));
    assert!(matches!(compare_text("a", "ab"), Order::Less));
    assert!(matches!(compare_text("Z", "a"), Order::Less));
    assert!(matches!(compare_text("", ""), Order::Equal));
}

#[test]
fn trim_removes_unicode_white_space() {
    assert_eq!(trim("  a b \t\n"), "a b");
    assert_eq!(trim("\u{3000}x\u{a0}"), "x");
    assert_eq!(trim("   "), "");
    assert_eq!(trim(""), "");
    assert_eq!(trim("x"), "x");
}

#[test]
fn header_values_are_trimmed_and_required() {
    assert_eq!(header_text(Some("  id ")).as_deref(), Some("id"));
    assert_eq!(header_text(Some("   ")), None);
    assert_eq!(header_text(None), None);
    let s = session_state(Some(" full "), Some("a/b")).unwrap();
    assert_eq!(s.agent_full_id, "full");
    assert_eq!(s.agent_instance_hierarchy, "a/b");
    assert!(matches!(session_state(None, Some("a/b")), Err(MissingHeader::AgentFullId)));
    assert!(matches!(session_state(Some(""), None), Err(MissingHeader::AgentFullId)));
    assert!(matches!(session_state(Some("f"), Some(" ")), Err(MissingHeader::AgentInstanceHierarchy)));
    assert_eq!(
        MissingHeader::AgentFullId.message(),
        "missing or empty X-OBJECTIVEAI-AGENT-FULL-ID header"
    );
}

#[test]
fn notification_rows_key_ones_first() {
    let keys = vec![("a".to_string(), "k".to_string()), ("b".to_string(), "j".to_string())];
    let souls = vec!["c".to_string()];
    let ns = mundus_animarum::model::notifications_of(&keys, &souls);
    assert_eq!(ns.len(), 3);
    assert_eq!(ns[0].target, "a");
    assert!(matches!(&ns[0].scope, mundus_animarum::model::Scope::Key(k) if k == "k"));
    assert_eq!(ns[1].target, "b");
    assert_eq!(ns[2].target, "c");
    assert!(matches!(ns[2].scope, mundus_animarum::model::Scope::Soul));
    let subs = mundus_animarum::model::subscriptions_of(&keys, &souls);
    assert_eq!(subs.len(), 3);
    assert_eq!(subs[2].target, "c");
    assert!(matches!(subs[2].scope, mundus_animarum::model::Scope::Soul));
}

#[test]
fn claim_split_counts() {
    assert_eq!(claim_split(10, 3, 2), (3, 2, 0));
    assert_eq!(claim_split(4, 3, 2), (3, 1, 1));
    assert_eq!(claim_split(1, 3, 2), (1, 0, 4));
    assert_eq!(claim_split(0, 3, 2), (0, 0, 5));
    assert_eq!(claim_split(5, 0, 0), (0, 0, 0));
}

#[test]
fn write_and_delete_decisions() {
    assert!(write_fires_soul(false));
    assert!(!write_fires_soul(true));
    assert!(delete_fires(true));
    assert!(!delete_fires(false));
}

#[test]
fn session_lookup_outcomes() {
    assert!(matches!(lookup_outcome::<u8>(None, None), Err(SessionMiss::MissingId)));
    assert!(matches!(lookup_outcome::<u8>(Some("s"), None), Err(SessionMiss::Unknown)));
    assert!(matches!(lookup_outcome(Some("s"), Some(7u8)), Ok(7)));
}

#[test]
fn informational_parse_failures() {
    assert!(is_informational(&ParseFailure::DisplayHelp));
    assert!(is_informational(&ParseFailure::DisplayVersion));
    assert!(is_informational(&ParseFailure::DisplayHelpOnMissingArgumentOrSubcommand));
    assert!(!is_informational(&ParseFailure::Other));
}
