use mundus_animarum::config::{load_config, Config, EnvConfigBuilder};
use mundus_animarum::context::Context;

fn env(hierarchy: Option<&str>) -> EnvConfigBuilder {
    EnvConfigBuilder {
        state_dir: Some("/tmp/state".to_string()),
        postgres_url: Some("postgres://localhost/souls".to_string()),
        objectiveai_agent_id: Some("agent".to_string()),
        objectiveai_agent_full_id: Some("full-id".to_string()),
        objectiveai_agent_remote: None,
        objectiveai_agent_instance_hierarchy: hierarchy.map(Into::into),
    }
}

#[test]
fn env_builder_carries_every_value() {
    let b = env(Some("lineage/me")).build();
    assert_eq!(b.state_dir.as_deref(), Some("/tmp/state"));
    assert_eq!(b.postgres_url.as_deref(), Some("postgres://localhost/souls"));
    assert_eq!(b.objectiveai_agent_id.as_deref(), Some("agent"));
    assert_eq!(b.objectiveai_agent_full_id.as_deref(), Some("full-id"));
    assert_eq!(b.objectiveai_agent_remote, None);
    assert_eq!(b.objectiveai_agent_instance_hierarchy.as_deref(), Some("lineage/me"));
}

#[test]
fn instance_hierarchy_defaults_to_mundus_animarum() {
    let c = env(None).build().build();
    assert_eq!(c.objectiveai_agent_instance_hierarchy, "mundus-animarum");
    assert_eq!(c.state_dir(), "/tmp/state");
    assert_eq!(c.postgres_url, "postgres://localhost/souls");
}

#[test]
fn configured_instance_hierarchy_is_kept() {
    let c = env(Some("lineage/me")).build().build();
    assert_eq!(c.objectiveai_agent_instance_hierarchy, "lineage/me");
    assert_eq!(c.objectiveai_agent_full_id.as_deref(), Some("full-id"));
}

#[test]
fn load_config_builds_what_was_read() {
    let c = load_config(Some(env(None).build()));
    assert_eq!(c.objectiveai_agent_instance_hierarchy, "mundus-animarum");
    assert_eq!(c.objectiveai_agent_id.as_deref(), Some("agent"));
}

#[test]
fn default_config_is_empty() {
    let c = Config::default();
    assert_eq!(c.state_dir, "");
    assert_eq!(c.objectiveai_agent_full_id, None);
    assert_eq!(c.objectiveai_agent_instance_hierarchy, "");
}

#[test]
fn config_clone_is_equal() {
    let c = env(Some("h")).build().build();
    let d = c.clone();
    assert_eq!(d.state_dir, c.state_dir);
    assert_eq!(d.objectiveai_agent_instance_hierarchy, "h");
    assert_eq!(d.objectiveai_agent_full_id, c.objectiveai_agent_full_id);
}

fn ctx(hierarchy: &str) -> Context {
    Context::new(Config {
        objectiveai_agent_instance_hierarchy: hierarchy.to_string(),
        objectiveai_agent_full_id: Some("me".to_string()),
        ..Config::default()
    })
}

#[test]
fn caller_is_the_instance_hierarchy() {
    assert_eq!(ctx("lineage/me").caller(), "lineage/me");
}

#[test]
fn agent_instance_hierarchy_selection() {
    let c = ctx("root/me");
    assert_eq!(c.agent_instance_hierarchy(None, None), "root/me");
    assert_eq!(c.agent_instance_hierarchy(None, Some("ignored".into())), "root/me");
    assert_eq!(c.agent_instance_hierarchy(Some("child".into()), None), "root/me/child");
    assert_eq!(
        c.agent_instance_hierarchy(Some("child".into()), Some("other".into())),
        "other/child"
    );
}

#[test]
fn context_agent_full_id_falls_back() {
    let c = ctx("h");
    assert_eq!(c.agent_full_id(None).unwrap(), "me");
    assert_eq!(c.agent_full_id(Some("you".into())).unwrap(), "you");
}
