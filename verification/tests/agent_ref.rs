use mundus_animarum::command::agent_ref::AgentRef;
use mundus_animarum::config::Config;
use mundus_animarum::context::resolve_agent_full_id;
use mundus_animarum::error::Error;

fn cfg(full_id: Option<&str>) -> Config {
    Config {
        objectiveai_agent_full_id: full_id.map(Into::into),
        ..Config::default()
    }
}

fn agent(arg: Option<&str>) -> AgentRef {
    AgentRef {
        agent_full_id: arg.map(Into::into),
    }
}

#[test]
fn agent_ref_arg_takes_precedence() {
    assert_eq!(
        agent(Some("explicit")).resolve(&cfg(Some("from-config"))).unwrap(),
        "explicit"
    );
}

#[test]
fn agent_ref_falls_back_to_config() {
    assert_eq!(agent(None).resolve(&cfg(Some("from-config"))).unwrap(), "from-config");
}

#[test]
fn agent_ref_errors_when_neither_set() {
    assert!(matches!(
        agent(None).resolve(&cfg(None)).unwrap_err(),
        Error::AgentFullIdRequired
    ));
}

#[test]
fn mod_arg_takes_precedence() {
    let got = resolve_agent_full_id(Some("explicit".into()), &cfg(Some("from-config"))).unwrap();
    assert_eq!(got, "explicit");
}

#[test]
fn mod_falls_back_to_config() {
    let got = resolve_agent_full_id(None, &cfg(Some("from-config"))).unwrap();
    assert_eq!(got, "from-config");
}

#[test]
fn mod_errors_when_neither_set() {
    let err = resolve_agent_full_id(None, &cfg(None)).unwrap_err();
    assert!(matches!(err, Error::AgentFullIdRequired));
}

#[test]
fn explicit_arg_wins_even_without_config() {
    let got = resolve_agent_full_id(Some("only-arg".into()), &cfg(None)).unwrap();
    assert_eq!(got, "only-arg");
}

#[test]
fn error_messages() {
    assert_eq!(
        Error::AgentFullIdRequired.message(),
        "agent full ID is required for agents operating outside of objectiveai"
    );
    assert_eq!(Error::SelfSubscription.message(), "an agent cannot subscribe to its own soul");
    assert_eq!(Error::Other("boom".to_string()).message(), "boom");
}
