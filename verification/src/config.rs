//! Runtime configuration, built from the agent environment.

use vstd::prelude::*;

verus! {

/// The raw environment: one optional value per variable.
///
/// - `state_dir`: `OBJECTIVEAI_STATE_DIR`
/// - `postgres_url`: `OBJECTIVEAI_POSTGRES_URL`
/// - `objectiveai_agent_id`: `OBJECTIVEAI_AGENT_ID`
/// - `objectiveai_agent_full_id`: `OBJECTIVEAI_AGENT_FULL_ID`
/// - `objectiveai_agent_remote`: `OBJECTIVEAI_AGENT_REMOTE`
/// - `objectiveai_agent_instance_hierarchy`: `OBJECTIVEAI_AGENT_INSTANCE_HIERARCHY`
pub struct EnvConfigBuilder {
    pub state_dir: Option<String>,
    pub postgres_url: Option<String>,
    pub objectiveai_agent_id: Option<String>,
    pub objectiveai_agent_full_id: Option<String>,
    pub objectiveai_agent_remote: Option<String>,
    pub objectiveai_agent_instance_hierarchy: Option<String>,
}

/// The configuration before its required values are checked and its
/// defaults applied.
pub struct ConfigBuilder {
    pub state_dir: Option<String>,
    pub postgres_url: Option<String>,
    pub objectiveai_agent_id: Option<String>,
    pub objectiveai_agent_full_id: Option<String>,
    pub objectiveai_agent_remote: Option<String>,
    pub objectiveai_agent_instance_hierarchy: Option<String>,
}

/// The runtime configuration.
pub struct Config {
    /// Root of the filesystem state tree (`OBJECTIVEAI_STATE_DIR`). Required.
    pub state_dir: String,
    /// Postgres connection URL (`OBJECTIVEAI_POSTGRES_URL`). Required.
    pub postgres_url: String,
    /// Default agent id (`OBJECTIVEAI_AGENT_ID`).
    pub objectiveai_agent_id: Option<String>,
    /// The agent's full id (`OBJECTIVEAI_AGENT_FULL_ID`): the soul a
    /// command acts on when none is named.
    pub objectiveai_agent_full_id: Option<String>,
    /// The agent's remote ref (`OBJECTIVEAI_AGENT_REMOTE`).
    pub objectiveai_agent_remote: Option<String>,
    /// The agent instance hierarchy (`OBJECTIVEAI_AGENT_INSTANCE_HIERARCHY`,
    /// `"mundus-animarum"` when unset): the owner of subscriptions.
    pub objectiveai_agent_instance_hierarchy: String,
}

pub open spec fn opt_view(o: Option<String>) -> Option<Seq<char>> {
    match o {
        Some(s) => Some(s@),
        None => None,
    }
}

/// The instance hierarchy used when the environment names none.
pub open spec fn default_instance_hierarchy() -> Seq<char> {
    seq!['m', 'u', 'n', 'd', 'u', 's', '-', 'a', 'n', 'i', 'm', 'a', 'r', 'u', 'm']
}

impl EnvConfigBuilder {
    /// Carries the environment over, value for value.
    pub fn build(self) -> (c: ConfigBuilder)
        ensures
            c.state_dir == self.state_dir,
            c.postgres_url == self.postgres_url,
            c.objectiveai_agent_id == self.objectiveai_agent_id,
            c.objectiveai_agent_full_id == self.objectiveai_agent_full_id,
            c.objectiveai_agent_remote == self.objectiveai_agent_remote,
            c.objectiveai_agent_instance_hierarchy == self.objectiveai_agent_instance_hierarchy,
    {
        ConfigBuilder {
            state_dir: self.state_dir,
            postgres_url: self.postgres_url,
            objectiveai_agent_id: self.objectiveai_agent_id,
            objectiveai_agent_full_id: self.objectiveai_agent_full_id,
            objectiveai_agent_remote: self.objectiveai_agent_remote,
            objectiveai_agent_instance_hierarchy: self.objectiveai_agent_instance_hierarchy,
        }
    }
}

impl Default for ConfigBuilder {
    fn default() -> (c: Self)
        ensures
            c.state_dir is None,
            c.postgres_url is None,
            c.objectiveai_agent_id is None,
            c.objectiveai_agent_full_id is None,
            c.objectiveai_agent_remote is None,
            c.objectiveai_agent_instance_hierarchy is None,
    {
        ConfigBuilder {
            state_dir: None,
            postgres_url: None,
            objectiveai_agent_id: None,
            objectiveai_agent_full_id: None,
            objectiveai_agent_remote: None,
            objectiveai_agent_instance_hierarchy: None,
        }
    }
}

impl ConfigBuilder {
    /// The configuration: the state directory and the Postgres URL must be
    /// set; the instance hierarchy defaults to `"mundus-animarum"`.
    pub fn build(self) -> (c: Config)
        requires
            self.state_dir is Some,
            self.postgres_url is Some,
        ensures
            Some(c.state_dir@) == opt_view(self.state_dir),
            Some(c.postgres_url@) == opt_view(self.postgres_url),
            c.objectiveai_agent_id == self.objectiveai_agent_id,
            c.objectiveai_agent_full_id == self.objectiveai_agent_full_id,
            c.objectiveai_agent_remote == self.objectiveai_agent_remote,
            c.objectiveai_agent_instance_hierarchy@ == match self.objectiveai_agent_instance_hierarchy {
                Some(h) => h@,
                None => default_instance_hierarchy(),
            },
    {
        let state_dir = match self.state_dir {
            Some(s) => s,
            None => String::new(),
        };
        let postgres_url = match self.postgres_url {
            Some(s) => s,
            None => String::new(),
        };
        let hierarchy = match self.objectiveai_agent_instance_hierarchy {
            Some(h) => h,
            None => {
                let h = String::from_str("mundus-animarum");
                proof {
                    reveal_strlit("mundus-animarum");
                    assert(h@ =~= default_instance_hierarchy());
                }
                h
            },
        };
        Config {
            state_dir,
            postgres_url,
            objectiveai_agent_id: self.objectiveai_agent_id,
            objectiveai_agent_full_id: self.objectiveai_agent_full_id,
            objectiveai_agent_remote: self.objectiveai_agent_remote,
            objectiveai_agent_instance_hierarchy: hierarchy,
        }
    }
}

impl Clone for Config {
    fn clone(&self) -> (c: Self)
        ensures
            c.state_dir@ == self.state_dir@,
            c.postgres_url@ == self.postgres_url@,
            opt_view(c.objectiveai_agent_id) == opt_view(self.objectiveai_agent_id),
            opt_view(c.objectiveai_agent_full_id) == opt_view(self.objectiveai_agent_full_id),
            opt_view(c.objectiveai_agent_remote) == opt_view(self.objectiveai_agent_remote),
            c.objectiveai_agent_instance_hierarchy@ == self.objectiveai_agent_instance_hierarchy@,
    {
        Config {
            state_dir: self.state_dir.clone(),
            postgres_url: self.postgres_url.clone(),
            objectiveai_agent_id: clone_opt(&self.objectiveai_agent_id),
            objectiveai_agent_full_id: clone_opt(&self.objectiveai_agent_full_id),
            objectiveai_agent_remote: clone_opt(&self.objectiveai_agent_remote),
            objectiveai_agent_instance_hierarchy: self.objectiveai_agent_instance_hierarchy.clone(),
        }
    }
}

/// A copy of an optional string.
pub fn clone_opt(o: &Option<String>) -> (c: Option<String>)
    ensures
        opt_view(c) == opt_view(*o),
{
    match o {
        Some(s) => Some(s.clone()),
        None => None,
    }
}

impl Default for Config {
    fn default() -> (c: Self)
        ensures
            c.state_dir@.len() == 0,
            c.postgres_url@.len() == 0,
            c.objectiveai_agent_id is None,
            c.objectiveai_agent_full_id is None,
            c.objectiveai_agent_remote is None,
            c.objectiveai_agent_instance_hierarchy@.len() == 0,
    {
        Config {
            state_dir: String::new(),
            postgres_url: String::new(),
            objectiveai_agent_id: None,
            objectiveai_agent_full_id: None,
            objectiveai_agent_remote: None,
            objectiveai_agent_instance_hierarchy: String::new(),
        }
    }
}

impl Config {
    /// The state root (`OBJECTIVEAI_STATE_DIR`).
    pub fn state_dir(&self) -> (d: String)
        ensures
            d@ == self.state_dir@,
    {
        self.state_dir.clone()
    }
}

/// The configuration from the environment as read: what was read, or
/// nothing if reading failed, in which case every value counts as unset.
/// The state directory and the Postgres URL must be set.
pub fn load_config(from_env: Option<ConfigBuilder>) -> (c: Config)
    requires
        from_env matches Some(b) && b.state_dir is Some && b.postgres_url is Some,
    ensures
        from_env matches Some(b) && {
            &&& Some(c.state_dir@) == opt_view(b.state_dir)
            &&& Some(c.postgres_url@) == opt_view(b.postgres_url)
            &&& c.objectiveai_agent_id == b.objectiveai_agent_id
            &&& c.objectiveai_agent_full_id == b.objectiveai_agent_full_id
            &&& c.objectiveai_agent_remote == b.objectiveai_agent_remote
            &&& c.objectiveai_agent_instance_hierarchy@ == match b.objectiveai_agent_instance_hierarchy {
                Some(h) => h@,
                None => default_instance_hierarchy(),
            }
        },
{
    let b = match from_env {
        Some(b) => b,
        None => ConfigBuilder::default(),
    };
    b.build()
}

} // verus!
