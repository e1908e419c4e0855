//! Configuration and run-time state.
//!
//! What the front end may see of either goes through these types; a secret key
//! is never part of what is stored.

use vstd::prelude::*;
use vstd::string::*;

use crate::string_map::StringMap;

verus! {

/// Where the agent listens, and whether it starts with the application.
#[derive(Clone, Debug)]
pub struct ServerConfig {
    pub host: String,
    pub port: u16,
    pub auto_start: bool,
}

impl Default for ServerConfig {
    fn default() -> (r: Self)
        ensures
            r.host@ == "127.0.0.1"@,
            r.port == 3080,
            r.auto_start,
    {
        ServerConfig { host: "127.0.0.1".to_owned(), port: 3080, auto_start: true }
    }
}

/// The model that the agent uses. The key is the user interface's; it is kept
/// in the system's key store and not with the rest.
#[derive(Clone, Debug)]
pub struct ModelConfig {
    pub provider: String,
    pub model: String,
    pub api_key: String,
    pub base_url: String,
}

impl Default for ModelConfig {
    fn default() -> (r: Self)
        ensures
            r.provider@ == "deepseek-official"@,
            r.model@ == "deepseek-v4-flash"@,
            r.api_key@ == Seq::<char>::empty(),
            r.base_url@ == Seq::<char>::empty(),
    {
        ModelConfig {
            provider: "deepseek-official".to_owned(),
            model: "deepseek-v4-flash".to_owned(),
            api_key: String::new(),
            base_url: String::new(),
        }
    }
}

/// Directories; an empty one stands for the application's own.
#[derive(Clone, Debug)]
pub struct PathsConfig {
    pub data_dir: String,
    pub log_dir: String,
}

impl Default for PathsConfig {
    fn default() -> (r: Self)
        ensures
            r.data_dir@ == Seq::<char>::empty(),
            r.log_dir@ == Seq::<char>::empty(),
    {
        PathsConfig { data_dir: String::new(), log_dir: String::new() }
    }
}

/// Variables that the agent's environment gets in addition, and its log level.
#[derive(Clone, Debug)]
pub struct AdvancedConfig {
    pub extra_env: StringMap,
    pub log_level: String,
}

impl Default for AdvancedConfig {
    fn default() -> (r: Self)
        ensures
            r.extra_env.wf(),
            r.extra_env@ == Map::<Seq<char>, Seq<char>>::empty(),
            r.log_level@ == Seq::<char>::empty(),
    {
        AdvancedConfig { extra_env: StringMap::new(), log_level: String::new() }
    }
}

/// The user interface's theme; empty where none was chosen.
#[derive(Clone, Debug)]
pub struct UiConfig {
    pub theme: String,
}

impl Default for UiConfig {
    fn default() -> (r: Self)
        ensures
            r.theme@ == Seq::<char>::empty(),
    {
        UiConfig { theme: String::new() }
    }
}

/// The channel from which updates come.
#[derive(Clone, Debug)]
pub struct UpdatesConfig {
    pub channel: String,
}

impl Default for UpdatesConfig {
    fn default() -> (r: Self)
        ensures
            r.channel@ == Seq::<char>::empty(),
    {
        UpdatesConfig { channel: String::new() }
    }
}

/// The whole configuration.
#[derive(Clone, Debug)]
pub struct AppConfig {
    pub server: ServerConfig,
    pub model: ModelConfig,
    pub paths: PathsConfig,
    pub advanced: AdvancedConfig,
    pub ui: UiConfig,
    pub updates: UpdatesConfig,
}

/// Whether `c` is the configuration of a first start.
pub open spec fn is_default_config(c: AppConfig) -> bool {
    &&& c.server.host@ == "127.0.0.1"@
    &&& c.server.port == 3080
    &&& c.server.auto_start
    &&& c.model.provider@ == "deepseek-official"@
    &&& c.model.model@ == "deepseek-v4-flash"@
    &&& c.model.api_key@ == Seq::<char>::empty()
    &&& c.model.base_url@ == Seq::<char>::empty()
    &&& c.paths.data_dir@ == Seq::<char>::empty()
    &&& c.paths.log_dir@ == Seq::<char>::empty()
    &&& c.advanced.extra_env.wf()
    &&& c.advanced.extra_env@ == Map::<Seq<char>, Seq<char>>::empty()
    &&& c.advanced.log_level@ == Seq::<char>::empty()
    &&& c.ui.theme@ == Seq::<char>::empty()
    &&& c.updates.channel@ == Seq::<char>::empty()
}

impl Default for AppConfig {
    fn default() -> (r: Self)
        ensures
            is_default_config(r),
    {
        AppConfig {
            server: ServerConfig::default(),
            model: ModelConfig::default(),
            paths: PathsConfig::default(),
            advanced: AdvancedConfig::default(),
            ui: UiConfig::default(),
            updates: UpdatesConfig::default(),
        }
    }
}

/// What the front end reads of the running agent.
#[derive(Clone, Debug)]
pub struct AgentStatus {
    pub state: String,
    pub agent_port: u16,
    pub proxy_port: u16,
    pub proxy_url: String,
    pub pid: Option<u32>,
}

/// A running agent, by the process that it is.
#[derive(Clone, Debug)]
pub struct ChildHandle {
    pub pid: u32,
}

/// The agent's run-time state.
#[derive(Clone, Debug)]
pub struct InnerState {
    pub child: Option<ChildHandle>,
    pub token: Option<String>,
    pub proxy_port: Option<u16>,
    pub proxy_url: Option<String>,
    pub agent_port: Option<u16>,
    /// The launch token that the agent printed, once it was seen.
    pub agent_token: Option<String>,
    pub state: String,
    pub last_error: Option<String>,
}

impl Default for InnerState {
    fn default() -> (r: Self)
        ensures
            r.child is None,
            r.token is None,
            r.proxy_port is None,
            r.proxy_url is None,
            r.agent_port is None,
            r.agent_token is None,
            r.state@ == "stopped"@,
            r.last_error is None,
    {
        InnerState {
            child: None,
            token: None,
            proxy_port: None,
            proxy_url: None,
            agent_port: None,
            agent_token: None,
            state: "stopped".to_owned(),
            last_error: None,
        }
    }
}

/// One line of a log and the stream that it came from.
#[derive(Clone, Debug)]
pub struct LogLine {
    pub stream: String,
    pub line: String,
}

/// A change of the agent's state, as the front end hears of it.
#[derive(Clone, Debug)]
pub struct StateEvent {
    pub state: String,
    pub proxy_url: String,
    pub agent_port: u16,
    pub proxy_port: u16,
    pub pid: Option<u32>,
}

} // verus!
