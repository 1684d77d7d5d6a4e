//! What the user has set up: channels, agents and the chat server.

use vstd::prelude::*;
use vstd::string::*;

use crate::env::{join, joined};
use crate::wire::Wire;

verus! {

/// The configuration.
#[derive(Debug)]
pub struct Config {
    /// The channels.
    pub channel: Vec<ChannelConfig>,
    /// The agents.
    pub agent: Vec<AgentConfig>,
    /// The chat server.
    pub matrix: MatrixConfig,
}

/// The chat server.
#[derive(Debug, Clone)]
pub struct MatrixConfig {
    /// The name of the server, which every user's name ends in.
    pub server_name: String,
}

/// An agent.
#[derive(Debug, Clone)]
pub struct AgentConfig {
    /// Its name.
    pub name: String,
    /// The directory that it works in.
    pub cwd: Option<String>,
    /// How it is run.
    pub mode: String,
    /// What it is like.
    pub persona: Option<String>,
    /// The rooms that it is invited to.
    pub rooms: Vec<String>,
}

/// A channel.
#[derive(Debug)]
pub struct ChannelConfig {
    /// The name it is shown under.
    pub name: String,
    /// The directory that its command runs in.
    pub cwd: Option<String>,
    /// Its command.
    pub command: String,
}

/// A channel, as a value.
pub struct ChannelConfigModel {
    pub name: Seq<char>,
    pub cwd: Option<Seq<char>>,
    pub command: Seq<char>,
}

impl View for ChannelConfig {
    type V = ChannelConfigModel;

    open spec fn view(&self) -> ChannelConfigModel {
        ChannelConfigModel { name: self.name@, cwd: self.cwd.model(), command: self.command@ }
    }
}

/// Channels, as values.
pub open spec fn channel_models(v: Seq<ChannelConfig>) -> Seq<ChannelConfigModel> {
    Seq::new(v.len(), |i: int| v[i]@)
}

/// The command of a channel that sets none: the user's shell, or `bash`.
pub open spec fn default_command_is(shell: Option<Seq<char>>) -> Seq<char> {
    match shell {
        Some(s) => s,
        None => "bash"@,
    }
}

/// The command of a channel that sets none.
pub fn default_command(shell: &Option<String>) -> (r: String)
    ensures
        r@ == default_command_is(shell.model()),
{
    match shell {
        Some(s) => s.clone(),
        None => "bash".to_owned(),
    }
}

/// The server's name unless another is set.
pub fn default_server_name() -> (r: String)
    ensures
        r@ == "localhost"@,
{
    "localhost".to_owned()
}

/// How an agent is run unless it is set.
pub fn default_agent_mode() -> (r: String)
    ensures
        r@ == "matrix"@,
{
    "matrix".to_owned()
}

impl Default for MatrixConfig {
    fn default() -> (m: Self)
        ensures
            m.server_name@ == "localhost"@,
    {
        MatrixConfig { server_name: default_server_name() }
    }
}

/// A text that may be set, or else another.
pub open spec fn or_else(set: Option<Seq<char>>, other: Seq<char>) -> Seq<char> {
    match set {
        Some(s) => s,
        None => other,
    }
}

impl MatrixConfig {
    /// The chat server with what is set of it.
    pub fn from_parts(server_name: Option<String>) -> (m: MatrixConfig)
        ensures
            m.server_name@ == or_else(server_name.model(), "localhost"@),
    {
        match server_name {
            Some(server_name) => MatrixConfig { server_name },
            None => MatrixConfig::default(),
        }
    }
}

impl AgentConfig {
    /// An agent with what is set of it.
    pub fn from_parts(
        name: String,
        cwd: Option<String>,
        mode: Option<String>,
        persona: Option<String>,
        rooms: Option<Vec<String>>,
    ) -> (a: AgentConfig)
        ensures
            a.name@ == name@,
            a.cwd == cwd,
            a.mode@ == or_else(mode.model(), "matrix"@),
            a.persona == persona,
            match rooms {
                Some(v) => a.rooms == v,
                None => a.rooms@ == Seq::<String>::empty(),
            },
    {
        let mode = match mode {
            Some(m) => m,
            None => default_agent_mode(),
        };
        let rooms = match rooms {
            Some(v) => v,
            None => Vec::new(),
        };
        AgentConfig { name, cwd, mode, persona, rooms }
    }
}

impl ChannelConfig {
    /// A channel with what is set of it.
    pub fn from_parts(
        name: String,
        cwd: Option<String>,
        command: Option<String>,
        shell: &Option<String>,
    ) -> (c: ChannelConfig)
        ensures
            c@ == (ChannelConfigModel {
                name: name@,
                cwd: cwd.model(),
                command: or_else(command.model(), default_command_is(shell.model())),
            }),
    {
        let command = match command {
            Some(c) => c,
            None => default_command(shell),
        };
        ChannelConfig { name, cwd, command }
    }

    /// The channel where no channel is set.
    pub open spec fn fallback_is(shell: Option<Seq<char>>) -> ChannelConfigModel {
        ChannelConfigModel { name: "default"@, cwd: None, command: default_command_is(shell) }
    }

    /// The channel where no channel is set.
    pub fn fallback(shell: &Option<String>) -> (c: ChannelConfig)
        ensures
            c@ == ChannelConfig::fallback_is(shell.model()),
    {
        ChannelConfig { name: "default".to_owned(), cwd: None, command: default_command(shell) }
    }
}

/// The channels that are set, or the one where none is.
pub open spec fn at_least_one(
    channels: Seq<ChannelConfigModel>,
    shell: Option<Seq<char>>,
) -> Seq<ChannelConfigModel> {
    if channels.len() == 0 {
        seq![ChannelConfig::fallback_is(shell)]
    } else {
        channels
    }
}

impl Config {
    /// The configuration that a file sets.
    pub fn from_parts(
        channel: Vec<ChannelConfig>,
        agent: Vec<AgentConfig>,
        matrix: MatrixConfig,
        shell: &Option<String>,
    ) -> (c: Config)
        ensures
            channel_models(c.channel@) == at_least_one(channel_models(channel@), shell.model()),
            c.agent == agent,
            c.matrix == matrix,
    {
        let mut channels = channel;
        if channels.len() == 0 {
            channels.push(ChannelConfig::fallback(shell));
        }
        assert(channel_models(channels@) =~= at_least_one(channel_models(channel@), shell.model()));
        Config { channel: channels, agent, matrix }
    }

    /// The configuration where there is no file.
    pub fn fallback(shell: &Option<String>) -> (c: Config)
        ensures
            channel_models(c.channel@) == seq![ChannelConfig::fallback_is(shell.model())],
            c.agent@ == Seq::<AgentConfig>::empty(),
            c.matrix.server_name@ == "localhost"@,
    {
        Config::from_parts(Vec::new(), Vec::new(), MatrixConfig::default(), shell)
    }
}

/// The file of the configuration: the one in the working directory, or else the user's.
pub open spec fn config_file_is(
    local_exists: bool,
    user_dir: Option<Seq<char>>,
    user_exists: bool,
) -> Option<Seq<char>> {
    if local_exists {
        Some("bz.toml"@)
    } else {
        match user_dir {
            Some(dir) => if user_exists {
                Some(joined(dir, "bz/config.toml"@))
            } else {
                None
            },
            None => None,
        }
    }
}

/// The file of the configuration, if there is one. The user's directory for configuration
/// may be unknown.
pub fn config_file(local_exists: bool, user_dir: Option<String>, user_exists: bool) -> (r: Option<String>)
    ensures
        r.model() == config_file_is(local_exists, user_dir.model(), user_exists),
{
    if local_exists {
        return Some("bz.toml".to_owned());
    }
    match user_dir {
        Some(dir) => {
            if user_exists {
                Some(join(dir.as_str(), "bz/config.toml"))
            } else {
                None
            }
        },
        None => None,
    }
}

/// There is always a channel.
pub proof fn law_there_is_a_channel(channels: Seq<ChannelConfigModel>, shell: Option<Seq<char>>)
    ensures
        at_least_one(channels, shell).len() >= 1,
        channels.len() > 0 ==> at_least_one(channels, shell) == channels,
{
}

/// What is not set has its default: the command is the user's shell or `bash`, and a configuration
/// without channels has one for that.
pub proof fn law_what_is_not_set(
    s: Seq<char>,
    other: Seq<char>,
    channels: Seq<ChannelConfigModel>,
    shell: Option<Seq<char>>,
)
    ensures
        or_else(Some(s), other) == s,
        or_else(None, other) == other,
        default_command_is(Some(s)) == s,
        default_command_is(None) == "bash"@,
        channels.len() > 0 ==> at_least_one(channels, shell) == channels,
        at_least_one(Seq::empty(), shell) == seq![
            ChannelConfigModel {
                name: "default"@,
                cwd: None,
                command: if shell is Some {
                    shell->0
                } else {
                    "bash"@
                },
            },
        ],
{
}

/// The configuration in the current directory counts before the user's own.
pub proof fn law_which_configuration_counts(user_dir: Option<Seq<char>>, dir: Seq<char>, exists_there: bool)
    ensures
        config_file_is(true, user_dir, exists_there) == Some("bz.toml"@),
        config_file_is(false, Some(dir), true) == Some(joined(dir, "bz/config.toml"@)),
        config_file_is(false, Some(dir), false) is None,
        config_file_is(false, None, exists_there) is None,
{
}

} // verus!
