//! The settings that the library's decisions read.

use vstd::prelude::*;
use vstd::string::*;

verus! {

/// How much of a turn is shown in the chat.
#[derive(PartialEq, Eq, Structural, Clone, Copy, Debug)]
pub struct DisplayConfig {
    /// The master switch: with it off only the final reply is sent.
    pub verbose: bool,
    pub thinking_messages: bool,
    pub thinking_max_len: usize,
    pub tool_messages: bool,
    pub tool_max_len: usize,
    pub context_indicator: bool,
    /// Size of the model's context window in tokens; 0 for unknown.
    pub context_window: u32,
}

/// Settings of the default agent.
#[derive(Debug)]
pub struct AgentConfig {
    pub mode: String,
    pub model: Option<String>,
    pub allowed_tools: Vec<String>,
    pub max_turns: Option<u32>,
}

impl Default for AgentConfig {
    fn default() -> (r: AgentConfig)
        ensures
            r.mode@ == "default"@,
            r.model is None,
            r.allowed_tools@.len() == 0,
            r.max_turns is None,
    {
        AgentConfig {
            mode: "default".to_owned(),
            model: None,
            allowed_tools: Vec::new(),
            max_turns: None,
        }
    }
}

/// How an agent of the ACP backend is started.
#[derive(Debug)]
pub struct AcpConfig {
    pub command: String,
    pub args: Vec<String>,
}

/// Settings of the tmux backend.
#[derive(Debug)]
pub struct TmuxConfig {
    pub session: String,
    /// Create the session where it does not exist.
    pub auto_start: bool,
    /// Recreate the session where it vanished.
    pub auto_restart: bool,
    /// Replies and tool progress arrive through hooks.
    pub hook_relay: bool,
}

/// One agent that users can switch to.
#[derive(Debug)]
pub struct AgentEntry {
    pub name: String,
    pub backend: String,
    pub mode: String,
    pub model: Option<String>,
    pub acp: Option<AcpConfig>,
    pub tmux: Option<TmuxConfig>,
}

/// A text that stands for a slash command.
#[derive(Debug)]
pub struct AliasConfig {
    pub trigger: String,
    pub command: String,
}

/// A slash command that stands for a prompt.
#[derive(Debug)]
pub struct CommandConfig {
    pub name: String,
    pub description: String,
    pub prompt: String,
}

/// When a conversation is compressed by itself.
#[derive(PartialEq, Eq, Structural, Clone, Copy, Debug)]
pub struct AutoCompress {
    pub enabled: bool,
    pub max_tokens: u32,
}

/// The settings of a project.
#[derive(Debug)]
pub struct ProjectConfig {
    pub name: String,
    pub work_dir: String,
    /// Comma-separated user ids, or `*` for everyone.
    pub allow_from: String,
    pub banned_words: Vec<String>,
    pub aliases: Vec<AliasConfig>,
    pub commands: Vec<CommandConfig>,
    pub display: DisplayConfig,
    pub agent: AgentConfig,
    /// The program that runs an agent without a command of its own.
    pub program: String,
    /// The agents that users can switch to.
    pub agents: Vec<AgentEntry>,
    /// The agent of a user who has not chosen one.
    pub default_agent: String,
    /// Minutes after which an idle session is replaced; 0 for never.
    pub reset_on_idle_mins: u32,
    pub auto_compress: AutoCompress,
    /// Whether sessions are synchronised around each turn; nothing where no
    /// synchronisation is set up.
    pub sync_auto: Option<bool>,
}

} // verus!
