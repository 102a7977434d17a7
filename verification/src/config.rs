//! Configuration: the settings, their defaults, and the rules for where they come from.

use vstd::prelude::*;
use vstd::string::*;

use crate::text::{trim, trim_spec};

verus! {

/// Errors that can occur when loading configuration.
#[derive(Debug, Clone, PartialEq)]
pub enum ConfigError {
    /// The configuration file could not be read.
    IoError {
        /// Path to the file.
        path: String,
        /// What the read reported.
        message: String,
    },
    /// The configuration file is not valid TOML.
    ParseError {
        /// Path to the file.
        path: String,
        /// What the parser reported.
        message: String,
    },
    /// No configuration file was found in any of the default search locations.
    NotFound,
}

/// Application configuration.
#[derive(Debug, Clone, PartialEq)]
pub struct Config {
    /// LLM provider name (`deepseek`, `anthropic`, `openai`).
    pub provider: String,
    /// API key for the provider.
    pub api_key: Option<String>,
    /// Model name to use.
    pub model: String,
    /// Maximum tokens for LLM responses.
    pub max_tokens: u32,
    /// System prompt prepended to every conversation.
    pub system_prompt: Option<String>,
    /// Path to a file whose contents become the system prompt.
    pub system_prompt_file: Option<String>,
    /// Session storage configuration.
    pub session: Option<SessionConfig>,
    /// MCP configuration.
    pub mcp: Option<McpSettings>,
    /// Telegram bot configuration.
    pub telegram: Option<TelegramConfig>,
    /// File logging configuration.
    pub logging: Option<LoggingConfig>,
    /// Reasoning effort for thinking-capable models.
    pub reasoning_effort: Option<String>,
    /// CLI-only display preferences.
    pub cli: Option<CliConfig>,
}

/// CLI display preferences.
#[derive(Debug, Clone, PartialEq)]
pub struct CliConfig {
    /// Display reasoning above the final answer.
    pub show_reasoning: bool,
}

/// Session storage configuration.
#[derive(Debug, Clone, PartialEq)]
pub struct SessionConfig {
    /// Database URL for session storage.
    pub database_url: Option<String>,
    /// Maximum number of sessions to keep.
    pub max_sessions: u32,
    /// Delete sessions older than this many days.
    pub retention_days: u32,
    /// Enable automatic cleanup on startup.
    pub auto_cleanup: bool,
}

/// MCP settings.
#[derive(Debug, Clone, PartialEq)]
pub struct McpSettings {
    /// Path to the MCP servers configuration file.
    pub config_path: Option<String>,
}

/// Telegram bot configuration; an empty `allowed_users` list rejects every user.
#[derive(Debug, Clone, PartialEq)]
pub struct TelegramConfig {
    /// Bot token.
    pub token: Option<String>,
    /// Telegram user IDs allowed to interact with the bot.
    pub allowed_users: Vec<u64>,
    /// Maximum number of sessions per chat.
    pub max_sessions_per_chat: u32,
    /// Prepend reasoning as a blockquote in outgoing messages.
    pub show_reasoning: bool,
}

/// Log rotation strategy.
#[derive(Debug, Clone, Copy, PartialEq, Eq, Structural)]
pub enum Rotation {
    /// Rotate logs once per day.
    Daily,
    /// Rotate logs once per hour.
    Hourly,
    /// Never rotate logs.
    Never,
}

/// File-based logging configuration.
#[derive(Debug, Clone, PartialEq)]
pub struct LoggingConfig {
    /// Directory to write log files to.
    pub directory: String,
    /// Maximum number of rotated log files to keep.
    pub max_files: usize,
    /// Rotation strategy.
    pub rotation: Rotation,
}

/// Default for `cli.show_reasoning`.
pub fn default_cli_show_reasoning() -> (r: bool)
    ensures
        r,
{
    true
}

/// Default for `session.max_sessions`.
pub fn default_max_sessions() -> (r: u32)
    ensures
        r == 100,
{
    100
}

/// Default for `session.retention_days`.
pub fn default_retention_days() -> (r: u32)
    ensures
        r == 90,
{
    90
}

/// Default for `session.auto_cleanup`.
pub fn default_auto_cleanup() -> (r: bool)
    ensures
        r,
{
    true
}

/// Default for `telegram.max_sessions_per_chat`.
pub fn default_max_sessions_per_chat() -> (r: u32)
    ensures
        r == 10,
{
    10
}

/// Default for `telegram.show_reasoning`.
pub fn default_telegram_show_reasoning() -> (r: bool)
    ensures
        !r,
{
    false
}

/// Default for `logging.directory`.
pub fn default_log_directory() -> (r: String)
    ensures
        r@ == "logs"@,
{
    String::from_str("logs")
}

/// Default for `logging.max_files`.
pub fn default_max_files() -> (r: usize)
    ensures
        r == 7,
{
    7
}

/// Default for `logging.rotation`.
pub fn default_rotation() -> (r: Rotation)
    ensures
        r == Rotation::Daily,
{
    Rotation::Daily
}

/// Default provider name.
pub fn default_provider() -> (r: String)
    ensures
        r@ == "deepseek"@,
{
    String::from_str("deepseek")
}

/// Default model name.
pub fn default_model() -> (r: String)
    ensures
        r@ == "deepseek-chat"@,
{
    String::from_str("deepseek-chat")
}

/// Default maximum number of response tokens.
pub fn default_max_tokens() -> (r: u32)
    ensures
        r == 4096,
{
    4096
}

impl Default for CliConfig {
    fn default() -> (r: Self)
        ensures
            r.show_reasoning,
    {
        CliConfig { show_reasoning: default_cli_show_reasoning() }
    }
}

impl Default for SessionConfig {
    fn default() -> (r: Self)
        ensures
            r.database_url is None,
            r.max_sessions == 100,
            r.retention_days == 90,
            r.auto_cleanup,
    {
        SessionConfig {
            database_url: None,
            max_sessions: default_max_sessions(),
            retention_days: default_retention_days(),
            auto_cleanup: default_auto_cleanup(),
        }
    }
}

impl Default for TelegramConfig {
    fn default() -> (r: Self)
        ensures
            r.token is None,
            r.allowed_users@.len() == 0,
            r.max_sessions_per_chat == 10,
            !r.show_reasoning,
    {
        TelegramConfig {
            token: None,
            allowed_users: Vec::new(),
            max_sessions_per_chat: default_max_sessions_per_chat(),
            show_reasoning: default_telegram_show_reasoning(),
        }
    }
}

impl Default for LoggingConfig {
    fn default() -> (r: Self)
        ensures
            r.directory@ == "logs"@,
            r.max_files == 7,
            r.rotation == Rotation::Daily,
    {
        LoggingConfig {
            directory: default_log_directory(),
            max_files: default_max_files(),
            rotation: default_rotation(),
        }
    }
}

impl Default for Config {
    fn default() -> (r: Self)
        ensures
            r.provider@ == "deepseek"@,
            r.api_key is None,
            r.model@ == "deepseek-chat"@,
            r.max_tokens == 4096,
            r.system_prompt is None,
            r.system_prompt_file is None,
            r.session is None,
            r.mcp is None,
            r.telegram is None,
            r.logging is None,
            r.reasoning_effort is None,
            r.cli is None,
    {
        Config {
            provider: default_provider(),
            api_key: None,
            model: default_model(),
            max_tokens: default_max_tokens(),
            system_prompt: None,
            system_prompt_file: None,
            session: None,
            mcp: None,
            telegram: None,
            logging: None,
            reasoning_effort: None,
            cli: None,
        }
    }
}

/// The path of the file to load, by the search order: an explicit path wins (a missing
/// file is then an I/O error); then `./config.toml` when it exists; then the user's
/// config file when it exists; otherwise [`ConfigError::NotFound`].
pub fn choose_config_path(
    explicit: Option<String>,
    local_exists: bool,
    user_config: Option<String>,
    user_exists: bool,
) -> (r: Result<String, ConfigError>)
    ensures
        explicit matches Some(p) ==> r == Ok::<String, ConfigError>(p),
        explicit is None && local_exists ==> (r matches Ok(p) && p@ == "config.toml"@),
        explicit is None && !local_exists ==> (match user_config {
            Some(u) => if user_exists {
                r == Ok::<String, ConfigError>(u)
            } else {
                r == Err::<String, ConfigError>(ConfigError::NotFound)
            },
            None => r == Err::<String, ConfigError>(ConfigError::NotFound),
        }),
{
    match explicit {
        Some(p) => Ok(p),
        None => {
            if local_exists {
                Ok(String::from_str("config.toml"))
            } else {
                match user_config {
                    Some(u) => if user_exists {
                        Ok(u)
                    } else {
                        Err(ConfigError::NotFound)
                    },
                    None => Err(ConfigError::NotFound),
                }
            }
        },
    }
}

impl Config {
    /// The file whose contents should become the system prompt: only when no inline
    /// prompt is set, since an inline `system_prompt` wins.
    pub fn system_prompt_file_to_read(&self) -> (r: Option<String>)
        ensures
            self.system_prompt is Some ==> r is None,
            self.system_prompt is None ==> r == self.system_prompt_file,
    {
        if self.system_prompt.is_some() {
            None
        } else {
            match &self.system_prompt_file {
                Some(p) => Some(p.clone()),
                None => None,
            }
        }
    }

    /// Take the contents of the system prompt file: the trimmed text becomes the system
    /// prompt unless it is empty, which leaves the prompt unset. An inline prompt is kept.
    pub fn apply_system_prompt_text(&mut self, content: &str)
        ensures
            final(self).provider == old(self).provider,
            final(self).api_key == old(self).api_key,
            final(self).model == old(self).model,
            final(self).max_tokens == old(self).max_tokens,
            final(self).system_prompt_file == old(self).system_prompt_file,
            final(self).session == old(self).session,
            final(self).mcp == old(self).mcp,
            final(self).telegram == old(self).telegram,
            final(self).logging == old(self).logging,
            final(self).reasoning_effort == old(self).reasoning_effort,
            final(self).cli == old(self).cli,
            old(self).system_prompt is Some ==> final(self).system_prompt == old(
                self,
            ).system_prompt,
            old(self).system_prompt is None && trim_spec(content@).len() == 0
                ==> final(self).system_prompt is None,
            old(self).system_prompt is None && trim_spec(content@).len() > 0
                ==> (final(self).system_prompt matches Some(p) && p@ == trim_spec(content@)),
    {
        if self.system_prompt.is_none() {
            let trimmed = trim(content);
            if trimmed.unicode_len() > 0 {
                self.system_prompt = Some(trimmed);
            }
        }
    }
}

} // verus!
