//! Provider selection: which provider a configuration names, where its API key comes from,
//! and how DeepSeek's reasoning mode is set up.

use vstd::prelude::*;
use vstd::string::*;

use crate::chars::{concat, str_eq};
use crate::config::Config;
use crate::provider::anthropic::AnthropicProvider;
use crate::provider::openai_compat::{OpenAiCompatProvider, ReasoningSettings};
use crate::provider::ProviderError;

verus! {

/// The DeepSeek Chat Completions endpoint.
pub const DEEPSEEK_API_ENDPOINT: &'static str = "https://api.deepseek.com/chat/completions";

/// The OpenAI Chat Completions endpoint.
pub const OPENAI_API_ENDPOINT: &'static str = "https://api.openai.com/v1/chat/completions";

/// The DeepSeek model that supports thinking mode.
pub const REASONING_MODEL: &'static str = "deepseek-v4-pro";

/// The reasoning effort used when none is given.
pub const DEFAULT_REASONING_EFFORT: &'static str = "high";

/// Whether `model` supports DeepSeek's thinking mode (an exact match).
pub fn is_reasoning_model(model: &str) -> (r: bool)
    ensures
        r == (model@ == REASONING_MODEL@),
{
    str_eq(model, REASONING_MODEL)
}

/// DeepSeek: the OpenAI-compatible format at DeepSeek's endpoint.
#[derive(Debug, Clone)]
pub struct DeepSeekProvider(pub OpenAiCompatProvider);

impl DeepSeekProvider {
    /// Settings for DeepSeek; a reasoning model gets thinking mode with the given effort,
    /// `high` by default.
    pub fn new(api_key: &str, model: &str, max_tokens: u32, reasoning_effort: Option<String>) -> (r:
        DeepSeekProvider)
        ensures
            r.0.base_url@ == DEEPSEEK_API_ENDPOINT@,
            r.0.api_key@ == api_key@,
            r.0.model@ == model@,
            r.0.max_tokens == max_tokens,
            model@ != REASONING_MODEL@ ==> r.0.reasoning is None,
            model@ == REASONING_MODEL@ ==> (r.0.reasoning matches Some(s) && s.effort@ == (match reasoning_effort {
                Some(e) => e@,
                None => DEFAULT_REASONING_EFFORT@,
            })),
    {
        let mut inner = OpenAiCompatProvider::new(DEEPSEEK_API_ENDPOINT, api_key, model, max_tokens);
        if is_reasoning_model(model) {
            let effort = match reasoning_effort {
                Some(e) => e,
                None => String::from_str(DEFAULT_REASONING_EFFORT),
            };
            inner = inner.with_reasoning(ReasoningSettings { effort });
        }
        DeepSeekProvider(inner)
    }
}

/// OpenAI: the OpenAI-compatible format at OpenAI's endpoint.
#[derive(Debug, Clone)]
pub struct OpenAiProvider(pub OpenAiCompatProvider);

impl OpenAiProvider {
    /// Settings for OpenAI.
    pub fn new(api_key: &str, model: &str, max_tokens: u32) -> (r: OpenAiProvider)
        ensures
            r.0.base_url@ == OPENAI_API_ENDPOINT@,
            r.0.api_key@ == api_key@,
            r.0.model@ == model@,
            r.0.max_tokens == max_tokens,
            r.0.reasoning is None,
    {
        OpenAiProvider(OpenAiCompatProvider::new(OPENAI_API_ENDPOINT, api_key, model, max_tokens))
    }
}

/// The providers a configuration can name.
#[derive(Debug, Clone, Copy, PartialEq, Eq, Structural)]
pub enum ProviderKind {
    DeepSeek,
    Anthropic,
    OpenAi,
}

/// The provider a name stands for.
pub open spec fn provider_kind_spec(name: Seq<char>) -> Option<ProviderKind> {
    if name == "deepseek"@ {
        Some(ProviderKind::DeepSeek)
    } else if name == "anthropic"@ {
        Some(ProviderKind::Anthropic)
    } else if name == "openai"@ {
        Some(ProviderKind::OpenAi)
    } else {
        None
    }
}

/// The provider a name stands for, or `UnknownProvider` with the name.
pub fn provider_kind(name: &str) -> (r: Result<ProviderKind, ProviderError>)
    ensures
        match provider_kind_spec(name@) {
            Some(k) => r == Ok::<ProviderKind, ProviderError>(k),
            None => r matches Err(ProviderError::UnknownProvider(n)) && n@ == name@,
        },
{
    if str_eq(name, "deepseek") {
        Ok(ProviderKind::DeepSeek)
    } else if str_eq(name, "anthropic") {
        Ok(ProviderKind::Anthropic)
    } else if str_eq(name, "openai") {
        Ok(ProviderKind::OpenAi)
    } else {
        Err(ProviderError::UnknownProvider(String::from_str(name)))
    }
}

/// The environment variable holding a provider's API key.
pub open spec fn api_key_env_var_spec(kind: ProviderKind) -> Seq<char> {
    match kind {
        ProviderKind::DeepSeek => "DEEPSEEK_API_KEY"@,
        ProviderKind::Anthropic => "ANTHROPIC_API_KEY"@,
        ProviderKind::OpenAi => "OPENAI_API_KEY"@,
    }
}

/// The environment variable holding a provider's API key.
pub fn api_key_env_var(kind: ProviderKind) -> (r: &'static str)
    ensures
        r@ == api_key_env_var_spec(kind),
{
    match kind {
        ProviderKind::DeepSeek => "DEEPSEEK_API_KEY",
        ProviderKind::Anthropic => "ANTHROPIC_API_KEY",
        ProviderKind::OpenAi => "OPENAI_API_KEY",
    }
}

/// The API key: the environment variable's value when it is set and not empty, else the
/// configured key, else a `MissingApiKey` error naming the variable.
pub fn get_api_key(kind: ProviderKind, config: &Config, env_value: Option<String>) -> (r: Result<
    String,
    ProviderError,
>)
    ensures
        (env_value matches Some(v) && v@.len() > 0) ==> r == Ok::<String, ProviderError>(env_value->0),
        !(env_value matches Some(v) && v@.len() > 0) ==> match config.api_key {
            Some(k) => r == Ok::<String, ProviderError>(k),
            None => r matches Err(ProviderError::MissingApiKey(m)) && m@ == "Set "@
                + api_key_env_var_spec(kind) + " environment variable or add api_key to config.toml"@,
        },
{
    match env_value {
        Some(v) => {
            if !v.as_str().is_empty() {
                return Ok(v);
            }
        },
        None => {},
    }
    match &config.api_key {
        Some(k) => Ok(k.clone()),
        None => {
            let mut m = String::from_str("Set ");
            m.append(api_key_env_var(kind));
            m.append(" environment variable or add api_key to config.toml");
            Err(ProviderError::MissingApiKey(m))
        },
    }
}

/// The reasoning effort for DeepSeek and whether it was raised automatically: the
/// configured effort; else `max` when MCP tools are configured; else `high`.
pub fn resolve_reasoning_effort(config: &Config) -> (r: (String, bool))
    ensures
        config.reasoning_effort matches Some(e) ==> r.0 == e && !r.1,
        config.reasoning_effort is None && config.mcp is Some ==> r.0@ == "max"@ && r.1,
        config.reasoning_effort is None && config.mcp is None ==> r.0@ == "high"@ && !r.1,
{
    match &config.reasoning_effort {
        Some(e) => (e.clone(), false),
        None => {
            if config.mcp.is_some() {
                (String::from_str("max"), true)
            } else {
                (String::from_str("high"), false)
            }
        },
    }
}

/// The provider a configuration selects, with its settings.
#[derive(Debug, Clone)]
pub enum ProviderChoice {
    DeepSeek(DeepSeekProvider),
    Anthropic(AnthropicProvider),
    OpenAi(OpenAiProvider),
}

/// The API key in use: the variable's value when it is set and not empty, else the
/// configured key.
pub open spec fn resolved_key(config_key: Option<String>, env_value: Option<String>) -> Option<String> {
    if env_value matches Some(v) && v@.len() > 0 {
        env_value
    } else {
        config_key
    }
}

/// The reasoning effort DeepSeek's reasoning model is given: the configured one, else
/// `max` when MCP tools are configured, else `high`.
pub open spec fn resolved_effort(config: Config) -> Seq<char> {
    match config.reasoning_effort {
        Some(e) => e@,
        None => if config.mcp is Some {
            "max"@
        } else {
            "high"@
        },
    }
}

/// Create the provider the configuration names.
///
/// `env_value` is the value of the provider's API key variable (see [`api_key_env_var`]),
/// if it is set. An unknown provider name, and a missing key, are errors.
pub fn create_provider(config: &Config, env_value: Option<String>) -> (r: Result<ProviderChoice, ProviderError>)
    ensures
        provider_kind_spec(config.provider@) is None ==> (r matches Err(ProviderError::UnknownProvider(n))
            && n@ == config.provider@),
        provider_kind_spec(config.provider@) is Some && resolved_key(config.api_key, env_value) is None
            ==> (r matches Err(ProviderError::MissingApiKey(m)) && m@ == "Set "@ + api_key_env_var_spec(
            provider_kind_spec(config.provider@)->0,
        ) + " environment variable or add api_key to config.toml"@),
        provider_kind_spec(config.provider@) == Some(ProviderKind::DeepSeek) && resolved_key(
            config.api_key,
            env_value,
        ) is Some ==> (r matches Ok(ProviderChoice::DeepSeek(p)) && {
            &&& p.0.base_url@ == DEEPSEEK_API_ENDPOINT@
            &&& p.0.api_key@ == resolved_key(config.api_key, env_value)->0@
            &&& p.0.model@ == config.model@
            &&& p.0.max_tokens == config.max_tokens
            &&& config.model@ != REASONING_MODEL@ ==> p.0.reasoning is None
            &&& config.model@ == REASONING_MODEL@ ==> (p.0.reasoning matches Some(st) && st.effort@
                == resolved_effort(*config))
        }),
        provider_kind_spec(config.provider@) == Some(ProviderKind::Anthropic) && resolved_key(
            config.api_key,
            env_value,
        ) is Some ==> (r matches Ok(ProviderChoice::Anthropic(p)) && p.api_key@ == resolved_key(
            config.api_key,
            env_value,
        )->0@ && p.model@ == config.model@),
        provider_kind_spec(config.provider@) == Some(ProviderKind::OpenAi) && resolved_key(
            config.api_key,
            env_value,
        ) is Some ==> (r matches Ok(ProviderChoice::OpenAi(p)) && {
            &&& p.0.base_url@ == OPENAI_API_ENDPOINT@
            &&& p.0.api_key@ == resolved_key(config.api_key, env_value)->0@
            &&& p.0.model@ == config.model@
            &&& p.0.max_tokens == config.max_tokens
            &&& p.0.reasoning is None
        }),
{
    let kind = match provider_kind(config.provider.as_str()) {
        Ok(k) => k,
        Err(e) => {
            return Err(e);
        },
    };
    let api_key = match get_api_key(kind, config, env_value) {
        Ok(k) => k,
        Err(e) => {
            return Err(e);
        },
    };
    match kind {
        ProviderKind::DeepSeek => {
            let (effort, _auto_escalated) = resolve_reasoning_effort(config);
            let p = DeepSeekProvider::new(api_key.as_str(), config.model.as_str(), config.max_tokens, Some(effort));
            Ok(ProviderChoice::DeepSeek(p))
        },
        ProviderKind::Anthropic => {
            Ok(ProviderChoice::Anthropic(AnthropicProvider::new(api_key.as_str(), config.model.as_str())))
        },
        ProviderKind::OpenAi => {
            Ok(ProviderChoice::OpenAi(OpenAiProvider::new(api_key.as_str(), config.model.as_str(), config.max_tokens)))
        },
    }
}

} // verus!
