//! LLM provider logic: errors, stream events, provider selection and wire formats.

use vstd::prelude::*;

pub mod anthropic;
pub mod factory;
pub mod mock;
pub mod openai_compat;

pub use anthropic::AnthropicProvider;
pub use factory::{create_provider, DeepSeekProvider, OpenAiProvider};
pub use mock::MockProvider;

use crate::chars::concat;

verus! {

/// Error type for provider operations.
#[derive(Debug, Clone, PartialEq)]
pub enum ProviderError {
    /// The provider returned an error response.
    ProviderError {
        /// The error message from the provider.
        message: String,
    },
    /// Request failed due to network or connection issues.
    RequestFailed(String),
    /// Authentication failed.
    AuthenticationError(String),
    /// API key not configured.
    MissingApiKey(String),
    /// Unknown provider name in configuration.
    UnknownProvider(String),
}

/// The text shown for a provider error.
pub open spec fn provider_error_text(e: ProviderError) -> Seq<char> {
    match e {
        ProviderError::ProviderError { message } => "provider error: "@ + message@,
        ProviderError::RequestFailed(m) => "request failed: "@ + m@,
        ProviderError::AuthenticationError(m) => "authentication failed: "@ + m@,
        ProviderError::MissingApiKey(m) => "missing API key: "@ + m@,
        ProviderError::UnknownProvider(m) => "unknown provider: "@ + m@,
    }
}

impl ProviderError {
    /// The human-readable description of this error.
    pub fn to_string(&self) -> (r: String)
        ensures
            r@ == provider_error_text(*self),
    {
        match self {
            ProviderError::ProviderError { message } => concat("provider error: ", message.as_str()),
            ProviderError::RequestFailed(m) => concat("request failed: ", m.as_str()),
            ProviderError::AuthenticationError(m) => concat("authentication failed: ", m.as_str()),
            ProviderError::MissingApiKey(m) => concat("missing API key: ", m.as_str()),
            ProviderError::UnknownProvider(m) => concat("unknown provider: ", m.as_str()),
        }
    }
}

/// Events emitted while a response streams in.
#[derive(Debug, Clone, PartialEq)]
pub enum StreamEvent {
    /// A fragment of the user-visible answer.
    TextDelta(String),
    /// A fragment of chain-of-thought reasoning.
    ReasoningDelta(String),
    /// The stream is complete.
    Done,
}

} // verus!
