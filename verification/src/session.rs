//! Sessions and stored messages: what the store keeps of a conversation.
//!
//! Identifiers are UUIDs held as `u128`; times are microseconds since the Unix epoch, UTC.

use vstd::prelude::*;
use vstd::string::*;

use crate::message::Role;

verus! {

/// The version field of a UUID held as a `u128` (the high nibble of its seventh byte).
pub open spec fn uuid_version(id: u128) -> u128 {
    (id >> 76u128) & 0xfu128
}

/// Calls `uuid::Uuid::now_v7` and returns the UUID as a `u128`. The uuid crate documents
/// the result as a version 7 UUID; its value depends on the time and on chance, and
/// nothing more is claimed of it.
#[verifier::external_body]
fn new_uuid_v7() -> (r: u128)
    ensures
        uuid_version(r) == 7,
{
    uuid::Uuid::now_v7().as_u128()
}

/// Calls `chrono::Utc::now` and returns the time as microseconds since the Unix epoch
/// (`timestamp_micros`). The value depends on the clock; nothing is claimed of it.
#[verifier::external_body]
fn now_micros() -> (r: i64) {
    chrono::Utc::now().timestamp_micros()
}

/// The lower-case hexadecimal digit for `d`, which is below sixteen.
pub open spec fn hex_digit(d: u128) -> char {
    if d < 10 {
        (48 + d) as char
    } else {
        (87 + d) as char
    }
}

/// The `i`-th of the 32 hexadecimal digits of `id`, most significant first.
pub open spec fn uuid_digit(id: u128, i: int) -> char {
    hex_digit((id >> ((31 - i) * 4) as u128) & 0xfu128)
}

/// The hexadecimal digits `from..to` of `id`.
pub open spec fn uuid_digits(id: u128, from: int, to: int) -> Seq<char> {
    Seq::new((to - from) as nat, |k: int| uuid_digit(id, from + k))
}

/// The hyphenated lower-case text of a UUID: its 32 hexadecimal digits, most significant
/// first, in groups of 8, 4, 4, 4 and 12 joined by `-`.
pub open spec fn uuid_text(id: u128) -> Seq<char> {
    uuid_digits(id, 0, 8) + seq!['-'] + uuid_digits(id, 8, 12) + seq!['-'] + uuid_digits(id, 12, 16)
        + seq!['-'] + uuid_digits(id, 16, 20) + seq!['-'] + uuid_digits(id, 20, 32)
}

/// Formats a UUID held as a `u128` with `uuid::Uuid::from_u128(id).to_string()`. The
/// contract claims the hyphenated lower-case form that `Display` writes: the big-endian
/// bytes of `id` as 32 hexadecimal digits in groups of 8, 4, 4, 4 and 12.
#[verifier::external_body]
pub(crate) fn uuid_string(id: u128) -> (r: String)
    ensures
        r@ == uuid_text(id),
        r@.len() == 36,
{
    uuid::Uuid::from_u128(id).to_string()
}

/// A time that `chrono` can turn into a date (its range reaches about 262,000 years either
/// side of the common era).
pub open spec fn timestamp_in_range(micros: i64) -> bool {
    -8_000_000_000_000_000_000 <= micros && micros <= 8_000_000_000_000_000_000
}

/// The text `chrono` formats for a UTC time with the pattern `%Y-%m-%d %H:%M`.
pub uninterp spec fn utc_minutes_text(micros: i64) -> Seq<char>;

/// The text `chrono` formats for a UTC time with the pattern `%Y-%m-%d`.
pub uninterp spec fn utc_date_text(micros: i64) -> Seq<char>;

/// Formats a UTC time as `YYYY-MM-DD HH:MM` with `chrono::DateTime::from_timestamp_micros`
/// and `format("%Y-%m-%d %H:%M")`. The contract names the text: the same time always gives
/// the same text. `from_timestamp_micros` succeeds on every time in range.
#[verifier::external_body]
pub(crate) fn format_utc_minutes(micros: i64) -> (r: String)
    requires
        timestamp_in_range(micros),
    ensures
        r@ == utc_minutes_text(micros),
{
    match chrono::DateTime::from_timestamp_micros(micros) {
        Some(t) => t.format("%Y-%m-%d %H:%M").to_string(),
        None => String::new(),
    }
}

/// Formats a UTC time as `YYYY-MM-DD` with `chrono::DateTime::from_timestamp_micros` and
/// `format("%Y-%m-%d")`. The contract names the text: the same time always gives the same
/// text. `from_timestamp_micros` succeeds on every time in range.
#[verifier::external_body]
pub(crate) fn format_utc_date(micros: i64) -> (r: String)
    requires
        timestamp_in_range(micros),
    ensures
        r@ == utc_date_text(micros),
{
    match chrono::DateTime::from_timestamp_micros(micros) {
        Some(t) => t.format("%Y-%m-%d").to_string(),
        None => String::new(),
    }
}

/// A conversation session.
#[derive(Debug, Clone, PartialEq)]
pub struct Session {
    /// Unique identifier (a version 7 UUID).
    pub id: u128,
    /// Optional human-readable name.
    pub name: Option<String>,
    /// Provider name (e.g. "deepseek", "anthropic").
    pub provider: String,
    /// Model identifier.
    pub model: String,
    /// Optional system prompt.
    pub system_prompt: Option<String>,
    /// Creation time, microseconds since the Unix epoch.
    pub created_at: i64,
    /// Last update time, microseconds since the Unix epoch.
    pub updated_at: i64,
}

impl Session {
    /// Create a new session for a provider and model, created and updated now.
    pub fn new(provider: &str, model: &str) -> (r: Session)
        ensures
            uuid_version(r.id) == 7,
            r.name is None,
            r.provider@ == provider@,
            r.model@ == model@,
            r.system_prompt is None,
            r.created_at == r.updated_at,
    {
        let now = now_micros();
        Session {
            id: new_uuid_v7(),
            name: None,
            provider: String::from_str(provider),
            model: String::from_str(model),
            system_prompt: None,
            created_at: now,
            updated_at: now,
        }
    }

    /// The same session with a name.
    pub fn with_name(self, name: &str) -> (r: Session)
        ensures
            r.name matches Some(n) && n@ == name@,
            r.id == self.id,
            r.provider == self.provider,
            r.model == self.model,
            r.system_prompt == self.system_prompt,
            r.created_at == self.created_at,
            r.updated_at == self.updated_at,
    {
        Session { name: Some(String::from_str(name)), ..self }
    }

    /// The same session with a system prompt.
    pub fn with_system_prompt(self, prompt: &str) -> (r: Session)
        ensures
            r.system_prompt matches Some(p) && p@ == prompt@,
            r.id == self.id,
            r.name == self.name,
            r.provider == self.provider,
            r.model == self.model,
            r.created_at == self.created_at,
            r.updated_at == self.updated_at,
    {
        Session { system_prompt: Some(String::from_str(prompt)), ..self }
    }
}

/// A session as listed: its metadata, message count and a preview of its first message.
#[derive(Debug, Clone, PartialEq)]
pub struct SessionSummary {
    pub id: u128,
    pub name: Option<String>,
    pub provider: String,
    pub model: String,
    pub created_at: i64,
    pub updated_at: i64,
    pub message_count: u32,
    /// The first user message, when there is one.
    pub preview: Option<String>,
}

impl SessionSummary {
    /// A copy of this summary.
    pub fn duplicate(&self) -> (r: SessionSummary)
        ensures
            r == *self,
    {
        SessionSummary {
            id: self.id,
            name: match &self.name {
                Some(n) => Some(n.clone()),
                None => None,
            },
            provider: self.provider.clone(),
            model: self.model.clone(),
            created_at: self.created_at,
            updated_at: self.updated_at,
            message_count: self.message_count,
            preview: match &self.preview {
                Some(p) => Some(p.clone()),
                None => None,
            },
        }
    }
}

/// A message as stored in a session.
#[derive(Debug, Clone, PartialEq)]
pub struct StoredMessage {
    pub id: u128,
    pub session_id: u128,
    pub role: Role,
    pub content: String,
    /// Tool calls as JSON text.
    pub tool_calls: Option<String>,
    /// Tool results as JSON text.
    pub tool_results: Option<String>,
    /// When the message was stored, microseconds since the Unix epoch.
    pub timestamp: i64,
}

impl StoredMessage {
    /// A new message of `session_id`, stored now.
    pub fn new(session_id: u128, role: Role, content: &str) -> (r: StoredMessage)
        ensures
            uuid_version(r.id) == 7,
            r.session_id == session_id,
            r.role == role,
            r.content@ == content@,
            r.tool_calls is None,
            r.tool_results is None,
    {
        StoredMessage {
            id: new_uuid_v7(),
            session_id,
            role,
            content: String::from_str(content),
            tool_calls: None,
            tool_results: None,
            timestamp: now_micros(),
        }
    }

    /// The same message with tool calls attached.
    pub fn with_tool_calls(self, tool_calls: &str) -> (r: StoredMessage)
        ensures
            r.tool_calls matches Some(t) && t@ == tool_calls@,
            r.id == self.id,
            r.session_id == self.session_id,
            r.role == self.role,
            r.content == self.content,
            r.tool_results == self.tool_results,
            r.timestamp == self.timestamp,
    {
        StoredMessage { tool_calls: Some(String::from_str(tool_calls)), ..self }
    }

    /// The same message with tool results attached.
    pub fn with_tool_results(self, tool_results: &str) -> (r: StoredMessage)
        ensures
            r.tool_results matches Some(t) && t@ == tool_results@,
            r.id == self.id,
            r.session_id == self.session_id,
            r.role == self.role,
            r.content == self.content,
            r.tool_calls == self.tool_calls,
            r.timestamp == self.timestamp,
    {
        StoredMessage { tool_results: Some(String::from_str(tool_results)), ..self }
    }
}

} // verus!
