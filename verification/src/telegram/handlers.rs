//! Incoming-message logic of the Telegram bot: who may talk to it, which session a chat
//! uses, and how a long reply is cut into messages.

use vstd::prelude::*;
use vstd::string::*;

use crate::chars::{from_chars, to_chars, utf8_len, utf8_len_range};
use crate::message::{Message, Role};
use crate::session::StoredMessage;
use std::collections::HashMap;
use crate::config::{default_max_sessions_per_chat, Config};
use crate::text::{parse_i64, parse_i64_spec, push_i64, signed_decimal};
use crate::telegram::chunk::{
    blank_line_at, fit_chars, fit_prefix, last_blank_line, lemma_fit_chars_le, lemma_last_blank_line_lt,
    lemma_last_blank_line_max,
    lemma_flatten_prepend, lemma_skip_newlines_len, lemma_skip_newlines_skip,
    lemma_strip_newlines_concat, lemma_strip_skip_newlines, skip_newlines, slice_range,
    strings_view, strip_newlines, TELEGRAM_MSG_LIMIT,
};

verus! {

/// The reply sent when the agent or the session store fails.
pub const ERROR_REPLY: &'static str = "Sorry, I encountered an error. Please try again.";

/// Check whether a Telegram user ID is in the allowed users list.
///
/// Returns `false` for an empty list (secure by default).
pub fn is_authorized(user_id: u64, allowed_users: &[u64]) -> (r: bool)
    ensures
        r == allowed_users@.contains(user_id),
        allowed_users@.len() == 0 ==> !r,
{
    let mut i: usize = 0;
    while i < allowed_users.len()
        invariant
            i <= allowed_users@.len(),
            forall|j: int| 0 <= j < i ==> allowed_users@[j] != user_id,
        decreases allowed_users.len() - i,
    {
        if allowed_users[i] == user_id {
            assert(allowed_users@[i as int] == user_id);
            return true;
        }
        i = i + 1;
    }
    false
}

/// The last position before `end` holding `c`.
pub open spec fn last_index_of(s: Seq<char>, c: char, end: int) -> Option<int>
    decreases end,
{
    if end <= 0 || end > s.len() {
        None
    } else if s[end - 1] == c {
        Some(end - 1)
    } else {
        last_index_of(s, c, end - 1)
    }
}

proof fn lemma_last_index_of_bounds(s: Seq<char>, c: char, end: int)
    ensures
        last_index_of(s, c, end) matches Some(q) ==> 0 <= q < end && q < s.len(),
    decreases end,
{
    if end > 0 && end <= s.len() && s[end - 1] != c {
        lemma_last_index_of_bounds(s, c, end - 1);
    }
}

/// Where to cut the slice `s` that fits in one message: after the first newline of the
/// last blank line, else after the last newline, else after the last space.
pub open spec fn plain_split(s: Seq<char>) -> Option<nat> {
    match last_blank_line(s, s.len() as int) {
        Some(p) => Some((p + 1) as nat),
        None => match last_index_of(s, '\n', s.len() as int) {
            Some(q) => Some((q + 1) as nat),
            None => match last_index_of(s, ' ', s.len() as int) {
                Some(q) => Some((q + 1) as nat),
                None => None,
            },
        },
    }
}

proof fn lemma_last_index_of_max(s: Seq<char>, c: char, end: int)
    requires
        end <= s.len(),
    ensures
        last_index_of(s, c, end) matches Some(q) ==> 0 <= q < end && s[q] == c && forall|r: int|
            q < r < end ==> s[r] != c,
        last_index_of(s, c, end) is None ==> forall|r: int| 0 <= r < end ==> s[r] != c,
    decreases end,
{
    if end > 0 && s[end - 1] != c {
        lemma_last_index_of_max(s, c, end - 1);
    }
}

/// Where a piece is cut: after the first newline of its last blank line when it has one;
/// else right after its last newline, so that it ends in a whole line; else after its last
/// space; with none of these it has no split.
pub proof fn lemma_plain_split_cuts(s: Seq<char>)
    ensures
        (exists|p: int| #[trigger] blank_line_at(s, p)) ==> (plain_split(s) matches Some(k)
            && blank_line_at(s, k - 1) && forall|p: int| k <= p ==> !#[trigger] blank_line_at(s, p)),
        (forall|p: int| !#[trigger] blank_line_at(s, p)) && (exists|q: int|
            0 <= q < s.len() && s[q] == '\n') ==> (plain_split(s) matches Some(k) && 1 <= k
            <= s.len() && s[k - 1] == '\n' && forall|q: int| k <= q < s.len() ==> s[q] != '\n'),
        (forall|q: int| 0 <= q < s.len() ==> s[q] != '\n') && (exists|q: int|
            0 <= q < s.len() && s[q] == ' ') ==> (plain_split(s) matches Some(k) && 1 <= k
            <= s.len() && s[k - 1] == ' ' && forall|q: int| k <= q < s.len() ==> s[q] != ' '),
        (forall|q: int| 0 <= q < s.len() ==> s[q] != '\n' && s[q] != ' ') ==> plain_split(s) is None,
{
    let n = s.len() as int;
    lemma_last_blank_line_max(s, n);
    crate::telegram::chunk::lemma_last_blank_line_props(s, n);
    lemma_last_index_of_max(s, '\n', n);
    lemma_last_index_of_max(s, ' ', n);
    match last_blank_line(s, n) {
        Some(f) => {
            assert(blank_line_at(s, f));
        },
        None => {
            if exists|p: int| #[trigger] blank_line_at(s, p) {
                let p = choose|p: int| #[trigger] blank_line_at(s, p);
                assert(p + 2 <= n);
            }
        },
    }
}

/// Where the next message is cut from `rem`: at the split of the longest prefix that fits
/// in 4096 bytes, or, when that prefix has no split, at its end (the last character
/// boundary at or below 4096 bytes).
pub open spec fn message_cut(rem: Seq<char>) -> nat {
    let k = fit_chars(rem, TELEGRAM_MSG_LIMIT as nat);
    match plain_split(rem.take(k as int)) {
        Some(p) => p,
        None => k,
    }
}

proof fn lemma_fit_chars_pos(s: Seq<char>, budget: nat)
    requires
        s.len() > 0,
        utf8_len(s.take(1)) <= budget,
    ensures
        fit_chars(s, budget) >= 1,
    decreases s.len(),
{
    if utf8_len(s) > budget {
        if s.len() == 1 {
            assert(s.take(1) =~= s);
        }
        assert(s.drop_last().take(1) =~= s.take(1));
        lemma_fit_chars_pos(s.drop_last(), budget);
    }
}

/// A cut takes at least one character and no more than there are.
pub proof fn lemma_message_cut_bounds(rem: Seq<char>)
    requires
        rem.len() > 0,
    ensures
        1 <= message_cut(rem) <= rem.len(),
{
    let k = fit_chars(rem, TELEGRAM_MSG_LIMIT as nat);
    lemma_fit_chars_le(rem, TELEGRAM_MSG_LIMIT as nat);
    crate::chars::lemma_utf8_len_bounds(rem.take(1));
    lemma_fit_chars_pos(rem, TELEGRAM_MSG_LIMIT as nat);
    let s = rem.take(k as int);
    lemma_last_blank_line_lt(s, s.len() as int);
    lemma_last_index_of_bounds(s, '\n', s.len() as int);
    lemma_last_index_of_bounds(s, ' ', s.len() as int);
}

/// The messages for `rem`.
pub open spec fn message_chunks(rem: Seq<char>) -> Seq<Seq<char>>
    decreases rem.len(),
{
    if utf8_len(rem) <= TELEGRAM_MSG_LIMIT {
        if rem.len() == 0 {
            seq![]
        } else {
            seq![rem]
        }
    } else {
        let k = message_cut(rem);
        proof {
            lemma_message_cut_bounds(rem);
            lemma_skip_newlines_len(rem.skip(k as int));
        }
        seq![rem.take(k as int)] + message_chunks(skip_newlines(rem.skip(k as int)))
    }
}

proof fn lemma_cut_fits(rem: Seq<char>)
    requires
        rem.len() > 0,
    ensures
        utf8_len(rem.take(message_cut(rem) as int)) <= TELEGRAM_MSG_LIMIT,
{
    let kf = fit_chars(rem, TELEGRAM_MSG_LIMIT as nat);
    lemma_fit_chars_le(rem, TELEGRAM_MSG_LIMIT as nat);
    let s = rem.take(kf as int);
    lemma_last_blank_line_lt(s, s.len() as int);
    lemma_last_index_of_bounds(s, '\n', s.len() as int);
    lemma_last_index_of_bounds(s, ' ', s.len() as int);
    let k = message_cut(rem);
    if k <= kf {
        crate::chars::lemma_utf8_len_take_mono(rem, k as int, kf as int);
    }
}

/// Every message a long text is cut into fits in 4096 bytes and is not empty.
pub proof fn lemma_message_chunks_fit(rem: Seq<char>)
    ensures
        forall|i: int|
            0 <= i < message_chunks(rem).len() ==> utf8_len(#[trigger] message_chunks(rem)[i])
                <= TELEGRAM_MSG_LIMIT && message_chunks(rem)[i].len() > 0,
    decreases rem.len(),
{
    if utf8_len(rem) > TELEGRAM_MSG_LIMIT {
        let k = message_cut(rem);
        lemma_message_cut_bounds(rem);
        lemma_cut_fits(rem);
        lemma_skip_newlines_len(rem.skip(k as int));
        let next = skip_newlines(rem.skip(k as int));
        lemma_message_chunks_fit(next);
        let rest = message_chunks(next);
        let cs = seq![rem.take(k as int)] + rest;
        assert(cs == message_chunks(rem));
        assert forall|i: int| 0 <= i < cs.len() implies utf8_len(#[trigger] cs[i])
            <= TELEGRAM_MSG_LIMIT && cs[i].len() > 0 by {
            if i > 0 {
                assert(cs[i] == rest[i - 1]);
            }
        }
    }
}

/// Every message a reply is sent as fits in Telegram's 4096-byte limit.
pub proof fn lemma_chunk_message_fits(text: Seq<char>)
    ensures
        forall|i: int|
            0 <= i < chunk_message_spec(text).len() ==> utf8_len(
                #[trigger] chunk_message_spec(text)[i],
            ) <= TELEGRAM_MSG_LIMIT,
{
    lemma_message_chunks_fit(text);
}

/// The messages of a long text, joined, give the text back but for newlines.
proof fn lemma_message_chunks_keep_text(rem: Seq<char>)
    ensures
        strip_newlines(message_chunks(rem).flatten()) == strip_newlines(rem),
        (forall|q: int| 0 <= q < rem.len() ==> rem[q] != '\n') ==> message_chunks(rem).flatten()
            == rem,
    decreases rem.len(),
{
    if utf8_len(rem) <= TELEGRAM_MSG_LIMIT {
        if rem.len() == 0 {
            assert(Seq::<Seq<char>>::empty().flatten() =~= rem);
        } else {
            lemma_flatten_prepend(rem, seq![]);
            assert(rem + Seq::<Seq<char>>::empty().flatten() =~= rem);
            assert(seq![rem] =~= seq![rem] + Seq::<Seq<char>>::empty());
        }
    } else {
        let k = message_cut(rem);
        lemma_message_cut_bounds(rem);
        lemma_skip_newlines_len(rem.skip(k as int));
        let next = skip_newlines(rem.skip(k as int));
        lemma_message_chunks_keep_text(next);
        let rest = message_chunks(next);
        lemma_flatten_prepend(rem.take(k as int), rest);
        lemma_strip_newlines_concat(rem.take(k as int), rest.flatten());
        lemma_strip_skip_newlines(rem.skip(k as int));
        lemma_strip_newlines_concat(rem.take(k as int), rem.skip(k as int));
        assert(rem.take(k as int) + rem.skip(k as int) =~= rem);
        if forall|q: int| 0 <= q < rem.len() ==> rem[q] != '\n' {
            lemma_skip_newlines_skip(rem, k as int, k as int);
            assert(rem.skip(k as int).skip(0) =~= rem.skip(k as int));
            assert(next == rem.skip(k as int));
            assert forall|q: int| 0 <= q < next.len() implies next[q] != '\n' by {
                assert(next[q] == rem[k + q]);
            }
        }
    }
}

/// A reply loses nothing when it is cut into messages: joined, they give it back but for
/// the newlines dropped at the cuts; a reply without newlines comes back exactly.
pub proof fn lemma_chunk_message_keeps_text(text: Seq<char>)
    ensures
        strip_newlines(chunk_message_spec(text).flatten()) == strip_newlines(text),
        (forall|q: int| 0 <= q < text.len() ==> text[q] != '\n') ==> chunk_message_spec(
            text,
        ).flatten() == text,
{
    if utf8_len(text) <= TELEGRAM_MSG_LIMIT {
        lemma_flatten_prepend(text, seq![]);
        assert(text + Seq::<Seq<char>>::empty().flatten() =~= text);
        assert(seq![text] =~= seq![text] + Seq::<Seq<char>>::empty());
    } else {
        lemma_message_chunks_keep_text(text);
    }
}

/// The messages a reply is sent as: the text itself when it fits in 4096 bytes, else the
/// pieces cut at paragraph, line or word boundaries (or at the last character boundary
/// within 4096 bytes), leading newlines dropped from each piece after the first.
pub open spec fn chunk_message_spec(text: Seq<char>) -> Seq<Seq<char>> {
    if utf8_len(text) <= TELEGRAM_MSG_LIMIT {
        seq![text]
    } else {
        message_chunks(text)
    }
}

fn last_index_exec(v: &[char], c: char) -> (r: Option<usize>)
    ensures
        r matches Some(q) ==> last_index_of(v@, c, v@.len() as int) == Some(q as int),
        r is None ==> last_index_of(v@, c, v@.len() as int) is None,
{
    let mut end: usize = v.len();
    while end > 0
        invariant
            end <= v@.len(),
            last_index_of(v@, c, v@.len() as int) == last_index_of(v@, c, end as int),
        decreases end,
    {
        if v[end - 1] == c {
            return Some(end - 1);
        }
        end = end - 1;
    }
    None
}

fn last_blank_line_exec(v: &[char]) -> (r: Option<usize>)
    ensures
        r matches Some(p) ==> last_blank_line(v@, v@.len() as int) == Some(p as int),
        r is None ==> last_blank_line(v@, v@.len() as int) is None,
{
    let mut p: usize = v.len();
    while p >= 2 && !(v[p - 2] == '\n' && v[p - 1] == '\n')
        invariant
            p <= v@.len(),
            last_blank_line(v@, v@.len() as int) == last_blank_line(v@, p as int),
        decreases p,
    {
        p = p - 1;
    }
    if p < 2 {
        None
    } else {
        Some(p - 2)
    }
}

fn plain_split_exec(v: &[char]) -> (r: Option<usize>)
    ensures
        r matches Some(k) ==> plain_split(v@) == Some(k as nat),
        r is None ==> plain_split(v@) is None,
{
    let _len = v.len();
    proof {
        lemma_last_blank_line_lt(v@, v@.len() as int);
        lemma_last_index_of_bounds(v@, '\n', v@.len() as int);
        lemma_last_index_of_bounds(v@, ' ', v@.len() as int);
    }
    match last_blank_line_exec(v) {
        Some(p) => Some(p + 1),
        None => match last_index_exec(v, '\n') {
            Some(q) => Some(q + 1),
            None => match last_index_exec(v, ' ') {
                Some(q) => Some(q + 1),
                None => None,
            },
        },
    }
}

/// Split a message into chunks that fit within Telegram's 4096-byte limit.
///
/// Splitting priority: paragraph boundaries (`\n\n`), newlines, spaces, and a hard split
/// at the last character boundary within the limit as a last resort.
pub fn chunk_message(text: &str) -> (r: Vec<String>)
    ensures
        strings_view(r@) == chunk_message_spec(text@),
{
    let v = to_chars(text);
    let n = v.len();
    let total = utf8_len_range(v.as_slice(), 0, n);
    assert(v@.subrange(0, n as int) =~= v@);
    let limit = TELEGRAM_MSG_LIMIT as u128;
    assert(limit == TELEGRAM_MSG_LIMIT as nat);
    if total <= limit {
        let mut one: Vec<String> = Vec::new();
        one.push(from_chars(v.as_slice()));
        assert(strings_view(one@) =~= seq![text@]);
        return one;
    }
    let mut chunks: Vec<String> = Vec::new();
    let mut start: usize = 0;
    assert(v@.skip(0) =~= v@);
    assert(strings_view(chunks@) =~= Seq::<Seq<char>>::empty());
    assert(Seq::<Seq<char>>::empty() + message_chunks(v@) =~= message_chunks(v@));
    loop
        invariant
            start <= n == v@.len(),
            v@ == text@,
            utf8_len(text@) > TELEGRAM_MSG_LIMIT,
            limit == TELEGRAM_MSG_LIMIT as nat,
            strings_view(chunks@) + message_chunks(v@.skip(start as int)) == message_chunks(v@),
        decreases n - start,
    {
        let ghost rem = v@.skip(start as int);
        let ghost before = strings_view(chunks@);
        let r = utf8_len_range(v.as_slice(), start, n);
        assert(v@.subrange(start as int, n as int) =~= rem);
        if r <= limit {
            if start < n {
                let rest = slice_range(v.as_slice(), start, n);
                chunks.push(from_chars(rest.as_slice()));
                assert(strings_view(chunks@) =~= before + seq![rem]);
                assert(message_chunks(rem) == seq![rem]);
            } else {
                assert(rem =~= Seq::<char>::empty());
                assert(message_chunks(rem) == Seq::<Seq<char>>::empty());
                assert(before + Seq::<Seq<char>>::empty() =~= before);
            }
            return chunks;
        }
        let k = fit_prefix(v.as_slice(), start, limit);
        let slice = slice_range(v.as_slice(), start, start + k);
        assert(slice@ =~= rem.take(k as int));
        let cut: usize = match plain_split_exec(slice.as_slice()) {
            Some(p) => p,
            None => k,
        };
        proof {
            lemma_message_cut_bounds(rem);
        }
        let piece = slice_range(v.as_slice(), start, start + cut);
        assert(piece@ =~= rem.take(cut as int));
        chunks.push(from_chars(piece.as_slice()));
        assert(strings_view(chunks@) =~= before + seq![rem.take(cut as int)]);
        let mut next = start + cut;
        while next < n && v[next] == '\n'
            invariant
                start + cut <= next <= n == v@.len(),
                forall|j: int| start + cut <= j < next ==> #[trigger] v@[j] == '\n',
            decreases n - next,
        {
            next = next + 1;
        }
        proof {
            lemma_skip_newlines_skip(v@, start + cut, next as int);
            assert(rem.skip(cut as int) =~= v@.skip(start + cut));
            let rest = message_chunks(v@.skip(next as int));
            assert(before + seq![rem.take(cut as int)] + rest =~= before + (seq![
                rem.take(cut as int),
            ] + rest));
        }
        start = next;
    }
}

/// `m` has the role `role`, the text `content`, and nothing else.
pub open spec fn plain_message(m: Message, role: Role, content: Seq<char>) -> bool {
    &&& m.role == role
    &&& m.content@ == content
    &&& m.tool_calls is None
    &&& m.tool_call_id is None
    &&& m.reasoning_content is None
}

/// The conversation the agent is given for a chat message: each stored message of the
/// session, by role and text, then the user's new `text`.
pub fn chat_conversation(stored: &[StoredMessage], text: &str) -> (r: Vec<Message>)
    ensures
        r@.len() == stored@.len() + 1,
        forall|i: int|
            0 <= i < stored@.len() ==> plain_message(
                #[trigger] r@[i],
                stored@[i].role,
                stored@[i].content@,
            ),
        plain_message(r@[stored@.len() as int], Role::User, text@),
{
    let mut out: Vec<Message> = Vec::new();
    let mut i: usize = 0;
    while i < stored.len()
        invariant
            i <= stored@.len(),
            out@.len() == i,
            forall|j: int|
                0 <= j < i ==> plain_message(#[trigger] out@[j], stored@[j].role, stored@[j].content@),
        decreases stored.len() - i,
    {
        out.push(Message::new(stored[i].role, stored[i].content.as_str()));
        i = i + 1;
    }
    out.push(Message::new(Role::User, text));
    out
}

/// The active session of `chat_id` in the chat map, if the chat has one.
pub fn active_session_of(map: &HashMap<i64, ChatSessions>, chat_id: i64) -> (r: Option<u128>)
    ensures
        r == (if map@.contains_key(chat_id) {
            map@[chat_id].active_spec()
        } else {
            None
        }),
{
    broadcast use vstd::std_specs::hash::group_hash_axioms;

    match map.get(&chat_id) {
        Some(cs) => cs.active_session_id(),
        None => None,
    }
}

/// Whether the configuration lets a Telegram user talk to the bot: only users listed in
/// `telegram.allowed_users`; without a `[telegram]` section nobody is allowed.
pub fn config_allows(user_id: u64, config: &Config) -> (r: bool)
    ensures
        r == (config.telegram matches Some(t) && t.allowed_users@.contains(user_id)),
{
    match &config.telegram {
        Some(t) => is_authorized(user_id, t.allowed_users.as_slice()),
        None => false,
    }
}

/// The most sessions a chat keeps: `telegram.max_sessions_per_chat`, or 10 without a
/// `[telegram]` section.
pub fn chat_session_cap(config: &Config) -> (r: u32)
    ensures
        config.telegram matches Some(t) ==> r == t.max_sessions_per_chat,
        config.telegram is None ==> r == 10,
{
    match &config.telegram {
        Some(t) => t.max_sessions_per_chat,
        None => default_max_sessions_per_chat(),
    }
}

/// Per-chat session state: ordered list of session ids and the active session index.
///
/// Sessions are ordered most recent first, matching the 1-based index used in `/list`,
/// `/switch` and `/delete`.
#[derive(Debug, Clone)]
pub struct ChatSessions {
    /// Session ids of this chat, most recent first; new sessions are put in front.
    pub sessions: Vec<u128>,
    /// Index into `sessions` of the active session.
    pub active_idx: usize,
}

/// What became of the active session when a session was deleted.
#[derive(Debug, Clone, Copy, PartialEq, Eq, Structural)]
pub enum DeleteOutcome {
    /// No session is left.
    Emptied,
    /// The active session was deleted; the first one is active now.
    SwitchedToFirst,
    /// Another session was deleted; the active one stays active.
    Kept,
}

/// The first position of `id` in `s`.
pub open spec fn position_of(s: Seq<u128>, id: u128) -> Option<int>
    decreases s.len(),
{
    if s.len() == 0 {
        None
    } else {
        match position_of(s.drop_last(), id) {
            Some(p) => Some(p),
            None => if s.last() == id {
                Some(s.len() - 1)
            } else {
                None
            },
        }
    }
}

proof fn lemma_position_of(s: Seq<u128>, id: u128)
    ensures
        position_of(s, id) matches Some(p) ==> 0 <= p < s.len() && s[p] == id && forall|j: int|
            0 <= j < p ==> s[j] != id,
        position_of(s, id) is None ==> !s.contains(id),
    decreases s.len(),
{
    if s.len() > 0 {
        let d = s.drop_last();
        lemma_position_of(d, id);
        match position_of(d, id) {
            Some(p) => {
                assert(s[p] == d[p]);
                assert forall|j: int| 0 <= j < p implies s[j] != id by {
                    assert(s[j] == d[j]);
                }
            },
            None => {
                assert forall|j: int| 0 <= j < s.len() - 1 implies s[j] != id by {
                    assert(s[j] == d[j]);
                    if s[j] == id {
                        assert(d.contains(id));
                    }
                }
                if s.last() != id {
                    assert forall|j: int| 0 <= j < s.len() implies s[j] != id by {
                        if j < s.len() - 1 {
                            assert(s[j] == d[j]);
                        }
                    }
                }
            },
        }
    }
}

fn position_exec(s: &Vec<u128>, id: u128) -> (r: Option<usize>)
    ensures
        r matches Some(p) ==> position_of(s@, id) == Some(p as int),
        r is None ==> position_of(s@, id) is None,
{
    let mut i: usize = 0;
    while i < s.len()
        invariant
            i <= s@.len(),
            position_of(s@.take(i as int), id) is None,
        decreases s.len() - i,
    {
        assert(s@.take(i + 1).drop_last() =~= s@.take(i as int));
        if s[i] == id {
            proof {
                assert(position_of(s@.take(i + 1), id) == Some(i as int));
                lemma_position_prefix(s@, id, i + 1);
            }
            return Some(i);
        }
        i = i + 1;
    }
    assert(s@.take(s@.len() as int) =~= s@);
    None
}

proof fn lemma_position_prefix(s: Seq<u128>, id: u128, k: int)
    requires
        0 <= k <= s.len(),
        position_of(s.take(k), id) is Some,
    ensures
        position_of(s, id) == position_of(s.take(k), id),
    decreases s.len(),
{
    if k < s.len() {
        assert(s.drop_last().take(k) =~= s.take(k));
        lemma_position_prefix(s.drop_last(), id, k);
    } else {
        assert(s.take(k) =~= s);
    }
}

/// The sessions of a chat once the oldest (the last) has made room under a cap of `max`:
/// it goes when the chat already holds `max` or more.
pub open spec fn after_eviction(s: Seq<u128>, max: nat) -> Seq<u128> {
    if s.len() >= max && s.len() > 0 {
        s.drop_last()
    } else {
        s
    }
}

/// Starting a session keeps a chat within its cap: once the oldest session has made room
/// and the new one is put in front, the chat holds at most `max` sessions, the new one
/// first; below the cap no session is lost, at the cap exactly the oldest one is.
pub proof fn lemma_new_session_within_cap(s: Seq<u128>, max: nat, id: u128)
    requires
        1 <= max,
        s.len() <= max,
    ensures
        (seq![id] + after_eviction(s, max)).len() <= max,
        (seq![id] + after_eviction(s, max))[0] == id,
        s.len() < max ==> after_eviction(s, max) == s,
        s.len() == max ==> after_eviction(s, max) == s.drop_last(),
{
}

impl ChatSessions {
    /// A chat with the single session `id`, active.
    pub fn new(id: u128) -> (r: ChatSessions)
        ensures
            r.sessions@ == seq![id],
            r.active_idx == 0,
    {
        let mut sessions: Vec<u128> = Vec::new();
        sessions.push(id);
        ChatSessions { sessions, active_idx: 0 }
    }

    /// The active index points at a session, or there are none and it is zero.
    pub open spec fn well_formed(&self) -> bool {
        if self.sessions@.len() == 0 {
            self.active_idx == 0
        } else {
            self.active_idx < self.sessions@.len()
        }
    }

    /// The active session, if the active index points at one.
    pub open spec fn active_spec(&self) -> Option<u128> {
        if self.active_idx < self.sessions@.len() {
            Some(self.sessions@[self.active_idx as int])
        } else {
            None
        }
    }

    /// Return the currently active session id, or `None` if there is none.
    pub fn active_session_id(&self) -> (r: Option<u128>)
        ensures
            r == self.active_spec(),
    {
        if self.active_idx < self.sessions.len() {
            Some(self.sessions[self.active_idx])
        } else {
            None
        }
    }

    /// Make room for a new session: when the chat holds `max_sessions` or more, the
    /// oldest (last) session is removed and returned.
    pub fn evict_oldest(&mut self, max_sessions: usize) -> (r: Option<u128>)
        ensures
            final(self).sessions@ == after_eviction(old(self).sessions@, max_sessions as nat),
            old(self).sessions@.len() >= max_sessions && old(self).sessions@.len() > 0 ==> r == Some(
                old(self).sessions@.last(),
            ),
            !(old(self).sessions@.len() >= max_sessions && old(self).sessions@.len() > 0) ==> r is None,
            final(self).active_idx == old(self).active_idx,
    {
        if self.sessions.len() >= max_sessions && self.sessions.len() > 0 {
            self.sessions.pop()
        } else {
            None
        }
    }

    /// Put a new session in front and make it active.
    pub fn add_new(&mut self, id: u128)
        ensures
            final(self).sessions@ == seq![id] + old(self).sessions@,
            final(self).active_idx == 0,
            final(self).active_spec() == Some(id),
            final(self).well_formed(),
    {
        self.sessions.insert(0, id);
        self.active_idx = 0;
        assert(self.sessions@ =~= seq![id] + old(self).sessions@);
    }

    /// Make `target` the active session, if the chat has it.
    pub fn select(&mut self, target: u128) -> (r: bool)
        ensures
            final(self).sessions@ == old(self).sessions@,
            r == old(self).sessions@.contains(target),
            r ==> final(self).active_spec() == Some(target) && final(self).well_formed(),
            !r ==> final(self).active_idx == old(self).active_idx,
    {
        proof {
            lemma_position_of(self.sessions@, target);
        }
        match position_exec(&self.sessions, target) {
            Some(p) => {
                self.active_idx = p;
                true
            },
            None => false,
        }
    }

    /// Remove the session `target`. When it was the active one, the first remaining
    /// session becomes active; when a session before the active one goes, the active index
    /// moves down with it.
    pub fn remove_session(&mut self, target: u128) -> (r: DeleteOutcome)
        requires
            old(self).well_formed(),
        ensures
            final(self).sessions@ == (match position_of(old(self).sessions@, target) {
                Some(p) => old(self).sessions@.remove(p),
                None => old(self).sessions@,
            }),
            final(self).sessions@.len() == 0 <==> r == DeleteOutcome::Emptied,
            r == DeleteOutcome::SwitchedToFirst <==> (final(self).sessions@.len() > 0
                && position_of(old(self).sessions@, target) == Some(old(self).active_idx as int)),
            r == DeleteOutcome::SwitchedToFirst ==> final(self).active_idx == 0,
            r == DeleteOutcome::Kept ==> final(self).active_spec() == old(self).active_spec(),
            r != DeleteOutcome::Emptied ==> final(self).well_formed(),
    {
        proof {
            lemma_position_of(self.sessions@, target);
        }
        let pos = position_exec(&self.sessions, target);
        let was_active = match pos {
            Some(p) => p == self.active_idx,
            None => false,
        };
        match pos {
            Some(p) => {
                self.sessions.remove(p);
            },
            None => {},
        }
        if self.sessions.len() == 0 {
            DeleteOutcome::Emptied
        } else if was_active {
            self.active_idx = 0;
            DeleteOutcome::SwitchedToFirst
        } else {
            match pos {
                Some(p) => {
                    if p < self.active_idx {
                        self.active_idx = self.active_idx - 1;
                    }
                },
                None => {},
            }
            DeleteOutcome::Kept
        }
    }
}

/// The name of the session a chat's messages go to: `tg:<chat_id>`.
pub open spec fn tg_session_name_spec(chat_id: i64) -> Seq<char> {
    "tg:"@ + signed_decimal(chat_id as int)
}

/// The name given to sessions created for a Telegram chat.
pub fn tg_session_name(chat_id: i64) -> (r: String)
    ensures
        r@ == tg_session_name_spec(chat_id),
{
    let mut s = String::from_str("tg:");
    push_i64(&mut s, chat_id);
    s
}

/// The chat a session name belongs to: the number after `tg:`, when there is one.
pub open spec fn chat_of_name(name: Seq<char>) -> Option<i64> {
    if name.len() >= 3 && name.take(3) == "tg:"@ {
        parse_i64_spec(name.skip(3))
    } else {
        None
    }
}

/// The chat a session name belongs to, if it follows the `tg:<chat_id>` convention.
pub fn chat_id_of_session_name(name: &str) -> (r: Option<i64>)
    ensures
        r == chat_of_name(name@),
{
    let v = to_chars(name);
    proof {
        reveal_strlit("tg:");
    }
    if v.len() >= 3 && v[0] == 't' && v[1] == 'g' && v[2] == ':' {
        assert(v@.take(3) =~= "tg:"@);
        let rest = from_chars(slice_range(v.as_slice(), 3, v.len()).as_slice());
        assert(rest@ =~= v@.skip(3));
        parse_i64(rest.as_str())
    } else {
        proof {
            if v@.len() >= 3 {
                assert(v@.take(3)[0] == v@[0] && v@.take(3)[1] == v@[1] && v@.take(3)[2] == v@[2]);
            }
        }
        None
    }
}

/// The chat of a session named for a chat is that chat.
pub proof fn lemma_session_name_round_trip(chat_id: i64)
    ensures
        chat_of_name(tg_session_name_spec(chat_id)) == Some(chat_id),
{
    let name = tg_session_name_spec(chat_id);
    reveal_strlit("tg:");
    assert(name.take(3) =~= "tg:"@);
    assert(name.skip(3) =~= signed_decimal(chat_id as int));
    crate::text::lemma_parse_signed_decimal(chat_id);
}

} // verus!
