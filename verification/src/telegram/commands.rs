//! The logic of the bot's slash commands: history and session listings, argument parsing,
//! keyboard buttons and the replies to `/new`, `/switch` and `/delete`.

use vstd::prelude::*;
use vstd::string::*;

use crate::chars::{from_chars, to_chars};
use crate::message::Role;
use crate::session::{
    format_utc_date, format_utc_minutes, timestamp_in_range, utc_date_text, utc_minutes_text,
    SessionSummary, StoredMessage,
};
use crate::telegram::chunk::slice_range;
use crate::telegram::handlers::DeleteOutcome;
use crate::text::{
    decimal, parse_usize, parse_usize_spec, push_decimal, trim, trim_spec, truncate,
    truncate_spec,
};

verus! {

/// Maximum number of messages shown in `/history`.
pub const HISTORY_MESSAGE_LIMIT: usize = 10;

/// Maximum characters per message content in `/history` output.
pub const HISTORY_TRUNCATE_CHARS: usize = 150;

/// Maximum characters shown in the session preview in `/list`.
pub const LIST_PREVIEW_MAX_CHARS: usize = 40;

/// Maximum characters shown in the session preview in keyboard buttons.
pub const KEYBOARD_PREVIEW_MAX_CHARS: usize = 20;

/// The reply when a chat has no sessions to list or choose from.
pub const NO_SESSIONS_HINT: &'static str = "No sessions found. Send a message or use /new to start one.";

/// The welcome message of `/start`.
pub const WELCOME_TEXT: &'static str = "Welcome to Synapse! I'm an AI assistant.\n\nSend me a message to start chatting, or use /help to see available commands.";

/// Whether a stored message belongs to the dialogue shown in `/history`.
pub open spec fn is_dialogue(m: StoredMessage) -> bool {
    m.role == Role::User || m.role == Role::Assistant
}

/// The user and assistant messages of `ms`, in order.
pub open spec fn dialogue(ms: Seq<StoredMessage>) -> Seq<StoredMessage>
    decreases ms.len(),
{
    if ms.len() == 0 {
        seq![]
    } else if is_dialogue(ms.last()) {
        dialogue(ms.drop_last()).push(ms.last())
    } else {
        dialogue(ms.drop_last())
    }
}

/// The last ten (or fewer) messages of a dialogue.
pub open spec fn recent(d: Seq<StoredMessage>) -> Seq<StoredMessage> {
    if d.len() > HISTORY_MESSAGE_LIMIT {
        d.skip(d.len() - HISTORY_MESSAGE_LIMIT)
    } else {
        d
    }
}

/// The label of a dialogue message's author.
pub open spec fn role_label(role: Role) -> Seq<char> {
    if role == Role::User {
        "You"@
    } else {
        "Assistant"@
    }
}

/// One entry of `/history`: `[label] timestamp`, the content cut to 150 characters, and a
/// blank line.
pub open spec fn history_entry(m: StoredMessage) -> Seq<char> {
    "["@ + role_label(m.role) + "] "@ + utc_minutes_text(m.timestamp) + "\n"@
        + truncate_spec(m.content@, HISTORY_TRUNCATE_CHARS as nat) + "\n\n"@
}

/// The entries of a sequence of messages, one after the other.
pub open spec fn history_entries(d: Seq<StoredMessage>) -> Seq<char>
    decreases d.len(),
{
    if d.len() == 0 {
        seq![]
    } else {
        history_entries(d.drop_last()) + history_entry(d.last())
    }
}

/// The text of `/history`: the entries of the last ten user and assistant messages; empty
/// when there are none.
pub open spec fn history_text(ms: Seq<StoredMessage>) -> Seq<char> {
    history_entries(recent(dialogue(ms)))
}

/// Every message's time can be formatted.
pub open spec fn messages_in_range(ms: Seq<StoredMessage>) -> bool {
    forall|i: int| 0 <= i < ms.len() ==> timestamp_in_range(#[trigger] ms[i].timestamp)
}

proof fn lemma_dialogue_in(ms: Seq<StoredMessage>)
    ensures
        forall|j: int|
            0 <= j < dialogue(ms).len() ==> exists|i: int|
                0 <= i < ms.len() && #[trigger] dialogue(ms)[j] == ms[i],
    decreases ms.len(),
{
    if ms.len() > 0 {
        let d = ms.drop_last();
        lemma_dialogue_in(d);
        assert forall|j: int| 0 <= j < dialogue(ms).len() implies exists|i: int|
            0 <= i < ms.len() && #[trigger] dialogue(ms)[j] == ms[i] by {
            if j < dialogue(d).len() {
                let i = choose|i: int| 0 <= i < d.len() && dialogue(d)[j] == d[i];
                assert(ms[i] == d[i]);
            } else {
                assert(dialogue(ms)[j] == ms[ms.len() - 1]);
            }
        }
    }
}

/// Format stored messages into a compact history string.
///
/// Keeps the user and assistant messages only, takes the last 10, and formats each as
/// `[role_label] timestamp\ntruncated_content\n\n`. Returns an empty string if no user or
/// assistant messages exist.
pub fn format_history(messages: &[StoredMessage]) -> (r: String)
    requires
        messages_in_range(messages@),
    ensures
        r@ == history_text(messages@),
{
    let ghost ms = messages@;
    let mut picked: Vec<usize> = Vec::new();
    let mut i: usize = 0;
    while i < messages.len()
        invariant
            i <= ms.len(),
            ms == messages@,
            picked@.len() == dialogue(ms.take(i as int)).len(),
            forall|j: int|
                #![trigger picked@[j]]
                0 <= j < picked@.len() ==> picked@[j] < ms.len() && ms[picked@[j] as int]
                    == dialogue(ms.take(i as int))[j],
        decreases messages.len() - i,
    {
        assert(ms.take(i + 1).drop_last() =~= ms.take(i as int));
        let role = messages[i].role;
        let ghost prev = dialogue(ms.take(i as int));
        assert(ms.take(i + 1).last() == ms[i as int]);
        if role == Role::User || role == Role::Assistant {
            picked.push(i);
            assert(dialogue(ms.take(i + 1)) == prev.push(ms[i as int]));
            assert forall|j: int| 0 <= j < picked@.len() implies #[trigger] picked@[j] < ms.len()
                && ms[picked@[j] as int] == dialogue(ms.take(i + 1))[j] by {
                if j < picked@.len() - 1 {
                }
            }
        } else {
            assert(dialogue(ms.take(i + 1)) == prev);
        }
        i = i + 1;
    }
    assert(ms.take(ms.len() as int) =~= ms);
    let ghost d = dialogue(ms);
    let skip: usize = if picked.len() > HISTORY_MESSAGE_LIMIT {
        picked.len() - HISTORY_MESSAGE_LIMIT
    } else {
        0
    };
    let ghost rd = recent(d);
    assert(rd =~= d.skip(skip as int));
    let mut out = String::new();
    let mut k: usize = skip;
    while k < picked.len()
        invariant
            skip <= k <= picked@.len(),
            ms == messages@,
            messages_in_range(ms),
            d == dialogue(ms),
            picked@.len() == d.len(),
            rd == d.skip(skip as int),
            forall|j: int|
                #![trigger picked@[j]]
                0 <= j < picked@.len() ==> picked@[j] < ms.len() && ms[picked@[j] as int] == d[j],
            out@ == history_entries(rd.take(k - skip)),
        decreases picked.len() - k,
    {
        let m = &messages[picked[k]];
        assert(*m == d[k as int]);
        assert(rd.take(k - skip + 1).drop_last() =~= rd.take(k - skip));
        assert(rd.take(k - skip + 1).last() == d[k as int]);
        out.append("[");
        if m.role == Role::User {
            out.append("You");
        } else {
            out.append("Assistant");
        }
        out.append("] ");
        let ts = format_utc_minutes(m.timestamp);
        out.append(ts.as_str());
        out.append("\n");
        let content = truncate(m.content.as_str(), HISTORY_TRUNCATE_CHARS);
        out.append(content.as_str());
        out.append("\n\n");
        assert(out@ =~= history_entries(rd.take(k - skip + 1)));
        k = k + 1;
    }
    assert(rd.take(picked@.len() - skip) =~= rd);
    out
}

/// What `/switch` and `/delete` make of their argument: nothing (show a keyboard), a
/// session number, or a hint for anything else.
pub open spec fn session_arg_spec(arg: Seq<char>) -> Result<Option<usize>, Seq<char>> {
    let t = trim_spec(arg);
    if t.len() == 0 {
        Ok(None)
    } else {
        match parse_usize_spec(t) {
            Some(n) => Ok(Some(n)),
            None => Err("Invalid argument '"@ + t + "'. Use a number or omit to see a list."@),
        }
    }
}

/// Parse a session argument.
///
/// An empty or blank argument gives `Ok(None)` (show the keyboard), a number gives
/// `Ok(Some(n))`, anything else gives `Err(hint)`.
pub fn parse_session_arg(arg: &str) -> (r: Result<Option<usize>, String>)
    ensures
        match r {
            Ok(v) => session_arg_spec(arg@) == Ok::<Option<usize>, Seq<char>>(v),
            Err(e) => session_arg_spec(arg@) == Err::<Option<usize>, Seq<char>>(e@),
        },
{
    let t = trim(arg);
    if t.as_str().is_empty() {
        return Ok(None);
    }
    match parse_usize(t.as_str()) {
        Some(n) => Ok(Some(n)),
        None => {
            let mut e = String::from_str("Invalid argument '");
            e.append(t.as_str());
            e.append("'. Use a number or omit to see a list.");
            Err(e)
        },
    }
}

/// The first position of `c` in `s`.
pub open spec fn first_index_of(s: Seq<char>, c: char) -> Option<int>
    decreases s.len(),
{
    if s.len() == 0 {
        None
    } else {
        match first_index_of(s.drop_last(), c) {
            Some(p) => Some(p),
            None => if s.last() == c {
                Some(s.len() - 1)
            } else {
                None
            },
        }
    }
}

/// What a button's callback data `action:N` stands for.
pub open spec fn callback_data_spec(data: Seq<char>) -> Option<(Seq<char>, usize)> {
    match first_index_of(data, ':') {
        Some(p) => match parse_usize_spec(data.skip(p + 1)) {
            Some(n) => Some((data.take(p), n)),
            None => None,
        },
        None => None,
    }
}

/// `k` is the first position of `c` when no earlier character is `c`.
pub proof fn lemma_first_index_of(s: Seq<char>, c: char, k: int)
    requires
        0 <= k <= s.len(),
        forall|j: int| 0 <= j < k ==> s[j] != c,
    ensures
        k < s.len() && s[k] == c ==> first_index_of(s, c) == Some(k),
        k == s.len() ==> first_index_of(s, c) is None,
    decreases s.len(),
{
    if s.len() > 0 {
        if k < s.len() && s[k] == c {
            if k < s.len() - 1 {
                lemma_first_index_of(s.drop_last(), c, k);
            } else {
                lemma_first_index_of(s.drop_last(), c, k);
            }
        } else if k == s.len() {
            lemma_first_index_of(s.drop_last(), c, k - 1);
        }
    }
}

/// Parse callback data in the format `action:N` (e.g. `switch:2`, `delete:1`).
pub fn parse_callback_data(data: &str) -> (r: Option<(String, usize)>)
    ensures
        match r {
            Some((a, n)) => callback_data_spec(data@) == Some((a@, n)),
            None => callback_data_spec(data@) is None,
        },
{
    let v = to_chars(data);
    let mut p: usize = 0;
    while p < v.len() && v[p] != ':'
        invariant
            p <= v@.len(),
            forall|j: int| 0 <= j < p ==> v@[j] != ':',
        decreases v.len() - p,
    {
        p = p + 1;
    }
    proof {
        lemma_first_index_of(v@, ':', p as int);
    }
    if p == v.len() {
        return None;
    }
    let rest = from_chars(slice_range(v.as_slice(), p + 1, v.len()).as_slice());
    assert(rest@ =~= v@.skip(p + 1));
    match parse_usize(rest.as_str()) {
        Some(n) => {
            let action = from_chars(slice_range(v.as_slice(), 0, p).as_slice());
            assert(action@ =~= v@.take(p as int));
            Some((action, n))
        },
        None => None,
    }
}

/// The stored sessions that belong to a chat, in listing order.
pub open spec fn chat_sessions_spec(all: Seq<SessionSummary>, ids: Seq<u128>) -> Seq<SessionSummary>
    decreases all.len(),
{
    if all.len() == 0 {
        seq![]
    } else if ids.contains(all.last().id) {
        chat_sessions_spec(all.drop_last(), ids).push(all.last())
    } else {
        chat_sessions_spec(all.drop_last(), ids)
    }
}

/// The sessions of `all` whose ids are among the chat's `ids`, in listing order; `None`
/// when there are none.
pub fn sessions_of_chat(all: &[SessionSummary], ids: &[u128]) -> (r: Option<Vec<SessionSummary>>)
    ensures
        chat_sessions_spec(all@, ids@).len() == 0 ==> r is None,
        chat_sessions_spec(all@, ids@).len() > 0 ==> (r matches Some(v) && v@ == chat_sessions_spec(
            all@,
            ids@,
        )),
{
    let mut out: Vec<SessionSummary> = Vec::new();
    let mut i: usize = 0;
    while i < all.len()
        invariant
            i <= all@.len(),
            out@ == chat_sessions_spec(all@.take(i as int), ids@),
        decreases all.len() - i,
    {
        assert(all@.take(i + 1).drop_last() =~= all@.take(i as int));
        assert(all@.take(i + 1).last() == all@[i as int]);
        let id = all[i].id;
        let mut found = false;
        let mut j: usize = 0;
        while j < ids.len()
            invariant
                j <= ids@.len(),
                found == (exists|x: int| 0 <= x < j && ids@[x] == id),
            decreases ids.len() - j,
        {
            if ids[j] == id {
                found = true;
            }
            j = j + 1;
        }
        if found {
            out.push(all[i].duplicate());
        }
        i = i + 1;
    }
    assert(all@.take(all@.len() as int) =~= all@);
    if out.len() == 0 {
        None
    } else {
        Some(out)
    }
}

/// The text of an optional preview.
pub open spec fn preview_text(p: Option<String>) -> Seq<char> {
    match p {
        Some(s) => s@,
        None => seq![],
    }
}

/// The marker of a listed session: `*` for the active one.
pub open spec fn active_marker(s: SessionSummary, active: Option<u128>) -> Seq<char> {
    if active == Some(s.id) {
        "*"@
    } else {
        " "@
    }
}

/// Line `i` (0-based) of `/list`: `N. [marker] updated | count msgs | preview`.
pub open spec fn list_line(i: nat, s: SessionSummary, active: Option<u128>) -> Seq<char> {
    decimal(i + 1) + ". ["@ + active_marker(s, active) + "] "@ + utc_minutes_text(s.updated_at)
        + " | "@ + decimal(s.message_count as nat) + " msgs | "@ + truncate_spec(
        preview_text(s.preview),
        LIST_PREVIEW_MAX_CHARS as nat,
    ) + "\n"@
}

/// The lines of `/list` for the first `k` sessions.
pub open spec fn list_lines(ss: Seq<SessionSummary>, active: Option<u128>, k: int) -> Seq<char>
    decreases k,
{
    if k <= 0 {
        seq![]
    } else {
        list_lines(ss, active, k - 1) + list_line((k - 1) as nat, ss[k - 1], active)
    }
}

proof fn lemma_marker_at(i: nat, s: SessionSummary, active: Option<u128>, rest: Seq<char>)
    requires
        rest.len() >= 2,
        rest[0] == ']',
        rest[1] == ' ',
    ensures
        ({
            let line = decimal(i + 1) + ". ["@ + active_marker(s, active) + rest;
            let at = decimal(i + 1).len() as int;
            line.subrange(at, at + 5) == seq![
                '.',
                ' ',
                '[',
                if active == Some(s.id) {
                    '*'
                } else {
                    ' '
                },
                ']',
            ]
        }),
{
    reveal_strlit(". [");
    reveal_strlit("*");
    reveal_strlit(" ");
    let line = decimal(i + 1) + ". ["@ + active_marker(s, active) + rest;
    let at = decimal(i + 1).len() as int;
    assert(line.subrange(at, at + 5) =~= seq![
        '.',
        ' ',
        '[',
        if active == Some(s.id) {
            '*'
        } else {
            ' '
        },
        ']',
    ]);
}

proof fn lemma_list_lines_prefix(ss: Seq<SessionSummary>, active: Option<u128>, k: int, m: int)
    requires
        0 <= k <= m,
    ensures
        list_lines(ss, active, m).take(list_lines(ss, active, k).len() as int) == list_lines(
            ss,
            active,
            k,
        ),
        list_lines(ss, active, k).len() <= list_lines(ss, active, m).len(),
    decreases m - k,
{
    if k < m {
        lemma_list_lines_prefix(ss, active, k, m - 1);
        let a = list_lines(ss, active, m - 1);
        let b = list_line((m - 1) as nat, ss[m - 1], active);
        assert((a + b).take(list_lines(ss, active, k).len() as int) =~= a.take(
            list_lines(ss, active, k).len() as int,
        ));
    } else {
        assert(list_lines(ss, active, m).take(list_lines(ss, active, m).len() as int) =~= list_lines(
            ss,
            active,
            m,
        ));
    }
}

/// In `/list`, the line of each session reads `N. [*]` when it is the active session and
/// `N. [ ]` otherwise: right after its number the whole text holds `. [`, then `*` exactly
/// for the active session, then `]`.
pub proof fn lemma_list_marks_active(ss: Seq<SessionSummary>, active: Option<u128>, i: int)
    requires
        0 <= i < ss.len(),
    ensures
        ({
            let out = list_lines(ss, active, ss.len() as int);
            let at = (list_lines(ss, active, i).len() + decimal((i + 1) as nat).len()) as int;
            out.subrange(at, at + 5) == seq![
                '.',
                ' ',
                '[',
                if active == Some(ss[i].id) {
                    '*'
                } else {
                    ' '
                },
                ']',
            ]
        }),
{
    reveal_strlit("] ");
    let s = ss[i];
    let rest = "] "@ + utc_minutes_text(s.updated_at) + " | "@ + decimal(s.message_count as nat)
        + " msgs | "@ + truncate_spec(preview_text(s.preview), LIST_PREVIEW_MAX_CHARS as nat)
        + "\n"@;
    let line = list_line(i as nat, s, active);
    assert(line =~= decimal((i + 1) as nat) + ". ["@ + active_marker(s, active) + rest);
    lemma_marker_at(i as nat, s, active, rest);
    lemma_list_lines_prefix(ss, active, i + 1, ss.len() as int);
    let before = list_lines(ss, active, i);
    let upto = list_lines(ss, active, i + 1);
    assert(upto == before + line);
    let out = list_lines(ss, active, ss.len() as int);
    let at = (before.len() + decimal((i + 1) as nat).len()) as int;
    let d = decimal((i + 1) as nat).len() as int;
    reveal_strlit(". [");
    assert(rest.len() >= 2);
    assert(active_marker(s, active).len() == 1) by {
        reveal_strlit("*");
        reveal_strlit(" ");
    }
    assert(line.len() >= d + 5);
    assert(upto.len() == before.len() + line.len());
    assert(at + 5 <= upto.len());
    assert forall|j: int| 0 <= j < 5 implies #[trigger] out.subrange(at, at + 5)[j] == line.subrange(d, d + 5)[j] by {
        assert(out.take(upto.len() as int)[at + j] == upto[at + j]);
        assert(upto[at + j] == line[d + j]);
    }
    assert(out.subrange(at, at + 5) =~= line.subrange(d, d + 5));
}

/// Each session's keyboard button reads `N. [*]` when it is the active session and
/// `N. [ ]` otherwise.
pub proof fn lemma_button_marks_active(i: nat, s: SessionSummary, active: Option<u128>)
    ensures
        ({
            let at = decimal(i + 1).len() as int;
            button_label(i, s, active).subrange(at, at + 5) == seq![
                '.',
                ' ',
                '[',
                if active == Some(s.id) {
                    '*'
                } else {
                    ' '
                },
                ']',
            ]
        }),
{
    reveal_strlit("] ");
    let rest = "] "@ + utc_date_text(s.updated_at) + " | "@ + decimal(s.message_count as nat)
        + " msgs | "@ + truncate_spec(preview_text(s.preview), KEYBOARD_PREVIEW_MAX_CHARS as nat);
    assert(button_label(i, s, active) =~= decimal(i + 1) + ". ["@ + active_marker(s, active) + rest);
    lemma_marker_at(i, s, active, rest);
}

/// Every session's update time can be formatted.
pub open spec fn summaries_in_range(ss: Seq<SessionSummary>) -> bool {
    forall|i: int| 0 <= i < ss.len() ==> timestamp_in_range(#[trigger] ss[i].updated_at)
}

fn push_preview(out: &mut String, preview: &Option<String>, max: usize)
    ensures
        final(out)@ == old(out)@ + truncate_spec(preview_text(*preview), max as nat),
{
    match preview {
        Some(p) => {
            let t = truncate(p.as_str(), max);
            out.append(t.as_str());
        },
        None => {
            let t = truncate("", max);
            proof {
                reveal_strlit("");
            }
            out.append(t.as_str());
        },
    }
}

/// The text of `/list`: one line per session, numbered from 1, the active one marked `*`.
pub fn format_session_list(sessions: &[SessionSummary], active: Option<u128>) -> (r: String)
    requires
        summaries_in_range(sessions@),
        sessions@.len() < usize::MAX,
    ensures
        r@ == list_lines(sessions@, active, sessions@.len() as int),
{
    let mut out = String::new();
    let mut i: usize = 0;
    while i < sessions.len()
        invariant
            i <= sessions@.len() < usize::MAX,
            summaries_in_range(sessions@),
            out@ == list_lines(sessions@, active, i as int),
        decreases sessions.len() - i,
    {
        let s = &sessions[i];
        push_decimal(&mut out, (i + 1) as u64);
        out.append(". [");
        let is_active = match active {
            Some(a) => a == s.id,
            None => false,
        };
        if is_active {
            out.append("*");
        } else {
            out.append(" ");
        }
        out.append("] ");
        let ts = format_utc_minutes(s.updated_at);
        out.append(ts.as_str());
        out.append(" | ");
        push_decimal(&mut out, s.message_count as u64);
        out.append(" msgs | ");
        push_preview(&mut out, &s.preview, LIST_PREVIEW_MAX_CHARS);
        out.append("\n");
        assert(out@ =~= list_lines(sessions@, active, i + 1));
        i = i + 1;
    }
    out
}

/// The label of keyboard button `i` (0-based): `N. [marker] date | count msgs | preview`.
pub open spec fn button_label(i: nat, s: SessionSummary, active: Option<u128>) -> Seq<char> {
    decimal(i + 1) + ". ["@ + active_marker(s, active) + "] "@ + utc_date_text(s.updated_at)
        + " | "@ + decimal(s.message_count as nat) + " msgs | "@ + truncate_spec(
        preview_text(s.preview),
        KEYBOARD_PREVIEW_MAX_CHARS as nat,
    )
}

/// The callback data of keyboard button `i` (0-based): `action:N`.
pub open spec fn button_data(action: Seq<char>, i: nat) -> Seq<char> {
    action + ":"@ + decimal(i + 1)
}

/// One button per session, each a label and its callback data `action:N` with the
/// 1-based index; the active session is marked with `*`.
pub fn session_buttons(action: &str, sessions: &[SessionSummary], active: Option<u128>) -> (r:
    Vec<(String, String)>)
    requires
        summaries_in_range(sessions@),
        sessions@.len() < usize::MAX,
    ensures
        r@.len() == sessions@.len(),
        forall|i: int|
            0 <= i < r@.len() ==> (#[trigger] r@[i]).0@ == button_label(i as nat, sessions@[i], active)
                && r@[i].1@ == button_data(action@, i as nat),
{
    let mut out: Vec<(String, String)> = Vec::new();
    let mut i: usize = 0;
    while i < sessions.len()
        invariant
            i <= sessions@.len() < usize::MAX,
            summaries_in_range(sessions@),
            out@.len() == i,
            forall|j: int|
                0 <= j < i ==> (#[trigger] out@[j]).0@ == button_label(j as nat, sessions@[j], active)
                    && out@[j].1@ == button_data(action@, j as nat),
        decreases sessions.len() - i,
    {
        let s = &sessions[i];
        let mut label = String::new();
        push_decimal(&mut label, (i + 1) as u64);
        label.append(". [");
        let is_active = match active {
            Some(a) => a == s.id,
            None => false,
        };
        if is_active {
            label.append("*");
        } else {
            label.append(" ");
        }
        label.append("] ");
        let date = format_utc_date(s.updated_at);
        label.append(date.as_str());
        label.append(" | ");
        push_decimal(&mut label, s.message_count as u64);
        label.append(" msgs | ");
        push_preview(&mut label, &s.preview, KEYBOARD_PREVIEW_MAX_CHARS);
        let mut data = String::from_str(action);
        data.append(":");
        push_decimal(&mut data, (i + 1) as u64);
        assert(label@ =~= button_label(i as nat, sessions@[i as int], active));
        assert(data@ =~= button_data(action@, i as nat));
        out.push((label, data));
        i = i + 1;
    }
    out
}

/// The callback data of a button reads back as its action and its 1-based index.
pub proof fn lemma_button_data_round_trip(action: Seq<char>, i: nat)
    requires
        !action.contains(':'),
        i + 1 <= usize::MAX,
    ensures
        callback_data_spec(button_data(action, i)) == Some((action, (i + 1) as usize)),
{
    let data = button_data(action, i);
    reveal_strlit(":");
    let k = action.len() as int;
    assert forall|j: int| 0 <= j < k implies data[j] != ':' by {
        assert(data[j] == action[j]);
    }
    assert(data[k] == ':');
    lemma_first_index_of(data, ':', k);
    assert(data.skip(k + 1) =~= decimal(i + 1));
    assert(data.take(k) =~= action);
    crate::text::lemma_parse_decimal((i + 1) as usize);
}

/// The reply to an index outside `1..=count`.
pub open spec fn invalid_index_text(n: usize) -> Seq<char> {
    "Invalid session index "@ + decimal(n as nat) + ". Use /list to see available sessions."@
}

/// The session numbered `n` (1-based) in `sessions`, or the invalid-index reply.
pub fn session_at(sessions: &[SessionSummary], n: usize) -> (r: Result<u128, String>)
    ensures
        1 <= n <= sessions@.len() ==> r == Ok::<u128, String>(sessions@[n - 1].id),
        !(1 <= n <= sessions@.len()) ==> (r matches Err(e) && e@ == invalid_index_text(n)),
{
    if n == 0 || n > sessions.len() {
        let mut e = String::from_str("Invalid session index ");
        push_decimal(&mut e, n as u64);
        e.append(". Use /list to see available sessions.");
        Err(e)
    } else {
        Ok(sessions[n - 1].id)
    }
}

/// The reply to a successful `/switch N`.
pub fn switch_reply(n: usize) -> (r: String)
    ensures
        r@ == "Switched to session "@ + decimal(n as nat) + "."@,
{
    let mut s = String::from_str("Switched to session ");
    push_decimal(&mut s, n as u64);
    s.append(".");
    s
}

/// The reply to a successful `/delete N`, by what became of the active session.
pub open spec fn delete_reply_spec(n: usize, outcome: DeleteOutcome) -> Seq<char> {
    "Session "@ + decimal(n as nat) + match outcome {
        DeleteOutcome::Emptied => " deleted. New session created."@,
        DeleteOutcome::SwitchedToFirst => " deleted. Switched to session 1."@,
        DeleteOutcome::Kept => " deleted."@,
    }
}

/// The reply to a successful `/delete N`.
pub fn delete_reply(n: usize, outcome: DeleteOutcome) -> (r: String)
    ensures
        r@ == delete_reply_spec(n, outcome),
{
    let mut s = String::from_str("Session ");
    push_decimal(&mut s, n as u64);
    match outcome {
        DeleteOutcome::Emptied => s.append(" deleted. New session created."),
        DeleteOutcome::SwitchedToFirst => s.append(" deleted. Switched to session 1."),
        DeleteOutcome::Kept => s.append(" deleted."),
    }
    s
}

/// The reply to `/new`, saying whether the oldest session had to go.
pub fn new_session_reply(evicted: bool) -> (r: &'static str)
    ensures
        evicted ==> r@ == "New session created. Oldest session removed to stay within the session limit."@,
        !evicted ==> r@ == "New session created."@,
{
    if evicted {
        "New session created. Oldest session removed to stay within the session limit."
    } else {
        "New session created."
    }
}

} // verus!
