//! Startup logic of the bot: where its token comes from, and which sessions each chat had.

use vstd::prelude::*;
use vstd::string::*;

use crate::config::Config;
use crate::session::SessionSummary;
use crate::telegram::handlers::{chat_id_of_session_name, chat_of_name, ChatSessions};
use std::collections::HashMap;

verus! {

/// The chat a listed session belongs to, by its name.
pub open spec fn session_chat(s: SessionSummary) -> Option<i64> {
    match s.name {
        Some(n) => chat_of_name(n@),
        None => None,
    }
}

/// The ids of the sessions of `chat`, in listing order.
pub open spec fn chat_session_ids(ss: Seq<SessionSummary>, chat: i64) -> Seq<u128>
    decreases ss.len(),
{
    if ss.len() == 0 {
        seq![]
    } else if session_chat(ss.last()) == Some(chat) {
        chat_session_ids(ss.drop_last(), chat).push(ss.last().id)
    } else {
        chat_session_ids(ss.drop_last(), chat)
    }
}

/// Some session of `ss` belongs to `chat`.
pub open spec fn has_chat(ss: Seq<SessionSummary>, chat: i64) -> bool {
    exists|i: int| 0 <= i < ss.len() && session_chat(#[trigger] ss[i]) == Some(chat)
}

fn session_chat_exec(s: &SessionSummary) -> (r: Option<i64>)
    ensures
        r == session_chat(*s),
{
    match &s.name {
        Some(n) => chat_id_of_session_name(n.as_str()),
        None => None,
    }
}

fn ids_of_chat(sessions: &[SessionSummary], chat: i64) -> (r: Vec<u128>)
    ensures
        r@ == chat_session_ids(sessions@, chat),
{
    let mut ids: Vec<u128> = Vec::new();
    let mut i: usize = 0;
    while i < sessions.len()
        invariant
            i <= sessions@.len(),
            ids@ == chat_session_ids(sessions@.take(i as int), chat),
        decreases sessions.len() - i,
    {
        assert(sessions@.take(i + 1).drop_last() =~= sessions@.take(i as int));
        assert(sessions@.take(i + 1).last() == sessions@[i as int]);
        let c = session_chat_exec(&sessions[i]);
        if c == Some(chat) {
            ids.push(sessions[i].id);
        }
        i = i + 1;
    }
    assert(sessions@.take(sessions@.len() as int) =~= sessions@);
    ids
}

/// Rebuild the chat-to-sessions map from the stored sessions.
///
/// Sessions created by the bot are named `tg:<chat_id>`; others are ignored. Each chat
/// appears once, with its sessions in listing order (most recently updated first) and the
/// first of them active.
pub fn chat_map_from_sessions(sessions: &[SessionSummary]) -> (r: HashMap<i64, ChatSessions>)
    ensures
        forall|chat: i64| #[trigger] r@.contains_key(chat) <==> has_chat(sessions@, chat),
        forall|chat: i64|
            #[trigger] r@.contains_key(chat) ==> r@[chat].sessions@ == chat_session_ids(
                sessions@,
                chat,
            ) && r@[chat].active_idx == 0,
{
    broadcast use vstd::std_specs::hash::group_hash_axioms;

    let ghost ss = sessions@;
    let mut chats: Vec<i64> = Vec::new();
    let mut i: usize = 0;
    while i < sessions.len()
        invariant
            i <= ss.len(),
            ss == sessions@,
            forall|a: int, b: int| 0 <= a < b < chats@.len() ==> chats@[a] != chats@[b],
            forall|chat: i64|
                has_chat(ss.take(i as int), chat) <==> chats@.contains(chat),
        decreases sessions.len() - i,
    {
        let c = session_chat_exec(&sessions[i]);
        let ghost before = chats@;
        match c {
            Some(chat) => {
                let mut found = false;
                let mut k: usize = 0;
                while k < chats.len()
                    invariant
                        k <= chats@.len(),
                        !found ==> forall|a: int| 0 <= a < k ==> chats@[a] != chat,
                        found ==> chats@.contains(chat),
                    decreases chats.len() - k,
                {
                    if chats[k] == chat {
                        found = true;
                        assert(chats@[k as int] == chat);
                    }
                    k = k + 1;
                }
                if !found {
                    chats.push(chat);
                }
            },
            None => {},
        }
        assert forall|chat: i64| has_chat(ss.take(i + 1), chat) <==> chats@.contains(chat) by {
            let t = ss.take(i + 1);
            if has_chat(t, chat) {
                let w = choose|w: int| 0 <= w < t.len() && session_chat(#[trigger] t[w]) == Some(chat);
                if w < i {
                    assert(ss.take(i as int)[w] == t[w]);
                    assert(has_chat(ss.take(i as int), chat));
                    assert(before.contains(chat));
                    let x = choose|x: int| 0 <= x < before.len() && before[x] == chat;
                    assert(chats@[x] == chat);
                } else {
                    assert(t[w] == ss[i as int]);
                    if !before.contains(chat) {
                        assert(chats@[chats@.len() - 1] == chat);
                    } else {
                        let x = choose|x: int| 0 <= x < before.len() && before[x] == chat;
                        assert(chats@[x] == chat);
                    }
                }
            }
            if chats@.contains(chat) {
                let x = choose|x: int| 0 <= x < chats@.len() && chats@[x] == chat;
                if x < before.len() {
                    assert(before[x] == chat);
                    assert(before.contains(chat));
                    assert(has_chat(ss.take(i as int), chat));
                    let w = choose|w: int|
                        0 <= w < i && session_chat(#[trigger] ss.take(i as int)[w]) == Some(chat);
                    assert(t[w] == ss.take(i as int)[w]);
                } else {
                    assert(t[i as int] == ss[i as int]);
                    assert(session_chat(t[i as int]) == Some(chat));
                }
            }
        }
        i = i + 1;
    }
    assert(ss.take(ss.len() as int) =~= ss);
    let mut out: HashMap<i64, ChatSessions> = HashMap::new();
    let mut k: usize = 0;
    while k < chats.len()
        invariant
            k <= chats@.len(),
            ss == sessions@,
            forall|a: int, b: int| 0 <= a < b < chats@.len() ==> chats@[a] != chats@[b],
            forall|chat: i64| has_chat(ss, chat) <==> chats@.contains(chat),
            forall|chat: i64| #[trigger] out@.contains_key(chat) <==> chats@.take(k as int).contains(chat),
            forall|chat: i64|
                #[trigger] out@.contains_key(chat) ==> out@[chat].sessions@ == chat_session_ids(ss, chat)
                    && out@[chat].active_idx == 0,
        decreases chats.len() - k,
    {
        let ids = ids_of_chat(sessions, chats[k]);
        let ghost before = out@;
        out.insert(chats[k], ChatSessions { sessions: ids, active_idx: 0 });
        assert forall|chat: i64| #[trigger] out@.contains_key(chat) <==> chats@.take(k + 1).contains(chat) by {
            let t = chats@.take(k + 1);
            let p = chats@.take(k as int);
            if chat == chats@[k as int] {
                assert(t[k as int] == chat);
            } else if p.contains(chat) {
                let x = choose|x: int| 0 <= x < p.len() && p[x] == chat;
                assert(t[x] == chat);
            } else if t.contains(chat) {
                let x = choose|x: int| 0 <= x < t.len() && t[x] == chat;
                assert(x < k);
                assert(p[x] == chat);
            }
        }
        k = k + 1;
    }
    assert(chats@.take(chats@.len() as int) =~= chats@);
    out
}

/// The error when no bot token is configured.
pub const MISSING_TOKEN: &'static str = "Bot token required: set TELEGRAM_BOT_TOKEN env var or telegram.token in config";

/// The token configured in `telegram.token`, if any.
pub open spec fn config_token(config: Config) -> Option<String> {
    match config.telegram {
        Some(t) => t.token,
        None => None,
    }
}

/// Resolve the bot token: the `TELEGRAM_BOT_TOKEN` value when it is set and not empty,
/// else `telegram.token` from the configuration, else an error.
pub fn resolve_bot_token(env_token: Option<String>, config: &Config) -> (r: Result<String, String>)
    ensures
        (env_token matches Some(t) && t@.len() > 0) ==> r == Ok::<String, String>(env_token->0),
        !(env_token matches Some(t) && t@.len() > 0) ==> match config_token(*config) {
            Some(t) => r matches Ok(s) && s@ == t@,
            None => r matches Err(e) && e@ == MISSING_TOKEN@,
        },
{
    match env_token {
        Some(t) => {
            if !t.as_str().is_empty() {
                return Ok(t);
            }
        },
        None => {},
    }
    match &config.telegram {
        Some(tg) => match &tg.token {
            Some(t) => Ok(t.clone()),
            None => Err(String::from_str(MISSING_TOKEN)),
        },
        None => Err(String::from_str(MISSING_TOKEN)),
    }
}

} // verus!
