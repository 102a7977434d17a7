//! The REPL's state: the conversation shown, the input line with its cursor, scrolling,
//! and what a key press or a stream event does to them.

use vstd::prelude::*;
use vstd::string::*;

use crate::agent::{agent_error_text, AgentError};
use crate::chars::{char_len_utf8, char_width, from_chars, lemma_utf8_len_concat, push_char, to_chars, utf8_len, utf8_len_range};
use crate::message::{Message, Role};
use crate::provider::StreamEvent;
use crate::session::{uuid_string, uuid_text};
use crate::telegram::chunk::{fit_chars, fit_prefix, lemma_fit_chars_exact, lemma_fit_chars_le, slice_range};
use crate::telegram::commands::{first_index_of, lemma_first_index_of};
use crate::text::{trim, trim_spec};

verus! {

/// A message as the REPL shows it.
#[derive(Debug, Clone)]
pub struct DisplayMessage {
    pub role: Role,
    pub content: String,
}

/// The REPL's state.
#[derive(Debug)]
pub struct ReplApp {
    /// The conversation shown.
    pub messages: Vec<DisplayMessage>,
    /// The input line.
    pub input: String,
    /// The cursor, as a byte offset into the input.
    pub cursor_position: usize,
    /// Lines scrolled from the top of the history.
    pub scroll_offset: u16,
    /// Whether the history follows new output.
    pub auto_scroll: bool,
    /// Whether a response is streaming in.
    pub is_streaming: bool,
    /// The session being used.
    pub session_id: u128,
    /// A message shown in the status bar instead of the session line.
    pub status_message: Option<String>,
    pub provider_name: String,
    pub model_name: String,
    /// The response streamed so far in the current turn.
    pub response: String,
}

/// The number of characters before byte offset `b` of `s`.
pub open spec fn chars_before(s: Seq<char>, b: nat) -> nat {
    fit_chars(s, b)
}

/// Byte offset `b` of `s` falls between two characters (or at an end).
pub open spec fn on_boundary(s: Seq<char>, b: nat) -> bool {
    utf8_len(s.take(chars_before(s, b) as int)) == b
}

/// What a key press is, as far as the REPL cares.
#[derive(Debug, Clone, Copy, PartialEq, Eq, Structural)]
pub enum Key {
    Char(char),
    Enter,
    Backspace,
    Left,
    Right,
    Home,
    End,
    Up,
    Down,
    PageUp,
    PageDown,
    Other,
}

/// A terminal key event: a press of a key (with or without Control), or anything else
/// (a release or a repeat).
#[derive(Debug, Clone, Copy, PartialEq, Eq, Structural)]
pub enum KeyInput {
    Press { key: Key, control: bool },
    NotPress,
}

/// What the event loop does after a key.
#[derive(Debug)]
pub enum KeyAction {
    /// Keep going.
    Continue,
    /// Send this input as the next user message.
    Submit(String),
    /// Leave the REPL.
    Exit,
}

/// The prefix of `k` characters ends on a boundary.
proof fn lemma_boundary_at(s: Seq<char>, k: int)
    requires
        0 <= k <= s.len(),
    ensures
        fit_chars(s, utf8_len(s.take(k))) == k,
{
    if k < s.len() {
        assert(s.take(k + 1).drop_last() =~= s.take(k));
        assert(char_width(s[k]) >= 1);
    }
    lemma_fit_chars_exact(s, utf8_len(s.take(k)), k);
}

fn splice_chars(v: &[char], from: usize, mid: &[char], to: usize) -> (r: Vec<char>)
    requires
        from <= to <= v@.len(),
    ensures
        r@ == v@.take(from as int) + mid@ + v@.skip(to as int),
{
    let mut out: Vec<char> = slice_range(v, 0, from);
    let mut j: usize = 0;
    let ghost head = out@;
    while j < mid.len()
        invariant
            j <= mid@.len(),
            out@ == head + mid@.take(j as int),
        decreases mid.len() - j,
    {
        out.push(mid[j]);
        j = j + 1;
        assert(out@ =~= head + mid@.take(j as int));
    }
    assert(mid@.take(mid@.len() as int) =~= mid@);
    let ghost head2 = out@;
    let mut k: usize = to;
    while k < v.len()
        invariant
            to <= k <= v@.len(),
            out@ == head2 + v@.subrange(to as int, k as int),
        decreases v.len() - k,
    {
        out.push(v[k]);
        k = k + 1;
        assert(out@ =~= head2 + v@.subrange(to as int, k as int));
    }
    assert(v@.subrange(to as int, v@.len() as int) =~= v@.skip(to as int));
    assert(head =~= v@.take(from as int));
    out
}

/// `after` is `before` with streamed `text` shown: added to the last message when it is
/// the assistant's, else as a new assistant message.
pub open spec fn shows_delta(before: Seq<DisplayMessage>, after: Seq<DisplayMessage>, text: Seq<char>) -> bool {
    if before.len() > 0 && before.last().role == Role::Assistant {
        &&& after.len() == before.len()
        &&& after.drop_last() == before.drop_last()
        &&& after.last().role == Role::Assistant
        &&& after.last().content@ == before.last().content@ + text
    } else {
        &&& after.len() == before.len() + 1
        &&& after.drop_last() == before
        &&& after.last().role == Role::Assistant
        &&& after.last().content@ == text
    }
}

/// The offset that shows the last rows of a history of `total_rows` rows in
/// `visible_rows`, as the 16-bit offset the pane scrolls by.
pub open spec fn max_scroll(total_rows: usize, visible_rows: usize) -> u16 {
    (if total_rows > visible_rows {
        total_rows - visible_rows
    } else {
        0
    }) as u16
}

/// `a` and `b` differ at most in the input and the cursor.
pub open spec fn same_except_input(a: ReplApp, b: ReplApp) -> bool {
    &&& a.messages == b.messages
    &&& a.scroll_offset == b.scroll_offset
    &&& a.auto_scroll == b.auto_scroll
    &&& a.is_streaming == b.is_streaming
    &&& a.session_id == b.session_id
    &&& a.status_message == b.status_message
    &&& a.provider_name == b.provider_name
    &&& a.model_name == b.model_name
    &&& a.response == b.response
}

/// `a` and `b` differ at most in the scroll offset and whether the history follows new
/// output.
pub open spec fn same_except_scroll(a: ReplApp, b: ReplApp) -> bool {
    &&& a.messages == b.messages
    &&& a.input == b.input
    &&& a.cursor_position == b.cursor_position
    &&& a.is_streaming == b.is_streaming
    &&& a.session_id == b.session_id
    &&& a.status_message == b.status_message
    &&& a.provider_name == b.provider_name
    &&& a.model_name == b.model_name
    &&& a.response == b.response
}

impl ReplApp {
    /// The cursor sits between two characters of the input.
    pub open spec fn well_formed(&self) -> bool {
        &&& on_boundary(self.input@, self.cursor_position as nat)
        &&& utf8_len(self.input@) + 4 <= usize::MAX
    }

    /// The character index of the cursor.
    pub open spec fn cursor_index(&self) -> nat {
        chars_before(self.input@, self.cursor_position as nat)
    }

    /// A fresh REPL for a session: no messages, empty input, following new output.
    pub fn new(session_id: u128, provider_name: &str, model_name: &str) -> (r: ReplApp)
        ensures
            r.messages@.len() == 0,
            r.input@ == Seq::<char>::empty(),
            r.cursor_position == 0,
            r.scroll_offset == 0,
            r.auto_scroll,
            !r.is_streaming,
            r.session_id == session_id,
            r.status_message is None,
            r.provider_name@ == provider_name@,
            r.model_name@ == model_name@,
            r.response@ == Seq::<char>::empty(),
            r.well_formed(),
    {
        let r = ReplApp {
            messages: Vec::new(),
            input: String::new(),
            cursor_position: 0,
            scroll_offset: 0,
            auto_scroll: true,
            is_streaming: false,
            session_id,
            status_message: None,
            provider_name: String::from_str(provider_name),
            model_name: String::from_str(model_name),
            response: String::new(),
        };
        assert(r.input@.take(0) =~= Seq::<char>::empty());
        r
    }

    /// Insert a character at the cursor and move the cursor past it.
    pub fn insert_char(&mut self, c: char)
        requires
            old(self).well_formed(),
            utf8_len(old(self).input@) + 8 <= usize::MAX,
        ensures
            final(self).input@ == old(self).input@.take(old(self).cursor_index() as int) + seq![c]
                + old(self).input@.skip(old(self).cursor_index() as int),
            final(self).cursor_position == old(self).cursor_position + char_width(c),
            final(self).cursor_index() == old(self).cursor_index() + 1,
            final(self).well_formed(),
            final(self).messages == old(self).messages,
            final(self).scroll_offset == old(self).scroll_offset,
            final(self).is_streaming == old(self).is_streaming,
            same_except_input(*old(self), *final(self)),
    {
        let v = to_chars(self.input.as_str());
        let k = fit_prefix(v.as_slice(), 0, self.cursor_position as u128);
        assert(v@.skip(0) =~= v@);
        proof {
            lemma_fit_chars_le(v@, self.cursor_position as nat);
        }
        let mut out: Vec<char> = slice_range(v.as_slice(), 0, k);
        out.push(c);
        let rest = slice_range(v.as_slice(), k, v.len());
        let mut j: usize = 0;
        let ghost head = out@;
        while j < rest.len()
            invariant
                j <= rest@.len(),
                out@ == head + rest@.take(j as int),
            decreases rest.len() - j,
        {
            out.push(rest[j]);
            j = j + 1;
            assert(out@ =~= head + rest@.take(j as int));
        }
        assert(rest@.take(rest@.len() as int) =~= rest@);
        let ghost old_input = v@;
        assert(out@ =~= old_input.take(k as int) + seq![c] + old_input.skip(k as int));
        self.input = from_chars(out.as_slice());
        self.cursor_position = self.cursor_position + char_len_utf8(c);
        proof {
            let s = self.input@;
            assert(s.take(k + 1) =~= old_input.take(k as int).push(c));
            assert(s.take(k + 1).drop_last() =~= old_input.take(k as int));
            lemma_boundary_at(s, k + 1);
            lemma_utf8_len_concat(old_input.take(k as int) + seq![c], old_input.skip(k as int));
            lemma_utf8_len_concat(old_input.take(k as int), seq![c]);
            lemma_utf8_len_concat(old_input.take(k as int), old_input.skip(k as int));
            assert(old_input.take(k as int) + old_input.skip(k as int) =~= old_input);
            assert(seq![c].drop_last() =~= Seq::<char>::empty());
            assert(utf8_len(s.take(k + 1)) == utf8_len(old_input.take(k as int)) + char_width(c));
            assert(utf8_len(old_input.take(k as int)) == old(self).cursor_position);
            assert(self.cursor_position == utf8_len(s.take(k + 1)));
            assert(on_boundary(s, self.cursor_position as nat));
            assert(seq![c].drop_last() =~= Seq::<char>::empty());
            assert(utf8_len(Seq::<char>::empty()) == 0);
            assert(seq![c].last() == c);
            assert(utf8_len(seq![c]) == char_width(c));
            assert(utf8_len(s) == utf8_len(old_input) + char_width(c));
        }
    }

    /// Remove the character before the cursor, if any, and move the cursor back over it.
    pub fn delete_char_before_cursor(&mut self)
        requires
            old(self).well_formed(),
        ensures
            old(self).cursor_position == 0 ==> final(self).input == old(self).input
                && final(self).cursor_position == 0,
            old(self).cursor_position > 0 ==> {
                let k = old(self).cursor_index() as int;
                &&& final(self).input@ == old(self).input@.take(k - 1) + old(self).input@.skip(k)
                &&& final(self).cursor_position == utf8_len(old(self).input@.take(k - 1))
                &&& final(self).cursor_index() == k - 1
            },
            final(self).well_formed(),
            final(self).messages == old(self).messages,
            final(self).is_streaming == old(self).is_streaming,
            same_except_input(*old(self), *final(self)),
    {
        if self.cursor_position == 0 {
            return;
        }
        let v = to_chars(self.input.as_str());
        let k = fit_prefix(v.as_slice(), 0, self.cursor_position as u128);
        assert(v@.skip(0) =~= v@);
        proof {
            lemma_fit_chars_le(v@, self.cursor_position as nat);
            if k == 0 {
                assert(v@.take(0) =~= Seq::<char>::empty());
            }
        }
        let ghost old_input = v@;
        let before = utf8_len_range(v.as_slice(), 0, k - 1);
        assert(v@.subrange(0, k - 1) =~= v@.take(k - 1));
        let empty: Vec<char> = Vec::new();
        let out = splice_chars(v.as_slice(), k - 1, empty.as_slice(), k);
        assert(out@ =~= old_input.take(k - 1) + old_input.skip(k as int));
        self.input = from_chars(out.as_slice());
        self.cursor_position = before as usize;
        proof {
            let s = self.input@;
            assert(s.take(k - 1) =~= old_input.take(k - 1));
            lemma_boundary_at(s, k - 1);
            lemma_utf8_len_concat(old_input.take(k - 1), old_input.skip(k as int));
            lemma_utf8_len_concat(old_input.take(k - 1), old_input.skip(k - 1));
            assert(old_input.take(k - 1) + old_input.skip(k - 1) =~= old_input);
            assert(old_input.skip(k - 1) =~= seq![old_input[k - 1]] + old_input.skip(k as int));
            lemma_utf8_len_concat(seq![old_input[k - 1]], old_input.skip(k as int));
            assert(seq![old_input[k - 1]].drop_last() =~= Seq::<char>::empty());
        }
    }

    /// Move the cursor back one character, if it can.
    pub fn move_cursor_left(&mut self)
        requires
            old(self).well_formed(),
        ensures
            final(self).input == old(self).input,
            old(self).cursor_position == 0 ==> final(self).cursor_position == 0,
            old(self).cursor_position > 0 ==> final(self).cursor_index() == old(self).cursor_index() - 1,
            final(self).well_formed(),
            same_except_input(*old(self), *final(self)),
    {
        if self.cursor_position == 0 {
            return;
        }
        let v = to_chars(self.input.as_str());
        let k = fit_prefix(v.as_slice(), 0, self.cursor_position as u128);
        assert(v@.skip(0) =~= v@);
        proof {
            lemma_fit_chars_le(v@, self.cursor_position as nat);
            if k == 0 {
                assert(v@.take(0) =~= Seq::<char>::empty());
            }
            lemma_boundary_at(v@, k - 1);
        }
        let before = utf8_len_range(v.as_slice(), 0, k - 1);
        assert(v@.subrange(0, k - 1) =~= v@.take(k - 1));
        proof {
            crate::chars::lemma_utf8_len_take_mono(v@, k - 1, k as int);
        }
        self.cursor_position = before as usize;
    }

    /// Move the cursor forward one character, if it can.
    pub fn move_cursor_right(&mut self)
        requires
            old(self).well_formed(),
        ensures
            final(self).input == old(self).input,
            old(self).cursor_index() == old(self).input@.len() ==> final(self).cursor_position
                == old(self).cursor_position,
            old(self).cursor_index() < old(self).input@.len() ==> final(self).cursor_index()
                == old(self).cursor_index() + 1,
            final(self).well_formed(),
            same_except_input(*old(self), *final(self)),
    {
        let v = to_chars(self.input.as_str());
        let k = fit_prefix(v.as_slice(), 0, self.cursor_position as u128);
        assert(v@.skip(0) =~= v@);
        proof {
            lemma_fit_chars_le(v@, self.cursor_position as nat);
        }
        if k < v.len() {
            let after = utf8_len_range(v.as_slice(), 0, k + 1);
            assert(v@.subrange(0, k + 1) =~= v@.take(k + 1));
            proof {
                lemma_boundary_at(v@, k + 1);
                crate::chars::lemma_utf8_len_take_mono(v@, k + 1, v@.len() as int);
                assert(v@.take(v@.len() as int) =~= v@);
            }
            self.cursor_position = after as usize;
        }
    }

    /// Move the cursor to the start of the input.
    pub fn move_cursor_home(&mut self)
        requires
            old(self).well_formed(),
        ensures
            final(self).input == old(self).input,
            final(self).cursor_position == 0,
            final(self).well_formed(),
            same_except_input(*old(self), *final(self)),
    {
        self.cursor_position = 0;
        proof {
            lemma_boundary_at(self.input@, 0);
            assert(self.input@.take(0) =~= Seq::<char>::empty());
        }
    }

    /// Move the cursor to the end of the input.
    pub fn move_cursor_end(&mut self)
        requires
            old(self).well_formed(),
        ensures
            final(self).input == old(self).input,
            final(self).cursor_position == utf8_len(old(self).input@),
            final(self).cursor_index() == old(self).input@.len(),
            final(self).well_formed(),
            same_except_input(*old(self), *final(self)),
    {
        let v = to_chars(self.input.as_str());
        let n = utf8_len_range(v.as_slice(), 0, v.len());
        assert(v@.subrange(0, v@.len() as int) =~= v@);
        proof {
            lemma_boundary_at(v@, v@.len() as int);
            assert(v@.take(v@.len() as int) =~= v@);
        }
        self.cursor_position = n as usize;
    }

    /// Take the input line, leaving it empty with the cursor at its start.
    pub fn take_input(&mut self) -> (r: String)
        requires
            old(self).well_formed(),
        ensures
            r == old(self).input,
            final(self).input@ == Seq::<char>::empty(),
            final(self).cursor_position == 0,
            final(self).well_formed(),
            final(self).messages == old(self).messages,
            final(self).is_streaming == old(self).is_streaming,
            same_except_input(*old(self), *final(self)),
    {
        self.cursor_position = 0;
        let mut out = String::new();
        std::mem::swap(&mut out, &mut self.input);
        assert(self.input@.take(0) =~= Seq::<char>::empty());
        out
    }

    /// Whether the input asks to leave: `/quit`, with surrounding white space allowed.
    pub fn is_quit_command(input: &str) -> (r: bool)
        ensures
            r == (trim_spec(input@) == "/quit"@),
    {
        let t = trim(input);
        crate::chars::str_eq(t.as_str(), "/quit")
    }

    /// Scroll up one line; the history stops following new output.
    pub fn scroll_up(&mut self)
        ensures
            final(self).scroll_offset == (if old(self).scroll_offset > 0 {
                old(self).scroll_offset - 1
            } else {
                0
            }),
            !final(self).auto_scroll,
            final(self).input == old(self).input,
            final(self).cursor_position == old(self).cursor_position,
            same_except_scroll(*old(self), *final(self)),
    {
        self.scroll_offset = self.scroll_offset.saturating_sub(1);
        self.auto_scroll = false;
    }

    /// Scroll down one line.
    pub fn scroll_down(&mut self)
        ensures
            final(self).scroll_offset == (if old(self).scroll_offset < u16::MAX {
                old(self).scroll_offset + 1
            } else {
                u16::MAX as int
            }),
            final(self).auto_scroll == old(self).auto_scroll,
            final(self).input == old(self).input,
            final(self).cursor_position == old(self).cursor_position,
            same_except_scroll(*old(self), *final(self)),
    {
        self.scroll_offset = self.scroll_offset.saturating_add(1);
    }

    /// Scroll up a page; the history stops following new output.
    pub fn scroll_page_up(&mut self, page_size: u16)
        ensures
            final(self).scroll_offset == (if old(self).scroll_offset > page_size {
                old(self).scroll_offset - page_size
            } else {
                0
            }),
            !final(self).auto_scroll,
            final(self).input == old(self).input,
            final(self).cursor_position == old(self).cursor_position,
            same_except_scroll(*old(self), *final(self)),
    {
        self.scroll_offset = self.scroll_offset.saturating_sub(page_size);
        self.auto_scroll = false;
    }

    /// Scroll down a page.
    pub fn scroll_page_down(&mut self, page_size: u16)
        ensures
            final(self).scroll_offset == (if old(self).scroll_offset + page_size <= u16::MAX {
                old(self).scroll_offset + page_size
            } else {
                u16::MAX as int
            }),
            final(self).auto_scroll == old(self).auto_scroll,
            final(self).input == old(self).input,
            final(self).cursor_position == old(self).cursor_position,
            same_except_scroll(*old(self), *final(self)),
    {
        self.scroll_offset = self.scroll_offset.saturating_add(page_size);
    }

    /// Fit the scroll offset to a history of `total_rows` rows shown in `visible_rows`:
    /// at the bottom while following new output, else no further down than the bottom.
    pub fn clamp_scroll(&mut self, total_rows: usize, visible_rows: usize)
        ensures
            final(self).scroll_offset == (if old(self).auto_scroll {
                max_scroll(total_rows, visible_rows)
            } else if old(self).scroll_offset <= max_scroll(total_rows, visible_rows) {
                old(self).scroll_offset
            } else {
                max_scroll(total_rows, visible_rows)
            }),
            final(self).auto_scroll == old(self).auto_scroll,
            final(self).messages == old(self).messages,
            final(self).input == old(self).input,
            final(self).cursor_position == old(self).cursor_position,
            final(self).is_streaming == old(self).is_streaming,
            final(self).status_message == old(self).status_message,
            final(self).response == old(self).response,
    {
        let below: usize = if total_rows > visible_rows {
            total_rows - visible_rows
        } else {
            0
        };
        let bottom: u16 = below as u16;
        if self.auto_scroll {
            self.scroll_offset = bottom;
        }
        if self.scroll_offset > bottom {
            self.scroll_offset = bottom;
        }
    }

    /// Add streamed text to the last message when it is the assistant's, else start an
    /// assistant message with it.
    pub fn append_stream_delta(&mut self, text: &str)
        ensures
            shows_delta(old(self).messages@, final(self).messages@, text@),
            final(self).input == old(self).input,
            final(self).cursor_position == old(self).cursor_position,
            final(self).is_streaming == old(self).is_streaming,
            final(self).response == old(self).response,
    {
        let n = self.messages.len();
        if n > 0 && self.messages[n - 1].role == Role::Assistant {
            let mut last = self.messages.pop().unwrap();
            last.content.append(text);
            let ghost rest = self.messages@;
            self.messages.push(last);
            assert(self.messages@.drop_last() =~= rest);
            assert(old(self).messages@.drop_last() =~= rest);
        } else {
            self.messages.push(DisplayMessage { role: Role::Assistant, content: String::from_str(text) });
            assert(self.messages@.drop_last() =~= old(self).messages@);
        }
    }

    /// The content of the last message, when it is the assistant's.
    pub fn last_assistant_content(&self) -> (r: Option<&str>)
        ensures
            (self.messages@.len() > 0 && self.messages@.last().role == Role::Assistant) ==> (r matches Some(
                t,
            ) && t@ == self.messages@.last().content@),
            !(self.messages@.len() > 0 && self.messages@.last().role == Role::Assistant) ==> r is None,
    {
        let n = self.messages.len();
        if n > 0 && self.messages[n - 1].role == Role::Assistant {
            Some(self.messages[n - 1].content.as_str())
        } else {
            None
        }
    }
}

/// Backspace undoes a typed character: inserting `c` at the cursor and then deleting the
/// character before the cursor gives back the input and the cursor.
pub proof fn lemma_insert_then_delete(before: ReplApp, typed: ReplApp, after: ReplApp, c: char)
    requires
        before.well_formed(),
        typed.input@ == before.input@.take(before.cursor_index() as int) + seq![c]
            + before.input@.skip(before.cursor_index() as int),
        typed.cursor_index() == before.cursor_index() + 1,
        typed.cursor_position > 0,
        after.input@ == typed.input@.take(typed.cursor_index() - 1) + typed.input@.skip(
            typed.cursor_index() as int,
        ),
        after.cursor_position == utf8_len(typed.input@.take(typed.cursor_index() - 1)),
    ensures
        after.input@ == before.input@,
        after.cursor_position == before.cursor_position,
{
    let k = before.cursor_index() as int;
    lemma_fit_chars_le(before.input@, before.cursor_position as nat);
    assert(typed.input@.take(k) =~= before.input@.take(k));
    assert(typed.input@.skip(k + 1) =~= before.input@.skip(k));
    assert(before.input@.take(k) + before.input@.skip(k) =~= before.input@);
}

/// Moving the cursor left and then right puts it back where it was, unless it was at the
/// start of the input.
pub proof fn lemma_left_then_right(before: ReplApp, moved: ReplApp, after: ReplApp)
    requires
        before.well_formed(),
        before.cursor_position > 0,
        moved.input == before.input,
        moved.cursor_index() == before.cursor_index() - 1,
        after.input == moved.input,
        after.cursor_index() == moved.cursor_index() + 1,
        after.well_formed(),
    ensures
        after.cursor_position == before.cursor_position,
{
}

/// The page size for paging keys: the history's height less its borders.
pub open spec fn page_size(history_height: u16) -> u16 {
    if history_height >= 2 {
        (history_height - 2) as u16
    } else {
        0
    }
}

/// Whether a submitted input is blank.
pub open spec fn is_blank(input: Seq<char>) -> bool {
    trim_spec(input).len() == 0
}

/// What a key other than Control-C does: the scrolling keys scroll, even while a response
/// streams in; while it streams, other keys do nothing; otherwise Enter submits the input
/// (a blank input is dropped, `/quit` leaves) and the editing keys edit it at the cursor.
pub open spec fn key_effect(a: ReplApp, b: ReplApp, r: KeyAction, k: Key, history_height: u16) -> bool {
    match k {
        Key::Up => {
            &&& r is Continue
            &&& same_except_scroll(a, b)
            &&& b.scroll_offset == (if a.scroll_offset > 0 { a.scroll_offset - 1 } else { 0 })
            &&& !b.auto_scroll
        },
        Key::Down => {
            &&& r is Continue
            &&& same_except_scroll(a, b)
            &&& b.scroll_offset == (if a.scroll_offset < u16::MAX {
                a.scroll_offset + 1
            } else {
                u16::MAX as int
            })
            &&& b.auto_scroll == a.auto_scroll
        },
        Key::PageUp => {
            &&& r is Continue
            &&& same_except_scroll(a, b)
            &&& b.scroll_offset == (if a.scroll_offset > page_size(history_height) {
                a.scroll_offset - page_size(history_height)
            } else {
                0
            })
            &&& !b.auto_scroll
        },
        Key::PageDown => {
            &&& r is Continue
            &&& same_except_scroll(a, b)
            &&& b.scroll_offset == (if a.scroll_offset + page_size(history_height) <= u16::MAX {
                a.scroll_offset + page_size(history_height)
            } else {
                u16::MAX as int
            })
            &&& b.auto_scroll == a.auto_scroll
        },
        _ => if a.is_streaming {
            r is Continue && b == a
        } else {
            &&& same_except_input(a, b)
            &&& match k {
                Key::Enter => {
                    &&& b.input@ == Seq::<char>::empty()
                    &&& b.cursor_position == 0
                    &&& is_blank(a.input@) ==> r is Continue
                    &&& !is_blank(a.input@) && trim_spec(a.input@) == "/quit"@ ==> r is Exit
                    &&& !is_blank(a.input@) && trim_spec(a.input@) != "/quit"@ ==> (r matches KeyAction::Submit(t) && t == a.input)
                },
                Key::Backspace => {
                    &&& r is Continue
                    &&& a.cursor_position == 0 ==> b.input == a.input && b.cursor_position == 0
                    &&& a.cursor_position > 0 ==> {
                        &&& b.input@ == a.input@.take(a.cursor_index() - 1) + a.input@.skip(a.cursor_index() as int)
                        &&& b.cursor_index() == a.cursor_index() - 1
                    }
                },
                Key::Left => {
                    &&& r is Continue
                    &&& b.input == a.input
                    &&& a.cursor_position == 0 ==> b.cursor_position == 0
                    &&& a.cursor_position > 0 ==> b.cursor_index() == a.cursor_index() - 1
                },
                Key::Right => {
                    &&& r is Continue
                    &&& b.input == a.input
                    &&& a.cursor_index() == a.input@.len() ==> b.cursor_position == a.cursor_position
                    &&& a.cursor_index() < a.input@.len() ==> b.cursor_index() == a.cursor_index() + 1
                },
                Key::Home => r is Continue && b.input == a.input && b.cursor_position == 0,
                Key::End => r is Continue && b.input == a.input && b.cursor_index() == a.input@.len(),
                Key::Char(c) => {
                    &&& r is Continue
                    &&& b.input@ == a.input@.take(a.cursor_index() as int) + seq![c] + a.input@.skip(
                        a.cursor_index() as int,
                    )
                    &&& b.cursor_index() == a.cursor_index() + 1
                },
                _ => r is Continue && b == a,
            }
        },
    }
}

/// Handle a key press.
///
/// Control-C leaves; the arrow and page keys scroll, even while a response streams in;
/// while it streams, other keys are ignored. Enter submits the input (a blank input is
/// dropped, `/quit` leaves); the editing keys edit the input at the cursor.
pub fn handle_key_event(app: &mut ReplApp, key: KeyInput, history_height: u16) -> (r: KeyAction)
    requires
        old(app).well_formed(),
        utf8_len(old(app).input@) + 8 <= usize::MAX,
    ensures
        final(app).well_formed(),
        match key {
            KeyInput::NotPress => r is Continue && *final(app) == *old(app),
            KeyInput::Press { key: k, control } => if control && k == Key::Char('c') {
                r is Exit && *final(app) == *old(app)
            } else {
                key_effect(*old(app), *final(app), r, k, history_height)
            },
        },

{
    match key {
        KeyInput::NotPress => KeyAction::Continue,
        KeyInput::Press { key, control } => {
            if control && key == Key::Char('c') {
                return KeyAction::Exit;
            }
            let page = history_height.saturating_sub(2);
            match key {
                Key::Up => {
                    app.scroll_up();
                    return KeyAction::Continue;
                },
                Key::Down => {
                    app.scroll_down();
                    return KeyAction::Continue;
                },
                Key::PageUp => {
                    app.scroll_page_up(page);
                    return KeyAction::Continue;
                },
                Key::PageDown => {
                    app.scroll_page_down(page);
                    return KeyAction::Continue;
                },
                _ => {},
            }
            if app.is_streaming {
                return KeyAction::Continue;
            }
            match key {
                Key::Enter => {
                    let input = app.take_input();
                    let t = trim(input.as_str());
                    if t.as_str().is_empty() {
                        return KeyAction::Continue;
                    }
                    if ReplApp::is_quit_command(input.as_str()) {
                        return KeyAction::Exit;
                    }
                    KeyAction::Submit(input)
                },
                Key::Backspace => {
                    app.delete_char_before_cursor();
                    KeyAction::Continue
                },
                Key::Left => {
                    app.move_cursor_left();
                    KeyAction::Continue
                },
                Key::Right => {
                    app.move_cursor_right();
                    KeyAction::Continue
                },
                Key::Home => {
                    app.move_cursor_home();
                    KeyAction::Continue
                },
                Key::End => {
                    app.move_cursor_end();
                    KeyAction::Continue
                },
                Key::Char(c) => {
                    app.insert_char(c);
                    KeyAction::Continue
                },
                _ => KeyAction::Continue,
            }
        },
    }
}

/// How a history line is drawn.
#[derive(Debug, Clone, Copy, PartialEq, Eq, Structural)]
pub enum LineKind {
    /// A role label, in the role's colour.
    Label(Role),
    /// Message text.
    Body,
    /// The streaming indicator.
    Indicator,
}

/// A line of the history pane.
#[derive(Debug, Clone)]
pub struct HistoryLine {
    pub text: String,
    pub kind: LineKind,
}

/// The label of a role in the history.
pub open spec fn role_label(role: Role) -> Seq<char> {
    match role {
        Role::User => "[USER]"@,
        Role::Assistant => "[ASSISTANT]"@,
        Role::System => "[SYSTEM]"@,
        Role::Tool => "[TOOL]"@,
    }
}

/// A line without the `\r` of a `\r\n` ending.
pub open spec fn strip_cr(l: Seq<char>) -> Seq<char> {
    if l.len() > 0 && l.last() == '\r' {
        l.drop_last()
    } else {
        l
    }
}

/// The lines of a text as `str::lines` gives them: split at each `\n` (a `\r` before it
/// dropped), without an empty line after a final newline.
pub open spec fn text_lines(s: Seq<char>) -> Seq<Seq<char>>
    decreases s.len(),
{
    if s.len() == 0 {
        seq![]
    } else {
        match first_index_of(s, '\n') {
            Some(i) => {
                proof {
                    lemma_first_index_bounds(s, '\n');
                }
                seq![strip_cr(s.take(i))] + text_lines(s.skip(i + 1))
            },
            None => seq![s],
        }
    }
}

/// The first position of a character lies within the text.
pub proof fn lemma_first_index_bounds(s: Seq<char>, c: char)
    ensures
        first_index_of(s, c) matches Some(i) ==> 0 <= i < s.len() && s[i] == c,
    decreases s.len(),
{
    if s.len() > 0 {
        lemma_first_index_bounds(s.drop_last(), c);
    }
}

/// The lines drawn for one message: its label, each line of its content indented by two
/// spaces (one indented empty line for empty content), then a blank line.
pub open spec fn message_lines(m: DisplayMessage) -> Seq<(Seq<char>, LineKind)> {
    seq![(role_label(m.role), LineKind::Label(m.role))] + (if m.content@.len() == 0 {
        seq![("  "@, LineKind::Body)]
    } else {
        text_lines(m.content@).map_values(|l: Seq<char>| ("  "@ + l, LineKind::Body))
    }) + seq![(Seq::<char>::empty(), LineKind::Body)]
}

/// The lines of the first `k` messages.
pub open spec fn messages_lines(ms: Seq<DisplayMessage>, k: int) -> Seq<(Seq<char>, LineKind)>
    decreases k,
{
    if k <= 0 {
        seq![]
    } else {
        messages_lines(ms, k - 1) + message_lines(ms[k - 1])
    }
}

/// The lines of the history: each message's lines; while streaming, an assistant label
/// (unless the last message is the assistant's) and the `  ...` indicator.
pub open spec fn history_lines_spec(ms: Seq<DisplayMessage>, is_streaming: bool) -> Seq<(Seq<char>, LineKind)> {
    messages_lines(ms, ms.len() as int) + if is_streaming {
        (if ms.len() == 0 || ms.last().role != Role::Assistant {
            seq![("[ASSISTANT]"@, LineKind::Label(Role::Assistant))]
        } else {
            seq![]
        }) + seq![("  ..."@, LineKind::Indicator)]
    } else {
        seq![]
    }
}

/// The text and kind of each line.
pub open spec fn lines_view(ls: Seq<HistoryLine>) -> Seq<(Seq<char>, LineKind)> {
    ls.map_values(|l: HistoryLine| (l.text@, l.kind))
}

fn push_line(out: &mut Vec<HistoryLine>, text: String, kind: LineKind)
    ensures
        lines_view(final(out)@) == lines_view(old(out)@).push((text@, kind)),
{
    out.push(HistoryLine { text, kind });
    assert(lines_view(out@) =~= lines_view(old(out)@).push((text@, kind)));
}

/// The label a role's messages carry in the history and in `sessions show`.
pub fn label_text(role: Role) -> (r: String)
    ensures
        r@ == role_label(role),
{
    match role {
        Role::User => String::from_str("[USER]"),
        Role::Assistant => String::from_str("[ASSISTANT]"),
        Role::System => String::from_str("[SYSTEM]"),
        Role::Tool => String::from_str("[TOOL]"),
    }
}

fn push_content_lines(out: &mut Vec<HistoryLine>, content: &str)
    requires
        content@.len() > 0,
    ensures
        lines_view(final(out)@) == lines_view(old(out)@) + text_lines(content@).map_values(
            |l: Seq<char>| ("  "@ + l, LineKind::Body),
        ),
{
    let v = to_chars(content);
    let n = v.len();
    let mut start: usize = 0;
    let mut i: usize = 0;
    let ghost f = |l: Seq<char>| ("  "@ + l, LineKind::Body);
    assert(v@.skip(0) =~= v@);
    while i < n
        invariant
            start <= i <= n == v@.len(),
            forall|j: int| start <= j < i ==> v@[j] != '\n',
            lines_view(out@) + text_lines(v@.skip(start as int)).map_values(f) == lines_view(old(out)@)
                + text_lines(v@).map_values(f),
            f == (|l: Seq<char>| ("  "@ + l, LineKind::Body)),
        decreases n - i,
    {
        if v[i] == '\n' {
            let ghost rest = v@.skip(start as int);
            proof {
                lemma_first_index_of(rest, '\n', i - start);
                assert forall|j: int| 0 <= j < i - start implies rest[j] != '\n' by {
                    assert(rest[j] == v@[start + j]);
                }
                assert(rest[i - start] == v@[i as int]);
            }
            let mut end = i;
            if end > start && v[end - 1] == '\r' {
                end = end - 1;
            }
            let piece = slice_range(v.as_slice(), start, end);
            proof {
                assert(rest.take(i - start) =~= v@.subrange(start as int, i as int));
                assert(piece@ =~= strip_cr(rest.take(i - start)));
                assert(rest.skip(i - start + 1) =~= v@.skip(i + 1));
            }
            let mut text = String::from_str("  ");
            let pt = from_chars(piece.as_slice());
            text.append(pt.as_str());
            let ghost before = lines_view(out@);
            push_line(out, text, LineKind::Body);
            proof {
                let tl = text_lines(rest);
                assert(tl == seq![strip_cr(rest.take(i - start))] + text_lines(v@.skip(i + 1)));
                assert(tl.map_values(f) =~= seq![f(strip_cr(rest.take(i - start)))] + text_lines(
                    v@.skip(i + 1),
                ).map_values(f));
                assert(lines_view(out@) + text_lines(v@.skip(i + 1)).map_values(f) =~= before
                    + tl.map_values(f));
            }
            start = i + 1;
        }
        i = i + 1;
    }
    if start < n {
        let ghost rest = v@.skip(start as int);
        proof {
            lemma_first_index_of(rest, '\n', rest.len() as int);
        }
        let piece = slice_range(v.as_slice(), start, n);
        assert(piece@ =~= rest);
        let mut text = String::from_str("  ");
        let pt = from_chars(piece.as_slice());
        text.append(pt.as_str());
        let ghost before = lines_view(out@);
        push_line(out, text, LineKind::Body);
        proof {
            assert(text_lines(rest) == seq![rest]);
            assert(text_lines(rest).map_values(f) =~= seq![f(rest)]);
        }
    } else {
        proof {
            assert(v@.skip(start as int) =~= Seq::<char>::empty());
            assert(text_lines(v@.skip(start as int)).map_values(f) =~= Seq::<(Seq<char>, LineKind)>::empty());
            assert(lines_view(out@) + Seq::<(Seq<char>, LineKind)>::empty() =~= lines_view(out@));
        }
    }
}

/// Build the lines of the history pane.
pub fn history_lines(messages: &[DisplayMessage], is_streaming: bool) -> (r: Vec<HistoryLine>)
    ensures
        lines_view(r@) == history_lines_spec(messages@, is_streaming),
{
    let mut out: Vec<HistoryLine> = Vec::new();
    let mut k: usize = 0;
    assert(lines_view(out@) =~= Seq::<(Seq<char>, LineKind)>::empty());
    while k < messages.len()
        invariant
            k <= messages@.len(),
            lines_view(out@) == messages_lines(messages@, k as int),
        decreases messages.len() - k,
    {
        let m = &messages[k];
        let ghost before = lines_view(out@);
        push_line(&mut out, label_text(m.role), LineKind::Label(m.role));
        if m.content.as_str().is_empty() {
            push_line(&mut out, String::from_str("  "), LineKind::Body);
        } else {
            push_content_lines(&mut out, m.content.as_str());
        }
        push_line(&mut out, String::new(), LineKind::Body);
        assert(lines_view(out@) =~= before + message_lines(messages@[k as int]));
        k = k + 1;
    }
    if is_streaming {
        let ghost before = lines_view(out@);
        let n = messages.len();
        if n == 0 || messages[n - 1].role != Role::Assistant {
            push_line(&mut out, String::from_str("[ASSISTANT]"), LineKind::Label(Role::Assistant));
        }
        push_line(&mut out, String::from_str("  ..."), LineKind::Indicator);
        assert(lines_view(out@) =~= history_lines_spec(messages@, is_streaming));
    } else {
        assert(lines_view(out@) =~= history_lines_spec(messages@, is_streaming));
    }
    out
}

/// The status bar: the status message when there is one, else the session (its id's first
/// eight characters), provider and model.
pub open spec fn status_text_spec(app: ReplApp) -> Seq<char> {
    match app.status_message {
        Some(m) => m@,
        None => " Session: "@ + uuid_text(app.session_id).take(8) + " | Provider: "@ + app.provider_name@
            + " | Model: "@ + app.model_name@ + " | /quit to exit"@,
    }
}

/// The text of the status bar.
pub fn status_text(app: &ReplApp) -> (r: String)
    ensures
        r@ == status_text_spec(*app),
{
    match &app.status_message {
        Some(m) => m.clone(),
        None => {
            let id = uuid_string(app.session_id);
            let v = to_chars(id.as_str());
            let head = from_chars(slice_range(v.as_slice(), 0, 8).as_slice());
            let mut s = String::from_str(" Session: ");
            s.append(head.as_str());
            s.append(" | Provider: ");
            s.append(app.provider_name.as_str());
            s.append(" | Model: ");
            s.append(app.model_name.as_str());
            s.append(" | /quit to exit");
            assert(head@ =~= uuid_text(app.session_id).take(8));
            s
        },
    }
}

/// What a stream event means for the turn.
#[derive(Debug)]
pub enum TurnOutcome {
    /// More is coming.
    Continue,
    /// The response is complete; its text is stored when it is not empty.
    Finished(Option<String>),
    /// The agent failed.
    Failed,
}

impl ReplApp {
    /// The lines of the history pane for this state.
    pub fn build_history_lines(&self) -> (r: Vec<HistoryLine>)
        ensures
            lines_view(r@) == history_lines_spec(self.messages@, self.is_streaming),
    {
        history_lines(self.messages.as_slice(), self.is_streaming)
    }

    /// Show a submitted input as the user's message.
    pub fn begin_turn(&mut self, input: &str)
        ensures
            final(self).messages@.len() == old(self).messages@.len() + 1,
            final(self).messages@.drop_last() == old(self).messages@,
            final(self).messages@.last().role == Role::User,
            final(self).messages@.last().content@ == input@,
            final(self).input == old(self).input,
            final(self).cursor_position == old(self).cursor_position,
    {
        self.messages.push(DisplayMessage { role: Role::User, content: String::from_str(input) });
        assert(self.messages@.drop_last() =~= old(self).messages@);
    }

    /// The conversation the agent is given: every message shown, by role and content.
    pub fn conversation(&self) -> (r: Vec<Message>)
        ensures
            r@.len() == self.messages@.len(),
            forall|i: int| 0 <= i < r@.len() ==> (#[trigger] r@[i]).role == self.messages@[i].role
                && r@[i].content@ == self.messages@[i].content@ && r@[i].tool_calls is None
                && r@[i].tool_call_id is None && r@[i].reasoning_content is None,
    {
        let mut out: Vec<Message> = Vec::new();
        let mut i: usize = 0;
        while i < self.messages.len()
            invariant
                i <= self.messages@.len(),
                out@.len() == i,
                forall|j: int| 0 <= j < i ==> (#[trigger] out@[j]).role == self.messages@[j].role
                    && out@[j].content@ == self.messages@[j].content@ && out@[j].tool_calls is None
                    && out@[j].tool_call_id is None && out@[j].reasoning_content is None,
            decreases self.messages.len() - i,
        {
            out.push(Message::new(self.messages[i].role, self.messages[i].content.as_str()));
            i = i + 1;
        }
        out
    }

    /// A response starts streaming: the history follows it and nothing is gathered yet.
    pub fn start_streaming(&mut self)
        ensures
            final(self).is_streaming,
            final(self).auto_scroll,
            final(self).response@ == Seq::<char>::empty(),
            final(self).messages == old(self).messages,
            final(self).input == old(self).input,
            final(self).cursor_position == old(self).cursor_position,
    {
        self.is_streaming = true;
        self.auto_scroll = true;
        self.response = String::new();
    }

    /// Storing the user's message failed: the status bar says so.
    pub fn storage_failed(&mut self, error: &str)
        ensures
            final(self).status_message matches Some(m) && m@ == "Storage error: "@ + error@,
            final(self).messages == old(self).messages,
            final(self).is_streaming == old(self).is_streaming,
    {
        self.status_message = Some(crate::chars::concat("Storage error: ", error));
    }

    /// Handle the next item of the agent's stream (`None` when it ended).
    ///
    /// Text is gathered and shown; the end of the stream finishes the turn and clears the
    /// status bar; an error ends the turn with the error in the status bar.
    pub fn on_stream_event(&mut self, event: Option<Result<StreamEvent, AgentError>>) -> (r: TurnOutcome)
        ensures
            match event {
                Some(Ok(StreamEvent::TextDelta(t))) => {
                    &&& r is Continue
                    &&& final(self).response@ == old(self).response@ + t@
                    &&& shows_delta(old(self).messages@, final(self).messages@, t@)
                },
                _ => final(self).messages == old(self).messages,
            },
            (event matches Some(Ok(StreamEvent::ReasoningDelta(_)))) ==> r is Continue
                && final(self).response == old(self).response,
            (event is None || event matches Some(Ok(StreamEvent::Done))) ==> {
                &&& !final(self).is_streaming
                &&& final(self).status_message is None
                &&& old(self).response@.len() > 0 ==> (r matches TurnOutcome::Finished(Some(t)) && t
                    == old(self).response)
                &&& old(self).response@.len() == 0 ==> (r matches TurnOutcome::Finished(None))
            },
            match event {
                Some(Err(e)) => {
                    &&& r is Failed
                    &&& !final(self).is_streaming
                    &&& final(self).status_message matches Some(m) && m@ == "Agent error: "@
                        + agent_error_text(e)
                },
                _ => true,
            },
            final(self).input == old(self).input,
            final(self).cursor_position == old(self).cursor_position,
    {
        match event {
            Some(Ok(StreamEvent::TextDelta(t))) => {
                self.response.append(t.as_str());
                self.append_stream_delta(t.as_str());
                TurnOutcome::Continue
            },
            Some(Ok(StreamEvent::ReasoningDelta(_))) => TurnOutcome::Continue,
            Some(Ok(StreamEvent::Done)) | None => {
                self.is_streaming = false;
                self.status_message = None;
                let mut text = String::new();
                std::mem::swap(&mut text, &mut self.response);
                if text.as_str().is_empty() {
                    TurnOutcome::Finished(None)
                } else {
                    TurnOutcome::Finished(Some(text))
                }
            },
            Some(Err(e)) => {
                self.is_streaming = false;
                let t = e.to_string();
                self.status_message = Some(crate::chars::concat("Agent error: ", t.as_str()));
                TurnOutcome::Failed
            },
        }
    }
}

} // verus!
