//! Markdown to Telegram HTML, and HTML escaping.

use vstd::prelude::*;
use vstd::string::*;

use pulldown_cmark::{CodeBlockKind, Event, Options, Parser, Tag, TagEnd};

use crate::chars::{push_char, to_chars, utf8_len, utf8_len_range, lemma_utf8_len_bounds};
use crate::text::{decimal, push_decimal, repeat_char, trim, trim_spec};
use crate::telegram::chunk::{
    bracket_free, chunk_html_spec, count_char, first_token, is_ascii_ws, lemma_balanced_concat,
    lemma_balanced_drop_first, lemma_balanced_drop_last, lemma_bracket_free_balanced,
    lemma_chunks_keep_tags_whole, lemma_first_token_word, lemma_scan_concat, lemma_scan_one_tag,
    lemma_scan_tag_free, lemma_tag_balanced, lemma_tag_name_of_whole, last_named,
    open_tags_after, scan_tags, tag_name_of_spec, tags_balanced,
};

verus! {

/// The escaped form of one character: `&`, `<` and `>` become entities.
pub open spec fn escape_char(c: char) -> Seq<char> {
    if c == '&' {
        "&amp;"@
    } else if c == '<' {
        "&lt;"@
    } else if c == '>' {
        "&gt;"@
    } else {
        seq![c]
    }
}

/// `s` with each character escaped for Telegram HTML.
pub open spec fn escape_html_spec(s: Seq<char>) -> Seq<char>
    decreases s.len(),
{
    if s.len() == 0 {
        seq![]
    } else {
        escape_html_spec(s.drop_last()) + escape_char(s.last())
    }
}

/// Escaped text holds no `<` or `>`: Telegram reads no markup into it.
pub proof fn lemma_escaped_has_no_markup(s: Seq<char>)
    ensures
        forall|i: int|
            0 <= i < escape_html_spec(s).len() ==> #[trigger] escape_html_spec(s)[i] != '<'
                && escape_html_spec(s)[i] != '>',
    decreases s.len(),
{
    reveal_strlit("&amp;");
    reveal_strlit("&lt;");
    reveal_strlit("&gt;");
    if s.len() > 0 {
        lemma_escaped_has_no_markup(s.drop_last());
        let a = escape_html_spec(s.drop_last());
        let b = escape_char(s.last());
        assert forall|i: int| 0 <= i < (a + b).len() implies #[trigger] (a + b)[i] != '<' && (a
            + b)[i] != '>' by {
            if i < a.len() {
                assert((a + b)[i] == a[i]);
            } else {
                assert((a + b)[i] == b[i - a.len()]);
            }
        }
    }
}

/// `s` with the entities `&amp;`, `&lt;` and `&gt;` read back as `&`, `<` and `>`, left
/// to right.
pub open spec fn unescape_html_spec(s: Seq<char>) -> Seq<char>
    decreases s.len(),
{
    if s.len() == 0 {
        seq![]
    } else if s.len() >= 5 && s.take(5) == "&amp;"@ {
        seq!['&'] + unescape_html_spec(s.skip(5))
    } else if s.len() >= 4 && s.take(4) == "&lt;"@ {
        seq!['<'] + unescape_html_spec(s.skip(4))
    } else if s.len() >= 4 && s.take(4) == "&gt;"@ {
        seq!['>'] + unescape_html_spec(s.skip(4))
    } else {
        seq![s[0]] + unescape_html_spec(s.drop_first())
    }
}

/// Escaping two texts put together escapes each.
pub proof fn lemma_escape_html_concat(a: Seq<char>, b: Seq<char>)
    ensures
        escape_html_spec(a + b) == escape_html_spec(a) + escape_html_spec(b),
    decreases b.len(),
{
    if b.len() == 0 {
        assert(a + b =~= a);
        assert(escape_html_spec(a) + escape_html_spec(b) =~= escape_html_spec(a));
    } else {
        lemma_escape_html_concat(a, b.drop_last());
        assert((a + b).drop_last() =~= a + b.drop_last());
        assert(escape_html_spec(a) + escape_html_spec(b.drop_last()) + escape_char(b.last())
            =~= escape_html_spec(a) + (escape_html_spec(b.drop_last()) + escape_char(b.last())));
    }
}

proof fn lemma_unescape_step(c: char, t: Seq<char>)
    ensures
        unescape_html_spec(escape_char(c) + t) == seq![c] + unescape_html_spec(t),
{
    reveal_strlit("&amp;");
    reveal_strlit("&lt;");
    reveal_strlit("&gt;");
    let x = escape_char(c) + t;
    if c == '&' {
        assert(x.take(5) =~= "&amp;"@);
        assert(x.skip(5) =~= t);
    } else if c == '<' {
        assert(x[1] == 'l');
        if x.len() >= 5 {
            assert(x.take(5)[1] == 'l');
        }
        assert(x.take(4) =~= "&lt;"@);
        assert(x.skip(4) =~= t);
    } else if c == '>' {
        assert(x[1] == 'g');
        if x.len() >= 5 {
            assert(x.take(5)[1] == 'g');
        }
        assert(x.take(4)[1] == 'g');
        assert(x.take(4) =~= "&gt;"@);
        assert(x.skip(4) =~= t);
    } else {
        assert(x[0] == c);
        if x.len() >= 5 {
            assert(x.take(5)[0] == c);
        }
        if x.len() >= 4 {
            assert(x.take(4)[0] == c);
        }
        assert(x.drop_first() =~= t);
    }
}

/// Reading the entities back undoes escaping: the escaped text gives the text back.
pub proof fn lemma_unescape_escape(s: Seq<char>)
    ensures
        unescape_html_spec(escape_html_spec(s)) == s,
    decreases s.len(),
{
    if s.len() > 0 {
        let rest = s.drop_first();
        assert(s =~= seq![s[0]] + rest);
        lemma_escape_html_concat(seq![s[0]], rest);
        assert(seq![s[0]].drop_last() =~= Seq::<char>::empty());
        assert(escape_html_spec(Seq::<char>::empty()) =~= Seq::<char>::empty());
        assert(seq![s[0]].last() == s[0]);
        assert(escape_html_spec(seq![s[0]]) =~= escape_char(s[0]));
        lemma_unescape_step(s[0], escape_html_spec(rest));
        lemma_unescape_escape(rest);
    } else {
        assert(escape_html_spec(s) =~= Seq::<char>::empty());
    }
}

/// Escaping loses nothing: two texts that escape alike are the same text.
pub proof fn lemma_escape_html_injective(a: Seq<char>, b: Seq<char>)
    requires
        escape_html_spec(a) == escape_html_spec(b),
    ensures
        a == b,
{
    lemma_unescape_escape(a);
    lemma_unescape_escape(b);
}

/// Append the escaped form of `v` to `out`.
pub fn push_escaped(out: &mut String, v: &[char])
    ensures
        final(out)@ == old(out)@ + escape_html_spec(v@),
{
    let mut i: usize = 0;
    while i < v.len()
        invariant
            i <= v.len(),
            out@ == old(out)@ + escape_html_spec(v@.take(i as int)),
        decreases v.len() - i,
    {
        let c = v[i];
        let ghost before = out@;
        if c == '&' {
            out.append("&amp;");
        } else if c == '<' {
            out.append("&lt;");
        } else if c == '>' {
            out.append("&gt;");
        } else {
            push_char(out, c);
        }
        assert(v@.take(i + 1).drop_last() =~= v@.take(i as int));
        assert(out@ =~= old(out)@ + escape_html_spec(v@.take(i + 1)));
        i = i + 1;
    }
    assert(v@.take(v@.len() as int) =~= v@);
}

/// Escape the three characters special in Telegram HTML: `&`, `<`, `>`.
pub fn escape_html(text: &str) -> (r: String)
    ensures
        r@ == escape_html_spec(text@),
{
    let v = to_chars(text);
    let mut out = String::new();
    push_escaped(&mut out, v.as_slice());
    out
}

/// The opening of a Markdown element, with what the rendering needs of it.
#[derive(Debug, Clone, PartialEq, Eq)]
pub enum MdTag {
    Paragraph,
    Heading,
    BlockQuote,
    /// A code block; `Some(lang)` for a fenced block (the language may be empty).
    CodeBlock(Option<String>),
    /// A list; `Some(n)` for an ordered list starting at `n`.
    List(Option<u64>),
    Item,
    Table,
    TableHead,
    TableRow,
    TableCell,
    Emphasis,
    Strong,
    Strikethrough,
    /// A link to the given URL.
    Link(String),
    /// An image with its URL and title.
    Image(String, String),
    /// Any other element.
    Other,
}

/// The end of a Markdown element.
#[derive(Debug, Clone, Copy, PartialEq, Eq)]
pub enum MdTagEnd {
    Paragraph,
    Heading,
    BlockQuote,
    CodeBlock,
    List,
    Item,
    Table,
    TableHead,
    TableRow,
    TableCell,
    Emphasis,
    Strong,
    Strikethrough,
    Link,
    Image,
    Other,
}

/// One event of a parsed Markdown document.
#[derive(Debug, Clone, PartialEq, Eq)]
pub enum MdEvent {
    Start(MdTag),
    End(MdTagEnd),
    Text(String),
    Code(String),
    Html(String),
    InlineHtml(String),
    SoftBreak,
    HardBreak,
    Rule,
    TaskListMarker(bool),
    /// Any other event (footnotes, math, metadata).
    Other,
}

/// The number after `n` (wrapping at the end of `u64`).
pub open spec fn next_number(n: u64) -> u64 {
    if n == u64::MAX {
        0
    } else {
        (n + 1) as u64
    }
}

/// The list stack after `evs`: one entry per open list, `Some(n)` when the next item of
/// an ordered list is numbered `n`.
pub open spec fn list_stack(evs: Seq<MdEvent>) -> Seq<Option<u64>>
    decreases evs.len(),
{
    if evs.len() == 0 {
        seq![]
    } else {
        let st = list_stack(evs.drop_last());
        match evs.last() {
            MdEvent::Start(MdTag::List(start)) => st.push(start),
            MdEvent::End(MdTagEnd::List) => if st.len() > 0 {
                st.drop_last()
            } else {
                st
            },
            MdEvent::Start(MdTag::Item) => if st.len() > 0 && st.last() is Some {
                st.update(st.len() - 1, Some(next_number(st.last()->0)))
            } else {
                st
            },
            _ => st,
        }
    }
}

/// Whether no paragraph has ended in `evs`.
pub open spec fn first_paragraph(evs: Seq<MdEvent>) -> bool
    decreases evs.len(),
{
    if evs.len() == 0 {
        true
    } else if evs.last() == MdEvent::End(MdTagEnd::Paragraph) {
        false
    } else {
        first_paragraph(evs.drop_last())
    }
}

/// Whether `evs` leaves a table open.
pub open spec fn in_table(evs: Seq<MdEvent>) -> bool
    decreases evs.len(),
{
    if evs.len() == 0 {
        false
    } else {
        match evs.last() {
            MdEvent::Start(MdTag::Table) => true,
            MdEvent::End(MdTagEnd::Table) => false,
            _ => in_table(evs.drop_last()),
        }
    }
}

/// The text gathered so far in the current table cell.
pub open spec fn table_cell(evs: Seq<MdEvent>) -> Seq<char>
    decreases evs.len(),
{
    if evs.len() == 0 {
        seq![]
    } else {
        let cell = table_cell(evs.drop_last());
        match evs.last() {
            MdEvent::Start(MdTag::TableCell) => seq![],
            MdEvent::End(MdTagEnd::TableCell) => seq![],
            MdEvent::Text(t) => if in_table(evs.drop_last()) {
                cell + t@
            } else {
                cell
            },
            _ => cell,
        }
    }
}

/// The cells completed so far in the current table row.
pub open spec fn table_row(evs: Seq<MdEvent>) -> Seq<Seq<char>>
    decreases evs.len(),
{
    if evs.len() == 0 {
        seq![]
    } else {
        let row = table_row(evs.drop_last());
        match evs.last() {
            MdEvent::Start(MdTag::TableHead) => seq![],
            MdEvent::Start(MdTag::TableRow) => seq![],
            MdEvent::End(MdTagEnd::TableHead) => seq![],
            MdEvent::End(MdTagEnd::TableRow) => seq![],
            MdEvent::End(MdTagEnd::TableCell) => row.push(table_cell(evs.drop_last())),
            _ => row,
        }
    }
}

/// The table rows completed so far in the current table.
pub open spec fn table_rows(evs: Seq<MdEvent>) -> Seq<Seq<Seq<char>>>
    decreases evs.len(),
{
    if evs.len() == 0 {
        seq![]
    } else {
        let rows = table_rows(evs.drop_last());
        match evs.last() {
            MdEvent::Start(MdTag::Table) => seq![],
            MdEvent::End(MdTagEnd::Table) => seq![],
            MdEvent::End(MdTagEnd::TableHead) => rows.push(table_row(evs.drop_last())),
            MdEvent::End(MdTagEnd::TableRow) => rows.push(table_row(evs.drop_last())),
            _ => rows,
        }
    }
}

/// The larger of two numbers.
pub open spec fn max_nat(a: nat, b: nat) -> nat {
    if a >= b {
        a
    } else {
        b
    }
}

/// The number of columns of a table: the length of its longest row.
pub open spec fn col_count(rows: Seq<Seq<Seq<char>>>) -> nat
    decreases rows.len(),
{
    if rows.len() == 0 {
        0
    } else {
        max_nat(col_count(rows.drop_last()), rows.last().len())
    }
}

/// The width in bytes of column `c`: its widest cell.
pub open spec fn col_width(rows: Seq<Seq<Seq<char>>>, c: int) -> nat
    decreases rows.len(),
{
    if rows.len() == 0 {
        0
    } else {
        let w = col_width(rows.drop_last(), c);
        if 0 <= c < rows.last().len() {
            max_nat(w, utf8_len(rows.last()[c]))
        } else {
            w
        }
    }
}

/// Cell `i` of a table line: the cell padded to its column's width, then ` | ` unless it
/// is in the last column.
pub open spec fn padded_cell(rows: Seq<Seq<Seq<char>>>, cell: Seq<char>, i: int) -> Seq<char> {
    let w = col_width(rows, i);
    let pad: nat = if w >= utf8_len(cell) {
        (w - utf8_len(cell)) as nat
    } else {
        0
    };
    cell + repeat_char(' ', pad) + if i + 1 < col_count(rows) {
        " | "@
    } else {
        seq![]
    }
}

/// The line for the first `k` cells of `row`.
pub open spec fn row_line(rows: Seq<Seq<Seq<char>>>, row: Seq<Seq<char>>, k: int) -> Seq<char>
    decreases k,
{
    if k <= 0 {
        seq![]
    } else {
        row_line(rows, row, k - 1) + if k - 1 < col_count(rows) {
            padded_cell(rows, row[k - 1], k - 1)
        } else {
            seq![]
        }
    }
}

/// The separator under the header for the first `k` columns: dashes as wide as each column,
/// joined by `-+-`.
pub open spec fn separator(rows: Seq<Seq<Seq<char>>>, k: int) -> Seq<char>
    decreases k,
{
    if k <= 0 {
        seq![]
    } else {
        separator(rows, k - 1) + (if k - 1 > 0 {
            "-+-"@
        } else {
            seq![]
        }) + repeat_char('-', col_width(rows, k - 1))
    }
}

/// The lines for the first `k` rows of a table, with the separator after the first.
pub open spec fn table_lines(rows: Seq<Seq<Seq<char>>>, k: int) -> Seq<char>
    decreases k,
{
    if k <= 0 {
        seq![]
    } else {
        let row = rows[k - 1];
        table_lines(rows, k - 1) + escape_html_spec(row_line(rows, row, row.len() as int))
            + seq!['\n'] + if k - 1 == 0 {
            escape_html_spec(separator(rows, col_count(rows) as int)) + seq!['\n']
        } else {
            seq![]
        }
    }
}

/// A finished table rendered as monospace text, or nothing for a table without rows.
pub open spec fn table_html(rows: Seq<Seq<Seq<char>>>) -> Seq<char> {
    if rows.len() == 0 {
        seq![]
    } else {
        "<pre>"@ + table_lines(rows, rows.len() as int) + "</pre>"@
    }
}

/// The indentation of a list item inside `depth` lists.
pub open spec fn item_indent(depth: nat) -> Seq<char> {
    repeat_char(
        ' ',
        if depth > 0 {
            (2 * (depth - 1)) as nat
        } else {
            0
        },
    )
}

/// The marker of a new list item: its number for an ordered list, a bullet otherwise.
pub open spec fn item_marker(lists: Seq<Option<u64>>) -> Seq<char> {
    item_indent(lists.len()) + if lists.len() > 0 && lists.last() is Some {
        decimal(lists.last()->0 as nat) + ". "@
    } else {
        "\u{2022} "@
    }
}

/// What the event `ev` adds to the output after the events `prev`.
pub open spec fn emitted(prev: Seq<MdEvent>, ev: MdEvent) -> Seq<char> {
    match ev {
        MdEvent::Start(tag) => match tag {
            MdTag::Strong => "<b>"@,
            MdTag::Emphasis => "<i>"@,
            MdTag::Strikethrough => "<s>"@,
            MdTag::CodeBlock(lang) => if lang is Some && lang->0@.len() > 0 {
                "<pre><code class=\"language-"@ + escape_html_spec(lang->0@) + "\">"@
            } else {
                "<pre><code>"@
            },
            MdTag::Link(url) => "<a href=\""@ + escape_html_spec(url@) + "\">"@,
            MdTag::Heading => "\n<b>"@,
            MdTag::BlockQuote => "<blockquote>"@,
            MdTag::Paragraph => if first_paragraph(prev) {
                seq![]
            } else {
                seq!['\n']
            },
            MdTag::Item => item_marker(list_stack(prev)),
            MdTag::Image(url, title) => "[image"@ + (if title@.len() > 0 {
                ": "@ + escape_html_spec(title@)
            } else {
                seq![]
            }) + "]("@ + escape_html_spec(url@) + seq![')'],
            _ => seq![],
        },
        MdEvent::End(tag) => match tag {
            MdTagEnd::Strong => "</b>"@,
            MdTagEnd::Emphasis => "</i>"@,
            MdTagEnd::Strikethrough => "</s>"@,
            MdTagEnd::CodeBlock => "</code></pre>"@,
            MdTagEnd::Link => "</a>"@,
            MdTagEnd::Heading => "</b>\n"@,
            MdTagEnd::BlockQuote => "</blockquote>"@,
            MdTagEnd::Paragraph => seq!['\n'],
            MdTagEnd::Item => seq!['\n'],
            MdTagEnd::Table => table_html(table_rows(prev)),
            _ => seq![],
        },
        MdEvent::Code(t) => "<code>"@ + escape_html_spec(t@) + "</code>"@,
        MdEvent::TaskListMarker(checked) => if checked {
            "[x] "@
        } else {
            "[ ] "@
        },
        MdEvent::Text(t) => if in_table(prev) {
            seq![]
        } else {
            escape_html_spec(t@)
        },
        MdEvent::SoftBreak => seq!['\n'],
        MdEvent::HardBreak => seq!['\n'],
        MdEvent::Rule => "\n---\n"@,
        MdEvent::Html(h) => escape_html_spec(h@),
        MdEvent::InlineHtml(h) => escape_html_spec(h@),
        MdEvent::Other => seq![],
    }
}

/// The Telegram HTML for `evs`, before trimming.
pub open spec fn rendered(evs: Seq<MdEvent>) -> Seq<char>
    decreases evs.len(),
{
    if evs.len() == 0 {
        seq![]
    } else {
        rendered(evs.drop_last()) + emitted(evs.drop_last(), evs.last())
    }
}

/// A task-list marker adds `[x] ` when its item is checked and `[ ] ` when it is not, after
/// whatever the events before it rendered.
pub proof fn lemma_task_marker_text(evs: Seq<MdEvent>, checked: bool)
    ensures
        rendered(evs.push(MdEvent::TaskListMarker(checked))) == rendered(evs) + (if checked {
            seq!['[', 'x', ']', ' ']
        } else {
            seq!['[', ' ', ']', ' ']
        }),
{
    reveal_strlit("[x] ");
    reveal_strlit("[ ] ");
    let all = evs.push(MdEvent::TaskListMarker(checked));
    assert(all.drop_last() =~= evs);
    assert(all.last() == MdEvent::TaskListMarker(checked));
    if checked {
        assert("[x] "@ =~= seq!['[', 'x', ']', ' ']);
    } else {
        assert("[ ] "@ =~= seq!['[', ' ', ']', ' ']);
    }
}

proof fn lemma_rendered_push(evs: Seq<MdEvent>, ev: MdEvent)
    ensures
        rendered(evs.push(ev)) == rendered(evs) + emitted(evs, ev),
{
    assert(evs.push(ev).drop_last() =~= evs);
    assert(evs.push(ev).last() == ev);
}

/// The markup each inline element and block adds, after whatever came before: `<b>`/`</b>`
/// for strong text, `<i>`/`</i>` for emphasis, `<s>`/`</s>` for strikethrough, a bold line
/// for a heading, `<blockquote>` for a quote, `</code></pre>` at the end of a code block,
/// `</a>` at the end of a link and `---` on a line of its own for a rule.
pub proof fn lemma_markup_text(evs: Seq<MdEvent>)
    ensures
        rendered(evs.push(MdEvent::Start(MdTag::Strong))) == rendered(evs) + seq!['<', 'b', '>'],
        rendered(evs.push(MdEvent::End(MdTagEnd::Strong))) == rendered(evs) + seq!['<', '/', 'b', '>'],
        rendered(evs.push(MdEvent::Start(MdTag::Emphasis))) == rendered(evs) + seq!['<', 'i', '>'],
        rendered(evs.push(MdEvent::End(MdTagEnd::Emphasis))) == rendered(evs) + seq!['<', '/', 'i', '>'],
        rendered(evs.push(MdEvent::Start(MdTag::Strikethrough))) == rendered(evs) + seq!['<', 's', '>'],
        rendered(evs.push(MdEvent::End(MdTagEnd::Strikethrough))) == rendered(evs) + seq!['<', '/', 's', '>'],
        rendered(evs.push(MdEvent::Start(MdTag::Heading))) == rendered(evs) + seq!['\n', '<', 'b', '>'],
        rendered(evs.push(MdEvent::End(MdTagEnd::Heading))) == rendered(evs) + seq!['<', '/', 'b', '>', '\n'],
        rendered(evs.push(MdEvent::Start(MdTag::BlockQuote))) == rendered(evs) + seq!['<', 'b', 'l', 'o', 'c', 'k', 'q', 'u', 'o', 't', 'e', '>'],
        rendered(evs.push(MdEvent::End(MdTagEnd::BlockQuote))) == rendered(evs) + seq!['<', '/', 'b', 'l', 'o', 'c', 'k', 'q', 'u', 'o', 't', 'e', '>'],
        rendered(evs.push(MdEvent::End(MdTagEnd::CodeBlock))) == rendered(evs) + seq!['<', '/', 'c', 'o', 'd', 'e', '>', '<', '/', 'p', 'r', 'e', '>'],
        rendered(evs.push(MdEvent::End(MdTagEnd::Link))) == rendered(evs) + seq!['<', '/', 'a', '>'],
        rendered(evs.push(MdEvent::Rule)) == rendered(evs) + seq!['\n', '-', '-', '-', '\n'],
{
    reveal_strlit("</a>");
    reveal_strlit("</b>");
    reveal_strlit("</b>\n");
    reveal_strlit("</blockquote>");
    reveal_strlit("</code></pre>");
    reveal_strlit("</i>");
    reveal_strlit("</s>");
    reveal_strlit("<b>");
    reveal_strlit("<blockquote>");
    reveal_strlit("<i>");
    reveal_strlit("<s>");
    reveal_strlit("\n---\n");
    reveal_strlit("\n<b>");
    lemma_rendered_push(evs, MdEvent::Start(MdTag::Strong));
    assert("<b>"@ =~= seq!['<', 'b', '>']);
    lemma_rendered_push(evs, MdEvent::End(MdTagEnd::Strong));
    assert("</b>"@ =~= seq!['<', '/', 'b', '>']);
    lemma_rendered_push(evs, MdEvent::Start(MdTag::Emphasis));
    assert("<i>"@ =~= seq!['<', 'i', '>']);
    lemma_rendered_push(evs, MdEvent::End(MdTagEnd::Emphasis));
    assert("</i>"@ =~= seq!['<', '/', 'i', '>']);
    lemma_rendered_push(evs, MdEvent::Start(MdTag::Strikethrough));
    assert("<s>"@ =~= seq!['<', 's', '>']);
    lemma_rendered_push(evs, MdEvent::End(MdTagEnd::Strikethrough));
    assert("</s>"@ =~= seq!['<', '/', 's', '>']);
    lemma_rendered_push(evs, MdEvent::Start(MdTag::Heading));
    assert("\n<b>"@ =~= seq!['\n', '<', 'b', '>']);
    lemma_rendered_push(evs, MdEvent::End(MdTagEnd::Heading));
    assert("</b>\n"@ =~= seq!['<', '/', 'b', '>', '\n']);
    lemma_rendered_push(evs, MdEvent::Start(MdTag::BlockQuote));
    assert("<blockquote>"@ =~= seq!['<', 'b', 'l', 'o', 'c', 'k', 'q', 'u', 'o', 't', 'e', '>']);
    lemma_rendered_push(evs, MdEvent::End(MdTagEnd::BlockQuote));
    assert("</blockquote>"@ =~= seq!['<', '/', 'b', 'l', 'o', 'c', 'k', 'q', 'u', 'o', 't', 'e', '>']);
    lemma_rendered_push(evs, MdEvent::End(MdTagEnd::CodeBlock));
    assert("</code></pre>"@ =~= seq!['<', '/', 'c', 'o', 'd', 'e', '>', '<', '/', 'p', 'r', 'e', '>']);
    lemma_rendered_push(evs, MdEvent::End(MdTagEnd::Link));
    assert("</a>"@ =~= seq!['<', '/', 'a', '>']);
    lemma_rendered_push(evs, MdEvent::Rule);
    assert("\n---\n"@ =~= seq!['\n', '-', '-', '-', '\n']);
}

/// The Telegram HTML for a parsed Markdown document: its rendering, trimmed.
pub open spec fn telegram_html(evs: Seq<MdEvent>) -> Seq<char> {
    trim_spec(rendered(evs))
}

proof fn lemma_bf_concat(a: Seq<char>, b: Seq<char>)
    requires
        bracket_free(a),
        bracket_free(b),
    ensures
        bracket_free(a + b),
{
    assert forall|j: int| 0 <= j < (a + b).len() implies (a + b)[j] != '<' && (a + b)[j] != '>' by {
        if j < a.len() {
            assert((a + b)[j] == a[j]);
        } else {
            assert((a + b)[j] == b[j - a.len()]);
        }
    }
}

proof fn lemma_escaped_bf(s: Seq<char>)
    ensures
        bracket_free(escape_html_spec(s)),
{
    lemma_escaped_has_no_markup(s);
    let e = escape_html_spec(s);
    assert forall|j: int| 0 <= j < e.len() implies e[j] != '<' && e[j] != '>' by {
        assert(e[j] == escape_html_spec(s)[j]);
    }
}

proof fn lemma_decimal_bf(n: nat)
    ensures
        bracket_free(decimal(n)),
    decreases n,
{
    if n >= 10 {
        lemma_decimal_bf(n / 10);
        lemma_bf_concat(decimal(n / 10), seq![crate::text::digit_char(n % 10)]);
        assert(decimal(n / 10).push(crate::text::digit_char(n % 10)) =~= decimal(n / 10) + seq![
            crate::text::digit_char(n % 10),
        ]);
    }
}

proof fn lemma_table_lines_bf(rows: Seq<Seq<Seq<char>>>, k: int)
    ensures
        bracket_free(table_lines(rows, k)),
    decreases k,
{
    if k > 0 {
        let row = rows[k - 1];
        lemma_table_lines_bf(rows, k - 1);
        lemma_escaped_bf(row_line(rows, row, row.len() as int));
        lemma_escaped_bf(separator(rows, col_count(rows) as int));
        let a = table_lines(rows, k - 1) + escape_html_spec(row_line(rows, row, row.len() as int));
        lemma_bf_concat(table_lines(rows, k - 1), escape_html_spec(row_line(rows, row, row.len() as int)));
        lemma_bf_concat(a, seq!['\n']);
        let tail: Seq<char> = if k - 1 == 0 {
            escape_html_spec(separator(rows, col_count(rows) as int)) + seq!['\n']
        } else {
            seq![]
        };
        if k - 1 == 0 {
            lemma_bf_concat(escape_html_spec(separator(rows, col_count(rows) as int)), seq!['\n']);
        }
        lemma_bf_concat(a + seq!['\n'], tail);
    }
}

/// A piece without brackets, between whole tags, keeps the tags balanced.
proof fn lemma_wrapped_balanced(open: Seq<char>, body: Seq<char>, close: Seq<char>)
    requires
        tags_balanced(open),
        bracket_free(body),
        tags_balanced(close),
    ensures
        tags_balanced(open + body + close),
{
    lemma_bracket_free_balanced(body);
    lemma_balanced_concat(open, body);
    lemma_balanced_concat(open + body, close);
}

proof fn lemma_table_html_balanced(rows: Seq<Seq<Seq<char>>>)
    ensures
        tags_balanced(table_html(rows)),
{
    if rows.len() == 0 {
        lemma_bracket_free_balanced(Seq::<char>::empty());
    } else {
        reveal_strlit("<pre>");
        reveal_strlit("</pre>");
        assert("<pre>"@ =~= seq!['<'] + seq!['p', 'r', 'e'] + seq!['>']);
        assert("</pre>"@ =~= seq!['<'] + seq!['/', 'p', 'r', 'e'] + seq!['>']);
        lemma_tag_balanced(seq!['p', 'r', 'e']);
        lemma_tag_balanced(seq!['/', 'p', 'r', 'e']);
        lemma_table_lines_bf(rows, rows.len() as int);
        lemma_wrapped_balanced("<pre>"@, table_lines(rows, rows.len() as int), "</pre>"@);
    }
}

proof fn lemma_item_marker_bf(lists: Seq<Option<u64>>)
    ensures
        bracket_free(item_marker(lists)),
{
    let indent = item_indent(lists.len());
    assert(bracket_free(indent));
    if lists.len() > 0 && lists.last() is Some {
        reveal_strlit(". ");
        assert(". "@ =~= seq!['.', ' ']);
        lemma_decimal_bf(lists.last()->0 as nat);
        lemma_bf_concat(decimal(lists.last()->0 as nat), ". "@);
        lemma_bf_concat(indent, decimal(lists.last()->0 as nat) + ". "@);
    } else {
        reveal_strlit("\u{2022} ");
        assert("\u{2022} "@ =~= seq!['\u{2022}', ' ']);
        lemma_bf_concat(indent, "\u{2022} "@);
    }
}

proof fn lemma_start_balanced(prev: Seq<MdEvent>, tag: MdTag)
    ensures
        tags_balanced(emitted(prev, MdEvent::Start(tag))),
{
    let e = emitted(prev, MdEvent::Start(tag));
    match tag {
        MdTag::Strong => {
            reveal_strlit("<b>");
            assert(e =~= seq!['<'] + seq!['b'] + seq!['>']);
            lemma_tag_balanced(seq!['b']);
        },
        MdTag::Emphasis => {
            reveal_strlit("<i>");
            assert(e =~= seq!['<'] + seq!['i'] + seq!['>']);
            lemma_tag_balanced(seq!['i']);
        },
        MdTag::Strikethrough => {
            reveal_strlit("<s>");
            assert(e =~= seq!['<'] + seq!['s'] + seq!['>']);
            lemma_tag_balanced(seq!['s']);
        },
        MdTag::CodeBlock(lang) => {
            reveal_strlit("<pre>");
            let p = seq!['<'] + seq!['p', 'r', 'e'] + seq!['>'];
            lemma_tag_balanced(seq!['p', 'r', 'e']);
            if lang is Some && lang->0@.len() > 0 {
                reveal_strlit("<pre><code class=\"language-");
                reveal_strlit("\">");
                let a = seq![
                    'c', 'o', 'd', 'e', ' ', 'c', 'l', 'a', 's', 's', '=', '"', 'l', 'a', 'n', 'g',
                    'u', 'a', 'g', 'e', '-',
                ];
                let esc = escape_html_spec(lang->0@);
                assert("<pre><code class=\"language-"@ =~= p + seq!['<'] + a);
                assert("\">"@ =~= seq!['"'] + seq!['>']);
                assert(e =~= p + (seq!['<'] + (a + esc + seq!['"']) + seq!['>']));
                lemma_escaped_bf(lang->0@);
                lemma_bf_concat(a, esc);
                lemma_bf_concat(a + esc, seq!['"']);
                lemma_tag_balanced(a + esc + seq!['"']);
                lemma_balanced_concat(p, seq!['<'] + (a + esc + seq!['"']) + seq!['>']);
            } else {
                reveal_strlit("<pre><code>");
                let c = seq!['<'] + seq!['c', 'o', 'd', 'e'] + seq!['>'];
                assert(e =~= p + c);
                lemma_tag_balanced(seq!['c', 'o', 'd', 'e']);
                lemma_balanced_concat(p, c);
            }
        },
        MdTag::Link(url) => {
            reveal_strlit("<a href=\"");
            reveal_strlit("\">");
            let b = seq!['a', ' ', 'h', 'r', 'e', 'f', '=', '"'];
            let esc = escape_html_spec(url@);
            assert("<a href=\""@ =~= seq!['<'] + b);
            assert("\">"@ =~= seq!['"'] + seq!['>']);
            assert(e =~= seq!['<'] + (b + esc + seq!['"']) + seq!['>']);
            lemma_escaped_bf(url@);
            lemma_bf_concat(b, esc);
            lemma_bf_concat(b + esc, seq!['"']);
            lemma_tag_balanced(b + esc + seq!['"']);
        },
        MdTag::Heading => {
            reveal_strlit("\n<b>");
            lemma_tag_balanced(seq!['b']);
            lemma_bracket_free_balanced(seq!['\n']);
            assert(e =~= seq!['\n'] + (seq!['<'] + seq!['b'] + seq!['>']));
            lemma_balanced_concat(seq!['\n'], seq!['<'] + seq!['b'] + seq!['>']);
        },
        MdTag::BlockQuote => {
            reveal_strlit("<blockquote>");
            let q = seq!['b', 'l', 'o', 'c', 'k', 'q', 'u', 'o', 't', 'e'];
            assert(e =~= seq!['<'] + q + seq!['>']);
            lemma_tag_balanced(q);
        },
        MdTag::Item => {
            lemma_item_marker_bf(list_stack(prev));
            lemma_bracket_free_balanced(e);
        },
        MdTag::Image(url, title) => {
            reveal_strlit("[image");
            reveal_strlit(": ");
            reveal_strlit("](");
            assert("[image"@ =~= seq!['[', 'i', 'm', 'a', 'g', 'e']);
            assert(": "@ =~= seq![':', ' ']);
            assert("]("@ =~= seq![']', '(']);
            lemma_escaped_bf(title@);
            lemma_escaped_bf(url@);
            let t: Seq<char> = if title@.len() > 0 {
                ": "@ + escape_html_spec(title@)
            } else {
                seq![]
            };
            lemma_bf_concat(": "@, escape_html_spec(title@));
            lemma_bf_concat("[image"@, t);
            lemma_bf_concat("[image"@ + t, "]("@);
            lemma_bf_concat("[image"@ + t + "]("@, escape_html_spec(url@));
            lemma_bf_concat("[image"@ + t + "]("@ + escape_html_spec(url@), seq![')']);
            lemma_bracket_free_balanced(e);
        },
        _ => {
            assert(bracket_free(e));
            lemma_bracket_free_balanced(e);
        },
    }
}

proof fn lemma_end_balanced(prev: Seq<MdEvent>, tag: MdTagEnd)
    ensures
        tags_balanced(emitted(prev, MdEvent::End(tag))),
{
    let e = emitted(prev, MdEvent::End(tag));
    match tag {
        MdTagEnd::Strong => {
            reveal_strlit("</b>");
            assert(e =~= seq!['<'] + seq!['/', 'b'] + seq!['>']);
            lemma_tag_balanced(seq!['/', 'b']);
        },
        MdTagEnd::Emphasis => {
            reveal_strlit("</i>");
            assert(e =~= seq!['<'] + seq!['/', 'i'] + seq!['>']);
            lemma_tag_balanced(seq!['/', 'i']);
        },
        MdTagEnd::Strikethrough => {
            reveal_strlit("</s>");
            assert(e =~= seq!['<'] + seq!['/', 's'] + seq!['>']);
            lemma_tag_balanced(seq!['/', 's']);
        },
        MdTagEnd::CodeBlock => {
            reveal_strlit("</code></pre>");
            let c = seq!['<'] + seq!['/', 'c', 'o', 'd', 'e'] + seq!['>'];
            let p = seq!['<'] + seq!['/', 'p', 'r', 'e'] + seq!['>'];
            assert(e =~= c + p);
            lemma_tag_balanced(seq!['/', 'c', 'o', 'd', 'e']);
            lemma_tag_balanced(seq!['/', 'p', 'r', 'e']);
            lemma_balanced_concat(c, p);
        },
        MdTagEnd::Link => {
            reveal_strlit("</a>");
            assert(e =~= seq!['<'] + seq!['/', 'a'] + seq!['>']);
            lemma_tag_balanced(seq!['/', 'a']);
        },
        MdTagEnd::Heading => {
            reveal_strlit("</b>\n");
            lemma_tag_balanced(seq!['/', 'b']);
            lemma_bracket_free_balanced(seq!['\n']);
            assert(e =~= (seq!['<'] + seq!['/', 'b'] + seq!['>']) + seq!['\n']);
            lemma_balanced_concat(seq!['<'] + seq!['/', 'b'] + seq!['>'], seq!['\n']);
        },
        MdTagEnd::BlockQuote => {
            reveal_strlit("</blockquote>");
            let q = seq!['/', 'b', 'l', 'o', 'c', 'k', 'q', 'u', 'o', 't', 'e'];
            assert(e =~= seq!['<'] + q + seq!['>']);
            lemma_tag_balanced(q);
        },
        MdTagEnd::Table => {
            lemma_table_html_balanced(table_rows(prev));
        },
        _ => {
            assert(bracket_free(e));
            lemma_bracket_free_balanced(e);
        },
    }
}

proof fn lemma_emitted_balanced(prev: Seq<MdEvent>, ev: MdEvent)
    ensures
        tags_balanced(emitted(prev, ev)),
{
    let e = emitted(prev, ev);
    match ev {
        MdEvent::Start(tag) => lemma_start_balanced(prev, tag),
        MdEvent::End(tag) => lemma_end_balanced(prev, tag),
        MdEvent::Code(t) => {
            reveal_strlit("<code>");
            reveal_strlit("</code>");
            let o = seq!['<'] + seq!['c', 'o', 'd', 'e'] + seq!['>'];
            let c = seq!['<'] + seq!['/', 'c', 'o', 'd', 'e'] + seq!['>'];
            assert(e =~= o + escape_html_spec(t@) + c);
            lemma_tag_balanced(seq!['c', 'o', 'd', 'e']);
            lemma_tag_balanced(seq!['/', 'c', 'o', 'd', 'e']);
            lemma_escaped_bf(t@);
            lemma_wrapped_balanced(o, escape_html_spec(t@), c);
        },
        MdEvent::TaskListMarker(checked) => {
            reveal_strlit("[x] ");
            reveal_strlit("[ ] ");
            if checked {
                assert(e =~= seq!['[', 'x', ']', ' ']);
            } else {
                assert(e =~= seq!['[', ' ', ']', ' ']);
            }
            lemma_bracket_free_balanced(e);
        },
        MdEvent::Text(t) => {
            lemma_escaped_bf(t@);
            lemma_bracket_free_balanced(e);
        },
        MdEvent::Rule => {
            reveal_strlit("\n---\n");
            assert(e =~= seq!['\n', '-', '-', '-', '\n']);
            lemma_bracket_free_balanced(e);
        },
        MdEvent::Html(h) => {
            lemma_escaped_bf(h@);
            lemma_bracket_free_balanced(e);
        },
        MdEvent::InlineHtml(h) => {
            lemma_escaped_bf(h@);
            lemma_bracket_free_balanced(e);
        },
        _ => {
            assert(bracket_free(e));
            lemma_bracket_free_balanced(e);
        },
    }
}

proof fn lemma_rendered_balanced(evs: Seq<MdEvent>)
    ensures
        tags_balanced(rendered(evs)),
    decreases evs.len(),
{
    if evs.len() == 0 {
        lemma_bracket_free_balanced(Seq::<char>::empty());
    } else {
        lemma_rendered_balanced(evs.drop_last());
        lemma_emitted_balanced(evs.drop_last(), evs.last());
        lemma_balanced_concat(rendered(evs.drop_last()), emitted(evs.drop_last(), evs.last()));
    }
}

proof fn lemma_trim_start_balanced(s: Seq<char>)
    requires
        tags_balanced(s),
    ensures
        tags_balanced(crate::text::trim_start_spec(s)),
    decreases s.len(),
{
    if s.len() > 0 && crate::text::is_ws_spec(s[0]) {
        lemma_balanced_drop_first(s);
        lemma_trim_start_balanced(s.drop_first());
    }
}

proof fn lemma_trim_end_balanced(s: Seq<char>)
    requires
        tags_balanced(s),
    ensures
        tags_balanced(crate::text::trim_end_spec(s)),
    decreases s.len(),
{
    if s.len() > 0 && crate::text::is_ws_spec(s.last()) {
        lemma_balanced_drop_last(s);
        lemma_trim_end_balanced(s.drop_last());
    }
}

/// The Telegram HTML of any Markdown document has balanced tags: every `<` opens a tag
/// that the next `>` closes, since all text is escaped and every tag is written whole.
pub proof fn lemma_telegram_html_balanced(evs: Seq<MdEvent>)
    ensures
        tags_balanced(telegram_html(evs)),
{
    lemma_rendered_balanced(evs);
    lemma_trim_start_balanced(rendered(evs));
    lemma_trim_end_balanced(crate::text::trim_start_spec(rendered(evs)));
}

/// A Markdown reply, rendered and cut for Telegram, gives chunks that each hold as many
/// `<` as `>`.
pub proof fn lemma_markdown_chunks_keep_tags_whole(evs: Seq<MdEvent>)
    ensures
        forall|i: int|
            0 <= i < chunk_html_spec(telegram_html(evs)).len() ==> count_char(
                #[trigger] chunk_html_spec(telegram_html(evs))[i],
                '<',
            ) == count_char(chunk_html_spec(telegram_html(evs))[i], '>'),
{
    lemma_telegram_html_balanced(evs);
    lemma_chunks_keep_tags_whole(telegram_html(evs));
}

/// Whether the End `e` closes an element started by `t`.
pub open spec fn ends_element(t: MdTag, e: MdTagEnd) -> bool {
    match e {
        MdTagEnd::Paragraph => t is Paragraph,
        MdTagEnd::Heading => t is Heading,
        MdTagEnd::BlockQuote => t is BlockQuote,
        MdTagEnd::CodeBlock => t is CodeBlock,
        MdTagEnd::List => t is List,
        MdTagEnd::Item => t is Item,
        MdTagEnd::Table => t is Table,
        MdTagEnd::TableHead => t is TableHead,
        MdTagEnd::TableRow => t is TableRow,
        MdTagEnd::TableCell => t is TableCell,
        MdTagEnd::Emphasis => t is Emphasis,
        MdTagEnd::Strong => t is Strong,
        MdTagEnd::Strikethrough => t is Strikethrough,
        MdTagEnd::Link => t is Link,
        MdTagEnd::Image => t is Image,
        MdTagEnd::Other => t is Other,
    }
}

/// The elements still open after `evs`, innermost last; `None` when an End closes no
/// open element or one of another kind.
pub open spec fn open_elements(evs: Seq<MdEvent>) -> Option<Seq<MdTag>>
    decreases evs.len(),
{
    if evs.len() == 0 {
        Some(seq![])
    } else {
        match open_elements(evs.drop_last()) {
            None => None,
            Some(st) => match evs.last() {
                MdEvent::Start(t) => Some(st.push(t)),
                MdEvent::End(e) => if st.len() > 0 && ends_element(st.last(), e) {
                    Some(st.drop_last())
                } else {
                    None
                },
                _ => Some(st),
            },
        }
    }
}

/// The events are well nested: every End closes the innermost open element, of its
/// kind, and every element is closed.
pub open spec fn well_nested(evs: Seq<MdEvent>) -> bool {
    open_elements(evs) == Some(Seq::<MdTag>::empty())
}

/// The opening `<code>` tag of a code block.
pub open spec fn code_open(lang: Option<String>) -> Seq<char> {
    if lang is Some && lang->0@.len() > 0 {
        "<code class=\"language-"@ + escape_html_spec(lang->0@) + "\">"@
    } else {
        "<code>"@
    }
}

/// The opening `<a>` tag of a link.
pub open spec fn link_open(url: String) -> Seq<char> {
    "<a href=\""@ + escape_html_spec(url@) + "\">"@
}

/// The HTML tags an open element keeps open, outermost first, each with its closing tag.
pub open spec fn element_tags(t: MdTag) -> Seq<(Seq<char>, Seq<char>)> {
    match t {
        MdTag::Strong => seq![("<b>"@, "</b>"@)],
        MdTag::Heading => seq![("<b>"@, "</b>"@)],
        MdTag::Emphasis => seq![("<i>"@, "</i>"@)],
        MdTag::Strikethrough => seq![("<s>"@, "</s>"@)],
        MdTag::BlockQuote => seq![("<blockquote>"@, "</blockquote>"@)],
        MdTag::CodeBlock(lang) => seq![("<pre>"@, "</pre>"@), (code_open(lang), "</code>"@)],
        MdTag::Link(url) => seq![(link_open(url), "</a>"@)],
        _ => seq![],
    }
}

/// The HTML tags kept open by a stack of open elements.
pub open spec fn elements_tags(st: Seq<MdTag>) -> Seq<(Seq<char>, Seq<char>)>
    decreases st.len(),
{
    if st.len() == 0 {
        seq![]
    } else {
        elements_tags(st.drop_last()) + element_tags(st.last())
    }
}

/// A tag name: lower-case ASCII letters.
pub open spec fn tag_word(w: Seq<char>) -> bool {
    w.len() > 0 && forall|j: int| 0 <= j < w.len() ==> 'a' <= #[trigger] w[j] <= 'z'
}

proof fn lemma_tag_word_facts(w: Seq<char>)
    requires
        tag_word(w),
    ensures
        bracket_free(w),
        forall|j: int| 0 <= j < w.len() ==> !is_ascii_ws(#[trigger] w[j]),
        bracket_free(seq!['/'] + w),
        crate::text::trim_spec(w) == w,
        w[0] != '/' && w[0] != '!' && w.last() != '/',
{
    assert forall|j: int| 0 <= j < (seq!['/'] + w).len() implies (seq!['/'] + w)[j] != '<' && (
    seq!['/'] + w)[j] != '>' by {
        if j > 0 {
            assert((seq!['/'] + w)[j] == w[j - 1]);
        }
    }
    assert(!crate::text::is_ws_spec(w[0]));
    assert(!crate::text::is_ws_spec(w.last()));
}

/// Scanning the opening tag `<w rest>` pushes it with its closing tag `</w>`.
proof fn lemma_scan_open(tags: Seq<(Seq<char>, Seq<char>)>, w: Seq<char>, rest: Seq<char>)
    requires
        tag_word(w),
        bracket_free(rest),
        rest.len() == 0 || (rest[0] == ' ' && rest.last() != '/'),
    ensures
        scan_tags(tags, seq!['<'] + (w + rest) + seq!['>'], 0) == tags.push(
            (seq!['<'] + (w + rest) + seq!['>'], seq!['<'] + (seq!['/'] + w) + seq!['>']),
        ),
        tag_name_of_spec(seq!['<'] + (w + rest) + seq!['>']) == w,
{
    lemma_tag_word_facts(w);
    let inner = w + rest;
    lemma_bf_concat(w, rest);
    lemma_scan_one_tag(tags, inner);
    lemma_first_token_word(w, rest);
    lemma_tag_name_of_whole(inner);
    assert(inner[0] == w[0]);
    if rest.len() > 0 {
        assert(inner.last() == rest.last());
    } else {
        assert(inner =~= w);
    }
    reveal_strlit("</");
    reveal_strlit(">");
    assert("</"@ + w + ">"@ =~= seq!['<'] + (seq!['/'] + w) + seq!['>']);
}

/// Scanning the closing tag `</w>` closes the innermost open tag when it is named `w`.
proof fn lemma_scan_close(tags: Seq<(Seq<char>, Seq<char>)>, w: Seq<char>)
    requires
        tag_word(w),
        tags.len() > 0,
        tag_name_of_spec(tags.last().0) == w,
    ensures
        scan_tags(tags, seq!['<'] + (seq!['/'] + w) + seq!['>'], 0) == tags.drop_last(),
{
    lemma_tag_word_facts(w);
    lemma_scan_one_tag(tags, seq!['/'] + w);
    assert((seq!['/'] + w).drop_first() =~= w);
    assert(last_named(tags, w) == Some(tags.len() - 1));
    assert(tags.remove(tags.len() - 1) =~= tags.drop_last());
}

proof fn lemma_scan_bf(tags: Seq<(Seq<char>, Seq<char>)>, s: Seq<char>)
    requires
        bracket_free(s),
    ensures
        scan_tags(tags, s, 0) == tags,
{
    lemma_scan_tag_free(tags, s, 0);
}

/// Scanning `a` then `b`, where `a` has balanced tags.
proof fn lemma_scan_then(tags: Seq<(Seq<char>, Seq<char>)>, a: Seq<char>, b: Seq<char>)
    requires
        tags_balanced(a),
    ensures
        scan_tags(tags, a + b, 0) == scan_tags(scan_tags(tags, a, 0), b, 0),
{
    assert(a.take(0) =~= Seq::<char>::empty());
    assert(count_char(Seq::<char>::empty(), '<') == 0);
    assert(count_char(Seq::<char>::empty(), '>') == 0);
    lemma_scan_concat(tags, a, b, 0);
}

/// Scanning `<w>` pushes it with `</w>`.
proof fn lemma_scan_simple_open(tags: Seq<(Seq<char>, Seq<char>)>, w: Seq<char>, open: Seq<char>, close: Seq<char>)
    requires
        tag_word(w),
        open =~= seq!['<'] + w + seq!['>'],
        close =~= seq!['<'] + (seq!['/'] + w) + seq!['>'],
    ensures
        scan_tags(tags, open, 0) == tags.push((open, close)),
        tag_name_of_spec(open) == w,
        tags_balanced(open),
        tags_balanced(close),
{
    assert(w + Seq::<char>::empty() =~= w);
    lemma_scan_open(tags, w, Seq::<char>::empty());
    lemma_tag_word_facts(w);
    lemma_tag_balanced(w);
    lemma_tag_balanced(seq!['/'] + w);
}

/// Scanning `</w>` closes the innermost open tag when it is named `w`.
proof fn lemma_scan_simple_close(tags: Seq<(Seq<char>, Seq<char>)>, w: Seq<char>, close: Seq<char>)
    requires
        tag_word(w),
        close =~= seq!['<'] + (seq!['/'] + w) + seq!['>'],
        tags.len() > 0,
        tag_name_of_spec(tags.last().0) == w,
    ensures
        scan_tags(tags, close, 0) == tags.drop_last(),
        tags_balanced(close),
{
    lemma_scan_close(tags, w);
    lemma_tag_word_facts(w);
    lemma_tag_balanced(seq!['/'] + w);
}

/// The code block's opening `<code>` tag is named `code` and pushes `</code>`.
proof fn lemma_scan_code_open(tags: Seq<(Seq<char>, Seq<char>)>, lang: Option<String>)
    ensures
        scan_tags(tags, code_open(lang), 0) == tags.push((code_open(lang), "</code>"@)),
        tag_name_of_spec(code_open(lang)) == seq!['c', 'o', 'd', 'e'],
        tags_balanced(code_open(lang)),
{
    let w = seq!['c', 'o', 'd', 'e'];
    reveal_strlit("</code>");
    let close = seq!['<'] + (seq!['/'] + w) + seq!['>'];
    assert("</code>"@ =~= close);
    if lang is Some && lang->0@.len() > 0 {
        reveal_strlit("<code class=\"language-");
        reveal_strlit("\">");
        let esc = escape_html_spec(lang->0@);
        let rest = seq![' ', 'c', 'l', 'a', 's', 's', '=', '"', 'l', 'a', 'n', 'g', 'u', 'a', 'g', 'e', '-'] + esc + seq!['"'];
        assert(code_open(lang) =~= seq!['<'] + (w + rest) + seq!['>']);
        lemma_escaped_bf(lang->0@);
        lemma_bf_concat(seq![' ', 'c', 'l', 'a', 's', 's', '=', '"', 'l', 'a', 'n', 'g', 'u', 'a', 'g', 'e', '-'], esc);
        lemma_bf_concat(seq![' ', 'c', 'l', 'a', 's', 's', '=', '"', 'l', 'a', 'n', 'g', 'u', 'a', 'g', 'e', '-'] + esc, seq!['"']);
        assert(rest[0] == ' ');
        assert(rest.last() == '"');
        lemma_scan_open(tags, w, rest);
        lemma_bf_concat(w, rest);
        lemma_tag_word_facts(w);
        lemma_tag_balanced(w + rest);
    } else {
        reveal_strlit("<code>");
        lemma_scan_simple_open(tags, w, code_open(lang), close);
    }
}

/// The link's opening `<a>` tag is named `a` and pushes `</a>`.
proof fn lemma_scan_link_open(tags: Seq<(Seq<char>, Seq<char>)>, url: String)
    ensures
        scan_tags(tags, link_open(url), 0) == tags.push((link_open(url), "</a>"@)),
        tag_name_of_spec(link_open(url)) == seq!['a'],
        tags_balanced(link_open(url)),
{
    let w = seq!['a'];
    reveal_strlit("</a>");
    reveal_strlit("<a href=\"");
    reveal_strlit("\">");
    assert("</a>"@ =~= seq!['<'] + (seq!['/'] + w) + seq!['>']);
    let esc = escape_html_spec(url@);
    let rest = seq![' ', 'h', 'r', 'e', 'f', '=', '"'] + esc + seq!['"'];
    assert(link_open(url) =~= seq!['<'] + (w + rest) + seq!['>']);
    lemma_escaped_bf(url@);
    lemma_bf_concat(seq![' ', 'h', 'r', 'e', 'f', '=', '"'], esc);
    lemma_bf_concat(seq![' ', 'h', 'r', 'e', 'f', '=', '"'] + esc, seq!['"']);
    assert(rest[0] == ' ');
    assert(rest.last() == '"');
    lemma_scan_open(tags, w, rest);
    lemma_bf_concat(w, rest);
    lemma_tag_word_facts(w);
    lemma_tag_balanced(w + rest);
}

proof fn lemma_nl_scan(tags: Seq<(Seq<char>, Seq<char>)>)
    ensures
        scan_tags(tags, seq!['\n'], 0) == tags,
        tags_balanced(seq!['\n']),
{
    lemma_scan_bf(tags, seq!['\n']);
    lemma_bracket_free_balanced(seq!['\n']);
}

/// The tags opened by the start of an element are pushed onto the open tags.
proof fn lemma_start_scan(prev: Seq<MdEvent>, t: MdTag, tags: Seq<(Seq<char>, Seq<char>)>)
    ensures
        scan_tags(tags, emitted(prev, MdEvent::Start(t)), 0) == tags + element_tags(t),
{
    let e = emitted(prev, MdEvent::Start(t));
    match t {
        MdTag::Strong => {
            reveal_strlit("<b>");
            reveal_strlit("</b>");
            lemma_scan_simple_open(tags, seq!['b'], "<b>"@, "</b>"@);
            assert(tags.push(("<b>"@, "</b>"@)) =~= tags + element_tags(t));
        },
        MdTag::Heading => {
            reveal_strlit("<b>");
            reveal_strlit("</b>");
            reveal_strlit("\n<b>");
            lemma_scan_simple_open(tags, seq!['b'], "<b>"@, "</b>"@);
            assert(e =~= seq!['\n'] + "<b>"@);
            lemma_nl_scan(tags);
            lemma_scan_then(tags, seq!['\n'], "<b>"@);
            assert(tags.push(("<b>"@, "</b>"@)) =~= tags + element_tags(t));
        },
        MdTag::Emphasis => {
            reveal_strlit("<i>");
            reveal_strlit("</i>");
            lemma_scan_simple_open(tags, seq!['i'], "<i>"@, "</i>"@);
            assert(tags.push(("<i>"@, "</i>"@)) =~= tags + element_tags(t));
        },
        MdTag::Strikethrough => {
            reveal_strlit("<s>");
            reveal_strlit("</s>");
            lemma_scan_simple_open(tags, seq!['s'], "<s>"@, "</s>"@);
            assert(tags.push(("<s>"@, "</s>"@)) =~= tags + element_tags(t));
        },
        MdTag::BlockQuote => {
            reveal_strlit("<blockquote>");
            reveal_strlit("</blockquote>");
            let w = seq!['b', 'l', 'o', 'c', 'k', 'q', 'u', 'o', 't', 'e'];
            lemma_scan_simple_open(tags, w, "<blockquote>"@, "</blockquote>"@);
            assert(tags.push(("<blockquote>"@, "</blockquote>"@)) =~= tags + element_tags(t));
        },
        MdTag::CodeBlock(lang) => {
            reveal_strlit("<pre>");
            reveal_strlit("</pre>");
            reveal_strlit("<pre><code class=\"language-");
            reveal_strlit("<code class=\"language-");
            reveal_strlit("<pre><code>");
            reveal_strlit("<code>");
            let w = seq!['p', 'r', 'e'];
            lemma_scan_simple_open(tags, w, "<pre>"@, "</pre>"@);
            assert(e =~= "<pre>"@ + code_open(lang));
            lemma_scan_then(tags, "<pre>"@, code_open(lang));
            lemma_scan_code_open(tags.push(("<pre>"@, "</pre>"@)), lang);
            assert(tags.push(("<pre>"@, "</pre>"@)).push((code_open(lang), "</code>"@)) =~= tags
                + element_tags(t));
        },
        MdTag::Link(url) => {
            lemma_scan_link_open(tags, url);
            assert(tags.push((link_open(url), "</a>"@)) =~= tags + element_tags(t));
        },
        MdTag::Item => {
            lemma_item_marker_bf(list_stack(prev));
            lemma_scan_bf(tags, e);
            assert(tags + element_tags(t) =~= tags);
        },
        MdTag::Image(url, title) => {
            reveal_strlit("[image");
            reveal_strlit(": ");
            reveal_strlit("](");
            assert("[image"@ =~= seq!['[', 'i', 'm', 'a', 'g', 'e']);
            assert(": "@ =~= seq![':', ' ']);
            assert("]("@ =~= seq![']', '(']);
            lemma_escaped_bf(title@);
            lemma_escaped_bf(url@);
            let tt: Seq<char> = if title@.len() > 0 {
                ": "@ + escape_html_spec(title@)
            } else {
                seq![]
            };
            lemma_bf_concat(": "@, escape_html_spec(title@));
            lemma_bf_concat("[image"@, tt);
            lemma_bf_concat("[image"@ + tt, "]("@);
            lemma_bf_concat("[image"@ + tt + "]("@, escape_html_spec(url@));
            lemma_bf_concat("[image"@ + tt + "]("@ + escape_html_spec(url@), seq![')']);
            lemma_scan_bf(tags, e);
            assert(tags + element_tags(t) =~= tags);
        },
        _ => {
            assert(bracket_free(e));
            lemma_scan_bf(tags, e);
            assert(tags + element_tags(t) =~= tags);
        },
    }
}

/// The end of an element closes the tags its start opened.
proof fn lemma_end_scan(
    prev: Seq<MdEvent>,
    t: MdTag,
    en: MdTagEnd,
    tags: Seq<(Seq<char>, Seq<char>)>,
)
    requires
        ends_element(t, en),
    ensures
        scan_tags(tags + element_tags(t), emitted(prev, MdEvent::End(en)), 0) == tags,
{
    let e = emitted(prev, MdEvent::End(en));
    let all = tags + element_tags(t);
    match en {
        MdTagEnd::Strong => {
            reveal_strlit("<b>");
            reveal_strlit("</b>");
            lemma_scan_simple_open(tags, seq!['b'], "<b>"@, "</b>"@);
            lemma_scan_simple_close(all, seq!['b'], "</b>"@);
            assert(all.drop_last() =~= tags);
        },
        MdTagEnd::Heading => {
            reveal_strlit("<b>");
            reveal_strlit("</b>");
            reveal_strlit("</b>\n");
            lemma_scan_simple_open(tags, seq!['b'], "<b>"@, "</b>"@);
            lemma_scan_simple_close(all, seq!['b'], "</b>"@);
            assert(all.drop_last() =~= tags);
            assert(e =~= "</b>"@ + seq!['\n']);
            lemma_scan_then(all, "</b>"@, seq!['\n']);
            lemma_nl_scan(tags);
        },
        MdTagEnd::Emphasis => {
            reveal_strlit("<i>");
            reveal_strlit("</i>");
            lemma_scan_simple_open(tags, seq!['i'], "<i>"@, "</i>"@);
            lemma_scan_simple_close(all, seq!['i'], "</i>"@);
            assert(all.drop_last() =~= tags);
        },
        MdTagEnd::Strikethrough => {
            reveal_strlit("<s>");
            reveal_strlit("</s>");
            lemma_scan_simple_open(tags, seq!['s'], "<s>"@, "</s>"@);
            lemma_scan_simple_close(all, seq!['s'], "</s>"@);
            assert(all.drop_last() =~= tags);
        },
        MdTagEnd::BlockQuote => {
            reveal_strlit("<blockquote>");
            reveal_strlit("</blockquote>");
            let w = seq!['b', 'l', 'o', 'c', 'k', 'q', 'u', 'o', 't', 'e'];
            lemma_scan_simple_open(tags, w, "<blockquote>"@, "</blockquote>"@);
            lemma_scan_simple_close(all, w, "</blockquote>"@);
            assert(all.drop_last() =~= tags);
        },
        MdTagEnd::CodeBlock => {
            let lang = t->CodeBlock_0;
            reveal_strlit("<pre>");
            reveal_strlit("</pre>");
            reveal_strlit("</code>");
            reveal_strlit("</code></pre>");
            let pw = seq!['p', 'r', 'e'];
            let cw = seq!['c', 'o', 'd', 'e'];
            lemma_scan_simple_open(tags, pw, "<pre>"@, "</pre>"@);
            lemma_scan_code_open(tags, lang);
            let mid = tags.push(("<pre>"@, "</pre>"@));
            assert(all =~= mid.push((code_open(lang), "</code>"@)));
            lemma_scan_simple_close(all, cw, "</code>"@);
            assert(all.drop_last() =~= mid);
            lemma_scan_simple_close(mid, pw, "</pre>"@);
            assert(mid.drop_last() =~= tags);
            assert(e =~= "</code>"@ + "</pre>"@);
            lemma_scan_then(all, "</code>"@, "</pre>"@);
        },
        MdTagEnd::Link => {
            let url = t->Link_0;
            reveal_strlit("</a>");
            lemma_scan_link_open(tags, url);
            lemma_scan_simple_close(all, seq!['a'], "</a>"@);
            assert(all.drop_last() =~= tags);
        },
        MdTagEnd::Table => {
            assert(all =~= tags);
            let rows = table_rows(prev);
            if rows.len() == 0 {
                lemma_scan_bf(tags, e);
            } else {
                reveal_strlit("<pre>");
                reveal_strlit("</pre>");
                let pw = seq!['p', 'r', 'e'];
                let lines = table_lines(rows, rows.len() as int);
                lemma_scan_simple_open(tags, pw, "<pre>"@, "</pre>"@);
                lemma_table_lines_bf(rows, rows.len() as int);
                lemma_bracket_free_balanced(lines);
                assert(e =~= "<pre>"@ + (lines + "</pre>"@));
                lemma_scan_then(tags, "<pre>"@, lines + "</pre>"@);
                let mid = tags.push(("<pre>"@, "</pre>"@));
                lemma_scan_then(mid, lines, "</pre>"@);
                lemma_scan_bf(mid, lines);
                lemma_scan_simple_close(mid, pw, "</pre>"@);
                assert(mid.drop_last() =~= tags);
            }
        },
        _ => {
            assert(all =~= tags);
            assert(bracket_free(e));
            lemma_scan_bf(tags, e);
        },
    }
}

proof fn lemma_code_scan(tags: Seq<(Seq<char>, Seq<char>)>, c: String)
    ensures
        scan_tags(tags, "<code>"@ + escape_html_spec(c@) + "</code>"@, 0) == tags,
{
    reveal_strlit("<code>");
    reveal_strlit("</code>");
    let cw = seq!['c', 'o', 'd', 'e'];
    let esc = escape_html_spec(c@);
    lemma_scan_simple_open(tags, cw, "<code>"@, "</code>"@);
    lemma_escaped_bf(c@);
    lemma_bracket_free_balanced(esc);
    assert("<code>"@ + esc + "</code>"@ =~= "<code>"@ + (esc + "</code>"@));
    lemma_scan_then(tags, "<code>"@, esc + "</code>"@);
    let mid = tags.push(("<code>"@, "</code>"@));
    lemma_scan_then(mid, esc, "</code>"@);
    lemma_scan_bf(mid, esc);
    lemma_scan_simple_close(mid, cw, "</code>"@);
    assert(mid.drop_last() =~= tags);
}

proof fn lemma_rendered_scan(evs: Seq<MdEvent>)
    ensures
        open_elements(evs) matches Some(st) ==> open_tags_after(seq![], rendered(evs))
            == elements_tags(st),
    decreases evs.len(),
{
    if evs.len() == 0 {
        assert(elements_tags(Seq::<MdTag>::empty()) =~= Seq::<(Seq<char>, Seq<char>)>::empty());
    } else {
        let prev = evs.drop_last();
        let ev = evs.last();
        lemma_rendered_scan(prev);
        match open_elements(prev) {
            None => {},
            Some(stp) => {
                let t0 = elements_tags(stp);
                let none: Seq<(Seq<char>, Seq<char>)> = seq![];
                lemma_rendered_balanced(prev);
                lemma_scan_then(none, rendered(prev), emitted(prev, ev));
                let e = emitted(prev, ev);
                match ev {
                    MdEvent::Start(t) => {
                        lemma_start_scan(prev, t, t0);
                        let st = stp.push(t);
                        assert(st.drop_last() =~= stp);
                    },
                    MdEvent::End(en) => {
                        if stp.len() > 0 && ends_element(stp.last(), en) {
                            let st = stp.drop_last();
                            assert(elements_tags(stp) == elements_tags(st) + element_tags(stp.last()));
                            lemma_end_scan(prev, stp.last(), en, elements_tags(st));
                        }
                    },
                    MdEvent::Code(c) => {
                        lemma_code_scan(t0, c);
                    },
                    MdEvent::TaskListMarker(checked) => {
                        reveal_strlit("[x] ");
                        reveal_strlit("[ ] ");
                        if checked {
                            assert(e =~= seq!['[', 'x', ']', ' ']);
                        } else {
                            assert(e =~= seq!['[', ' ', ']', ' ']);
                        }
                        lemma_scan_bf(t0, e);
                    },
                    MdEvent::Text(t) => {
                        lemma_escaped_bf(t@);
                        lemma_scan_bf(t0, e);
                    },
                    MdEvent::Rule => {
                        reveal_strlit("\n---\n");
                        assert(e =~= seq!['\n', '-', '-', '-', '\n']);
                        lemma_scan_bf(t0, e);
                    },
                    MdEvent::Html(h) => {
                        lemma_escaped_bf(h@);
                        lemma_scan_bf(t0, e);
                    },
                    MdEvent::InlineHtml(h) => {
                        lemma_escaped_bf(h@);
                        lemma_scan_bf(t0, e);
                    },
                    _ => {
                        assert(bracket_free(e));
                        lemma_scan_bf(t0, e);
                    },
                }
            },
        }
    }
}

proof fn lemma_scan_trim_start(tags: Seq<(Seq<char>, Seq<char>)>, s: Seq<char>)
    requires
        tags_balanced(s),
    ensures
        scan_tags(tags, crate::text::trim_start_spec(s), 0) == scan_tags(tags, s, 0),
    decreases s.len(),
{
    if s.len() > 0 && crate::text::is_ws_spec(s[0]) {
        assert(s =~= seq![s[0]] + s.drop_first());
        lemma_bracket_free_balanced(seq![s[0]]);
        lemma_scan_then(tags, seq![s[0]], s.drop_first());
        lemma_scan_bf(tags, seq![s[0]]);
        lemma_balanced_drop_first(s);
        lemma_scan_trim_start(tags, s.drop_first());
    }
}

proof fn lemma_scan_trim_end(tags: Seq<(Seq<char>, Seq<char>)>, s: Seq<char>)
    requires
        tags_balanced(s),
    ensures
        scan_tags(tags, crate::text::trim_end_spec(s), 0) == scan_tags(tags, s, 0),
    decreases s.len(),
{
    if s.len() > 0 && crate::text::is_ws_spec(s.last()) {
        assert(s =~= s.drop_last() + seq![s.last()]);
        lemma_balanced_drop_last(s);
        lemma_scan_then(tags, s.drop_last(), seq![s.last()]);
        lemma_scan_bf(scan_tags(tags, s.drop_last(), 0), seq![s.last()]);
        lemma_scan_trim_end(tags, s.drop_last());
    }
}

/// The Telegram HTML of well-nested Markdown closes every tag it opens, innermost first:
/// read as the chunker reads it, it leaves no tag open.
pub proof fn lemma_telegram_html_closes_tags(evs: Seq<MdEvent>)
    requires
        well_nested(evs),
    ensures
        open_tags_after(seq![], telegram_html(evs)) == Seq::<(Seq<char>, Seq<char>)>::empty(),
{
    let none: Seq<(Seq<char>, Seq<char>)> = seq![];
    lemma_rendered_scan(evs);
    assert(elements_tags(Seq::<MdTag>::empty()) =~= none);
    lemma_rendered_balanced(evs);
    lemma_trim_start_balanced(rendered(evs));
    lemma_scan_trim_start(none, rendered(evs));
    lemma_scan_trim_end(none, crate::text::trim_start_spec(rendered(evs)));
}

/// The texts of the cells of a table row.
pub open spec fn cells_view(row: Seq<Vec<char>>) -> Seq<Seq<char>> {
    row.map_values(|c: Vec<char>| c@)
}

/// The texts of the rows of a table.
pub open spec fn rows_view(rows: Seq<Vec<Vec<char>>>) -> Seq<Seq<Seq<char>>> {
    rows.map_values(|r: Vec<Vec<char>>| cells_view(r@))
}

fn table_col_count(rows: &Vec<Vec<Vec<char>>>) -> (n: usize)
    ensures
        n == col_count(rows_view(rows@)),
{
    let ghost rv = rows_view(rows@);
    let mut n: usize = 0;
    let mut i: usize = 0;
    while i < rows.len()
        invariant
            i <= rows@.len(),
            rv == rows_view(rows@),
            n == col_count(rv.take(i as int)),
        decreases rows.len() - i,
    {
        assert(rv.take(i + 1).drop_last() =~= rv.take(i as int));
        let len = rows[i].len();
        if len > n {
            n = len;
        }
        i = i + 1;
    }
    assert(rv.take(rows@.len() as int) =~= rv);
    n
}

fn table_col_widths(rows: &Vec<Vec<Vec<char>>>, ncols: usize) -> (w: Vec<u128>)
    ensures
        w@.len() == ncols,
        forall|c: int| 0 <= c < ncols ==> #[trigger] w@[c] == col_width(rows_view(rows@), c),
{
    let ghost rv = rows_view(rows@);
    let mut w: Vec<u128> = Vec::new();
    let mut c: usize = 0;
    while c < ncols
        invariant
            c <= ncols,
            w@.len() == c,
            forall|k: int| 0 <= k < c ==> #[trigger] w@[k] == 0,
        decreases ncols - c,
    {
        w.push(0);
        c = c + 1;
    }
    let mut i: usize = 0;
    while i < rows.len()
        invariant
            i <= rows@.len(),
            rv == rows_view(rows@),
            w@.len() == ncols,
            forall|k: int| 0 <= k < ncols ==> #[trigger] w@[k] == col_width(rv.take(i as int), k),
        decreases rows.len() - i,
    {
        let ghost before = w@;
        let row = &rows[i];
        assert(rv.take(i + 1).drop_last() =~= rv.take(i as int));
        assert(rv.take(i + 1).last() == cells_view(row@));
        let mut j: usize = 0;
        while j < row.len()
            invariant
                j <= row@.len(),
                rv == rows_view(rows@),
                row@ == rows@[i as int]@,
                i < rows@.len(),
                w@.len() == ncols,
                forall|k: int|
                    0 <= k < ncols && k < j ==> #[trigger] w@[k] == col_width(rv.take(i + 1), k),
                forall|k: int| 0 <= k < ncols && k >= j ==> #[trigger] w@[k] == before[k],
                forall|k: int| 0 <= k < ncols ==> #[trigger] before[k] == col_width(rv.take(i as int), k),
            decreases row.len() - j,
        {
            assert(rv.take(i + 1).drop_last() =~= rv.take(i as int));
            assert(rv.take(i + 1).last() == cells_view(row@));
            if j < ncols {
                let cw = utf8_len_range(row[j].as_slice(), 0, row[j].len());
                assert(row[j as int]@.subrange(0, row[j as int]@.len() as int) =~= row[j as int]@);
                if cw > w[j] {
                    w.set(j, cw);
                }
            }
            j = j + 1;
        }
        assert forall|k: int| 0 <= k < ncols implies #[trigger] w@[k] == col_width(
            rv.take(i + 1),
            k,
        ) by {
            assert(rv.take(i + 1).drop_last() =~= rv.take(i as int));
        }
        i = i + 1;
    }
    assert(rv.take(rows@.len() as int) =~= rv);
    w
}

fn push_repeat(out: &mut Vec<char>, c: char, n: u128)
    ensures
        final(out)@ == old(out)@ + repeat_char(c, n as nat),
{
    let mut k: u128 = 0;
    while k < n
        invariant
            k <= n,
            out@ == old(out)@ + repeat_char(c, k as nat),
        decreases n - k,
    {
        out.push(c);
        k = k + 1;
        assert(out@ =~= old(out)@ + repeat_char(c, k as nat));
    }
}

fn push_all(out: &mut Vec<char>, v: &[char])
    ensures
        final(out)@ == old(out)@ + v@,
{
    let mut k: usize = 0;
    while k < v.len()
        invariant
            k <= v@.len(),
            out@ == old(out)@ + v@.take(k as int),
        decreases v.len() - k,
    {
        out.push(v[k]);
        k = k + 1;
        assert(out@ =~= old(out)@ + v@.take(k as int));
    }
    assert(v@.take(v@.len() as int) =~= v@);
}

fn table_row_line(
    rows: &Vec<Vec<Vec<char>>>,
    r: usize,
    ncols: usize,
    widths: &Vec<u128>,
) -> (line: Vec<char>)
    requires
        r < rows@.len(),
        ncols == col_count(rows_view(rows@)),
        widths@.len() == ncols,
        forall|c: int| 0 <= c < ncols ==> #[trigger] widths@[c] == col_width(rows_view(rows@), c),
    ensures
        line@ == row_line(
            rows_view(rows@),
            rows_view(rows@)[r as int],
            rows_view(rows@)[r as int].len() as int,
        ),
{
    let ghost rv = rows_view(rows@);
    let row = &rows[r];
    let ghost rowv = rv[r as int];
    assert(rowv == cells_view(row@));
    let mut line: Vec<char> = Vec::new();
    let mut j: usize = 0;
    proof {
        reveal_strlit(" | ");
    }
    while j < row.len()
        invariant
            j <= row@.len(),
            rv == rows_view(rows@),
            rowv == cells_view(row@),
            ncols == col_count(rv),
            widths@.len() == ncols,
            forall|c: int| 0 <= c < ncols ==> #[trigger] widths@[c] == col_width(rv, c),
            line@ == row_line(rv, rowv, j as int),
            " | "@ == seq![' ', '|', ' '],
        decreases row.len() - j,
    {
        let ghost before = line@;
        if j < ncols {
            let cell = &row[j];
            push_all(&mut line, cell.as_slice());
            let cw = utf8_len_range(cell.as_slice(), 0, cell.len());
            assert(cell@.subrange(0, cell@.len() as int) =~= cell@);
            let pad: u128 = if widths[j] >= cw {
                widths[j] - cw
            } else {
                0
            };
            push_repeat(&mut line, ' ', pad);
            if j + 1 < ncols {
                line.push(' ');
                line.push('|');
                line.push(' ');
            }
            assert(line@ =~= before + padded_cell(rv, rowv[j as int], j as int));
        }
        j = j + 1;
    }
    line
}

fn table_separator(rows: &Vec<Vec<Vec<char>>>, ncols: usize, widths: &Vec<u128>) -> (sep: Vec<
    char,
>)
    requires
        widths@.len() == ncols,
        forall|c: int| 0 <= c < ncols ==> #[trigger] widths@[c] == col_width(rows_view(rows@), c),
    ensures
        sep@ == separator(rows_view(rows@), ncols as int),
{
    let ghost rv = rows_view(rows@);
    let mut sep: Vec<char> = Vec::new();
    let mut c: usize = 0;
    proof {
        reveal_strlit("-+-");
    }
    while c < ncols
        invariant
            c <= ncols,
            rv == rows_view(rows@),
            widths@.len() == ncols,
            forall|k: int| 0 <= k < ncols ==> #[trigger] widths@[k] == col_width(rv, k),
            sep@ == separator(rv, c as int),
            "-+-"@ == seq!['-', '+', '-'],
        decreases ncols - c,
    {
        let ghost before = sep@;
        if c > 0 {
            sep.push('-');
            sep.push('+');
            sep.push('-');
        }
        push_repeat(&mut sep, '-', widths[c]);
        assert(sep@ =~= separator(rv, c + 1));
        c = c + 1;
    }
    sep
}

fn push_table(out: &mut String, rows: &Vec<Vec<Vec<char>>>)
    ensures
        final(out)@ == old(out)@ + table_html(rows_view(rows@)),
{
    let ghost rv = rows_view(rows@);
    if rows.len() == 0 {
        assert(out@ =~= old(out)@ + table_html(rv));
        return;
    }
    out.append("<pre>");
    let ncols = table_col_count(rows);
    let widths = table_col_widths(rows, ncols);
    let mut k: usize = 0;
    while k < rows.len()
        invariant
            k <= rows@.len(),
            rv == rows_view(rows@),
            ncols == col_count(rv),
            widths@.len() == ncols,
            forall|c: int| 0 <= c < ncols ==> #[trigger] widths@[c] == col_width(rv, c),
            out@ == old(out)@ + "<pre>"@ + table_lines(rv, k as int),
        decreases rows.len() - k,
    {
        let ghost before = out@;
        let line = table_row_line(rows, k, ncols, &widths);
        push_escaped(out, line.as_slice());
        push_char(out, '\n');
        if k == 0 {
            let sep = table_separator(rows, ncols, &widths);
            push_escaped(out, sep.as_slice());
            push_char(out, '\n');
        }
        assert(out@ =~= old(out)@ + "<pre>"@ + table_lines(rv, k + 1));
        k = k + 1;
    }
    out.append("</pre>");
    assert(out@ =~= old(out)@ + table_html(rv));
}

/// The state of a rendering: the output so far, the open lists and the table in progress.
struct Renderer {
    out: String,
    lists: Vec<Option<u64>>,
    first_paragraph: bool,
    in_table: bool,
    rows: Vec<Vec<Vec<char>>>,
    row: Vec<Vec<char>>,
    cell: Vec<char>,
}

impl Renderer {
    /// The state is the one the events `evs` lead to.
    spec fn follows(&self, evs: Seq<MdEvent>) -> bool {
        &&& self.out@ == rendered(evs)
        &&& self.lists@ == list_stack(evs)
        &&& self.first_paragraph == first_paragraph(evs)
        &&& self.in_table == in_table(evs)
        &&& rows_view(self.rows@) == table_rows(evs)
        &&& cells_view(self.row@) == table_row(evs)
        &&& self.cell@ == table_cell(evs)
    }

    fn new() -> (r: Renderer)
        ensures
            r.follows(seq![]),
    {
        let r = Renderer {
            out: String::new(),
            lists: Vec::new(),
            first_paragraph: true,
            in_table: false,
            rows: Vec::new(),
            row: Vec::new(),
            cell: Vec::new(),
        };
        assert(rows_view(r.rows@) =~= seq![]);
        assert(cells_view(r.row@) =~= seq![]);
        r
    }

    fn push_item_marker(&mut self)
        ensures
            final(self).out@ == old(self).out@ + item_marker(old(self).lists@),
            final(self).lists@ == (if old(self).lists@.len() > 0 && old(self).lists@.last() is Some {
                old(self).lists@.update(
                    old(self).lists@.len() - 1,
                    Some(next_number(old(self).lists@.last()->0)),
                )
            } else {
                old(self).lists@
            }),
            final(self).first_paragraph == old(self).first_paragraph,
            final(self).in_table == old(self).in_table,
            final(self).rows == old(self).rows,
            final(self).row == old(self).row,
            final(self).cell == old(self).cell,
    {
        let depth = self.lists.len();
        let mut indent: Vec<char> = Vec::new();
        let spaces: u128 = if depth > 0 {
            2 * (depth as u128 - 1)
        } else {
            0
        };
        push_repeat(&mut indent, ' ', spaces);
        let mut k: usize = 0;
        while k < indent.len()
            invariant
                k <= indent@.len(),
                self.out@ == old(self).out@ + indent@.take(k as int),
                self.lists == old(self).lists,
                self.first_paragraph == old(self).first_paragraph,
                self.in_table == old(self).in_table,
                self.rows == old(self).rows,
                self.row == old(self).row,
                self.cell == old(self).cell,
            decreases indent.len() - k,
        {
            push_char(&mut self.out, indent[k]);
            k = k + 1;
            assert(self.out@ =~= old(self).out@ + indent@.take(k as int));
        }
        assert(indent@.take(indent@.len() as int) =~= indent@);
        assert(indent@ =~= item_indent(old(self).lists@.len()));
        if depth > 0 {
            match self.lists[depth - 1] {
                Some(n) => {
                    push_decimal(&mut self.out, n);
                    self.out.append(". ");
                    let next = if n == u64::MAX {
                        0
                    } else {
                        n + 1
                    };
                    self.lists.set(depth - 1, Some(next));
                    return;
                },
                None => {},
            }
        }
        self.out.append("\u{2022} ");
    }

    fn step(&mut self, evs: &[MdEvent], i: usize)
        requires
            i < evs@.len(),
            old(self).follows(evs@.take(i as int)),
        ensures
            final(self).follows(evs@.take(i + 1)),
    {
        let ghost prev = evs@.take(i as int);
        let ghost now = evs@.take(i + 1);
        assert(now.drop_last() =~= prev);
        let ev = &evs[i];
        assert(now.last() == *ev);
        let ghost out0 = self.out@;
        match ev {
            MdEvent::Start(tag) => match tag {
                MdTag::Strong => self.out.append("<b>"),
                MdTag::Emphasis => self.out.append("<i>"),
                MdTag::Strikethrough => self.out.append("<s>"),
                MdTag::CodeBlock(lang) => {
                    let fenced = match lang {
                        Some(l) => !l.as_str().is_empty(),
                        None => false,
                    };
                    if fenced {
                        let l = lang.as_ref().unwrap();
                        self.out.append("<pre><code class=\"language-");
                        let lv = to_chars(l.as_str());
                        push_escaped(&mut self.out, lv.as_slice());
                        self.out.append("\">");
                    } else {
                        self.out.append("<pre><code>");
                    }
                },
                MdTag::Link(url) => {
                    self.out.append("<a href=\"");
                    let uv = to_chars(url.as_str());
                    push_escaped(&mut self.out, uv.as_slice());
                    self.out.append("\">");
                },
                MdTag::Heading => self.out.append("\n<b>"),
                MdTag::BlockQuote => self.out.append("<blockquote>"),
                MdTag::Paragraph => {
                    if !self.first_paragraph {
                        push_char(&mut self.out, '\n');
                    }
                },
                MdTag::List(start) => {
                    self.lists.push(*start);
                },
                MdTag::Item => {
                    self.push_item_marker();
                },
                MdTag::Table => {
                    self.in_table = true;
                    self.rows = Vec::new();
                },
                MdTag::TableHead | MdTag::TableRow => {
                    self.row = Vec::new();
                },
                MdTag::TableCell => {
                    self.cell = Vec::new();
                },
                MdTag::Image(url, title) => {
                    self.out.append("[image");
                    if !title.as_str().is_empty() {
                        self.out.append(": ");
                        let tv = to_chars(title.as_str());
                        push_escaped(&mut self.out, tv.as_slice());
                    }
                    self.out.append("](");
                    let uv = to_chars(url.as_str());
                    push_escaped(&mut self.out, uv.as_slice());
                    push_char(&mut self.out, ')');
                },
                MdTag::Other => {},
            },
            MdEvent::End(tag) => match tag {
                MdTagEnd::Strong => self.out.append("</b>"),
                MdTagEnd::Emphasis => self.out.append("</i>"),
                MdTagEnd::Strikethrough => self.out.append("</s>"),
                MdTagEnd::CodeBlock => self.out.append("</code></pre>"),
                MdTagEnd::Link => self.out.append("</a>"),
                MdTagEnd::Heading => self.out.append("</b>\n"),
                MdTagEnd::BlockQuote => self.out.append("</blockquote>"),
                MdTagEnd::Paragraph => {
                    push_char(&mut self.out, '\n');
                    self.first_paragraph = false;
                },
                MdTagEnd::List => {
                    if self.lists.len() > 0 {
                        self.lists.pop();
                    }
                },
                MdTagEnd::Item => push_char(&mut self.out, '\n'),
                MdTagEnd::Table => {
                    self.in_table = false;
                    push_table(&mut self.out, &self.rows);
                    self.rows = Vec::new();
                },
                MdTagEnd::TableHead | MdTagEnd::TableRow => {
                    let mut r: Vec<Vec<char>> = Vec::new();
                    std::mem::swap(&mut r, &mut self.row);
                    let ghost rows0 = self.rows@;
                    self.rows.push(r);
                    assert(rows_view(self.rows@) =~= rows_view(rows0).push(cells_view(r@)));
                },
                MdTagEnd::TableCell => {
                    let mut c: Vec<char> = Vec::new();
                    std::mem::swap(&mut c, &mut self.cell);
                    let ghost row0 = self.row@;
                    self.row.push(c);
                    assert(cells_view(self.row@) =~= cells_view(row0).push(c@));
                },
                MdTagEnd::Image | MdTagEnd::Other => {},
            },
            MdEvent::Code(t) => {
                self.out.append("<code>");
                let tv = to_chars(t.as_str());
                push_escaped(&mut self.out, tv.as_slice());
                self.out.append("</code>");
            },
            MdEvent::TaskListMarker(checked) => {
                if *checked {
                    self.out.append("[x] ");
                } else {
                    self.out.append("[ ] ");
                }
            },
            MdEvent::Text(t) => {
                let tv = to_chars(t.as_str());
                if self.in_table {
                    push_all(&mut self.cell, tv.as_slice());
                } else {
                    push_escaped(&mut self.out, tv.as_slice());
                }
            },
            MdEvent::SoftBreak | MdEvent::HardBreak => push_char(&mut self.out, '\n'),
            MdEvent::Rule => self.out.append("\n---\n"),
            MdEvent::Html(h) | MdEvent::InlineHtml(h) => {
                let hv = to_chars(h.as_str());
                push_escaped(&mut self.out, hv.as_slice());
            },
            MdEvent::Other => {},
        }
        assert(self.out@ =~= out0 + emitted(prev, *ev));
        assert(rows_view(self.rows@) =~= table_rows(now));
        assert(cells_view(self.row@) =~= table_row(now));
        assert(self.cell@ =~= table_cell(now));
        assert(self.lists@ =~= list_stack(now));
    }
}

/// Render parsed Markdown as Telegram HTML.
///
/// Formatting becomes `<b>`, `<i>`, `<s>` and `<code>`; code blocks become `<pre><code>`;
/// headings become bold lines; lists are numbered or bulleted by hand; tables become
/// monospace `<pre>` text; images become a text fallback; text and raw HTML are escaped.
/// The result is trimmed of white space at both ends.
pub fn render_markdown_events(events: &[MdEvent]) -> (r: String)
    ensures
        r@ == telegram_html(events@),
{
    let mut st = Renderer::new();
    let mut i: usize = 0;
    while i < events.len()
        invariant
            i <= events@.len(),
            st.follows(events@.take(i as int)),
        decreases events.len() - i,
    {
        st.step(events, i);
        i = i + 1;
    }
    assert(events@.take(events@.len() as int) =~= events@);
    trim(st.out.as_str())
}

/// A Markdown event as `pulldown_cmark` yields it.
#[verifier::external_type_specification]
#[verifier::external_body]
pub struct ExMarkdownEvent<'a>(Event<'a>);

/// The opening of a Markdown element as `pulldown_cmark` yields it.
#[verifier::external_type_specification]
#[verifier::external_body]
pub struct ExMarkdownTag<'a>(Tag<'a>);

/// The end of a Markdown element as `pulldown_cmark` yields it.
#[verifier::external_type_specification]
#[verifier::external_body]
pub struct ExMarkdownTagEnd(TagEnd);

/// The events `pulldown_cmark` parses from a text, with tables, strikethrough and task
/// lists enabled.
pub uninterp spec fn markdown_events_of(markdown: Seq<char>) -> Seq<MdEvent>;

/// Runs `pulldown_cmark::Parser::new_ext` over `markdown` with `ENABLE_TABLES`,
/// `ENABLE_STRIKETHROUGH` and `ENABLE_TASKLISTS`, and converts each event it yields, one
/// for one, into an [`MdEvent`]. The contract names the result: the same text always
/// parses to the same events. It also claims that the events are well nested, as the
/// parser documents ("Start and end events are guaranteed to be balanced") and as its
/// tree walk does: each `End` carries the end of the innermost open item, and the
/// conversion maps a tag and its end to the same kind.
#[verifier::external_body]
fn parse_markdown(markdown: &str) -> (r: Vec<MdEvent>)
    ensures
        r@ == markdown_events_of(markdown@),
        well_nested(r@),
{
    let options = Options::ENABLE_TABLES | Options::ENABLE_STRIKETHROUGH
        | Options::ENABLE_TASKLISTS;
    Parser::new_ext(markdown, options).map(md_event_of).collect()
}

/// Converts one `pulldown_cmark::Event` into an [`MdEvent`], variant for variant; the
/// events the rendering ignores become `MdEvent::Other`.
#[verifier::external_body]
fn md_event_of(e: Event) -> MdEvent {
    match e {
        Event::Start(t) => MdEvent::Start(md_tag_of(t)),
        Event::End(t) => MdEvent::End(md_tag_end_of(t)),
        Event::Text(s) => MdEvent::Text(s.into_string()),
        Event::Code(s) => MdEvent::Code(s.into_string()),
        Event::Html(s) => MdEvent::Html(s.into_string()),
        Event::InlineHtml(s) => MdEvent::InlineHtml(s.into_string()),
        Event::SoftBreak => MdEvent::SoftBreak,
        Event::HardBreak => MdEvent::HardBreak,
        Event::Rule => MdEvent::Rule,
        Event::TaskListMarker(checked) => MdEvent::TaskListMarker(checked),
        _ => MdEvent::Other,
    }
}

/// Converts a `pulldown_cmark::Tag` into an [`MdTag`], keeping the code block's language
/// and the list's start.
#[verifier::external_body]
fn md_tag_of(t: Tag) -> MdTag {
    match t {
        Tag::Paragraph => MdTag::Paragraph,
        Tag::Heading { .. } => MdTag::Heading,
        Tag::BlockQuote(_) => MdTag::BlockQuote,
        Tag::CodeBlock(CodeBlockKind::Fenced(lang)) => MdTag::CodeBlock(Some(lang.into_string())),
        Tag::CodeBlock(CodeBlockKind::Indented) => MdTag::CodeBlock(None),
        Tag::List(start) => MdTag::List(start),
        Tag::Item => MdTag::Item,
        t => md_inline_tag_of(t),
    }
}

/// Converts the inline tags of `pulldown_cmark`, keeping the link's URL and the image's
/// URL and title.
#[verifier::external_body]
fn md_inline_tag_of(t: Tag) -> MdTag {
    match t {
        Tag::Emphasis => MdTag::Emphasis,
        Tag::Strong => MdTag::Strong,
        Tag::Strikethrough => MdTag::Strikethrough,
        Tag::Link { dest_url, .. } => MdTag::Link(dest_url.into_string()),
        Tag::Image { dest_url, title, .. } => MdTag::Image(dest_url.into_string(), title.into_string()),
        t => md_table_tag_of(t),
    }
}

/// Converts the table tags of `pulldown_cmark`; any other tag becomes `MdTag::Other`.
#[verifier::external_body]
fn md_table_tag_of(t: Tag) -> MdTag {
    match t {
        Tag::Table(_) => MdTag::Table,
        Tag::TableHead => MdTag::TableHead,
        Tag::TableRow => MdTag::TableRow,
        Tag::TableCell => MdTag::TableCell,
        _ => MdTag::Other,
    }
}

/// Converts a `pulldown_cmark::TagEnd` into an [`MdTagEnd`], variant for variant.
#[verifier::external_body]
fn md_tag_end_of(t: TagEnd) -> MdTagEnd {
    match t {
        TagEnd::Paragraph => MdTagEnd::Paragraph,
        TagEnd::Heading(_) => MdTagEnd::Heading,
        TagEnd::BlockQuote(_) => MdTagEnd::BlockQuote,
        TagEnd::CodeBlock => MdTagEnd::CodeBlock,
        TagEnd::List(_) => MdTagEnd::List,
        TagEnd::Item => MdTagEnd::Item,
        TagEnd::Link => MdTagEnd::Link,
        TagEnd::Image => MdTagEnd::Image,
        TagEnd::Emphasis => MdTagEnd::Emphasis,
        TagEnd::Strong => MdTagEnd::Strong,
        TagEnd::Strikethrough => MdTagEnd::Strikethrough,
        t => md_table_tag_end_of(t),
    }
}

/// Converts the ends of the table tags of `pulldown_cmark`; any other end becomes
/// `MdTagEnd::Other`.
#[verifier::external_body]
fn md_table_tag_end_of(t: TagEnd) -> MdTagEnd {
    match t {
        TagEnd::Table => MdTagEnd::Table,
        TagEnd::TableHead => MdTagEnd::TableHead,
        TagEnd::TableRow => MdTagEnd::TableRow,
        TagEnd::TableCell => MdTagEnd::TableCell,
        _ => MdTagEnd::Other,
    }
}

/// Convert a Markdown string to a Telegram-compatible HTML string.
///
/// Supported elements: bold, italic, strikethrough, inline code; fenced and indented code
/// blocks; links, headings (rendered as bold), blockquotes; unordered and ordered lists,
/// task lists; tables (rendered as monospace `<pre>`); images (text fallback).
pub fn md_to_telegram_html(markdown: &str) -> (r: String)
    ensures
        r@ == telegram_html(markdown_events_of(markdown@)),
        tags_balanced(r@),
        open_tags_after(seq![], r@) == Seq::<(Seq<char>, Seq<char>)>::empty(),
{
    let events = parse_markdown(markdown);
    proof {
        lemma_telegram_html_balanced(events@);
        lemma_telegram_html_closes_tags(events@);
    }
    render_markdown_events(events.as_slice())
}

} // verus!
