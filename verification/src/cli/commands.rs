//! Output of the session subcommands: byte-limited truncation, padded columns and the
//! rows of `sessions list`.

use vstd::prelude::*;
use vstd::string::*;

use crate::chars::{char_width, from_chars, to_chars, utf8_len, utf8_len_range};
use crate::cli::app::chars_before;
use crate::session::{uuid_string, uuid_text, SessionSummary};
use crate::telegram::chunk::{fit_chars, fit_prefix, lemma_fit_chars_le, slice_range};
use crate::text::{decimal, push_decimal, repeat_char};

verus! {

/// `s` cut to at most `max` bytes, ending in `...` when cut: the cut falls at the last
/// character boundary within `max - 3` bytes (`max` dots when `max` is at most three).
pub open spec fn truncate_bytes_spec(s: Seq<char>, max: nat) -> Seq<char> {
    if utf8_len(s) <= max {
        s
    } else if max <= 3 {
        repeat_char('.', max)
    } else {
        s.take(chars_before(s, (max - 3) as nat) as int) + "..."@
    }
}

/// Truncate a string to a maximum length in bytes, adding `...` if truncated.
pub fn truncate(s: &str, max_len: usize) -> (r: String)
    ensures
        r@ == truncate_bytes_spec(s@, max_len as nat),
{
    let v = to_chars(s);
    let n = utf8_len_range(v.as_slice(), 0, v.len());
    assert(v@.subrange(0, v@.len() as int) =~= v@);
    if n <= max_len as u128 {
        return String::from_str(s);
    }
    if max_len <= 3 {
        let mut out = String::new();
        let mut i: usize = 0;
        while i < max_len
            invariant
                i <= max_len,
                out@ == repeat_char('.', i as nat),
            decreases max_len - i,
        {
            crate::chars::push_char(&mut out, '.');
            i = i + 1;
            assert(out@ =~= repeat_char('.', i as nat));
        }
        return out;
    }
    let k = fit_prefix(v.as_slice(), 0, (max_len - 3) as u128);
    assert(v@.skip(0) =~= v@);
    proof {
        lemma_fit_chars_le(v@, (max_len - 3) as nat);
    }
    let head = slice_range(v.as_slice(), 0, k);
    assert(head@ =~= v@.take(k as int));
    let mut out = from_chars(head.as_slice());
    out.append("...");
    out
}

/// `s` padded with spaces to `width` characters, as `{:<width}` formats it.
pub open spec fn pad_right(s: Seq<char>, width: nat) -> Seq<char> {
    if s.len() >= width {
        s
    } else {
        s + repeat_char(' ', (width - s.len()) as nat)
    }
}

fn push_padded(out: &mut String, s: &str, width: usize)
    ensures
        final(out)@ == old(out)@ + pad_right(s@, width as nat),
{
    out.append(s);
    let n = s.unicode_len();
    if n < width {
        let mut i: usize = n;
        while i < width
            invariant
                n <= i <= width,
                n == s@.len(),
                out@ == old(out)@ + s@ + repeat_char(' ', (i - n) as nat),
            decreases width - i,
        {
            crate::chars::push_char(out, ' ');
            i = i + 1;
            assert(out@ =~= old(out)@ + s@ + repeat_char(' ', (i - n) as nat));
        }
        assert(out@ =~= old(out)@ + pad_right(s@, width as nat));
    } else {
        assert(out@ =~= old(out)@ + pad_right(s@, width as nat));
    }
}

/// The header of `sessions list`.
pub open spec fn list_header_spec() -> Seq<char> {
    pad_right("ID"@, 36) + "  "@ + pad_right("PROVIDER"@, 15) + "  "@ + pad_right("MODEL"@, 15) + "  "@
        + pad_right("MESSAGES"@, 10) + "  PREVIEW"@
}

/// The header of `sessions list`.
pub fn list_header() -> (r: String)
    ensures
        r@ == list_header_spec(),
{
    let mut out = String::new();
    push_padded(&mut out, "ID", 36);
    out.append("  ");
    push_padded(&mut out, "PROVIDER", 15);
    out.append("  ");
    push_padded(&mut out, "MODEL", 15);
    out.append("  ");
    push_padded(&mut out, "MESSAGES", 10);
    out.append("  PREVIEW");
    out
}

/// The preview column's text: the preview with newlines as spaces, `-` without one.
pub open spec fn preview_column(p: Option<String>) -> Seq<char> {
    match p {
        Some(s) => s@.map_values(|c: char| if c == '\n' { ' ' } else { c }),
        None => "-"@,
    }
}

/// A row of `sessions list`: id, provider, model, message count and preview, in columns.
pub open spec fn session_row_spec(s: SessionSummary) -> Seq<char> {
    pad_right(uuid_text(s.id), 36) + "  "@ + pad_right(truncate_bytes_spec(s.provider@, 15), 15) + "  "@
        + pad_right(truncate_bytes_spec(s.model@, 15), 15) + "  "@ + pad_right(
        decimal(s.message_count as nat),
        10,
    ) + "  "@ + truncate_bytes_spec(preview_column(s.preview), 40)
}

fn preview_text_of(p: &Option<String>) -> (r: String)
    ensures
        r@ == preview_column(*p),
{
    match p {
        Some(s) => {
            let v = to_chars(s.as_str());
            let mut out: Vec<char> = Vec::new();
            let mut i: usize = 0;
            while i < v.len()
                invariant
                    i <= v@.len(),
                    out@ == v@.take(i as int).map_values(|c: char| if c == '\n' { ' ' } else { c }),
                decreases v.len() - i,
            {
                if v[i] == '\n' {
                    out.push(' ');
                } else {
                    out.push(v[i]);
                }
                i = i + 1;
                assert(out@ =~= v@.take(i as int).map_values(|c: char| if c == '\n' { ' ' } else { c }));
            }
            assert(v@.take(v@.len() as int) =~= v@);
            from_chars(out.as_slice())
        },
        None => String::from_str("-"),
    }
}

/// Format a row of `sessions list`.
pub fn session_row(s: &SessionSummary) -> (r: String)
    ensures
        r@ == session_row_spec(*s),
{
    let mut out = String::new();
    let id = uuid_string(s.id);
    push_padded(&mut out, id.as_str(), 36);
    out.append("  ");
    let provider = truncate(s.provider.as_str(), 15);
    push_padded(&mut out, provider.as_str(), 15);
    out.append("  ");
    let model = truncate(s.model.as_str(), 15);
    push_padded(&mut out, model.as_str(), 15);
    out.append("  ");
    let mut count = String::new();
    push_decimal(&mut count, s.message_count as u64);
    push_padded(&mut out, count.as_str(), 10);
    out.append("  ");
    let p = preview_text_of(&s.preview);
    let pv = truncate(p.as_str(), 40);
    out.append(pv.as_str());
    out
}

} // verus!
