//! Splitting Telegram HTML into chunks of at most 4096 bytes with balanced tags.
//!
//! Tags still open at a split are closed at the end of the chunk and reopened at the
//! start of the next one.

use vstd::prelude::*;

use crate::chars::{
    from_chars, to_chars,
    char_len_utf8, char_width, lemma_utf8_len_bounds, lemma_utf8_len_concat, lemma_utf8_len_take_mono,
    lemma_utf8_len_take_step, utf8_len, utf8_len_range, chars_eq,
};

verus! {

/// Telegram's maximum message length, in bytes of UTF-8.
pub const TELEGRAM_MSG_LIMIT: usize = 4096;

/// The length of the longest prefix of `s` whose encoding fits in `budget` bytes.
pub open spec fn fit_chars(s: Seq<char>, budget: nat) -> nat
    decreases s.len(),
{
    if utf8_len(s) <= budget {
        s.len()
    } else {
        fit_chars(s.drop_last(), budget)
    }
}

/// The fitting prefix is a prefix, and its encoding fits.
pub proof fn lemma_fit_chars_le(s: Seq<char>, budget: nat)
    ensures
        fit_chars(s, budget) <= s.len(),
        utf8_len(s.take(fit_chars(s, budget) as int)) <= budget,
    decreases s.len(),
{
    if utf8_len(s) <= budget {
        assert(s.take(s.len() as int) =~= s);
    } else {
        lemma_fit_chars_le(s.drop_last(), budget);
        let k = fit_chars(s.drop_last(), budget);
        assert(s.drop_last().take(k as int) =~= s.take(k as int));
    }
}

/// `k` characters fit exactly when they fit and one more would not.
pub proof fn lemma_fit_chars_exact(s: Seq<char>, budget: nat, k: int)
    requires
        0 <= k <= s.len(),
        utf8_len(s.take(k)) <= budget,
        k == s.len() || utf8_len(s.take(k + 1)) > budget,
    ensures
        fit_chars(s, budget) == k,
    decreases s.len(),
{
    if utf8_len(s) <= budget {
        if k < s.len() {
            lemma_utf8_len_take_mono(s, k + 1, s.len() as int);
            assert(s.take(s.len() as int) =~= s);
        }
    } else {
        if k == s.len() {
            assert(s.take(k) =~= s);
        }
        let d = s.drop_last();
        assert(d.take(k) =~= s.take(k));
        if k < d.len() {
            assert(d.take(k + 1) =~= s.take(k + 1));
        }
        lemma_fit_chars_exact(d, budget, k);
    }
}

/// The number of leading characters of `v[from..]` whose encoding fits in `budget` bytes
/// (the character boundary at or below the byte budget).
pub fn fit_prefix(v: &[char], from: usize, budget: u128) -> (r: usize)
    requires
        from <= v@.len(),
    ensures
        r == fit_chars(v@.skip(from as int), budget as nat),
        r <= v@.len() - from,
{
    let ghost s = v@.skip(from as int);
    let mut k: usize = 0;
    let mut used: u128 = 0;
    while k < v.len() - from && char_len_utf8(v[from + k]) as u128 <= budget - used
        invariant
            from + k <= v@.len(),
            s == v@.skip(from as int),
            used == utf8_len(s.take(k as int)),
            used <= budget,
        decreases v.len() - from - k,
    {
        proof {
            lemma_utf8_len_take_step(s, k as int);
        }
        used = used + char_len_utf8(v[from + k]) as u128;
        k = k + 1;
    }
    proof {
        if k < v.len() - from {
            lemma_utf8_len_take_step(s, k as int);
        }
        lemma_fit_chars_exact(s, budget as nat, k as int);
    }
    k
}

/// The number of occurrences of `c` in `s`.
pub open spec fn count_char(s: Seq<char>, c: char) -> nat
    decreases s.len(),
{
    if s.len() == 0 {
        0
    } else {
        count_char(s.drop_last(), c) + if s.last() == c {
            1nat
        } else {
            0nat
        }
    }
}

/// Position `pos` of `s` is not inside a `<...>` tag: before it, `<` does not
/// outnumber `>`.
pub open spec fn outside_tag(s: Seq<char>, pos: int) -> bool {
    count_char(s.take(pos), '<') <= count_char(s.take(pos), '>')
}

/// For each position `0..=v.len()`, whether it lies outside every tag.
fn outside_tag_table(v: &[char]) -> (r: Vec<bool>)
    ensures
        r@.len() == v@.len() + 1,
        forall|i: int| 0 <= i <= v@.len() ==> #[trigger] r@[i] == outside_tag(v@, i),
{
    let mut r: Vec<bool> = Vec::new();
    let mut lt: usize = 0;
    let mut gt: usize = 0;
    let mut i: usize = 0;
    assert(v@.take(0) =~= Seq::<char>::empty());
    r.push(true);
    while i < v.len()
        invariant
            i <= v@.len(),
            r@.len() == i + 1,
            lt == count_char(v@.take(i as int), '<'),
            gt == count_char(v@.take(i as int), '>'),
            lt <= i,
            gt <= i,
            forall|j: int| 0 <= j <= i ==> #[trigger] r@[j] == outside_tag(v@, j),
        decreases v.len() - i,
    {
        assert(v@.take(i + 1).drop_last() =~= v@.take(i as int));
        if v[i] == '<' {
            lt = lt + 1;
        } else if v[i] == '>' {
            gt = gt + 1;
        }
        r.push(lt <= gt);
        i = i + 1;
    }
    r
}

/// The start of the last `\n\n` that ends at or before `end`.
pub open spec fn last_blank_line(s: Seq<char>, end: int) -> Option<int>
    decreases end,
{
    if end < 2 || end > s.len() {
        None
    } else if s[end - 2] == '\n' && s[end - 1] == '\n' {
        Some(end - 2)
    } else {
        last_blank_line(s, end - 1)
    }
}

pub proof fn lemma_last_blank_line_lt(s: Seq<char>, end: int)
    ensures
        last_blank_line(s, end) matches Some(p) ==> 0 <= p && p + 2 <= end,
    decreases end,
{
    if end >= 2 && end <= s.len() && !(s[end - 2] == '\n' && s[end - 1] == '\n') {
        lemma_last_blank_line_lt(s, end - 1);
    }
}

/// The last `\n\n` outside every tag, found by searching right to left in the text
/// before each rejected match.
pub open spec fn rfind_blank_line_outside(s: Seq<char>, end: int) -> Option<int>
    decreases end,
{
    match last_blank_line(s, end) {
        None => None,
        Some(f) => {
            proof {
                lemma_last_blank_line_lt(s, end);
            }
            if outside_tag(s, f) {
                Some(f)
            } else if f <= 0 {
                None
            } else {
                rfind_blank_line_outside(s, f)
            }
        },
    }
}

/// The last position before `end` holding `c` outside every tag.
pub open spec fn rfind_char_outside(s: Seq<char>, c: char, end: int) -> Option<int>
    decreases end,
{
    if end <= 0 || end > s.len() {
        None
    } else if s[end - 1] == c && outside_tag(s, end - 1) {
        Some(end - 1)
    } else {
        rfind_char_outside(s, c, end - 1)
    }
}

/// Where to split `s`: after the last blank line, else after the last newline, else
/// after the last space, else at the last position outside every tag (0 when there is
/// none); never inside a tag.
pub open spec fn split_point(s: Seq<char>) -> nat {
    match rfind_blank_line_outside(s, s.len() as int) {
        Some(p) => (p + 2) as nat,
        None => match rfind_char_outside(s, '\n', s.len() as int) {
            Some(q) => (q + 1) as nat,
            None => match rfind_char_outside(s, ' ', s.len() as int) {
                Some(q) => (q + 1) as nat,
                None => last_clean(s, s.len() as int),
            },
        },
    }
}

proof fn lemma_rfind_char_outside_bounds(s: Seq<char>, c: char, end: int)
    ensures
        rfind_char_outside(s, c, end) matches Some(q) ==> 0 <= q < end && q < s.len(),
    decreases end,
{
    if end > 0 && end <= s.len() && !(s[end - 1] == c && outside_tag(s, end - 1)) {
        lemma_rfind_char_outside_bounds(s, c, end - 1);
    }
}

proof fn lemma_rfind_blank_bounds(s: Seq<char>, end: int)
    requires
        end <= s.len(),
    ensures
        rfind_blank_line_outside(s, end) matches Some(p) ==> 0 <= p && p + 2 <= end,
    decreases end,
{
    lemma_last_blank_line_lt(s, end);
    match last_blank_line(s, end) {
        None => {},
        Some(f) => {
            if !outside_tag(s, f) && f > 0 {
                lemma_rfind_blank_bounds(s, f);
            }
        },
    }
}

proof fn lemma_last_clean_bounds(s: Seq<char>, end: int)
    ensures
        last_clean(s, end) <= (if end > 0 { end } else { 0 }),
        last_clean(s, end) > 0 ==> outside_tag(s, last_clean(s, end) as int),
    decreases end,
{
    if end > 0 && end <= s.len() && !outside_tag(s, end) {
        lemma_last_clean_bounds(s, end - 1);
    }
}

/// The split point lies within `s`.
pub proof fn lemma_split_point_bounds(s: Seq<char>)
    ensures
        split_point(s) <= s.len(),
{
    lemma_rfind_blank_bounds(s, s.len() as int);
    lemma_rfind_char_outside_bounds(s, '\n', s.len() as int);
    lemma_rfind_char_outside_bounds(s, ' ', s.len() as int);
    lemma_last_clean_bounds(s, s.len() as int);
}

proof fn lemma_rfind_blank_max(s: Seq<char>, end: int)
    requires
        end <= s.len(),
    ensures
        rfind_blank_line_outside(s, end) matches Some(r) ==> forall|p: int|
            r < p && p + 2 <= end && #[trigger] blank_line_at(s, p) ==> !outside_tag(s, p),
        rfind_blank_line_outside(s, end) is None ==> forall|p: int|
            p + 2 <= end && #[trigger] blank_line_at(s, p) ==> !outside_tag(s, p),
    decreases end,
{
    lemma_last_blank_line_max(s, end);
    lemma_last_blank_line_props(s, end);
    lemma_last_blank_line_lt(s, end);
    match last_blank_line(s, end) {
        None => {},
        Some(f) => {
            if !outside_tag(s, f) {
                if f > 0 {
                    lemma_rfind_blank_max(s, f);
                    lemma_rfind_blank_bounds(s, f);
                    if outside_tag(s, f - 1) && s[f - 1] == '\n' {
                        lemma_outside_step(s, f - 1);
                    }
                    assert forall|p: int|
                        p + 2 <= end && #[trigger] blank_line_at(s, p) && outside_tag(s, p) implies (
                    match rfind_blank_line_outside(s, f) {
                        Some(r) => p <= r,
                        None => false,
                    }) by {
                        if p == f - 1 {
                            lemma_outside_step(s, f - 1);
                        }
                    }
                }
            }
        },
    }
}

proof fn lemma_rfind_char_max(s: Seq<char>, c: char, end: int)
    requires
        end <= s.len(),
    ensures
        rfind_char_outside(s, c, end) matches Some(q) ==> forall|r: int|
            q < r < end && s[r] == c ==> !#[trigger] outside_tag(s, r),
        rfind_char_outside(s, c, end) is None ==> forall|r: int|
            0 <= r < end && s[r] == c ==> !#[trigger] outside_tag(s, r),
    decreases end,
{
    if end > 0 && !(s[end - 1] == c && outside_tag(s, end - 1)) {
        lemma_rfind_char_max(s, c, end - 1);
    }
}

proof fn lemma_last_clean_max(s: Seq<char>, end: int)
    requires
        end <= s.len(),
    ensures
        forall|x: int| last_clean(s, end) < x <= end ==> !#[trigger] outside_tag(s, x),
    decreases end,
{
    if end > 0 && !outside_tag(s, end) {
        lemma_last_clean_max(s, end - 1);
    }
}

/// Where a window of HTML is cut, never inside a tag: after the last blank line outside a
/// tag when there is one; else right after the last newline outside a tag, so that the
/// chunk ends in a whole line; else after the last space outside a tag; else at the last
/// position outside every tag (0 when there is none).
pub proof fn lemma_split_point_cuts(s: Seq<char>)
    ensures
        (exists|p: int| #[trigger] blank_line_at(s, p) && outside_tag(s, p)) ==> (split_point(s)
            >= 2 && blank_line_at(s, split_point(s) - 2) && outside_tag(s, split_point(s) - 2)
            && forall|p: int| #[trigger] blank_line_at(s, p) && outside_tag(s, p) ==> p + 2
            <= split_point(s)),
        (forall|p: int| #[trigger] blank_line_at(s, p) ==> !outside_tag(s, p)) && (exists|q: int|
            0 <= q < s.len() && s[q] == '\n' && #[trigger] outside_tag(s, q)) ==> (split_point(s)
            >= 1 && s[split_point(s) - 1] == '\n' && outside_tag(s, split_point(s) - 1)
            && forall|q: int| split_point(s) <= q < s.len() && s[q] == '\n' ==> !#[trigger] outside_tag(
            s,
            q,
        )),
        (forall|p: int| #[trigger] blank_line_at(s, p) ==> !outside_tag(s, p)) && (forall|q: int|
            0 <= q < s.len() && s[q] == '\n' ==> !#[trigger] outside_tag(s, q)) && (exists|q: int|
            0 <= q < s.len() && s[q] == ' ' && #[trigger] outside_tag(s, q)) ==> (split_point(s) >= 1
            && s[split_point(s) - 1] == ' ' && outside_tag(s, split_point(s) - 1) && forall|q: int|
            split_point(s) <= q < s.len() && s[q] == ' ' ==> !#[trigger] outside_tag(s, q)),
        (forall|p: int| #[trigger] blank_line_at(s, p) ==> !outside_tag(s, p)) && (forall|q: int|
            0 <= q < s.len() && (s[q] == '\n' || s[q] == ' ') ==> !#[trigger] outside_tag(s, q))
            ==> (split_point(s) == 0 || outside_tag(s, split_point(s) as int)) && forall|x: int|
            split_point(s) < x <= s.len() ==> !#[trigger] outside_tag(s, x),
{
    let n = s.len() as int;
    lemma_rfind_blank_max(s, n);
    lemma_rfind_blank_props(s, n);
    lemma_rfind_char_max(s, '\n', n);
    lemma_rfind_char_max(s, ' ', n);
    lemma_rfind_char_props(s, '\n', n);
    lemma_rfind_char_props(s, ' ', n);
    lemma_last_clean_max(s, n);
    lemma_last_clean_bounds(s, n);
    match rfind_blank_line_outside(s, n) {
        Some(r) => {
            assert(blank_line_at(s, r));
            assert forall|p: int| #[trigger] blank_line_at(s, p) && outside_tag(s, p) implies p + 2
                <= split_point(s) by {
                if p > r {
                    assert(p + 2 <= n);
                }
            }
        },
        None => {
            if exists|p: int| #[trigger] blank_line_at(s, p) && outside_tag(s, p) {
                let p = choose|p: int| #[trigger] blank_line_at(s, p) && outside_tag(s, p);
                assert(p + 2 <= n);
            }
        },
    }
}

fn rfind_char_outside_exec(v: &[char], table: &Vec<bool>, c: char) -> (r: Option<usize>)
    requires
        table@.len() == v@.len() + 1,
        forall|i: int| 0 <= i <= v@.len() ==> #[trigger] table@[i] == outside_tag(v@, i),
    ensures
        r matches Some(q) ==> rfind_char_outside(v@, c, v@.len() as int) == Some(q as int),
        r is None ==> rfind_char_outside(v@, c, v@.len() as int) is None,
{
    let mut end: usize = v.len();
    while end > 0
        invariant
            end <= v@.len(),
            table@.len() == v@.len() + 1,
            forall|i: int| 0 <= i <= v@.len() ==> #[trigger] table@[i] == outside_tag(v@, i),
            rfind_char_outside(v@, c, v@.len() as int) == rfind_char_outside(v@, c, end as int),
        decreases end,
    {
        if v[end - 1] == c && table[end - 1] {
            return Some(end - 1);
        }
        end = end - 1;
    }
    None
}

fn rfind_blank_line_outside_exec(v: &[char], table: &Vec<bool>) -> (r: Option<usize>)
    requires
        table@.len() == v@.len() + 1,
        forall|i: int| 0 <= i <= v@.len() ==> #[trigger] table@[i] == outside_tag(v@, i),
    ensures
        r matches Some(p) ==> rfind_blank_line_outside(v@, v@.len() as int) == Some(p as int),
        r is None ==> rfind_blank_line_outside(v@, v@.len() as int) is None,
{
    let mut end: usize = v.len();
    loop
        invariant
            end <= v@.len(),
            table@.len() == v@.len() + 1,
            forall|i: int| 0 <= i <= v@.len() ==> #[trigger] table@[i] == outside_tag(v@, i),
            rfind_blank_line_outside(v@, v@.len() as int) == rfind_blank_line_outside(
                v@,
                end as int,
            ),
        decreases end,
    {
        let mut p: usize = end;
        while p >= 2 && !(v[p - 2] == '\n' && v[p - 1] == '\n')
            invariant
                p <= end <= v@.len(),
                last_blank_line(v@, end as int) == last_blank_line(v@, p as int),
            decreases p,
        {
            p = p - 1;
        }
        if p < 2 {
            return None;
        }
        let f = p - 2;
        proof {
            lemma_last_blank_line_lt(v@, end as int);
        }
        if table[f] {
            return Some(f);
        }
        if f == 0 {
            return None;
        }
        end = f;
    }
}

/// Where to split `v[..len]` (see [`split_point`]).
pub fn find_split_point(v: &[char]) -> (r: usize)
    ensures
        r == split_point(v@),
{
    let n = v.len();
    let table = outside_tag_table(v);
    match rfind_blank_line_outside_exec(v, &table) {
        Some(p) => {
            proof {
                lemma_rfind_blank_bounds(v@, v@.len() as int);
            }
            p + 2
        },
        None => match rfind_char_outside_exec(v, &table, '\n') {
            Some(q) => {
                proof {
                    lemma_rfind_char_outside_bounds(v@, '\n', v@.len() as int);
                }
                q + 1
            },
            None => match rfind_char_outside_exec(v, &table, ' ') {
                Some(q) => {
                    proof {
                        lemma_rfind_char_outside_bounds(v@, ' ', v@.len() as int);
                    }
                    q + 1
                },
                None => {
                    let mut end: usize = v.len();
                    while end > 0 && !table[end]
                        invariant
                            end <= v@.len(),
                            table@.len() == v@.len() + 1,
                            forall|i: int| 0 <= i <= v@.len() ==> #[trigger] table@[i] == outside_tag(v@, i),
                            last_clean(v@, v@.len() as int) == last_clean(v@, end as int),
                        decreases end,
                    {
                        end = end - 1;
                    }
                    end
                },
            },
        },
    }
}

/// A tag left open by the text so far: how to reopen it and how to close it.
#[derive(Debug, Clone)]
pub struct OpenTag {
    /// The opening tag as it appeared, e.g. `<a href="x">`.
    pub open_str: Vec<char>,
    /// The matching closing tag, e.g. `</a>`.
    pub close_str: Vec<char>,
}

/// The text of an open tag: its opening and its closing form.
pub open spec fn tag_view(t: OpenTag) -> (Seq<char>, Seq<char>) {
    (t.open_str@, t.close_str@)
}

/// The texts of a list of open tags.
pub open spec fn tags_view(ts: Seq<OpenTag>) -> Seq<(Seq<char>, Seq<char>)> {
    ts.map_values(|t: OpenTag| tag_view(t))
}

/// ASCII white space as `split_ascii_whitespace` knows it.
pub open spec fn is_ascii_ws(c: char) -> bool {
    c == ' ' || c == '\t' || c == '\n' || c == '\x0C' || c == '\r'
}

/// `s` without leading ASCII white space.
pub open spec fn skip_ascii_ws(s: Seq<char>) -> Seq<char>
    decreases s.len(),
{
    if s.len() > 0 && is_ascii_ws(s[0]) {
        skip_ascii_ws(s.drop_first())
    } else {
        s
    }
}

/// The number of leading characters of `s` that are not ASCII white space.
pub open spec fn token_len(s: Seq<char>) -> nat
    decreases s.len(),
{
    if s.len() > 0 && !is_ascii_ws(s[0]) {
        1 + token_len(s.drop_first())
    } else {
        0
    }
}

/// The first word of `s` split at ASCII white space, or the empty text.
pub open spec fn first_token(s: Seq<char>) -> Seq<char> {
    skip_ascii_ws(s).take(token_len(skip_ascii_ws(s)) as int)
}

/// `s` without any leading copies of `c`.
pub open spec fn trim_start_char(s: Seq<char>, c: char) -> Seq<char>
    decreases s.len(),
{
    if s.len() > 0 && s[0] == c {
        trim_start_char(s.drop_first(), c)
    } else {
        s
    }
}

/// `s` without any trailing copies of `c`.
pub open spec fn trim_end_char(s: Seq<char>, c: char) -> Seq<char>
    decreases s.len(),
{
    if s.len() > 0 && s.last() == c {
        trim_end_char(s.drop_last(), c)
    } else {
        s
    }
}

/// The name of an opening tag: `<a href="...">` has the name `a`.
pub open spec fn tag_name_of_spec(open: Seq<char>) -> Seq<char> {
    first_token(trim_end_char(trim_start_char(open, '<'), '>'))
}

/// The index of the last open tag named `name`.
pub open spec fn last_named(tags: Seq<(Seq<char>, Seq<char>)>, name: Seq<char>) -> Option<int>
    decreases tags.len(),
{
    if tags.len() == 0 {
        None
    } else if tag_name_of_spec(tags.last().0) == name {
        Some(tags.len() - 1)
    } else {
        last_named(tags.drop_last(), name)
    }
}

/// The open tags after the tag `full`, whose text between `<` and `>` is `inner`:
/// a closing tag removes the last open tag of its name; an opening tag that is neither a
/// comment nor self-closing is pushed; anything else changes nothing.
pub open spec fn apply_tag(
    tags: Seq<(Seq<char>, Seq<char>)>,
    inner: Seq<char>,
    full: Seq<char>,
) -> Seq<(Seq<char>, Seq<char>)> {
    if inner.len() > 0 && inner[0] == '/' {
        match last_named(tags, crate::text::trim_spec(inner.drop_first())) {
            Some(i) => tags.remove(i),
            None => tags,
        }
    } else if !(inner.len() > 0 && inner[0] == '!') && !(inner.len() > 0 && inner.last()
        == '/') {
        tags.push((full, "</"@ + first_token(inner) + ">"@))
    } else {
        tags
    }
}

/// The first position at or after `from` holding `>`.
pub open spec fn first_gt(s: Seq<char>, from: int) -> Option<int>
    decreases s.len() - from,
{
    if from < 0 || from >= s.len() {
        None
    } else if s[from] == '>' {
        Some(from)
    } else {
        first_gt(s, from + 1)
    }
}

pub proof fn lemma_first_gt_bounds(s: Seq<char>, from: int)
    ensures
        first_gt(s, from) matches Some(e) ==> from <= e < s.len() && s[e] == '>',
    decreases s.len() - from,
{
    if from >= 0 && from < s.len() && s[from] != '>' {
        lemma_first_gt_bounds(s, from + 1);
    }
}

/// The open tags after scanning `s` from position `pos`.
pub open spec fn scan_tags(
    tags: Seq<(Seq<char>, Seq<char>)>,
    s: Seq<char>,
    pos: int,
) -> Seq<(Seq<char>, Seq<char>)>
    decreases s.len() - pos,
{
    if pos < 0 || pos >= s.len() {
        tags
    } else if s[pos] == '<' {
        match first_gt(s, pos) {
            Some(e) => {
                proof {
                    lemma_first_gt_bounds(s, pos);
                }
                scan_tags(apply_tag(tags, s.subrange(pos + 1, e), s.subrange(pos, e + 1)), s, e + 1)
            },
            None => scan_tags(tags, s, pos + 1),
        }
    } else {
        scan_tags(tags, s, pos + 1)
    }
}

/// The open tags after the text `content`, starting from `tags`.
pub open spec fn open_tags_after(
    tags: Seq<(Seq<char>, Seq<char>)>,
    content: Seq<char>,
) -> Seq<(Seq<char>, Seq<char>)> {
    scan_tags(tags, content, 0)
}

fn is_ascii_ws_exec(c: char) -> (r: bool)
    ensures
        r == is_ascii_ws(c),
{
    c == ' ' || c == '\t' || c == '\n' || c == '\x0C' || c == '\r'
}

proof fn lemma_skip_ascii_ws(s: Seq<char>, i: int)
    requires
        0 <= i <= s.len(),
        forall|j: int| 0 <= j < i ==> is_ascii_ws(#[trigger] s[j]),
    ensures
        skip_ascii_ws(s) == skip_ascii_ws(s.skip(i)),
    decreases i,
{
    if i > 0 {
        lemma_skip_ascii_ws(s.drop_first(), i - 1);
        assert(s.drop_first().skip(i - 1) =~= s.skip(i));
    } else {
        assert(s.skip(0) =~= s);
    }
}

proof fn lemma_token_len(s: Seq<char>, i: int)
    requires
        0 <= i <= s.len(),
        forall|j: int| 0 <= j < i ==> !is_ascii_ws(#[trigger] s[j]),
        i == s.len() || is_ascii_ws(s[i]),
    ensures
        token_len(s) == i,
    decreases i,
{
    if i > 0 {
        lemma_token_len(s.drop_first(), i - 1);
    }
}

/// The first ASCII-white-space separated word of `v[from..to]`.
fn first_token_exec(v: &[char], from: usize, to: usize) -> (r: Vec<char>)
    requires
        from <= to <= v@.len(),
    ensures
        r@ == first_token(v@.subrange(from as int, to as int)),
{
    let ghost s = v@.subrange(from as int, to as int);
    let mut a: usize = from;
    while a < to && is_ascii_ws_exec(v[a])
        invariant
            from <= a <= to <= v@.len(),
            s == v@.subrange(from as int, to as int),
            forall|j: int| 0 <= j < a - from ==> is_ascii_ws(#[trigger] s[j]),
        decreases to - a,
    {
        a = a + 1;
    }
    proof {
        lemma_skip_ascii_ws(s, a - from);
        assert(s.skip(a - from) =~= v@.subrange(a as int, to as int));
    }
    let ghost t = v@.subrange(a as int, to as int);
    let mut b: usize = a;
    let mut out: Vec<char> = Vec::new();
    while b < to && !is_ascii_ws_exec(v[b])
        invariant
            a <= b <= to <= v@.len(),
            t == v@.subrange(a as int, to as int),
            out@ == v@.subrange(a as int, b as int),
            forall|j: int| 0 <= j < b - a ==> !is_ascii_ws(#[trigger] t[j]),
        decreases to - b,
    {
        out.push(v[b]);
        b = b + 1;
        assert(out@ =~= v@.subrange(a as int, b as int));
    }
    proof {
        lemma_token_len(t, b - a);
        assert(t.take(b - a) =~= out@);
    }
    out
}

proof fn lemma_trim_start_char(s: Seq<char>, c: char, i: int)
    requires
        0 <= i <= s.len(),
        forall|j: int| 0 <= j < i ==> #[trigger] s[j] == c,
        i == s.len() || s[i] != c,
    ensures
        trim_start_char(s, c) == s.skip(i),
    decreases i,
{
    if i > 0 {
        lemma_trim_start_char(s.drop_first(), c, i - 1);
        assert(s.drop_first().skip(i - 1) =~= s.skip(i));
    } else {
        assert(s.skip(0) =~= s);
    }
}

proof fn lemma_trim_end_char(s: Seq<char>, c: char, i: int)
    requires
        0 <= i <= s.len(),
        forall|j: int| i <= j < s.len() ==> #[trigger] s[j] == c,
        i == 0 || s[i - 1] != c,
    ensures
        trim_end_char(s, c) == s.take(i),
    decreases s.len() - i,
{
    if i < s.len() {
        lemma_trim_end_char(s.drop_last(), c, i);
        assert(s.drop_last().take(i) =~= s.take(i));
    } else {
        assert(s.take(i) =~= s);
    }
}

/// The name of an opening tag (see [`tag_name_of_spec`]).
pub fn tag_name_of(open: &[char]) -> (r: Vec<char>)
    ensures
        r@ == tag_name_of_spec(open@),
{
    let n = open.len();
    let mut a: usize = 0;
    while a < n && open[a] == '<'
        invariant
            a <= n == open@.len(),
            forall|j: int| 0 <= j < a ==> #[trigger] open@[j] == '<',
        decreases n - a,
    {
        a = a + 1;
    }
    proof {
        lemma_trim_start_char(open@, '<', a as int);
    }
    let ghost t = open@.skip(a as int);
    let mut b: usize = n;
    while b > a && open[b - 1] == '>'
        invariant
            a <= b <= n == open@.len(),
            t == open@.skip(a as int),
            forall|j: int| b <= j < n ==> #[trigger] open@[j] == '>',
        decreases b,
    {
        b = b - 1;
    }
    proof {
        assert forall|j: int| b - a <= j < t.len() implies #[trigger] t[j] == '>' by {
            assert(t[j] == open@[j + a]);
        }
        lemma_trim_end_char(t, '>', b - a);
        assert(t.take(b - a) =~= open@.subrange(a as int, b as int));
    }
    first_token_exec(open, a, b)
}

/// Find the last open tag named `name`.
fn last_named_exec(tags: &Vec<OpenTag>, name: &[char]) -> (r: Option<usize>)
    ensures
        r matches Some(i) ==> last_named(tags_view(tags@), name@) == Some(i as int) && i
            < tags@.len(),
        r is None ==> last_named(tags_view(tags@), name@) is None,
{
    let mut k: usize = tags.len();
    assert(tags_view(tags@).take(k as int) =~= tags_view(tags@));
    while k > 0
        invariant
            k <= tags@.len(),
            last_named(tags_view(tags@), name@) == last_named(
                tags_view(tags@).take(k as int),
                name@,
            ),
        decreases k,
    {
        let nm = tag_name_of(tags[k - 1].open_str.as_slice());
        let ghost tk = tags_view(tags@).take(k as int);
        assert(tk.last() == tag_view(tags@[k - 1]));
        if chars_eq(nm.as_slice(), name) {
            return Some(k - 1);
        }
        assert(tk.drop_last() =~= tags_view(tags@).take(k - 1));
        k = k - 1;
    }
    None
}

/// Update `tags` to the tags still open after `content`.
pub fn update_open_tags(tags: &mut Vec<OpenTag>, content: &[char])
    ensures
        tags_view(final(tags)@) == open_tags_after(tags_view(old(tags)@), content@),
{
    let n = content.len();
    let mut pos: usize = 0;
    while pos < n
        invariant
            pos <= n == content@.len(),
            open_tags_after(tags_view(old(tags)@), content@) == scan_tags(
                tags_view(tags@),
                content@,
                pos as int,
            ),
        decreases n - pos,
    {
        if content[pos] == '<' {
            let mut e: usize = pos;
            while e < n && content[e] != '>'
                invariant
                    pos <= e <= n == content@.len(),
                    first_gt(content@, pos as int) == first_gt(content@, e as int),
                decreases n - e,
            {
                e = e + 1;
            }
            if e < n {
                proof {
                    lemma_first_gt_bounds(content@, pos as int);
                }
                let ghost before = tags_view(tags@);
                let inner_empty = e == pos + 1;
                if !inner_empty && content[pos + 1] == '/' {
                    let name_raw = slice_range(content, pos + 2, e);
                    let name = crate::text::trim_chars(name_raw.as_slice());
                    assert(name_raw@ =~= content@.subrange(pos + 1, e as int).drop_first());
                    match last_named_exec(tags, name.as_slice()) {
                        Some(i) => {
                            tags.remove(i);
                            assert(tags_view(tags@) =~= before.remove(i as int));
                        },
                        None => {},
                    }
                } else if !(!inner_empty && content[pos + 1] == '!') && !(!inner_empty
                    && content[e - 1] == '/') {
                    let open_str = slice_range(content, pos, e + 1);
                    let name = first_token_exec(content, pos + 1, e);
                    let mut close_str: Vec<char> = Vec::new();
                    close_str.push('<');
                    close_str.push('/');
                    let mut j: usize = 0;
                    while j < name.len()
                        invariant
                            j <= name@.len(),
                            close_str@ == seq!['<', '/'] + name@.take(j as int),
                        decreases name.len() - j,
                    {
                        close_str.push(name[j]);
                        assert(close_str@ =~= seq!['<', '/'] + name@.take(j + 1));
                        j = j + 1;
                    }
                    close_str.push('>');
                    proof {
                        reveal_strlit("</");
                        reveal_strlit(">");
                        assert(close_str@ =~= "</"@ + name@ + ">"@);
                    }
                    tags.push(OpenTag { open_str, close_str });
                    assert(tags_view(tags@) =~= before.push(
                        (content@.subrange(pos as int, e + 1), "</"@ + name@ + ">"@),
                    ));
                }
                pos = e + 1;
            } else {
                pos = pos + 1;
            }
        } else {
            pos = pos + 1;
        }
    }
}

/// A copy of `v[from..to]`.
pub fn slice_range(v: &[char], from: usize, to: usize) -> (r: Vec<char>)
    requires
        from <= to <= v@.len(),
    ensures
        r@ == v@.subrange(from as int, to as int),
{
    let mut out: Vec<char> = Vec::new();
    let mut i: usize = from;
    while i < to
        invariant
            from <= i <= to <= v@.len(),
            out@ == v@.subrange(from as int, i as int),
        decreases to - i,
    {
        out.push(v[i]);
        i = i + 1;
        assert(out@ =~= v@.subrange(from as int, i as int));
    }
    out
}

/// The opening tags of `tags`, in order: the text that reopens them.
pub open spec fn opens(tags: Seq<(Seq<char>, Seq<char>)>) -> Seq<char>
    decreases tags.len(),
{
    if tags.len() == 0 {
        seq![]
    } else {
        opens(tags.drop_last()) + tags.last().0
    }
}

/// The closing tags of `tags`, innermost first: the text that closes them.
pub open spec fn closes(tags: Seq<(Seq<char>, Seq<char>)>) -> Seq<char>
    decreases tags.len(),
{
    if tags.len() == 0 {
        seq![]
    } else {
        tags.last().1 + closes(tags.drop_last())
    }
}

/// `s` without leading newlines.
pub open spec fn skip_newlines(s: Seq<char>) -> Seq<char>
    decreases s.len(),
{
    if s.len() > 0 && s[0] == '\n' {
        skip_newlines(s.drop_first())
    } else {
        s
    }
}

/// `s` with every newline removed.
pub open spec fn strip_newlines(s: Seq<char>) -> Seq<char>
    decreases s.len(),
{
    if s.len() == 0 {
        seq![]
    } else if s.last() == '\n' {
        strip_newlines(s.drop_last())
    } else {
        strip_newlines(s.drop_last()).push(s.last())
    }
}

/// Removing newlines from two texts put together removes them from each.
pub proof fn lemma_strip_newlines_concat(a: Seq<char>, b: Seq<char>)
    ensures
        strip_newlines(a + b) == strip_newlines(a) + strip_newlines(b),
    decreases b.len(),
{
    if b.len() == 0 {
        assert(a + b =~= a);
        assert(strip_newlines(a) + strip_newlines(b) =~= strip_newlines(a));
    } else {
        lemma_strip_newlines_concat(a, b.drop_last());
        assert((a + b).drop_last() =~= a + b.drop_last());
        if b.last() != '\n' {
            assert(strip_newlines(a) + strip_newlines(b.drop_last()).push(b.last()) =~= (
            strip_newlines(a) + strip_newlines(b.drop_last())).push(b.last()));
        }
    }
}

/// Dropping leading newlines leaves the text's other characters as they were.
pub proof fn lemma_strip_skip_newlines(s: Seq<char>)
    ensures
        strip_newlines(skip_newlines(s)) == strip_newlines(s),
    decreases s.len(),
{
    if s.len() > 0 && s[0] == '\n' {
        lemma_strip_skip_newlines(s.drop_first());
        assert(s =~= seq![s[0]] + s.drop_first());
        lemma_strip_newlines_concat(seq![s[0]], s.drop_first());
        assert(seq![s[0]].drop_last() =~= Seq::<char>::empty());
        assert(strip_newlines(seq![s[0]]) == strip_newlines(Seq::<char>::empty()));
        assert(Seq::<char>::empty() + strip_newlines(s.drop_first()) =~= strip_newlines(
            s.drop_first(),
        ));
    }
}

/// A text put in front of a list of pieces comes first once they are joined.
pub proof fn lemma_flatten_prepend(first: Seq<char>, rest: Seq<Seq<char>>)
    ensures
        (seq![first] + rest).flatten() == first + rest.flatten(),
{
    assert((seq![first] + rest).drop_first() =~= rest);
}

/// The last position in `1..=end` of `s` that lies outside every tag, or 0 when there is
/// none.
pub open spec fn last_clean(s: Seq<char>, end: int) -> nat
    decreases end,
{
    if end <= 0 || end > s.len() {
        0
    } else if outside_tag(s, end) {
        end as nat
    } else {
        last_clean(s, end - 1)
    }
}

/// The first position in `from..` of `s` that lies outside every tag, or the end of `s`.
pub open spec fn first_clean_from(s: Seq<char>, from: int) -> nat
    decreases s.len() - from,
{
    if from >= s.len() || from < 0 {
        s.len()
    } else if outside_tag(s, from) {
        from as nat
    } else {
        first_clean_from(s, from + 1)
    }
}

/// The shortest piece at the start of `s` that ends outside every tag (all of `s` when no
/// such end exists).
pub open spec fn first_clean(s: Seq<char>) -> nat {
    first_clean_from(s, 1)
}

/// The bytes of the chunk that takes `k` characters of `rem`: the reopened tags, the
/// text, and the tags closed after it.
pub open spec fn chunk_bytes(rem: Seq<char>, tags: Seq<(Seq<char>, Seq<char>)>, k: nat) -> nat {
    utf8_len(opens(tags)) + utf8_len(rem.take(k as int)) + utf8_len(
        closes(open_tags_after(tags, rem.take(k as int))),
    )
}

/// A cut after `k` characters fits in one message.
pub open spec fn fits_with(rem: Seq<char>, tags: Seq<(Seq<char>, Seq<char>)>, k: nat) -> bool {
    chunk_bytes(rem, tags, k) <= TELEGRAM_MSG_LIMIT
}

/// The reopened tags leave room: the shortest whole piece of text after them, with the
/// tags closed after it, fits in one message.
pub open spec fn leaves_room(rem: Seq<char>, tags: Seq<(Seq<char>, Seq<char>)>) -> bool {
    fits_with(rem, tags, first_clean(rem))
}

/// The cut for `rem` with a budget of `b` bytes for its text: the best split point within
/// the budget; when the chunk with its closing tags would not fit, the budget is cut by
/// the excess and the search repeated; when no split point outside a tag remains, the
/// shortest whole piece.
pub open spec fn fitting_split(rem: Seq<char>, tags: Seq<(Seq<char>, Seq<char>)>, b: nat) -> nat
    decreases b,
{
    let s = split_point(rem.take(fit_chars(rem, b) as int));
    if s == 0 {
        first_clean(rem)
    } else if fits_with(rem, tags, s) {
        s
    } else {
        let content = utf8_len(rem.take(s as int));
        let excess = chunk_bytes(rem, tags, s) - TELEGRAM_MSG_LIMIT;
        let nb: nat = if content >= excess {
            (content - excess) as nat
        } else {
            0
        };
        if nb < b {
            fitting_split(rem, tags, nb)
        } else {
            first_clean(rem)
        }
    }
}

/// How many characters of `rem` go into the next chunk, given the tags open before it:
/// the cut found within the bytes the reopened tags leave.
pub open spec fn chosen_split(rem: Seq<char>, tags: Seq<(Seq<char>, Seq<char>)>) -> nat {
    let p = utf8_len(opens(tags));
    fitting_split(
        rem,
        tags,
        if p < TELEGRAM_MSG_LIMIT {
            (TELEGRAM_MSG_LIMIT - p) as nat
        } else {
            0
        },
    )
}

proof fn lemma_split_point_take_bounds(rem: Seq<char>, x: int)
    requires
        0 <= x <= rem.len(),
    ensures
        split_point(rem.take(x)) <= x,
{
    lemma_split_point_bounds(rem.take(x));
}

proof fn lemma_first_clean_from_bounds(s: Seq<char>, from: int)
    requires
        1 <= from,
    ensures
        s.len() > 0 ==> 1 <= first_clean_from(s, from) <= s.len(),
        first_clean_from(s, from) < s.len() ==> outside_tag(s, first_clean_from(s, from) as int),
    decreases s.len() - from,
{
    if from < s.len() && !outside_tag(s, from) {
        lemma_first_clean_from_bounds(s, from + 1);
    }
}

/// The shortest whole piece takes at least one character and ends outside every tag or
/// at the end.
pub proof fn lemma_first_clean_bounds(s: Seq<char>)
    ensures
        s.len() > 0 ==> 1 <= first_clean(s) <= s.len(),
        first_clean(s) < s.len() ==> outside_tag(s, first_clean(s) as int),
{
    lemma_first_clean_from_bounds(s, 1);
}

proof fn lemma_fitting_split_bounds(rem: Seq<char>, tags: Seq<(Seq<char>, Seq<char>)>, b: nat)
    requires
        rem.len() > 0,
    ensures
        1 <= fitting_split(rem, tags, b) <= rem.len(),
    decreases b,
{
    let w = fit_chars(rem, b);
    lemma_fit_chars_le(rem, b);
    lemma_split_point_take_bounds(rem, w as int);
    lemma_first_clean_bounds(rem);
    let s = split_point(rem.take(w as int));
    if s != 0 && !fits_with(rem, tags, s) {
        let content = utf8_len(rem.take(s as int));
        let excess = chunk_bytes(rem, tags, s) - TELEGRAM_MSG_LIMIT;
        let nb: nat = if content >= excess {
            (content - excess) as nat
        } else {
            0
        };
        if nb < b {
            lemma_fitting_split_bounds(rem, tags, nb);
        }
    }
}

/// The chosen split takes at least one character and no more than there are.
pub proof fn lemma_chosen_split_bounds(rem: Seq<char>, tags: Seq<(Seq<char>, Seq<char>)>)
    requires
        rem.len() > 0,
    ensures
        1 <= chosen_split(rem, tags) <= rem.len(),
{
    let p = utf8_len(opens(tags));
    lemma_fitting_split_bounds(
        rem,
        tags,
        if p < TELEGRAM_MSG_LIMIT {
            (TELEGRAM_MSG_LIMIT - p) as nat
        } else {
            0
        },
    );
}

/// Dropping leading newlines never lengthens a text.
pub proof fn lemma_skip_newlines_len(s: Seq<char>)
    ensures
        skip_newlines(s).len() <= s.len(),
    decreases s.len(),
{
    if s.len() > 0 && s[0] == '\n' {
        lemma_skip_newlines_len(s.drop_first());
    }
}

/// The chunks for the text `rem` when `tags` are open before it.
pub open spec fn chunks_from(rem: Seq<char>, tags: Seq<(Seq<char>, Seq<char>)>) -> Seq<
    Seq<char>,
>
    decreases rem.len(),
{
    if rem.len() == 0 {
        seq![]
    } else {
        let prefix = opens(tags);
        let p = utf8_len(prefix);
        if p + utf8_len(rem) <= TELEGRAM_MSG_LIMIT {
            seq![prefix + rem]
        } else {
            let k = chosen_split(rem, tags);
            proof {
                lemma_chosen_split_bounds(rem, tags);
                lemma_skip_newlines_len(rem.skip(k as int));
            }
            let t = open_tags_after(tags, rem.take(k as int));
            seq![prefix + rem.take(k as int) + closes(t)] + chunks_from(
                skip_newlines(rem.skip(k as int)),
                t,
            )
        }
    }
}

/// The chunks Telegram receives for `html`: the text itself when it fits in 4096 bytes,
/// otherwise the chunks cut from it with tags closed and reopened at each cut.
pub open spec fn chunk_html_spec(html: Seq<char>) -> Seq<Seq<char>> {
    if utf8_len(html) <= TELEGRAM_MSG_LIMIT {
        seq![html]
    } else {
        chunks_from(html, seq![])
    }
}

/// A text that fits in one message is sent as it is.
pub proof fn lemma_chunk_html_short(html: Seq<char>)
    requires
        utf8_len(html) <= TELEGRAM_MSG_LIMIT,
    ensures
        chunk_html_spec(html) == seq![html],
{
}

/// Each chunk starts by reopening the tags left open before it; a chunk cut short closes
/// the tags open at its end, and the next chunk starts from exactly those tags.
pub proof fn lemma_chunks_reopen_tags(rem: Seq<char>, tags: Seq<(Seq<char>, Seq<char>)>)
    requires
        rem.len() > 0,
    ensures
        chunks_from(rem, tags).len() > 0,
        chunks_from(rem, tags)[0].take(opens(tags).len() as int) == opens(tags),
        utf8_len(opens(tags)) + utf8_len(rem) > TELEGRAM_MSG_LIMIT ==> {
            let k = chosen_split(rem, tags);
            let t = open_tags_after(tags, rem.take(k as int));
            &&& chunks_from(rem, tags)[0] == opens(tags) + rem.take(k as int) + closes(t)
            &&& chunks_from(rem, tags).drop_first() == chunks_from(skip_newlines(rem.skip(k as int)), t)
        },
{
    let p = opens(tags);
    let c = chunks_from(rem, tags);
    if utf8_len(p) + utf8_len(rem) <= TELEGRAM_MSG_LIMIT {
        assert((p + rem).take(p.len() as int) =~= p);
    } else {
        let k = chosen_split(rem, tags);
        lemma_chosen_split_bounds(rem, tags);
        let t = open_tags_after(tags, rem.take(k as int));
        let first = p + rem.take(k as int) + closes(t);
        assert(first.take(p.len() as int) =~= p);
        let rest = chunks_from(skip_newlines(rem.skip(k as int)), t);
        assert((seq![first] + rest).drop_first() =~= rest);
    }
}

/// A text without `<` holds no tags.
pub open spec fn tag_free(s: Seq<char>) -> bool {
    forall|j: int| 0 <= j < s.len() ==> s[j] != '<'
}

/// Scanning a text without `<` leaves the open tags as they were.
pub proof fn lemma_scan_tag_free(tags: Seq<(Seq<char>, Seq<char>)>, s: Seq<char>, pos: int)
    requires
        tag_free(s),
    ensures
        scan_tags(tags, s, pos) == tags,
    decreases s.len() - pos,
{
    if 0 <= pos < s.len() {
        lemma_scan_tag_free(tags, s, pos + 1);
    }
}

/// What is left after leading newlines is a suffix of the text.
proof fn lemma_skip_newlines_suffix(s: Seq<char>)
    ensures
        exists|j: int| 0 <= j <= s.len() && #[trigger] s.skip(j) == skip_newlines(s),
    decreases s.len(),
{
    if s.len() > 0 && s[0] == '\n' {
        lemma_skip_newlines_suffix(s.drop_first());
        let j = choose|j: int| 0 <= j <= s.drop_first().len() && #[trigger] s.drop_first().skip(j)
            == skip_newlines(s.drop_first());
        assert(s.skip(j + 1) =~= s.drop_first().skip(j));
    } else {
        assert(s.skip(0) =~= s);
    }
}

/// A text in which `c` does not occur counts no `c`.
pub proof fn lemma_count_absent(s: Seq<char>, c: char)
    requires
        forall|j: int| 0 <= j < s.len() ==> s[j] != c,
    ensures
        count_char(s, c) == 0,
    decreases s.len(),
{
    if s.len() > 0 {
        lemma_count_absent(s.drop_last(), c);
    }
}

/// A tag-free text leaves room at every cut: with no tags open, its first character
/// alone always fits.
proof fn lemma_tag_free_room(rem: Seq<char>)
    requires
        tag_free(rem),
    ensures
        room_at_every_cut(rem, seq![]),
    decreases rem.len(),
{
    let none: Seq<(Seq<char>, Seq<char>)> = seq![];
    assert(opens(none) =~= Seq::<char>::empty());
    assert(closes(none) =~= Seq::<char>::empty());
    assert(utf8_len(Seq::<char>::empty()) == 0);
    if rem.len() > 0 && utf8_len(opens(none)) + utf8_len(rem) > TELEGRAM_MSG_LIMIT {
        if rem.len() > 1 {
            lemma_count_absent(rem.take(1), '<');
        }
        assert(first_clean(rem) == 1);
        lemma_scan_tag_free(none, rem.take(1), 0);
        lemma_utf8_len_bounds(rem.take(1));
        assert(leaves_room(rem, none));
        let k = chosen_split(rem, none);
        lemma_chosen_split_bounds(rem, none);
        lemma_scan_tag_free(none, rem.take(k as int), 0);
        let rest = skip_newlines(rem.skip(k as int));
        lemma_skip_newlines_suffix(rem.skip(k as int));
        lemma_skip_newlines_len(rem.skip(k as int));
        let j = choose|j: int| 0 <= j <= rem.skip(k as int).len() && #[trigger] rem.skip(
            k as int,
        ).skip(j) == rest;
        assert forall|q: int| 0 <= q < rest.len() implies rest[q] != '<' by {
            assert(rest[q] == rem[k + j + q]);
        }
        lemma_tag_free_room(rest);
    }
}

/// Every cut of `rem`, with `tags` open before it, leaves room: wherever the text does
/// not fit whole, the reopened tags leave room for the shortest whole piece of text after
/// them and for the tags closed after it.
pub open spec fn room_at_every_cut(rem: Seq<char>, tags: Seq<(Seq<char>, Seq<char>)>) -> bool
    decreases rem.len(),
{
    if rem.len() == 0 || utf8_len(opens(tags)) + utf8_len(rem) <= TELEGRAM_MSG_LIMIT {
        true
    } else {
        let k = chosen_split(rem, tags);
        proof {
            lemma_chosen_split_bounds(rem, tags);
            lemma_skip_newlines_len(rem.skip(k as int));
        }
        leaves_room(rem, tags) && room_at_every_cut(
            skip_newlines(rem.skip(k as int)),
            open_tags_after(tags, rem.take(k as int)),
        )
    }
}

proof fn lemma_fitting_split_fits(rem: Seq<char>, tags: Seq<(Seq<char>, Seq<char>)>, b: nat)
    requires
        leaves_room(rem, tags),
    ensures
        fits_with(rem, tags, fitting_split(rem, tags, b)),
    decreases b,
{
    let s = split_point(rem.take(fit_chars(rem, b) as int));
    if s != 0 && !fits_with(rem, tags, s) {
        let content = utf8_len(rem.take(s as int));
        let excess = chunk_bytes(rem, tags, s) - TELEGRAM_MSG_LIMIT;
        let nb: nat = if content >= excess {
            (content - excess) as nat
        } else {
            0
        };
        if nb < b {
            lemma_fitting_split_fits(rem, tags, nb);
        }
    }
}

/// Where the reopened tags leave room, the chosen cut fits in one message.
pub proof fn lemma_chosen_split_fits(rem: Seq<char>, tags: Seq<(Seq<char>, Seq<char>)>)
    requires
        leaves_room(rem, tags),
    ensures
        fits_with(rem, tags, chosen_split(rem, tags)),
{
    let p = utf8_len(opens(tags));
    lemma_fitting_split_fits(
        rem,
        tags,
        if p < TELEGRAM_MSG_LIMIT {
            (TELEGRAM_MSG_LIMIT - p) as nat
        } else {
            0
        },
    );
}

proof fn lemma_chunks_fit(rem: Seq<char>, tags: Seq<(Seq<char>, Seq<char>)>)
    requires
        room_at_every_cut(rem, tags),
    ensures
        forall|i: int|
            0 <= i < chunks_from(rem, tags).len() ==> utf8_len(#[trigger] chunks_from(rem, tags)[i])
                <= TELEGRAM_MSG_LIMIT,
    decreases rem.len(),
{
    if rem.len() > 0 {
        let p = opens(tags);
        if utf8_len(p) + utf8_len(rem) <= TELEGRAM_MSG_LIMIT {
            lemma_utf8_len_concat(p, rem);
        } else {
            let k = chosen_split(rem, tags);
            lemma_chosen_split_bounds(rem, tags);
            lemma_chosen_split_fits(rem, tags);
            lemma_skip_newlines_len(rem.skip(k as int));
            let t = open_tags_after(tags, rem.take(k as int));
            let first = p + rem.take(k as int) + closes(t);
            lemma_utf8_len_concat(p, rem.take(k as int));
            lemma_utf8_len_concat(p + rem.take(k as int), closes(t));
            let next = skip_newlines(rem.skip(k as int));
            lemma_chunks_fit(next, t);
            let c = chunks_from(rem, tags);
            assert(c == seq![first] + chunks_from(next, t));
            assert forall|i: int| 0 <= i < c.len() implies utf8_len(#[trigger] c[i])
                <= TELEGRAM_MSG_LIMIT by {
                if i > 0 {
                    assert(c[i] == chunks_from(next, t)[i - 1]);
                }
            }
        }
    }
}

/// Every chunk fits Telegram's 4096-byte limit wherever the reopened tags leave room at
/// each cut.
pub proof fn lemma_chunks_within_limit(html: Seq<char>)
    requires
        room_at_every_cut(html, seq![]),
    ensures
        forall|i: int|
            0 <= i < chunk_html_spec(html).len() ==> utf8_len(#[trigger] chunk_html_spec(html)[i])
                <= TELEGRAM_MSG_LIMIT,
{
    if utf8_len(html) > TELEGRAM_MSG_LIMIT {
        lemma_chunks_fit(html, seq![]);
    }
}

/// Counting over two texts put together adds the counts.
pub proof fn lemma_count_concat(a: Seq<char>, b: Seq<char>, c: char)
    ensures
        count_char(a + b, c) == count_char(a, c) + count_char(b, c),
    decreases b.len(),
{
    if b.len() == 0 {
        assert(a + b =~= a);
    } else {
        lemma_count_concat(a, b.drop_last(), c);
        assert((a + b).drop_last() =~= a + b.drop_last());
    }
}

pub proof fn lemma_count_single(x: char, c: char)
    ensures
        count_char(seq![x], c) == (if x == c {
            1nat
        } else {
            0nat
        }),
{
    assert(seq![x].drop_last() =~= Seq::<char>::empty());
    assert(count_char(Seq::<char>::empty(), c) == 0);
    assert(seq![x].last() == x);
}

proof fn lemma_last_named_bounds(tags: Seq<(Seq<char>, Seq<char>)>, name: Seq<char>)
    ensures
        last_named(tags, name) matches Some(i) ==> 0 <= i < tags.len(),
    decreases tags.len(),
{
    if tags.len() > 0 && tag_name_of_spec(tags.last().0) != name {
        lemma_last_named_bounds(tags.drop_last(), name);
    }
}

/// The count over the first `k + j` characters is that over the first `k` plus that over
/// the `j` after them.
proof fn lemma_count_take_split(s: Seq<char>, k: int, j: int, c: char)
    requires
        0 <= k,
        0 <= j,
        k + j <= s.len(),
    ensures
        count_char(s.take(k + j), c) == count_char(s.take(k), c) + count_char(s.skip(k).take(j), c),
{
    assert(s.take(k + j) =~= s.take(k) + s.skip(k).take(j));
    lemma_count_concat(s.take(k), s.skip(k).take(j), c);
}

proof fn lemma_count_take_le(s: Seq<char>, n: int, c: char)
    requires
        0 <= n <= s.len(),
    ensures
        count_char(s.take(n), c) <= count_char(s, c),
{
    assert(s =~= s.take(n) + s.skip(n));
    lemma_count_concat(s.take(n), s.skip(n), c);
}

/// In `s`, `<` and `>` alternate, starting with `<`: no `<` comes before the `>` that
/// closes the tag before it, and no `>` comes without a `<` before it.
pub open spec fn brackets_alternate(s: Seq<char>) -> bool {
    forall|j: int|
        0 <= j <= s.len() ==> count_char(s.take(j), '>') <= #[trigger] count_char(s.take(j), '<')
            <= count_char(s.take(j), '>') + 1
}

/// The tags of `s` are balanced: `<` and `>` alternate and every `<` is closed by a `>`.
pub open spec fn tags_balanced(s: Seq<char>) -> bool {
    &&& brackets_alternate(s)
    &&& count_char(s, '<') == count_char(s, '>')
}

/// A text with as many `<` as `>`.
pub open spec fn even_brackets(s: Seq<char>) -> bool {
    count_char(s, '<') == count_char(s, '>')
}

/// Each open tag's opening and closing text has as many `<` as `>`.
pub open spec fn entries_balanced(tags: Seq<(Seq<char>, Seq<char>)>) -> bool {
    forall|i: int|
        0 <= i < tags.len() ==> even_brackets(#[trigger] tags[i].0) && even_brackets(tags[i].1)
}

proof fn lemma_opens_closes_even(tags: Seq<(Seq<char>, Seq<char>)>)
    requires
        entries_balanced(tags),
    ensures
        even_brackets(opens(tags)),
        even_brackets(closes(tags)),
    decreases tags.len(),
{
    if tags.len() > 0 {
        let d = tags.drop_last();
        assert forall|i: int| 0 <= i < d.len() implies even_brackets(#[trigger] d[i].0)
            && even_brackets(d[i].1) by {
            assert(d[i] == tags[i]);
        }
        lemma_opens_closes_even(d);
        assert(even_brackets(tags[tags.len() - 1].0));
        lemma_count_concat(opens(d), tags.last().0, '<');
        lemma_count_concat(opens(d), tags.last().0, '>');
        lemma_count_concat(tags.last().1, closes(d), '<');
        lemma_count_concat(tags.last().1, closes(d), '>');
    } else {
        assert(opens(tags) =~= Seq::<char>::empty());
        assert(closes(tags) =~= Seq::<char>::empty());
    }
}

proof fn lemma_first_gt_before(s: Seq<char>, from: int)
    ensures
        first_gt(s, from) matches Some(e) ==> forall|m: int| from <= m < e ==> s[m] != '>',
    decreases s.len() - from,
{
    if from >= 0 && from < s.len() && s[from] != '>' {
        lemma_first_gt_before(s, from + 1);
    }
}

/// Where brackets alternate, the text of a tag between its `<` and `>` holds neither;
/// the whole tag holds one of each.
proof fn lemma_tag_text_clean(s: Seq<char>, pos: int, e: int)
    requires
        brackets_alternate(s),
        0 <= pos < s.len(),
        s[pos] == '<',
        first_gt(s, pos) == Some(e),
    ensures
        pos < e < s.len(),
        count_char(s.subrange(pos + 1, e), '<') == 0,
        count_char(s.subrange(pos + 1, e), '>') == 0,
        even_brackets(s.subrange(pos, e + 1)),
{
    lemma_first_gt_bounds(s, pos);
    lemma_first_gt_before(s, pos);
    let inner = s.subrange(pos + 1, e);
    assert forall|j: int| 0 <= j < inner.len() implies inner[j] != '>' by {
        assert(inner[j] == s[pos + 1 + j]);
    }
    lemma_count_absent(inner, '>');
    assert(s.skip(pos).take(1) =~= seq![s[pos]]);
    lemma_count_single(s[pos], '<');
    lemma_count_single(s[pos], '>');
    lemma_count_take_split(s, pos, 1, '<');
    lemma_count_take_split(s, pos, 1, '>');
    assert(count_char(s.take(pos), '<') <= count_char(s.take(pos), '>') + 1);
    assert(count_char(s.take(pos + 1), '<') <= count_char(s.take(pos + 1), '>') + 1);
    assert(s.skip(pos + 1).take(e - pos - 1) =~= inner);
    lemma_count_take_split(s, pos + 1, e - pos - 1, '<');
    lemma_count_take_split(s, pos + 1, e - pos - 1, '>');
    assert(count_char(s.take(e), '<') <= count_char(s.take(e), '>') + 1);
    let full = s.subrange(pos, e + 1);
    assert(full =~= seq![s[pos]] + inner + seq![s[e]]);
    lemma_count_concat(seq![s[pos]], inner, '<');
    lemma_count_concat(seq![s[pos]], inner, '>');
    lemma_count_concat(seq![s[pos]] + inner, seq![s[e]], '<');
    lemma_count_concat(seq![s[pos]] + inner, seq![s[e]], '>');
    lemma_count_single(s[e], '<');
    lemma_count_single(s[e], '>');
}

proof fn lemma_skip_ws_count(s: Seq<char>, c: char)
    ensures
        count_char(skip_ascii_ws(s), c) <= count_char(s, c),
        skip_ascii_ws(s).len() <= s.len(),
    decreases s.len(),
{
    if s.len() > 0 && is_ascii_ws(s[0]) {
        lemma_skip_ws_count(s.drop_first(), c);
        assert(s =~= seq![s[0]] + s.drop_first());
        lemma_count_concat(seq![s[0]], s.drop_first(), c);
    }
}

proof fn lemma_token_len_le(s: Seq<char>)
    ensures
        token_len(s) <= s.len(),
    decreases s.len(),
{
    if s.len() > 0 && !is_ascii_ws(s[0]) {
        lemma_token_len_le(s.drop_first());
    }
}

proof fn lemma_first_token_count(s: Seq<char>, c: char)
    ensures
        count_char(first_token(s), c) <= count_char(s, c),
{
    let k = skip_ascii_ws(s);
    lemma_skip_ws_count(s, c);
    lemma_token_len_le(k);
    lemma_count_take_le(k, token_len(k) as int, c);
}

proof fn lemma_close_tag_even(inner: Seq<char>)
    requires
        count_char(inner, '<') == 0,
        count_char(inner, '>') == 0,
    ensures
        even_brackets("</"@ + first_token(inner) + ">"@),
{
    lemma_first_token_count(inner, '<');
    lemma_first_token_count(inner, '>');
    reveal_strlit("</");
    reveal_strlit(">");
    assert("</"@ =~= seq!['<'] + seq!['/']);
    assert(">"@ =~= seq!['>']);
    lemma_count_single('<', '<');
    lemma_count_single('<', '>');
    lemma_count_single('/', '<');
    lemma_count_single('/', '>');
    lemma_count_single('>', '<');
    lemma_count_single('>', '>');
    lemma_count_concat(seq!['<'], seq!['/'], '<');
    lemma_count_concat(seq!['<'], seq!['/'], '>');
    lemma_count_concat("</"@, first_token(inner), '<');
    lemma_count_concat("</"@, first_token(inner), '>');
    lemma_count_concat("</"@ + first_token(inner), ">"@, '<');
    lemma_count_concat("</"@ + first_token(inner), ">"@, '>');
}

proof fn lemma_apply_tag_entries(
    tags: Seq<(Seq<char>, Seq<char>)>,
    inner: Seq<char>,
    full: Seq<char>,
)
    requires
        entries_balanced(tags),
        count_char(inner, '<') == 0,
        count_char(inner, '>') == 0,
        even_brackets(full),
    ensures
        entries_balanced(apply_tag(tags, inner, full)),
{
    if inner.len() > 0 && inner[0] == '/' {
        let name = crate::text::trim_spec(inner.drop_first());
        lemma_last_named_bounds(tags, name);
        match last_named(tags, name) {
            Some(i) => {
                lemma_remove_entries(tags, i);
            },
            None => {},
        }
    } else if !(inner.len() > 0 && inner[0] == '!') && !(inner.len() > 0 && inner.last()
        == '/') {
        lemma_close_tag_even(inner);
        lemma_push_entries(tags, (full, "</"@ + first_token(inner) + ">"@));
    }
}

proof fn lemma_remove_entries(tags: Seq<(Seq<char>, Seq<char>)>, i: int)
    requires
        entries_balanced(tags),
        0 <= i < tags.len(),
    ensures
        entries_balanced(tags.remove(i)),
{
    let r = tags.remove(i);
    assert forall|j: int| 0 <= j < r.len() implies even_brackets(#[trigger] r[j].0) && even_brackets(
        r[j].1,
    ) by {
        if j < i {
            assert(r[j] == tags[j]);
            assert(even_brackets(tags[j].0) && even_brackets(tags[j].1));
        } else {
            assert(r[j] == tags[j + 1]);
            assert(even_brackets(tags[j + 1].0) && even_brackets(tags[j + 1].1));
        }
    }
}

proof fn lemma_push_entries(tags: Seq<(Seq<char>, Seq<char>)>, e: (Seq<char>, Seq<char>))
    requires
        entries_balanced(tags),
        even_brackets(e.0),
        even_brackets(e.1),
    ensures
        entries_balanced(tags.push(e)),
{
    let r = tags.push(e);
    assert forall|j: int| 0 <= j < r.len() implies even_brackets(#[trigger] r[j].0) && even_brackets(
        r[j].1,
    ) by {
        if j < tags.len() {
            assert(r[j] == tags[j]);
        } else {
            assert(r[j] == e);
        }
    }
}

/// Scanning a text whose brackets alternate keeps each open tag's text balanced.
proof fn lemma_scan_entries(tags: Seq<(Seq<char>, Seq<char>)>, s: Seq<char>, pos: int)
    requires
        brackets_alternate(s),
        entries_balanced(tags),
    ensures
        entries_balanced(scan_tags(tags, s, pos)),
    decreases s.len() - pos,
{
    if 0 <= pos < s.len() {
        if s[pos] == '<' {
            match first_gt(s, pos) {
                Some(e) => {
                    lemma_tag_text_clean(s, pos, e);
                    let nt = apply_tag(tags, s.subrange(pos + 1, e), s.subrange(pos, e + 1));
                    lemma_apply_tag_entries(tags, s.subrange(pos + 1, e), s.subrange(pos, e + 1));
                    lemma_scan_entries(nt, s, e + 1);
                },
                None => {
                    lemma_scan_entries(tags, s, pos + 1);
                },
            }
        } else {
            lemma_scan_entries(tags, s, pos + 1);
        }
    }
}

proof fn lemma_alternate_take(s: Seq<char>, k: int)
    requires
        brackets_alternate(s),
        0 <= k <= s.len(),
    ensures
        brackets_alternate(s.take(k)),
{
    assert forall|j: int| 0 <= j <= s.take(k).len() implies count_char(s.take(k).take(j), '>')
        <= #[trigger] count_char(s.take(k).take(j), '<') <= count_char(s.take(k).take(j), '>')
        + 1 by {
        assert(s.take(k).take(j) =~= s.take(j));
    }
}

/// What follows a cut with as many `<` as `>` before it is balanced again.
pub proof fn lemma_balanced_skip(s: Seq<char>, k: int)
    requires
        tags_balanced(s),
        0 <= k <= s.len(),
        count_char(s.take(k), '<') == count_char(s.take(k), '>'),
    ensures
        tags_balanced(s.skip(k)),
{
    let t = s.skip(k);
    assert forall|j: int| 0 <= j <= t.len() implies count_char(t.take(j), '>')
        <= #[trigger] count_char(t.take(j), '<') <= count_char(t.take(j), '>') + 1 by {
        lemma_count_take_split(s, k, j, '<');
        lemma_count_take_split(s, k, j, '>');
        assert(count_char(s.take(k + j), '<') <= count_char(s.take(k + j), '>') + 1);
    }
    assert(s.take(s.len() as int) =~= s);
    lemma_count_take_split(s, k, s.len() - k, '<');
    lemma_count_take_split(s, k, s.len() - k, '>');
    assert(t.take(s.len() - k) =~= t);
}

/// A text holding neither `<` nor `>`.
pub open spec fn bracket_free(s: Seq<char>) -> bool {
    forall|j: int| 0 <= j < s.len() ==> s[j] != '<' && s[j] != '>'
}

/// A text without brackets has balanced tags.
pub proof fn lemma_bracket_free_balanced(s: Seq<char>)
    requires
        bracket_free(s),
    ensures
        tags_balanced(s),
{
    assert forall|j: int| 0 <= j <= s.len() implies count_char(s.take(j), '>')
        <= #[trigger] count_char(s.take(j), '<') <= count_char(s.take(j), '>') + 1 by {
        lemma_count_absent(s.take(j), '<');
        lemma_count_absent(s.take(j), '>');
    }
    lemma_count_absent(s, '<');
    lemma_count_absent(s, '>');
}

/// Two texts with balanced tags, put together, have balanced tags.
pub proof fn lemma_balanced_concat(a: Seq<char>, b: Seq<char>)
    requires
        tags_balanced(a),
        tags_balanced(b),
    ensures
        tags_balanced(a + b),
{
    let s = a + b;
    assert forall|j: int| 0 <= j <= s.len() implies count_char(s.take(j), '>')
        <= #[trigger] count_char(s.take(j), '<') <= count_char(s.take(j), '>') + 1 by {
        if j <= a.len() {
            assert(s.take(j) =~= a.take(j));
        } else {
            assert(s.take(j) =~= a + b.take(j - a.len()));
            lemma_count_concat(a, b.take(j - a.len()), '<');
            lemma_count_concat(a, b.take(j - a.len()), '>');
            assert(count_char(b.take(j - a.len()), '<') <= count_char(b.take(j - a.len()), '>')
                + 1);
        }
    }
    lemma_count_concat(a, b, '<');
    lemma_count_concat(a, b, '>');
}

/// A whole tag, `<`, text without brackets, `>`, has balanced tags.
pub proof fn lemma_tag_balanced(inner: Seq<char>)
    requires
        bracket_free(inner),
    ensures
        tags_balanced(seq!['<'] + inner + seq!['>']),
{
    let s = seq!['<'] + inner + seq!['>'];
    lemma_count_absent(inner, '<');
    lemma_count_absent(inner, '>');
    lemma_count_single('<', '<');
    lemma_count_single('<', '>');
    lemma_count_single('>', '<');
    lemma_count_single('>', '>');
    lemma_count_concat(seq!['<'], inner, '<');
    lemma_count_concat(seq!['<'], inner, '>');
    lemma_count_concat(seq!['<'] + inner, seq!['>'], '<');
    lemma_count_concat(seq!['<'] + inner, seq!['>'], '>');
    assert forall|j: int| 0 <= j <= s.len() implies count_char(s.take(j), '>')
        <= #[trigger] count_char(s.take(j), '<') <= count_char(s.take(j), '>') + 1 by {
        if j == 0 {
            assert(s.take(0) =~= Seq::<char>::empty());
            assert(count_char(Seq::<char>::empty(), '<') == 0);
            assert(count_char(Seq::<char>::empty(), '>') == 0);
        } else if j <= inner.len() + 1 {
            assert(s.take(j) =~= seq!['<'] + inner.take(j - 1));
            assert forall|q: int| 0 <= q < inner.take(j - 1).len() implies #[trigger] inner.take(
                j - 1,
            )[q] != '<' && inner.take(j - 1)[q] != '>' by {
                assert(inner.take(j - 1)[q] == inner[q]);
            }
            lemma_count_absent(inner.take(j - 1), '<');
            lemma_count_absent(inner.take(j - 1), '>');
            lemma_count_concat(seq!['<'], inner.take(j - 1), '<');
            lemma_count_concat(seq!['<'], inner.take(j - 1), '>');
        } else {
            assert(s.take(j) =~= s);
        }
    }
}

/// Dropping a last character that is no bracket keeps the tags balanced.
pub proof fn lemma_balanced_drop_last(s: Seq<char>)
    requires
        tags_balanced(s),
        s.len() > 0,
        s.last() != '<',
        s.last() != '>',
    ensures
        tags_balanced(s.drop_last()),
{
    let d = s.drop_last();
    assert forall|j: int| 0 <= j <= d.len() implies count_char(d.take(j), '>')
        <= #[trigger] count_char(d.take(j), '<') <= count_char(d.take(j), '>') + 1 by {
        assert(d.take(j) =~= s.take(j));
    }
}

/// Dropping a first character that is no bracket keeps the tags balanced.
pub proof fn lemma_balanced_drop_first(s: Seq<char>)
    requires
        tags_balanced(s),
        s.len() > 0,
        s[0] != '<',
        s[0] != '>',
    ensures
        tags_balanced(s.drop_first()),
{
    assert(s.take(1) =~= seq![s[0]]);
    lemma_count_single(s[0], '<');
    lemma_count_single(s[0], '>');
    lemma_balanced_skip(s, 1);
    assert(s.skip(1) =~= s.drop_first());
}

proof fn lemma_first_gt_shift(a: Seq<char>, b: Seq<char>, q: int)
    requires
        0 <= q,
    ensures
        first_gt(a + b, a.len() + q) == (match first_gt(b, q) {
            Some(e) => Some(e + a.len()),
            None => None,
        }),
    decreases b.len() - q,
{
    if q < b.len() {
        assert((a + b)[a.len() + q] == b[q]);
        if b[q] != '>' {
            lemma_first_gt_shift(a, b, q + 1);
        }
    }
}

proof fn lemma_first_gt_prefix(a: Seq<char>, b: Seq<char>, from: int)
    requires
        0 <= from,
        first_gt(a, from) is Some,
    ensures
        first_gt(a + b, from) == first_gt(a, from),
    decreases a.len() - from,
{
    if from < a.len() {
        assert((a + b)[from] == a[from]);
        if a[from] != '>' {
            lemma_first_gt_prefix(a, b, from + 1);
        }
    }
}

proof fn lemma_first_gt_none(s: Seq<char>, from: int)
    requires
        0 <= from,
        first_gt(s, from) is None,
    ensures
        forall|m: int| from <= m < s.len() ==> s[m] != '>',
    decreases s.len() - from,
{
    if from < s.len() {
        lemma_first_gt_none(s, from + 1);
    }
}

/// Scanning what follows a text is scanning the second text alone.
pub proof fn lemma_scan_shift(tags: Seq<(Seq<char>, Seq<char>)>, a: Seq<char>, b: Seq<char>, q: int)
    requires
        0 <= q,
    ensures
        scan_tags(tags, a + b, a.len() + q) == scan_tags(tags, b, q),
    decreases b.len() - q,
{
    let s = a + b;
    if q < b.len() {
        assert(s[a.len() + q] == b[q]);
        if b[q] == '<' {
            lemma_first_gt_shift(a, b, q);
            match first_gt(b, q) {
                Some(e) => {
                    lemma_first_gt_bounds(b, q);
                    assert(s.subrange(a.len() + q + 1, a.len() + e) =~= b.subrange(q + 1, e));
                    assert(s.subrange(a.len() + q, a.len() + e + 1) =~= b.subrange(q, e + 1));
                    let nt = apply_tag(tags, b.subrange(q + 1, e), b.subrange(q, e + 1));
                    lemma_scan_shift(nt, a, b, e + 1);
                },
                None => {
                    lemma_scan_shift(tags, a, b, q + 1);
                },
            }
        } else {
            lemma_scan_shift(tags, a, b, q + 1);
        }
    }
}

/// Scanning a text with balanced tags and then another is scanning the two put together.
pub proof fn lemma_scan_concat(
    tags: Seq<(Seq<char>, Seq<char>)>,
    a: Seq<char>,
    b: Seq<char>,
    pos: int,
)
    requires
        tags_balanced(a),
        0 <= pos <= a.len(),
        count_char(a.take(pos), '<') == count_char(a.take(pos), '>'),
    ensures
        scan_tags(tags, a + b, pos) == scan_tags(scan_tags(tags, a, pos), b, 0),
    decreases a.len() - pos,
{
    let s = a + b;
    if pos == a.len() {
        lemma_scan_shift(tags, a, b, 0);
    } else {
        assert(s[pos] == a[pos]);
        assert(a.skip(pos).take(1) =~= seq![a[pos]]);
        lemma_count_single(a[pos], '<');
        lemma_count_single(a[pos], '>');
        lemma_count_take_split(a, pos, 1, '<');
        lemma_count_take_split(a, pos, 1, '>');
        assert(count_char(a.take(pos + 1), '<') <= count_char(a.take(pos + 1), '>') + 1);
        assert(count_char(a.take(pos + 1), '>') <= count_char(a.take(pos + 1), '<'));
        if a[pos] == '<' {
            if first_gt(a, pos) is None {
                lemma_first_gt_none(a, pos);
                let rest = a.skip(pos);
                assert forall|j: int| 0 <= j < rest.len() implies rest[j] != '>' by {
                    assert(rest[j] == a[pos + j]);
                }
                lemma_count_absent(rest, '>');
                assert(rest.take(rest.len() as int) =~= rest);
                assert(rest =~= seq![a[pos]] + rest.drop_first());
                lemma_count_concat(seq![a[pos]], rest.drop_first(), '<');
                lemma_count_take_split(a, pos, a.len() - pos, '<');
                lemma_count_take_split(a, pos, a.len() - pos, '>');
                assert(a.take(a.len() as int) =~= a);
                assert(false);
            }
            let e = first_gt(a, pos)->0;
            lemma_tag_text_clean(a, pos, e);
            lemma_first_gt_prefix(a, b, pos);
            assert(s.subrange(pos + 1, e) =~= a.subrange(pos + 1, e));
            assert(s.subrange(pos, e + 1) =~= a.subrange(pos, e + 1));
            assert(a.skip(pos).take(e + 1 - pos) =~= a.subrange(pos, e + 1));
            lemma_count_take_split(a, pos, e + 1 - pos, '<');
            lemma_count_take_split(a, pos, e + 1 - pos, '>');
            let nt = apply_tag(tags, a.subrange(pos + 1, e), a.subrange(pos, e + 1));
            lemma_scan_concat(nt, a, b, e + 1);
        } else {
            lemma_scan_concat(tags, a, b, pos + 1);
        }
    }
}

/// Scanning one whole tag applies it to the open tags.
pub proof fn lemma_scan_one_tag(tags: Seq<(Seq<char>, Seq<char>)>, inner: Seq<char>)
    requires
        bracket_free(inner),
    ensures
        scan_tags(tags, seq!['<'] + inner + seq!['>'], 0) == apply_tag(
            tags,
            inner,
            seq!['<'] + inner + seq!['>'],
        ),
{
    let s = seq!['<'] + inner + seq!['>'];
    let e: int = (inner.len() + 1) as int;
    assert(s[0] == '<');
    assert(s[e] == '>');
    assert forall|m: int| 0 <= m < e implies s[m] != '>' by {
        if m > 0 {
            assert(s[m] == inner[m - 1]);
        }
    }
    lemma_first_gt_at(s, 0, e);
    assert(s.subrange(1, e) =~= inner);
    assert(s.subrange(0, e + 1) =~= s);
    let nt = apply_tag(tags, inner, s);
    assert(scan_tags(nt, s, e + 1) == nt);
    assert(scan_tags(tags, s, 0) == scan_tags(apply_tag(tags, s.subrange(1, e), s.subrange(0, e + 1)), s, e + 1));
}

proof fn lemma_first_gt_at(s: Seq<char>, from: int, e: int)
    requires
        0 <= from <= e < s.len(),
        s[e] == '>',
        forall|m: int| from <= m < e ==> s[m] != '>',
    ensures
        first_gt(s, from) == Some(e),
    decreases e - from,
{
    if from < e {
        lemma_first_gt_at(s, from + 1, e);
    }
}

/// The name of a whole opening tag is the first word of its text.
pub proof fn lemma_tag_name_of_whole(inner: Seq<char>)
    requires
        bracket_free(inner),
    ensures
        tag_name_of_spec(seq!['<'] + inner + seq!['>']) == first_token(inner),
{
    let s = seq!['<'] + inner + seq!['>'];
    if inner.len() > 0 {
        assert(s[1] == inner[0]);
    }
    lemma_trim_start_char(s, '<', 1);
    let t = s.skip(1);
    assert(t =~= inner + seq!['>']);
    if inner.len() > 0 {
        assert(t[inner.len() - 1] == inner[inner.len() - 1]);
    }
    lemma_trim_end_char(t, '>', inner.len() as int);
    assert(t.take(inner.len() as int) =~= inner);
}

/// The first word of a word followed by nothing or by white space is the word.
pub proof fn lemma_first_token_word(w: Seq<char>, rest: Seq<char>)
    requires
        w.len() > 0,
        forall|j: int| 0 <= j < w.len() ==> !is_ascii_ws(#[trigger] w[j]),
        rest.len() == 0 || is_ascii_ws(rest[0]),
    ensures
        first_token(w + rest) == w,
{
    let s = w + rest;
    assert(s[0] == w[0]);
    lemma_skip_ascii_ws(s, 0);
    assert(s.skip(0) =~= s);
    assert forall|j: int| 0 <= j < w.len() implies !is_ascii_ws(#[trigger] s[j]) by {
        assert(s[j] == w[j]);
    }
    if rest.len() > 0 {
        assert(s[w.len() as int] == rest[0]);
    }
    lemma_token_len(s, w.len() as int);
    assert(s.take(w.len() as int) =~= w);
}

proof fn lemma_balanced_skip_newlines(s: Seq<char>)
    requires
        tags_balanced(s),
    ensures
        tags_balanced(skip_newlines(s)),
    decreases s.len(),
{
    if s.len() > 0 && s[0] == '\n' {
        assert(s.take(1) =~= seq![s[0]]);
        lemma_count_single(s[0], '<');
        lemma_count_single(s[0], '>');
        lemma_balanced_skip(s, 1);
        assert(s.skip(1) =~= s.drop_first());
        lemma_balanced_skip_newlines(s.drop_first());
    }
}

/// A blank line, `\n\n`, starts at position `p` of `s`.
pub open spec fn blank_line_at(s: Seq<char>, p: int) -> bool {
    0 <= p && p + 1 < s.len() && s[p] == '\n' && s[p + 1] == '\n'
}

/// The blank line found before `end` is the last one there; none is found when there is
/// none.
pub proof fn lemma_last_blank_line_max(s: Seq<char>, end: int)
    requires
        end <= s.len(),
    ensures
        last_blank_line(s, end) matches Some(f) ==> forall|p: int|
            f < p && p + 2 <= end ==> !#[trigger] blank_line_at(s, p),
        last_blank_line(s, end) is None ==> forall|p: int|
            p + 2 <= end ==> !#[trigger] blank_line_at(s, p),
    decreases end,
{
    if end >= 2 && !(s[end - 2] == '\n' && s[end - 1] == '\n') {
        lemma_last_blank_line_max(s, end - 1);
        assert forall|p: int| p + 2 == end implies !#[trigger] blank_line_at(s, p) by {}
    }
}

pub proof fn lemma_last_blank_line_props(s: Seq<char>, end: int)
    ensures
        last_blank_line(s, end) matches Some(f) ==> 0 <= f && f + 2 <= end <= s.len() && s[f]
            == '\n' && s[f + 1] == '\n',
    decreases end,
{
    if end >= 2 && end <= s.len() && !(s[end - 2] == '\n' && s[end - 1] == '\n') {
        lemma_last_blank_line_props(s, end - 1);
    }
}

proof fn lemma_rfind_blank_props(s: Seq<char>, end: int)
    ensures
        rfind_blank_line_outside(s, end) matches Some(p) ==> 0 <= p && p + 2 <= s.len() && s[p]
            == '\n' && s[p + 1] == '\n' && outside_tag(s, p),
    decreases end,
{
    lemma_last_blank_line_props(s, end);
    lemma_last_blank_line_lt(s, end);
    match last_blank_line(s, end) {
        None => {},
        Some(f) => {
            if !outside_tag(s, f) && f > 0 {
                lemma_rfind_blank_props(s, f);
            }
        },
    }
}

proof fn lemma_rfind_char_props(s: Seq<char>, c: char, end: int)
    ensures
        rfind_char_outside(s, c, end) matches Some(q) ==> 0 <= q < s.len() && s[q] == c
            && outside_tag(s, q),
    decreases end,
{
    if end > 0 && end <= s.len() && !(s[end - 1] == c && outside_tag(s, end - 1)) {
        lemma_rfind_char_outside_bounds(s, c, end - 1);
        lemma_rfind_char_props(s, c, end - 1);
    }
}

/// Stepping over a character that is no bracket keeps a position outside every tag.
proof fn lemma_outside_step(s: Seq<char>, x: int)
    requires
        0 <= x < s.len(),
        outside_tag(s, x),
        s[x] != '<',
        s[x] != '>',
    ensures
        outside_tag(s, x + 1),
{
    assert(s.skip(x).take(1) =~= seq![s[x]]);
    lemma_count_single(s[x], '<');
    lemma_count_single(s[x], '>');
    lemma_count_take_split(s, x, 1, '<');
    lemma_count_take_split(s, x, 1, '>');
}

/// A split point other than 0 lies outside every tag.
proof fn lemma_split_point_clean(s: Seq<char>)
    ensures
        split_point(s) > 0 ==> outside_tag(s, split_point(s) as int),
{
    lemma_rfind_blank_props(s, s.len() as int);
    lemma_rfind_char_props(s, '\n', s.len() as int);
    lemma_rfind_char_props(s, ' ', s.len() as int);
    lemma_last_clean_bounds(s, s.len() as int);
    match rfind_blank_line_outside(s, s.len() as int) {
        Some(p) => {
            lemma_outside_step(s, p);
            lemma_outside_step(s, p + 1);
        },
        None => match rfind_char_outside(s, '\n', s.len() as int) {
            Some(q) => {
                lemma_outside_step(s, q);
            },
            None => match rfind_char_outside(s, ' ', s.len() as int) {
                Some(q) => {
                    lemma_outside_step(s, q);
                },
                None => {},
            },
        },
    }
}

proof fn lemma_fitting_split_clean(rem: Seq<char>, tags: Seq<(Seq<char>, Seq<char>)>, b: nat)
    requires
        rem.len() > 0,
    ensures
        fitting_split(rem, tags, b) == rem.len() || outside_tag(
            rem,
            fitting_split(rem, tags, b) as int,
        ),
    decreases b,
{
    let w = fit_chars(rem, b);
    lemma_fit_chars_le(rem, b);
    lemma_split_point_take_bounds(rem, w as int);
    lemma_first_clean_bounds(rem);
    let s = split_point(rem.take(w as int));
    lemma_split_point_clean(rem.take(w as int));
    if s != 0 {
        assert(rem.take(w as int).take(s as int) =~= rem.take(s as int));
        if !fits_with(rem, tags, s) {
            let content = utf8_len(rem.take(s as int));
            let excess = chunk_bytes(rem, tags, s) - TELEGRAM_MSG_LIMIT;
            let nb: nat = if content >= excess {
                (content - excess) as nat
            } else {
                0
            };
            if nb < b {
                lemma_fitting_split_clean(rem, tags, nb);
            }
        }
    }
}

/// Where the tags of `rem` are balanced, the chosen cut leaves as many `<` as `>` before it.
proof fn lemma_cut_even(rem: Seq<char>, tags: Seq<(Seq<char>, Seq<char>)>)
    requires
        rem.len() > 0,
        tags_balanced(rem),
    ensures
        even_brackets(rem.take(chosen_split(rem, tags) as int)),
{
    let p = utf8_len(opens(tags));
    let k = chosen_split(rem, tags);
    lemma_chosen_split_bounds(rem, tags);
    lemma_fitting_split_clean(
        rem,
        tags,
        if p < TELEGRAM_MSG_LIMIT {
            (TELEGRAM_MSG_LIMIT - p) as nat
        } else {
            0
        },
    );
    if k == rem.len() {
        assert(rem.take(k as int) =~= rem);
    } else {
        assert(count_char(rem.take(k as int), '<') <= count_char(rem.take(k as int), '>') + 1);
    }
}

proof fn lemma_chunks_even(rem: Seq<char>, tags: Seq<(Seq<char>, Seq<char>)>)
    requires
        tags_balanced(rem),
        entries_balanced(tags),
    ensures
        forall|i: int|
            0 <= i < chunks_from(rem, tags).len() ==> even_brackets(
                #[trigger] chunks_from(rem, tags)[i],
            ),
    decreases rem.len(),
{
    if rem.len() > 0 {
        let p = opens(tags);
        lemma_opens_closes_even(tags);
        if utf8_len(p) + utf8_len(rem) <= TELEGRAM_MSG_LIMIT {
            lemma_count_concat(p, rem, '<');
            lemma_count_concat(p, rem, '>');
        } else {
            let k = chosen_split(rem, tags);
            lemma_chosen_split_bounds(rem, tags);
            lemma_cut_even(rem, tags);
            lemma_skip_newlines_len(rem.skip(k as int));
            let body = rem.take(k as int);
            lemma_alternate_take(rem, k as int);
            lemma_scan_entries(tags, body, 0);
            let t = open_tags_after(tags, body);
            lemma_opens_closes_even(t);
            let first = p + body + closes(t);
            lemma_count_concat(p, body, '<');
            lemma_count_concat(p, body, '>');
            lemma_count_concat(p + body, closes(t), '<');
            lemma_count_concat(p + body, closes(t), '>');
            lemma_balanced_skip(rem, k as int);
            lemma_balanced_skip_newlines(rem.skip(k as int));
            let next = skip_newlines(rem.skip(k as int));
            lemma_chunks_even(next, t);
            let c = chunks_from(rem, tags);
            assert(c == seq![first] + chunks_from(next, t));
            assert forall|i: int| 0 <= i < c.len() implies even_brackets(#[trigger] c[i]) by {
                if i > 0 {
                    assert(c[i] == chunks_from(next, t)[i - 1]);
                }
            }
        }
    }
}

/// HTML whose tags are balanced is cut into chunks that each hold as many `<` as `>`:
/// no cut falls inside a tag, and the tags closed and reopened at each cut are whole.
pub proof fn lemma_chunks_keep_tags_whole(html: Seq<char>)
    requires
        tags_balanced(html),
    ensures
        forall|i: int|
            0 <= i < chunk_html_spec(html).len() ==> count_char(
                #[trigger] chunk_html_spec(html)[i],
                '<',
            ) == count_char(chunk_html_spec(html)[i], '>'),
{
    if utf8_len(html) > TELEGRAM_MSG_LIMIT {
        lemma_chunks_even(html, seq![]);
        assert forall|i: int| 0 <= i < chunk_html_spec(html).len() implies count_char(
            #[trigger] chunk_html_spec(html)[i],
            '<',
        ) == count_char(chunk_html_spec(html)[i], '>') by {
            assert(even_brackets(chunk_html_spec(html)[i]));
        }
    }
}

/// The chunks of a tag-free text, joined, give the text back but for newlines.
proof fn lemma_tag_free_chunks_keep_text(rem: Seq<char>)
    requires
        tag_free(rem),
    ensures
        strip_newlines(chunks_from(rem, seq![]).flatten()) == strip_newlines(rem),
    decreases rem.len(),
{
    let none: Seq<(Seq<char>, Seq<char>)> = seq![];
    let limit = TELEGRAM_MSG_LIMIT as nat;
    assert(opens(none) =~= Seq::<char>::empty());
    assert(closes(none) =~= Seq::<char>::empty());
    assert(utf8_len(Seq::<char>::empty()) == 0);
    if rem.len() == 0 {
        assert(chunks_from(rem, none).flatten() =~= Seq::<char>::empty());
        assert(rem =~= Seq::<char>::empty());
    } else if utf8_len(rem) <= limit {
        assert(Seq::<char>::empty() + rem =~= rem);
        lemma_flatten_prepend(rem, seq![]);
        assert(rem + Seq::<Seq<char>>::empty().flatten() =~= rem);
        assert(chunks_from(rem, none) =~= seq![rem] + Seq::<Seq<char>>::empty());
    } else {
        let k = chosen_split(rem, none);
        lemma_chosen_split_bounds(rem, none);
        lemma_scan_tag_free(none, rem.take(k as int), 0);
        assert(Seq::<char>::empty() + rem.take(k as int) + Seq::<char>::empty() =~= rem.take(
            k as int,
        ));
        let rest = skip_newlines(rem.skip(k as int));
        lemma_skip_newlines_suffix(rem.skip(k as int));
        lemma_skip_newlines_len(rem.skip(k as int));
        let j = choose|j: int| 0 <= j <= rem.skip(k as int).len() && #[trigger] rem.skip(
            k as int,
        ).skip(j) == rest;
        assert forall|q: int| 0 <= q < rest.len() implies rest[q] != '<' by {
            assert(rest[q] == rem[k + j + q]);
        }
        lemma_tag_free_chunks_keep_text(rest);
        let c = chunks_from(rem, none);
        assert(c == seq![rem.take(k as int)] + chunks_from(rest, none));
        lemma_flatten_prepend(rem.take(k as int), chunks_from(rest, none));
        lemma_strip_newlines_concat(rem.take(k as int), chunks_from(rest, none).flatten());
        lemma_strip_skip_newlines(rem.skip(k as int));
        lemma_strip_newlines_concat(rem.take(k as int), rem.skip(k as int));
        assert(rem.take(k as int) + rem.skip(k as int) =~= rem);
    }
}

/// Text without markup loses nothing when it is cut: the chunks joined give it back, but
/// for the newlines dropped at the cuts.
pub proof fn lemma_plain_text_chunks_keep_text(html: Seq<char>)
    requires
        tag_free(html),
    ensures
        strip_newlines(chunk_html_spec(html).flatten()) == strip_newlines(html),
{
    if utf8_len(html) > TELEGRAM_MSG_LIMIT {
        lemma_tag_free_chunks_keep_text(html);
    } else {
        lemma_flatten_prepend(html, seq![]);
        assert(html + Seq::<Seq<char>>::empty().flatten() =~= html);
        assert(seq![html] =~= seq![html] + Seq::<Seq<char>>::empty());
    }
}

/// Text without markup is cut into messages that each fit Telegram's 4096-byte limit.
pub proof fn lemma_plain_text_chunks_fit(html: Seq<char>)
    requires
        tag_free(html),
    ensures
        forall|i: int|
            0 <= i < chunk_html_spec(html).len() ==> utf8_len(#[trigger] chunk_html_spec(html)[i])
                <= TELEGRAM_MSG_LIMIT,
{
    lemma_tag_free_room(html);
    lemma_chunks_within_limit(html);
}

/// The texts of a list of strings.
pub open spec fn strings_view(v: Seq<String>) -> Seq<Seq<char>> {
    v.map_values(|s: String| s@)
}

fn opens_exec(tags: &Vec<OpenTag>) -> (r: Vec<char>)
    ensures
        r@ == opens(tags_view(tags@)),
{
    let mut out: Vec<char> = Vec::new();
    let mut i: usize = 0;
    while i < tags.len()
        invariant
            i <= tags@.len(),
            out@ == opens(tags_view(tags@).take(i as int)),
        decreases tags.len() - i,
    {
        let ghost before = out@;
        let mut j: usize = 0;
        let o = &tags[i].open_str;
        while j < o.len()
            invariant
                j <= o@.len(),
                out@ == before + o@.take(j as int),
            decreases o.len() - j,
        {
            out.push(o[j]);
            j = j + 1;
            assert(out@ =~= before + o@.take(j as int));
        }
        assert(tags_view(tags@).take(i + 1).drop_last() =~= tags_view(tags@).take(i as int));
        assert(o@.take(o@.len() as int) =~= o@);
        i = i + 1;
    }
    assert(tags_view(tags@).take(tags@.len() as int) =~= tags_view(tags@));
    out
}

fn closes_exec(tags: &Vec<OpenTag>) -> (r: Vec<char>)
    ensures
        r@ == closes(tags_view(tags@)),
{
    let mut out: Vec<char> = Vec::new();
    let mut i: usize = tags.len();
    assert(tags_view(tags@).take(i as int) =~= tags_view(tags@));
    while i > 0
        invariant
            i <= tags@.len(),
            out@ + closes(tags_view(tags@).take(i as int)) == closes(tags_view(tags@)),
        decreases i,
    {
        let ghost before = out@;
        let c = &tags[i - 1].close_str;
        let mut j: usize = 0;
        while j < c.len()
            invariant
                j <= c@.len(),
                out@ == before + c@.take(j as int),
            decreases c.len() - j,
        {
            out.push(c[j]);
            j = j + 1;
            assert(out@ =~= before + c@.take(j as int));
        }
        assert(c@.take(c@.len() as int) =~= c@);
        let ghost tk = tags_view(tags@).take(i as int);
        assert(tk.drop_last() =~= tags_view(tags@).take(i - 1));
        assert(out@ + closes(tk.drop_last()) =~= before + closes(tk));
        i = i - 1;
    }
    assert(closes(tags_view(tags@).take(0)) =~= Seq::<char>::empty());
    assert(out@ + Seq::<char>::empty() =~= out@);
    out
}

fn copy_tags(tags: &Vec<OpenTag>) -> (r: Vec<OpenTag>)
    ensures
        tags_view(r@) == tags_view(tags@),
{
    let mut out: Vec<OpenTag> = Vec::new();
    let mut i: usize = 0;
    while i < tags.len()
        invariant
            i <= tags@.len(),
            tags_view(out@) == tags_view(tags@).take(i as int),
        decreases tags.len() - i,
    {
        let o = &tags[i].open_str;
        let c = &tags[i].close_str;
        let t = OpenTag {
            open_str: slice_range(o.as_slice(), 0, o.len()),
            close_str: slice_range(c.as_slice(), 0, c.len()),
        };
        assert(o@.subrange(0, o@.len() as int) =~= o@);
        assert(c@.subrange(0, c@.len() as int) =~= c@);
        assert(tag_view(t) == tag_view(tags@[i as int]));
        let ghost before = out@;
        out.push(t);
        assert(tags_view(out@) =~= tags_view(before).push(tag_view(t)));
        assert(tags_view(tags@).take(i + 1) =~= tags_view(tags@).take(i as int).push(
            tag_view(tags@[i as int]),
        ));
        i = i + 1;
    }
    assert(tags_view(tags@).take(tags@.len() as int) =~= tags_view(tags@));
    out
}

pub proof fn lemma_skip_newlines_skip(s: Seq<char>, i: int, j: int)
    requires
        0 <= i <= j <= s.len(),
        forall|k: int| i <= k < j ==> #[trigger] s[k] == '\n',
        j == s.len() || s[j] != '\n',
    ensures
        skip_newlines(s.skip(i)) == s.skip(j),
    decreases j - i,
{
    if i < j {
        assert(s.skip(i).drop_first() =~= s.skip(i + 1));
        lemma_skip_newlines_skip(s, i + 1, j);
    }
}

fn append_chars(out: &mut Vec<char>, src: &Vec<char>)
    ensures
        final(out)@ == old(out)@ + src@,
{
    let mut j: usize = 0;
    while j < src.len()
        invariant
            j <= src@.len(),
            out@ == old(out)@ + src@.take(j as int),
        decreases src.len() - j,
    {
        out.push(src[j]);
        j = j + 1;
        assert(out@ =~= old(out)@ + src@.take(j as int));
    }
    assert(src@.take(src@.len() as int) =~= src@);
}

/// The shortest whole piece of `v[start..]` (see [`first_clean`]).
fn first_clean_exec(v: &[char], start: usize) -> (r: usize)
    requires
        start < v@.len(),
    ensures
        r == first_clean(v@.skip(start as int)),
{
    let rest = slice_range(v, start, v.len());
    assert(rest@ =~= v@.skip(start as int));
    let table = outside_tag_table(rest.as_slice());
    let mut k: usize = 1;
    while k < rest.len() && !table[k]
        invariant
            1 <= k <= rest@.len(),
            table@.len() == rest@.len() + 1,
            forall|i: int| 0 <= i <= rest@.len() ==> #[trigger] table@[i] == outside_tag(rest@, i),
            first_clean(rest@) == first_clean_from(rest@, k as int),
        decreases rest.len() - k,
    {
        k = k + 1;
    }
    k
}

/// The bytes of the chunk that takes `k` characters of `v[start..]` (see
/// [`chunk_bytes`]), and the bytes of those characters alone.
fn chunk_bytes_exec(v: &[char], start: usize, tags: &Vec<OpenTag>, p: u128, k: usize) -> (r: (
    u128,
    u128,
))
    requires
        start + k <= v@.len(),
        p == utf8_len(opens(tags_view(tags@))),
        p <= 4 * usize::MAX,
    ensures
        r.0 == chunk_bytes(v@.skip(start as int), tags_view(tags@), k as nat),
        r.1 == utf8_len(v@.skip(start as int).take(k as int)),
{
    let ghost rem = v@.skip(start as int);
    let _n = v.len();
    let content = slice_range(v, start, start + k);
    assert(content@ =~= rem.take(k as int));
    let mut t = copy_tags(tags);
    update_open_tags(&mut t, content.as_slice());
    let closing = closes_exec(&t);
    let c = utf8_len_range(content.as_slice(), 0, content.len());
    let z = utf8_len_range(closing.as_slice(), 0, closing.len());
    assert(content@.subrange(0, content@.len() as int) =~= content@);
    assert(closing@.subrange(0, closing@.len() as int) =~= closing@);
    (p + c + z, c)
}

/// The split for the text `v[start..]` when `tags` are open (see [`chosen_split`]).
fn choose_split(v: &[char], start: usize, tags: &Vec<OpenTag>, p: u128) -> (r: usize)
    requires
        start < v@.len(),
        p == utf8_len(opens(tags_view(tags@))),
        p <= 4 * usize::MAX,
    ensures
        r == chosen_split(v@.skip(start as int), tags_view(tags@)),
        1 <= r <= v@.len() - start,
{
    let ghost rem = v@.skip(start as int);
    let ghost tv = tags_view(tags@);
    let limit = TELEGRAM_MSG_LIMIT as u128;
    let mut b: u128 = if p < limit {
        limit - p
    } else {
        0
    };
    proof {
        lemma_chosen_split_bounds(rem, tv);
    }
    loop
        invariant
            start < v@.len(),
            rem == v@.skip(start as int),
            tv == tags_view(tags@),
            p == utf8_len(opens(tv)),
            p <= 4 * usize::MAX,
            limit == TELEGRAM_MSG_LIMIT,
            fitting_split(rem, tv, b as nat) == chosen_split(rem, tv),
            1 <= chosen_split(rem, tv) <= rem.len(),
        decreases b,
    {
        let w = fit_prefix(v, start, b);
        let _n = v.len();
        let piece = slice_range(v, start, start + w);
        assert(piece@ =~= rem.take(w as int));
        let s = find_split_point(piece.as_slice());
        proof {
            lemma_split_point_take_bounds(rem, w as int);
        }
        if s == 0 {
            return first_clean_exec(v, start);
        }
        let (total, content) = chunk_bytes_exec(v, start, tags, p, s);
        if total <= limit {
            return s;
        }
        let excess = total - limit;
        let nb: u128 = if content >= excess {
            content - excess
        } else {
            0
        };
        if nb < b {
            b = nb;
        } else {
            return first_clean_exec(v, start);
        }
    }
}

/// Split an HTML string into chunks of at most 4096 bytes with balanced tags.
///
/// Tags are closed at each split point and reopened in the next chunk so that Telegram
/// always receives well-formed HTML.
pub fn chunk_html(html: &str) -> (r: Vec<String>)
    ensures
        strings_view(r@) == chunk_html_spec(html@),
{
    let v = to_chars(html);
    let n = v.len();
    let total = utf8_len_range(v.as_slice(), 0, n);
    assert(v@.subrange(0, n as int) =~= v@);
    if total <= TELEGRAM_MSG_LIMIT as u128 {
        let mut one: Vec<String> = Vec::new();
        one.push(from_chars(v.as_slice()));
        assert(strings_view(one@) =~= seq![html@]);
        return one;
    }
    let mut chunks: Vec<String> = Vec::new();
    let mut tags: Vec<OpenTag> = Vec::new();
    let mut start: usize = 0;
    assert(v@.skip(0) =~= v@);
    assert(tags_view(tags@) =~= Seq::<(Seq<char>, Seq<char>)>::empty());
    while start < n
        invariant
            start <= n == v@.len(),
            v@ == html@,
            utf8_len(html@) > TELEGRAM_MSG_LIMIT,
            strings_view(chunks@) + chunks_from(v@.skip(start as int), tags_view(tags@))
                == chunk_html_spec(html@),
        decreases n - start,
    {
        let ghost rem = v@.skip(start as int);
        let ghost tv = tags_view(tags@);
        let ghost before = strings_view(chunks@);
        let prefix = opens_exec(&tags);
        let p = utf8_len_range(prefix.as_slice(), 0, prefix.len());
        let r = utf8_len_range(v.as_slice(), start, n);
        assert(prefix@.subrange(0, prefix@.len() as int) =~= prefix@);
        assert(v@.subrange(start as int, n as int) =~= rem);
        if p + r <= TELEGRAM_MSG_LIMIT as u128 {
            let mut c = prefix;
            let rest = slice_range(v.as_slice(), start, n);
            append_chars(&mut c, &rest);
            chunks.push(from_chars(c.as_slice()));
            assert(strings_view(chunks@) =~= before + seq![opens(tv) + rem]);
            assert(v@.skip(n as int) =~= Seq::<char>::empty());
            start = n;
        } else {
            let k = choose_split(v.as_slice(), start, &tags, p);
            let content = slice_range(v.as_slice(), start, start + k);
            assert(content@ =~= rem.take(k as int));
            update_open_tags(&mut tags, content.as_slice());
            let closing = closes_exec(&tags);
            let mut c = prefix;
            append_chars(&mut c, &content);
            append_chars(&mut c, &closing);
            chunks.push(from_chars(c.as_slice()));
            assert(strings_view(chunks@) =~= before + seq![
                opens(tv) + rem.take(k as int) + closes(tags_view(tags@)),
            ]);
            let mut next = start + k;
            while next < n && v[next] == '\n'
                invariant
                    start + k <= next <= n == v@.len(),
                    forall|j: int| start + k <= j < next ==> #[trigger] v@[j] == '\n',
                decreases n - next,
            {
                next = next + 1;
            }
            proof {
                lemma_skip_newlines_skip(v@, start + k, next as int);
                assert(rem.skip(k as int) =~= v@.skip(start + k));
            }
            start = next;
        }
    }
    assert(chunks_from(v@.skip(n as int), tags_view(tags@)) =~= Seq::<Seq<char>>::empty());
    assert(strings_view(chunks@) + Seq::<Seq<char>>::empty() =~= strings_view(chunks@));
    chunks
}

} // verus!
