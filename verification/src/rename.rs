//! Applying the text edits of a semantic rename and previewing them as a
//! unified diff.
use vstd::prelude::*;
use crate::lsp::{lemma_utf16_size_bound, utf16_offset_spec};
use crate::model::{display_path, display_spec, PositionRecord, RangeRecord};
use crate::paths::{compare_paths, path_order};
use crate::text::{
    char_utf16_len, char_utf8_len, chars_of, debug_quote, debug_quoted, decimal, decimal_chars,
    extend, lemma_utf8_size_prefix, push_str, slice_copy, string_of, strip_cr, utf16_len, utf16_size,
    utf8_size,
};

verus! {

/// One text edit of a rename.
#[derive(Clone, Debug)]
pub struct RenameEditRecord {
    pub file: String,
    pub range: RangeRecord,
    pub new_text: String,
}

// ---------------------------------------------------------------------------
// Positions in text
// ---------------------------------------------------------------------------

/// The first index at or after `i` where `s` holds `c`.
pub open spec fn find_from(s: Seq<char>, c: char, i: int) -> Option<int>
    decreases s.len() - i,
{
    if i < 0 || i >= s.len() {
        None
    } else if s[i] == c {
        Some(i)
    } else {
        find_from(s, c, i + 1)
    }
}

/// The index where 0-based line `k` of `s` starts, if `s` has that line.
pub open spec fn line_start(s: Seq<char>, k: nat) -> Option<int>
    decreases k,
{
    if k == 0 {
        Some(0)
    } else {
        match line_start(s, (k - 1) as nat) {
            Some(st) => match find_from(s, '\n', st) {
                Some(p) => Some(p + 1),
                None => None,
            },
            None => None,
        }
    }
}

/// The number of characters of `l` that take `t` UTF-16 code units: the
/// `k` whose first `k` characters take exactly `t` units. Where there is
/// none, `t` is past the end of the line or falls inside a character.
pub open spec fn col_scan(l: Seq<char>, t: nat) -> Result<nat, Seq<char>> {
    if exists|k: nat| k <= l.len() && #[trigger] utf16_size(l.take(k as int)) == t {
        Ok(choose|k: nat| k <= l.len() && #[trigger] utf16_size(l.take(k as int)) == t)
    } else if t > utf16_size(l) {
        Err("rename edit column is out of range"@)
    } else {
        Err("rename edit column splits a UTF-16 character"@)
    }
}

/// The same count, character by character from the start of the line.
spec fn col_steps(l: Seq<char>, t: nat) -> Result<nat, Seq<char>>
    decreases l.len(),
{
    if t == 0 {
        Ok(0)
    } else if l.len() == 0 {
        Err("rename edit column is out of range"@)
    } else if utf16_len(l[0]) > t {
        Err("rename edit column splits a UTF-16 character"@)
    } else {
        match col_steps(l.drop_first(), (t - utf16_len(l[0])) as nat) {
            Ok(k) => Ok(k + 1),
            Err(e) => Err(e),
        }
    }
}

proof fn lemma_utf16_size_cons(c: char, t: Seq<char>)
    ensures
        utf16_size(seq![c] + t) == utf16_len(c) + utf16_size(t),
    decreases t.len(),
{
    let s = seq![c] + t;
    if t.len() > 0 {
        lemma_utf16_size_cons(c, t.drop_last());
        assert(s.drop_last() =~= seq![c] + t.drop_last());
        assert(s.last() == t.last());
        assert(utf16_size(s) == utf16_size(s.drop_last()) + utf16_len(s.last()));
        assert(utf16_size(t) == utf16_size(t.drop_last()) + utf16_len(t.last()));
    } else {
        assert(s.drop_last() =~= Seq::<char>::empty());
        assert(s.last() == c);
        assert(utf16_size(s) == utf16_size(s.drop_last()) + utf16_len(s.last()));
    }
}

/// The UTF-16 size of the first `k` characters of a nonempty line: the
/// first character's and that of the next `k - 1`.
proof fn lemma_utf16_prefix_cons(l: Seq<char>, k: int)
    requires
        1 <= k <= l.len(),
    ensures
        utf16_size(l.take(k)) == utf16_len(l[0]) + utf16_size(l.drop_first().take(k - 1)),
{
    assert(l.take(k) =~= seq![l[0]] + l.drop_first().take(k - 1));
    lemma_utf16_size_cons(l[0], l.drop_first().take(k - 1));
}

/// Longer prefixes take more UTF-16 units.
proof fn lemma_utf16_prefix_grows(l: Seq<char>, i: int, j: int)
    requires
        0 <= i < j <= l.len(),
    ensures
        utf16_size(l.take(i)) < utf16_size(l.take(j)),
    decreases j - i,
{
    assert(l.take(j).drop_last() =~= l.take(j - 1));
    if i < j - 1 {
        lemma_utf16_prefix_grows(l, i, j - 1);
    }
}

proof fn lemma_utf16_whole(l: Seq<char>)
    ensures
        l.take(l.len() as int) == l,
{
    assert(l.take(l.len() as int) =~= l);
}

/// Counting character by character finds the same count.
proof fn lemma_col_steps(l: Seq<char>, t: nat)
    ensures
        col_steps(l, t) == col_scan(l, t),
    decreases l.len(),
{
    lemma_utf16_whole(l);
    assert(l.take(0) =~= Seq::<char>::empty());
    if t == 0 {
        assert(utf16_size(l.take(0nat as int)) == 0);
        let k = choose|k: nat| k <= l.len() && #[trigger] utf16_size(l.take(k as int)) == t;
        if k > 0 {
            lemma_utf16_prefix_grows(l, 0, k as int);
        }
    } else if l.len() == 0 {
        assert forall|k: nat| k <= l.len() implies #[trigger] utf16_size(l.take(k as int)) != t by {
            assert(l.take(k as int) =~= Seq::<char>::empty());
        }
    } else {
        let r = l.drop_first();
        let u = utf16_len(l[0]);
        lemma_utf16_prefix_cons(l, l.len() as int);
        lemma_utf16_whole(r);
        assert(l.take(l.len() as int) == l);
        assert(r.take(r.len() as int) == r);
        if u > t {
            assert forall|k: nat| k <= l.len() implies #[trigger] utf16_size(l.take(k as int)) != t by {
                if k > 0 {
                    lemma_utf16_prefix_cons(l, k as int);
                }
            }
        } else {
            let t2 = (t - u) as nat;
            lemma_col_steps(r, t2);
            if exists|k: nat| k <= r.len() && #[trigger] utf16_size(r.take(k as int)) == t2 {
                let k = choose|k: nat| k <= r.len() && #[trigger] utf16_size(r.take(k as int)) == t2;
                lemma_utf16_prefix_cons(l, (k + 1) as int);
                assert(utf16_size(l.take((k + 1) as int)) == t);
                let k1 = choose|k1: nat| k1 <= l.len() && #[trigger] utf16_size(l.take(k1 as int)) == t;
                if k1 != k + 1 {
                    if k1 < k + 1 {
                        lemma_utf16_prefix_grows(l, k1 as int, (k + 1) as int);
                    } else {
                        lemma_utf16_prefix_grows(l, (k + 1) as int, k1 as int);
                    }
                }
            } else {
                assert forall|k: nat| k <= l.len() implies #[trigger] utf16_size(l.take(k as int)) != t by {
                    if k > 0 {
                        lemma_utf16_prefix_cons(l, k as int);
                        assert(utf16_size(r.take((k - 1) as int)) != t2);
                    }
                }
            }
        }
    }
}

/// `r` with `m` added to its count.
pub open spec fn shift(r: Result<nat, Seq<char>>, m: nat) -> Result<nat, Seq<char>> {
    match r {
        Ok(k) => Ok(k + m),
        Err(e) => Err(e),
    }
}

/// The character index of a 1-based line and UTF-16 column in `s`; a line's
/// columns do not count a carriage return before its line feed.
pub open spec fn position_index(s: Seq<char>, p: PositionRecord) -> Result<int, Seq<char>> {
    if p.line == 0 || p.column == 0 {
        Err("rename edit positions must be 1-based"@)
    } else {
        match line_start(s, (p.line - 1) as nat) {
            None => Err("rename edit line is out of range"@),
            Some(st) => {
                let end = match find_from(s, '\n', st) {
                    Some(q) => q,
                    None => s.len() as int,
                };
                match col_scan(strip_cr(s.subrange(st, end)), (p.column - 1) as nat) {
                    Ok(k) => Ok(st + k),
                    Err(e) => Err(e),
                }
            },
        }
    }
}

/// The byte offset in the UTF-8 text `s` of a 1-based line and UTF-16 column.
pub open spec fn byte_offset_spec(s: Seq<char>, p: PositionRecord) -> Result<nat, Seq<char>> {
    match position_index(s, p) {
        Ok(i) => Ok(utf8_size(s.take(i))),
        Err(e) => Err(e),
    }
}

/// On a line without line breaks, converting a 1-based character column to
/// a UTF-16 offset and reading that offset back as a 1-based UTF-16 column
/// lands on the byte where the column's character starts, or on the end of
/// the line for the column just past it.
pub proof fn lemma_column_round_trip(text: Seq<char>, column: nat)
    requires
        !text.contains('\n'),
        !text.contains('\r'),
        1 <= column <= text.len() + 1,
        2 * text.len() < usize::MAX,
    ensures
        utf16_offset_spec(text, column) matches Ok(u) && byte_offset_spec(
            text,
            PositionRecord { line: 1, column: (u + 1) as usize },
        ) == Ok::<nat, Seq<char>>(utf8_size(text.take(column - 1))),
{
    let k = (column - 1) as int;
    let u = utf16_size(text.take(k));
    lemma_utf16_size_bound(text.take(k));
    let p = PositionRecord { line: 1, column: (u + 1) as usize };
    assert(line_start(text, 0) == Some(0int));
    lemma_find_from_bounds(text, '\n', 0);
    if find_from(text, '\n', 0) is Some {
        let q = find_from(text, '\n', 0)->0;
        assert(text.contains(text[q]));
    }
    assert(text.subrange(0, text.len() as int) =~= text);
    if text.len() > 0 {
        assert(text.contains(text.last()));
    }
    assert(strip_cr(text.subrange(0, text.len() as int)) == text);
    assert(utf16_size(text.take(k as nat as int)) == u);
    let k2 = choose|k2: nat| k2 <= text.len() && #[trigger] utf16_size(text.take(k2 as int)) == u;
    if k2 != k {
        if k2 < k {
            lemma_utf16_prefix_grows(text, k2 as int, k);
        } else {
            lemma_utf16_prefix_grows(text, k, k2 as int);
        }
    }
    assert(col_scan(text, u) == Ok::<nat, Seq<char>>(k as nat));
    assert(position_index(text, p) == Ok::<int, Seq<char>>(k));
}

fn find_newline(s: &[char], i: usize) -> (r: Option<usize>)
    ensures
        match r {
            Some(p) => find_from(s@, '\n', i as int) == Some(p as int),
            None => find_from(s@, '\n', i as int) is None,
        },
{
    let mut j = i;
    while j < s.len()
        invariant
            i <= j,
            find_from(s@, '\n', i as int) == find_from(s@, '\n', j as int),
        decreases s.len() - j,
    {
        if s[j] == '\n' {
            return Some(j);
        }
        j += 1;
    }
    None
}

proof fn lemma_find_from_bounds(s: Seq<char>, c: char, i: int)
    ensures
        find_from(s, c, i) matches Some(p) ==> i <= p < s.len() && s[p] == c,
    decreases s.len() - i,
{
    if 0 <= i < s.len() && s[i] != c {
        lemma_find_from_bounds(s, c, i + 1);
    }
}

proof fn lemma_line_start_bounds(s: Seq<char>, k: nat)
    ensures
        line_start(s, k) matches Some(st) ==> 0 <= st <= s.len(),
    decreases k,
{
    if k > 0 {
        lemma_line_start_bounds(s, (k - 1) as nat);
        if let Some(st) = line_start(s, (k - 1) as nat) {
            lemma_find_from_bounds(s, '\n', st);
        }
    }
}

/// The character index of a position.
fn position_to_char_index(s: &[char], position: &PositionRecord) -> (r: Result<usize, String>)
    ensures
        match r {
            Ok(i) => position_index(s@, *position) == Ok::<int, Seq<char>>(i as int) && i
                <= s.len(),
            Err(e) => position_index(s@, *position) == Err::<int, Seq<char>>(e@),
        },
{
    if position.line == 0 || position.column == 0 {
        return Err("rename edit positions must be 1-based".to_owned());
    }
    let mut start: usize = 0;
    let mut k: usize = 1;
    while k < position.line
        invariant
            1 <= k <= position.line,
            position.column > 0,
            line_start(s@, (k - 1) as nat) == Some(start as int),
            start <= s.len(),
        decreases position.line - k,
    {
        match find_newline(s, start) {
            None => {
                assert(line_start(s@, k as nat) is None);
                proof {
                    lemma_line_start_none(s@, k as nat, (position.line - 1) as nat);
                }
                assert(position_index(s@, *position) == Err::<int, Seq<char>>(
                    "rename edit line is out of range"@,
                ));
                return Err("rename edit line is out of range".to_owned());
            },
            Some(p) => {
                proof {
                    lemma_find_from_bounds(s@, '\n', start as int);
                }
                start = p + 1;
            },
        }
        k += 1;
    }
    let end = match find_newline(s, start) {
        Some(p) => p,
        None => s.len(),
    };
    proof {
        lemma_find_from_bounds(s@, '\n', start as int);
    }
    let mut line_end = end;
    if line_end > start && s[line_end - 1] == '\r' {
        line_end -= 1;
    }
    let ghost l = strip_cr(s@.subrange(start as int, end as int));
    assert(l == s@.subrange(start as int, line_end as int));
    let target = position.column - 1;
    let mut units: usize = 0;
    let mut i = start;
    assert(l.skip(0) == l);
    assert(col_steps(l, target as nat) == shift(col_steps(l.skip(0), target as nat), 0));
    proof {
        lemma_col_steps(l, target as nat);
    }
    while i < line_end
        invariant
            start <= i <= line_end <= s.len(),
            l == s@.subrange(start as int, line_end as int),
            position.line > 0 && position.column > 0,
            target == position.column - 1,
            line_start(s@, (position.line - 1) as nat) == Some(start as int),
            l == strip_cr(
                s@.subrange(
                    start as int,
                    match find_from(s@, '\n', start as int) {
                        Some(q) => q,
                        None => s@.len() as int,
                    },
                ),
            ),
            units <= target,
            col_scan(l, target as nat) == col_steps(l, target as nat),
            col_steps(l, target as nat) == shift(
                col_steps(l.skip(i - start), (target - units) as nat),
                (i - start) as nat,
            ),
        decreases line_end - i,
    {
        let ghost rest = l.skip(i - start);
        assert(rest[0] == s@[i as int]);
        assert(rest.drop_first() == l.skip(i - start + 1));
        if units == target {
            return Ok(i);
        }
        let w = char_utf16_len(s[i]);
        if w > target - units {
            return Err("rename edit column splits a UTF-16 character".to_owned());
        }
        units = units + w;
        i += 1;
    }
    assert(l.skip(i - start).len() == 0);
    if units == target {
        Ok(line_end)
    } else {
        Err("rename edit column is out of range".to_owned())
    }
}

proof fn lemma_line_start_none(s: Seq<char>, k: nat, m: nat)
    requires
        line_start(s, k) is None,
        k <= m,
    ensures
        line_start(s, m) is None,
    decreases m - k,
{
    if k < m {
        lemma_line_start_none(s, k, (m - 1) as nat);
    }
}

/// The UTF-8 size of the first `i` characters of `s`.
fn byte_size_prefix(s: &[char], i: usize) -> (r: usize)
    requires
        i <= s.len(),
        utf8_size(s@) <= isize::MAX,
    ensures
        r == utf8_size(s@.take(i as int)),
{
    let mut n: usize = 0;
    let mut k: usize = 0;
    while k < i
        invariant
            k <= i <= s.len(),
            utf8_size(s@) <= isize::MAX,
            n == utf8_size(s@.take(k as int)),
        decreases i - k,
    {
        proof {
            lemma_utf8_size_prefix(s@, k + 1);
            assert(s@.take(k + 1).drop_last() == s@.take(k as int));
        }
        n = n + char_utf8_len(s[k]);
        k += 1;
    }
    n
}

/// The byte offset of a 1-based line and UTF-16 column in `text`.
pub fn position_to_byte_offset(text: &str, position: &PositionRecord) -> (r: Result<usize, String>)
    ensures
        match r {
            Ok(n) => byte_offset_spec(text@, *position) == Ok::<nat, Seq<char>>(n as nat),
            Err(e) => byte_offset_spec(text@, *position) == Err::<nat, Seq<char>>(e@),
        },
{
    let s = chars_of(text);
    match position_to_char_index(s.as_slice(), position) {
        Ok(i) => Ok(byte_size_prefix(s.as_slice(), i)),
        Err(e) => Err(e),
    }
}

// ---------------------------------------------------------------------------
// Applying edits
// ---------------------------------------------------------------------------

/// A checked edit: the character span it replaces and the new text.
pub struct Span {
    pub start: usize,
    pub end: usize,
    pub text: Vec<char>,
}

pub open spec fn span_view(x: Span) -> (int, int, Seq<char>) {
    (x.start as int, x.end as int, x.text@)
}

pub open spec fn spans_view(v: Seq<Span>) -> Seq<(int, int, Seq<char>)> {
    v.map_values(|x: Span| span_view(x))
}

/// The span of one edit in `s`, checked: its ends must be valid positions,
/// in order, and the text between them must be the old name.
pub open spec fn edit_span(
    s: Seq<char>,
    old: Seq<char>,
    file: Seq<char>,
    e: RenameEditRecord,
) -> Result<(int, int), Seq<char>> {
    match position_index(s, e.range.start) {
        Err(x) => Err(x),
        Ok(a) => match position_index(s, e.range.end) {
            Err(x) => Err(x),
            Ok(b) => if a > b {
                Err("rename edit has an inverted range in "@ + file)
            } else if s.subrange(a, b) != old {
                Err(
                    "rename edit is stale in "@ + file + ":"@ + decimal(
                        e.range.start.line as nat,
                    ) + ":"@ + decimal(e.range.start.column as nat) + ": expected "@
                        + debug_quoted(old) + ", found "@ + debug_quoted(s.subrange(a, b)),
                )
            } else {
                Ok((a, b))
            },
        },
    }
}

/// The checked spans of all edits in order, or the first edit's error.
pub open spec fn spans_spec(
    s: Seq<char>,
    old: Seq<char>,
    file: Seq<char>,
    edits: Seq<&RenameEditRecord>,
) -> Result<Seq<(int, int, Seq<char>)>, Seq<char>>
    decreases edits.len(),
{
    if edits.len() == 0 {
        Ok(Seq::empty())
    } else {
        match spans_spec(s, old, file, edits.drop_last()) {
            Err(e) => Err(e),
            Ok(rs) => match edit_span(s, old, file, *edits.last()) {
                Err(e) => Err(e),
                Ok((a, b)) => Ok(rs.push((a, b, edits.last().new_text@))),
            },
        }
    }
}

/// `x` inserted into spans sorted by descending start, after those that do
/// not start before it.
pub open spec fn insert_desc(sorted: Seq<(int, int, Seq<char>)>, x: (int, int, Seq<char>)) -> Seq<
    (int, int, Seq<char>),
>
    decreases sorted.len(),
{
    if sorted.len() == 0 {
        seq![x]
    } else if sorted.last().0 >= x.0 {
        sorted.push(x)
    } else {
        insert_desc(sorted.drop_last(), x).push(sorted.last())
    }
}

/// Spans sorted by descending start, stably.
pub open spec fn sort_desc(s: Seq<(int, int, Seq<char>)>) -> Seq<(int, int, Seq<char>)>
    decreases s.len(),
{
    if s.len() == 0 {
        Seq::empty()
    } else {
        insert_desc(sort_desc(s.drop_last()), s.last())
    }
}

/// Whether spans, listed from the last in the text to the first, each end
/// no later than the start of the span listed before them, the first no
/// later than `end`: no two overlap.
pub open spec fn spans_fit(rs: Seq<(int, int, Seq<char>)>, end: int) -> bool {
    forall|i: int|
        0 <= i < rs.len() ==> (#[trigger] rs[i]).1 <= if i == 0 {
            end
        } else {
            rs[i - 1].0
        }
}

/// `s` with each span of `rs` replaced by its new text, the spans listed
/// from the last in the text to the first.
pub open spec fn spliced(s: Seq<char>, rs: Seq<(int, int, Seq<char>)>) -> Seq<char>
    decreases rs.len(),
{
    if rs.len() == 0 {
        s
    } else {
        spliced(
            s.subrange(0, rs[0].0) + rs[0].2 + s.subrange(rs[0].1, s.len() as int),
            rs.drop_first(),
        )
    }
}

/// The text with the spans replaced, where no two of them overlap.
pub open spec fn apply_spans(s: Seq<char>, rs: Seq<(int, int, Seq<char>)>, file: Seq<char>) -> Result<
    Seq<char>,
    Seq<char>,
> {
    if spans_fit(rs, s.len() as int) {
        Ok(spliced(s, rs))
    } else {
        Err("rename edits overlap in "@ + file)
    }
}

/// The same replacement, span by span, stopping at the first that reaches
/// past the start of the one replaced before it.
spec fn splice_steps(
    s: Seq<char>,
    rs: Seq<(int, int, Seq<char>)>,
    prev: int,
    file: Seq<char>,
) -> Result<Seq<char>, Seq<char>>
    decreases rs.len(),
{
    if rs.len() == 0 {
        Ok(s)
    } else if rs[0].1 > prev {
        Err("rename edits overlap in "@ + file)
    } else {
        splice_steps(
            s.subrange(0, rs[0].0) + rs[0].2 + s.subrange(rs[0].1, s.len() as int),
            rs.drop_first(),
            rs[0].0,
            file,
        )
    }
}

/// Replacing span by span is replacing all spans where they fit.
proof fn lemma_splice_steps(s: Seq<char>, rs: Seq<(int, int, Seq<char>)>, prev: int, file: Seq<char>)
    ensures
        splice_steps(s, rs, prev, file) == if spans_fit(rs, prev) {
            Ok::<Seq<char>, Seq<char>>(spliced(s, rs))
        } else {
            Err::<Seq<char>, Seq<char>>("rename edits overlap in "@ + file)
        },
    decreases rs.len(),
{
    if rs.len() > 0 {
        let t = rs.drop_first();
        let s2 = s.subrange(0, rs[0].0) + rs[0].2 + s.subrange(rs[0].1, s.len() as int);
        lemma_splice_steps(s2, t, rs[0].0, file);
        if rs[0].1 <= prev {
            assert(spans_fit(rs, prev) == spans_fit(t, rs[0].0)) by {
                if spans_fit(t, rs[0].0) {
                    assert forall|i: int| 0 <= i < rs.len() implies (#[trigger] rs[i]).1 <= if i
                        == 0 {
                        prev
                    } else {
                        rs[i - 1].0
                    } by {
                        if i > 0 {
                            assert(t[i - 1] == rs[i]);
                            if i > 1 {
                                assert(t[i - 2] == rs[i - 1]);
                            }
                        }
                    }
                }
                if spans_fit(rs, prev) {
                    assert forall|i: int| 0 <= i < t.len() implies (#[trigger] t[i]).1 <= if i
                        == 0 {
                        rs[0].0
                    } else {
                        t[i - 1].0
                    } by {
                        assert(t[i] == rs[i + 1]);
                        assert(rs[i + 1].1 <= rs[i].0);
                    }
                }
            }
        } else {
            assert(!spans_fit(rs, prev)) by {
                assert(rs[0].1 > prev);
            }
        }
    }
}

/// The text after a rename's edits of one file, or why they do not apply.
pub open spec fn apply_edits_spec(
    s: Seq<char>,
    old: Seq<char>,
    file: Seq<char>,
    edits: Seq<&RenameEditRecord>,
) -> Result<Seq<char>, Seq<char>> {
    match spans_spec(s, old, file, edits) {
        Err(e) => Err(e),
        Ok(rs) => apply_spans(s, sort_desc(rs), file),
    }
}

proof fn lemma_insert_desc_at(sorted: Seq<(int, int, Seq<char>)>, x: (int, int, Seq<char>), j: int)
    requires
        0 <= j <= sorted.len(),
        j == 0 || sorted[j - 1].0 >= x.0,
        forall|k: int| j <= k < sorted.len() ==> (#[trigger] sorted[k]).0 < x.0,
    ensures
        insert_desc(sorted, x) == sorted.take(j).push(x) + sorted.skip(j),
    decreases sorted.len() - j,
{
    if sorted.len() == j {
        assert(sorted.take(j) == sorted);
        if j > 0 {
            assert(sorted.last() == sorted[j - 1]);
        }
        assert(sorted.take(j).push(x) + sorted.skip(j) =~= sorted.push(x));
    } else {
        let d = sorted.drop_last();
        assert(sorted[sorted.len() - 1].0 < x.0);
        assert forall|k: int| j <= k < d.len() implies (#[trigger] d[k]).0 < x.0 by {
            assert(d[k] == sorted[k]);
        }
        if j > 0 {
            assert(d[j - 1] == sorted[j - 1]);
        }
        lemma_insert_desc_at(d, x, j);
        assert(d.take(j) == sorted.take(j));
        assert((d.take(j).push(x) + d.skip(j)).push(sorted.last()) =~= sorted.take(j).push(x)
            + sorted.skip(j));
    }
}

fn insert_span(sorted: &mut Vec<Span>, x: Span)
    ensures
        spans_view(final(sorted)@) == insert_desc(spans_view(old(sorted)@), span_view(x)),
{
    let ghost v = spans_view(sorted@);
    let mut j = sorted.len();
    while j > 0 && sorted[j - 1].start < x.start
        invariant
            j <= sorted.len(),
            v == spans_view(sorted@),
            forall|k: int| j <= k < sorted.len() ==> (#[trigger] v[k]).0 < x.start,
        decreases j,
    {
        j -= 1;
    }
    proof {
        lemma_insert_desc_at(v, span_view(x), j as int);
    }
    let ghost before = sorted@;
    sorted.insert(j, x);
    assert(spans_view(sorted@) =~= v.take(j as int).push(span_view(x)) + v.skip(j as int));
}

/// Applies one file's rename edits to its text, from the end backwards,
/// after checking that each edit replaces the old name.
pub fn apply_rename_edits(
    original: &str,
    old_name: &str,
    file: &str,
    edits: Vec<&RenameEditRecord>,
) -> (r: Result<String, String>)
    ensures
        match r {
            Ok(t) => apply_edits_spec(original@, old_name@, file@, edits@) == Ok::<
                Seq<char>,
                Seq<char>,
            >(t@),
            Err(e) => apply_edits_spec(original@, old_name@, file@, edits@) == Err::<
                Seq<char>,
                Seq<char>,
            >(e@),
        },
{
    let s = chars_of(original);
    let old = chars_of(old_name);
    let ghost sv = s@;
    // Check every edit and collect its span, in order.
    let mut spans: Vec<Span> = Vec::new();
    let mut i: usize = 0;
    assert(edits@.take(0) =~= Seq::<&RenameEditRecord>::empty());
    assert(spans_view(spans@) =~= Seq::<(int, int, Seq<char>)>::empty());
    while i < edits.len()
        invariant
            i <= edits.len(),
            sv == s@,
            s@ == original@,
            old@ == old_name@,
            spans_spec(sv, old_name@, file@, edits@.take(i as int)) == Ok::<
                Seq<(int, int, Seq<char>)>,
                Seq<char>,
            >(spans_view(spans@)),
            forall|k: int|
                0 <= k < spans.len() ==> (#[trigger] spans@[k]).start <= spans@[k].end <= sv.len(),
        decreases edits.len() - i,
    {
        let edit = edits[i];
        proof {
            assert(edits@.take(i + 1).drop_last() == edits@.take(i as int));
            assert(edits@.take(i + 1).last() == edit);
        }
        let a = match position_to_char_index(s.as_slice(), &edit.range.start) {
            Ok(a) => a,
            Err(e) => {
                proof {
                    lemma_spans_err(sv, old_name@, file@, edits@, (i + 1) as int, e@);
                }
                return Err(e);
            },
        };
        let b = match position_to_char_index(s.as_slice(), &edit.range.end) {
            Ok(b) => b,
            Err(e) => {
                proof {
                    lemma_spans_err(sv, old_name@, file@, edits@, (i + 1) as int, e@);
                }
                return Err(e);
            },
        };
        if a > b {
            let mut t = chars_of("rename edit has an inverted range in ");
            push_str(&mut t, file);
            proof {
                lemma_spans_err(sv, old_name@, file@, edits@, (i + 1) as int, t@);
            }
            return Err(string_of(t.as_slice()));
        }
        let current = slice_copy(s.as_slice(), a, b);
        let same = current.len() == old.len() && crate::text::starts_with(
            current.as_slice(),
            old.as_slice(),
        );
        assert(same == (current@ == old@)) by {
            if current.len() == old.len() && old@.is_prefix_of(current@) {
                assert(current@ =~= old@);
            }
        }
        if !same {
            let mut t = chars_of("rename edit is stale in ");
            push_str(&mut t, file);
            push_str(&mut t, ":");
            extend(&mut t, decimal_chars(edit.range.start.line).as_slice());
            push_str(&mut t, ":");
            extend(&mut t, decimal_chars(edit.range.start.column).as_slice());
            push_str(&mut t, ": expected ");
            extend(&mut t, debug_quote(old.as_slice()).as_slice());
            push_str(&mut t, ", found ");
            extend(&mut t, debug_quote(current.as_slice()).as_slice());
            proof {
                lemma_spans_err(sv, old_name@, file@, edits@, (i + 1) as int, t@);
            }
            return Err(string_of(t.as_slice()));
        }
        let ghost before = spans_view(spans@);
        let span = Span { start: a, end: b, text: chars_of(edit.new_text.as_str()) };
        spans.push(span);
        assert(spans_view(spans@) == before.push(span_view(span)));
        i += 1;
    }
    assert(edits@.take(edits.len() as int) == edits@);
    let ghost all = spans_view(spans@);
    assert(spans_spec(sv, old_name@, file@, edits@) == Ok::<Seq<(int, int, Seq<char>)>, Seq<char>>(all));
    // Sort the spans by descending start, stably.
    let n = spans.len();
    let mut stack: Vec<Span> = Vec::new();
    while spans.len() > 0
        invariant
            spans_view(spans@) + spans_view(stack@).reverse() == all,
            spans_spec(sv, old_name@, file@, edits@) == Ok::<Seq<(int, int, Seq<char>)>, Seq<char>>(all),
            forall|k: int|
                0 <= k < spans.len() ==> (#[trigger] spans@[k]).start <= spans@[k].end <= sv.len(),
            forall|k: int|
                0 <= k < stack.len() ==> (#[trigger] stack@[k]).start <= stack@[k].end <= sv.len(),
        decreases spans.len(),
    {
        let ghost before_s = spans_view(spans@);
        let ghost before_t = spans_view(stack@);
        let x = spans.pop().unwrap();
        stack.push(x);
        assert(before_s =~= spans_view(spans@).push(span_view(x)));
        assert(spans_view(stack@).reverse() =~= seq![span_view(x)] + before_t.reverse());
    }
    assert(spans_view(stack@).reverse() == all);
    let mut sorted: Vec<Span> = Vec::new();
    let mut k: usize = 0;
    while k < n
        invariant
            k <= n,
            n == all.len(),
            stack.len() == n - k,
            spans_view(stack@).reverse() == all.skip(k as int),
            spans_view(sorted@) == sort_desc(all.take(k as int)),
            spans_spec(sv, old_name@, file@, edits@) == Ok::<Seq<(int, int, Seq<char>)>, Seq<char>>(all),
            forall|m: int|
                0 <= m < stack.len() ==> (#[trigger] stack@[m]).start <= stack@[m].end <= sv.len(),
            forall|m: int|
                0 <= m < sorted.len() ==> (#[trigger] sorted@[m]).start <= sorted@[m].end
                    <= sv.len(),
        decreases n - k,
    {
        let ghost before_t = spans_view(stack@);
        let x = stack.pop().unwrap();
        assert(before_t.reverse()[0] == span_view(x));
        assert(all.skip(k as int)[0] == all[k as int]);
        assert(spans_view(stack@).reverse() =~= all.skip(k + 1)) by {
            assert forall|m: int| 0 <= m < stack@.len() implies spans_view(stack@).reverse()[m]
                == all.skip(k + 1)[m] by {
                assert(before_t.reverse()[m + 1] == all.skip(k as int)[m + 1]);
            }
        }
        assert(all.take(k + 1).drop_last() == all.take(k as int));
        assert(all.take(k + 1).last() == span_view(x));
        let ghost old_sorted = sorted@;
        insert_span(&mut sorted, x);
        assert forall|m: int| 0 <= m < sorted.len() implies (#[trigger] sorted@[m]).start
            <= sorted@[m].end <= sv.len() by {
            let sv2 = spans_view(sorted@);
            assert(sv2[m] == span_view(sorted@[m]));
            lemma_insert_desc_elements(spans_view(old_sorted), span_view(x), sv2[m]);
            if sv2[m] != span_view(x) {
                let w = choose|w: int|
                    0 <= w < old_sorted.len() && spans_view(old_sorted)[w] == sv2[m];
                assert(spans_view(old_sorted)[w] == span_view(old_sorted[w]));
            }
        }
        k += 1;
    }
    assert(all.take(n as int) == all);
    // Replace the spans from the last one backwards.
    let mut updated = s;
    let mut prev = updated.len();
    let ghost order = spans_view(sorted@);
    let mut j: usize = 0;
    assert(order.skip(0) == order);
    proof {
        lemma_splice_steps(sv, order, sv.len() as int, file@);
    }
    while j < sorted.len()
        invariant
            j <= sorted.len(),
            order == spans_view(sorted@),
            order == sort_desc(all),
            spans_spec(sv, old_name@, file@, edits@) == Ok::<Seq<(int, int, Seq<char>)>, Seq<char>>(all),
            sv == original@,
            prev <= updated.len(),
            forall|m: int|
                0 <= m < sorted.len() ==> (#[trigger] sorted@[m]).start <= sorted@[m].end,
            apply_spans(sv, order, file@) == splice_steps(sv, order, sv.len() as int, file@),
            splice_steps(sv, order, sv.len() as int, file@) == splice_steps(
                updated@,
                order.skip(j as int),
                prev as int,
                file@,
            ),
        decreases sorted.len() - j,
    {
        let span = &sorted[j];
        assert(order.skip(j as int)[0] == span_view(*span));
        assert(order.skip(j as int).drop_first() == order.skip(j + 1));
        if span.end > prev {
            let mut t = chars_of("rename edits overlap in ");
            push_str(&mut t, file);
            return Err(string_of(t.as_slice()));
        }
        let mut next = slice_copy(updated.as_slice(), 0, span.start);
        extend(&mut next, span.text.as_slice());
        extend(&mut next, slice_copy(updated.as_slice(), span.end, updated.len()).as_slice());
        updated = next;
        prev = span.start;
        j += 1;
    }
    assert(order.skip(sorted.len() as int).len() == 0);
    Ok(string_of(updated.as_slice()))
}

proof fn lemma_spans_err(
    s: Seq<char>,
    old: Seq<char>,
    file: Seq<char>,
    edits: Seq<&RenameEditRecord>,
    i: int,
    e: Seq<char>,
)
    requires
        0 <= i <= edits.len(),
        spans_spec(s, old, file, edits.take(i)) == Err::<Seq<(int, int, Seq<char>)>, Seq<char>>(e),
    ensures
        spans_spec(s, old, file, edits) == Err::<Seq<(int, int, Seq<char>)>, Seq<char>>(e),
        apply_edits_spec(s, old, file, edits) == Err::<Seq<char>, Seq<char>>(e),
    decreases edits.len() - i,
{
    if i < edits.len() {
        assert(edits.take(i + 1).drop_last() == edits.take(i));
        lemma_spans_err(s, old, file, edits, i + 1, e);
    } else {
        assert(edits.take(i) == edits);
    }
}

proof fn lemma_insert_desc_elements(
    sorted: Seq<(int, int, Seq<char>)>,
    x: (int, int, Seq<char>),
    y: (int, int, Seq<char>),
)
    requires
        insert_desc(sorted, x).contains(y),
    ensures
        y == x || exists|w: int| 0 <= w < sorted.len() && sorted[w] == y,
    decreases sorted.len(),
{
    if sorted.len() > 0 && sorted.last().0 < x.0 {
        let d = sorted.drop_last();
        let ins = insert_desc(d, x);
        let i = choose|i: int| 0 <= i < insert_desc(sorted, x).len() && insert_desc(sorted, x)[i] == y;
        if i < ins.len() {
            assert(ins[i] == y);
            lemma_insert_desc_elements(d, x, y);
            if y != x {
                let w = choose|w: int| 0 <= w < d.len() && d[w] == y;
                assert(sorted[w] == y);
            }
        } else {
            assert(sorted[sorted.len() - 1] == y);
        }
    } else if sorted.len() > 0 {
        let i = choose|i: int| 0 <= i < insert_desc(sorted, x).len() && insert_desc(sorted, x)[i] == y;
        if i < sorted.len() {
            assert(sorted[i] == y);
        }
    }
}

// ---------------------------------------------------------------------------
// The order of a file's edits does not matter
// ---------------------------------------------------------------------------

proof fn lemma_position_index_bounds(s: Seq<char>, p: PositionRecord)
    ensures
        position_index(s, p) matches Ok(i) ==> 0 <= i <= s.len(),
{
    if p.line != 0 && p.column != 0 {
        lemma_line_start_bounds(s, (p.line - 1) as nat);
        if let Some(st) = line_start(s, (p.line - 1) as nat) {
            lemma_find_from_bounds(s, '\n', st);
            let end = match find_from(s, '\n', st) {
                Some(q) => q,
                None => s.len() as int,
            };
            let l = strip_cr(s.subrange(st, end));
            let t = (p.column - 1) as nat;
            if exists|k: nat| k <= l.len() && #[trigger] utf16_size(l.take(k as int)) == t {
                let k = choose|k: nat| k <= l.len() && #[trigger] utf16_size(l.take(k as int)) == t;
                assert(k <= l.len());
            }
        }
    }
}

/// The span and new text of an edit whose span checked out.
pub open spec fn span_of(s: Seq<char>, old: Seq<char>, file: Seq<char>, x: &RenameEditRecord) -> (
    int,
    int,
    Seq<char>,
) {
    let ab = edit_span(s, old, file, *x)->Ok_0;
    (ab.0, ab.1, x.new_text@)
}

/// Checking spans succeeds when every edit checks out, and then gives each
/// edit's span in order.
proof fn lemma_spans_ok(s: Seq<char>, old: Seq<char>, file: Seq<char>, e: Seq<&RenameEditRecord>)
    ensures
        spans_spec(s, old, file, e) is Ok <==> forall|i: int|
            0 <= i < e.len() ==> #[trigger] edit_span(s, old, file, *e[i]) is Ok,
        spans_spec(s, old, file, e) is Ok ==> spans_spec(s, old, file, e)->Ok_0 == e.map_values(
            |x: &RenameEditRecord| span_of(s, old, file, x),
        ),
    decreases e.len(),
{
    if e.len() > 0 {
        let d = e.drop_last();
        lemma_spans_ok(s, old, file, d);
        assert forall|i: int| 0 <= i < d.len() implies d[i] == e[i] by {}
        if spans_spec(s, old, file, e) is Ok {
            assert(e.map_values(|x: &RenameEditRecord| span_of(s, old, file, x)) =~= d.map_values(
                |x: &RenameEditRecord| span_of(s, old, file, x),
            ).push(span_of(s, old, file, e.last())));
        } else if spans_spec(s, old, file, d) is Ok {
            assert(edit_span(s, old, file, *e[e.len() - 1]) is Err);
        } else {
            let i = choose|i: int| 0 <= i < d.len() && !(#[trigger] edit_span(s, old, file, *d[i]) is Ok);
            assert(edit_span(s, old, file, *e[i]) is Err);
        }
    }
}

/// Lists with the same elements have the same length and contain the same
/// values.
proof fn lemma_same_elements<A>(x: Seq<A>, y: Seq<A>, a: A)
    requires
        x.to_multiset() == y.to_multiset(),
    ensures
        x.contains(a) == y.contains(a),
        x.len() == y.len(),
{
    vstd::seq_lib::to_multiset_contains(x, a);
    vstd::seq_lib::to_multiset_contains(y, a);
    vstd::seq_lib::to_multiset_len(x);
    vstd::seq_lib::to_multiset_len(y);
}

/// Sequences with the same elements keep the same elements under a map.
proof fn lemma_map_multiset<A, B>(e: Seq<A>, p: Seq<A>, f: spec_fn(A) -> B)
    requires
        e.to_multiset() == p.to_multiset(),
    ensures
        e.map_values(f).to_multiset() == p.map_values(f).to_multiset(),
    decreases e.len(),
{
    broadcast use vstd::seq_lib::group_to_multiset_ensures, vstd::multiset::group_multiset_axioms;

    if e.len() == 0 {
        lemma_same_elements(e, p, arbitrary());
        assert(e.map_values(f) =~= Seq::<B>::empty());
        assert(p.map_values(f) =~= Seq::<B>::empty());
    } else {
        let x = e.last();
        let d = e.drop_last();
        assert(d.push(x) =~= e);
        assert(e[e.len() - 1] == x);
        lemma_same_elements(e, p, x);
        let j = choose|j: int| 0 <= j < p.len() && p[j] == x;
        let q = p.remove(j);
        assert(q.to_multiset() == p.to_multiset().remove(x));
        assert(d.to_multiset() =~= q.to_multiset());
        lemma_map_multiset(d, q, f);
        assert(e.map_values(f) =~= d.map_values(f).push(f(x)));
        assert(p.map_values(f) =~= q.map_values(f).insert(j, f(x)));
    }
}

/// Whether spans are listed by descending start.
pub open spec fn by_desc_start(rs: Seq<(int, int, Seq<char>)>) -> bool {
    forall|i: int, j: int| 0 <= i < j < rs.len() ==> (#[trigger] rs[i]).0 >= (#[trigger] rs[j]).0
}

proof fn lemma_insert_desc_props(sorted: Seq<(int, int, Seq<char>)>, x: (int, int, Seq<char>))
    requires
        by_desc_start(sorted),
    ensures
        by_desc_start(insert_desc(sorted, x)),
        insert_desc(sorted, x).to_multiset() == sorted.to_multiset().insert(x),
    decreases sorted.len(),
{
    broadcast use vstd::seq_lib::group_to_multiset_ensures, vstd::multiset::group_multiset_axioms;

    if sorted.len() == 0 {
        assert(seq![x] =~= Seq::<(int, int, Seq<char>)>::empty().push(x));
    } else if sorted.last().0 >= x.0 {
    } else {
        let d = sorted.drop_last();
        let last = sorted.last();
        assert(d.push(last) =~= sorted);
        lemma_insert_desc_props(d, x);
        let ins = insert_desc(d, x);
        assert forall|i: int| 0 <= i < ins.len() implies (#[trigger] ins[i]).0 >= last.0 by {
            assert(ins.contains(ins[i]));
            assert(ins.to_multiset().count(ins[i]) > 0);
            if ins[i] != x {
                assert(d.to_multiset().count(ins[i]) > 0);
                assert(d.contains(ins[i]) <==> d.to_multiset().count(ins[i]) > 0);
                let k = choose|k: int| 0 <= k < d.len() && d[k] == ins[i];
                assert(sorted[k] == d[k]);
            }
        }
        let r = ins.push(last);
        assert forall|i: int, j: int| 0 <= i < j < r.len() implies (#[trigger] r[i]).0 >= (
        #[trigger] r[j]).0 by {
            if j < ins.len() {
                assert(r[i] == ins[i] && r[j] == ins[j]);
            } else {
                assert(r[i] == ins[i]);
            }
        }
    }
}

proof fn lemma_sort_desc_props(rs: Seq<(int, int, Seq<char>)>)
    ensures
        by_desc_start(sort_desc(rs)),
        sort_desc(rs).to_multiset() == rs.to_multiset(),
    decreases rs.len(),
{
    broadcast use vstd::seq_lib::group_to_multiset_ensures, vstd::multiset::group_multiset_axioms;

    if rs.len() > 0 {
        lemma_sort_desc_props(rs.drop_last());
        lemma_insert_desc_props(sort_desc(rs.drop_last()), rs.last());
        assert(rs.drop_last().push(rs.last()) =~= rs);
    }
}

/// Replacing spans fails where two of them start at the same place.
proof fn lemma_apply_same_start(s: Seq<char>, rs: Seq<(int, int, Seq<char>)>, prev: int, file: Seq<char>, i: int)
    requires
        0 <= i < rs.len() - 1,
        rs[i].0 == rs[i + 1].0,
        forall|k: int| 0 <= k < rs.len() ==> (#[trigger] rs[k]).0 < rs[k].1,
    ensures
        splice_steps(s, rs, prev, file) is Err,
    decreases rs.len(),
{
    if rs[0].1 <= prev {
        let s2 = s.subrange(0, rs[0].0) + rs[0].2 + s.subrange(rs[0].1, s.len() as int);
        let t = rs.drop_first();
        assert(t[0] == rs[1]);
        assert(splice_steps(s, rs, prev, file) == splice_steps(s2, t, rs[0].0, file));
        if i == 0 {
            assert(t[0].1 > rs[0].0);
            assert(splice_steps(s2, t, rs[0].0, file) is Err);
        } else {
            assert forall|k: int| 0 <= k < t.len() implies (#[trigger] t[k]).0 < t[k].1 by {
                assert(t[k] == rs[k + 1]);
            }
            assert(t[i - 1] == rs[i] && t[i] == rs[i + 1]);
            lemma_apply_same_start(s2, t, rs[0].0, file, i - 1);
        }
    }
}

/// Spans with strictly descending starts and the same elements are the same
/// list.
proof fn lemma_strict_desc_unique(x: Seq<(int, int, Seq<char>)>, y: Seq<(int, int, Seq<char>)>)
    requires
        forall|i: int, j: int| 0 <= i < j < x.len() ==> (#[trigger] x[i]).0 > (#[trigger] x[j]).0,
        forall|i: int, j: int| 0 <= i < j < y.len() ==> (#[trigger] y[i]).0 > (#[trigger] y[j]).0,
        x.to_multiset() == y.to_multiset(),
    ensures
        x == y,
    decreases x.len(),
{
    broadcast use vstd::seq_lib::group_to_multiset_ensures, vstd::multiset::group_multiset_axioms;

    lemma_same_elements(x, y, arbitrary());
    if x.len() == 0 || y.len() == 0 {
        assert(x =~= y);
    } else {
        assert(x.contains(x[0]));
        lemma_same_elements(x, y, x[0]);
        assert(y.contains(y[0]));
        lemma_same_elements(x, y, y[0]);
        let j = choose|j: int| 0 <= j < y.len() && y[j] == x[0];
        let i = choose|i: int| 0 <= i < x.len() && x[i] == y[0];
        if i != 0 {
            assert(x[0].0 > x[i].0);
        }
        if j != 0 {
            assert(y[0].0 > y[j].0);
        }
        assert(x[0] == y[0]);
        assert(x.remove(0) =~= x.drop_first());
        assert(y.remove(0) =~= y.drop_first());
        assert(x.drop_first().to_multiset() =~= x.to_multiset().remove(x[0]));
        assert(y.drop_first().to_multiset() =~= y.to_multiset().remove(y[0]));
        lemma_strict_desc_unique(x.drop_first(), y.drop_first());
        assert(x =~= seq![x[0]] + x.drop_first());
        assert(y =~= seq![y[0]] + y.drop_first());
    }
}

/// The starts of spans.
pub open spec fn starts_of(rs: Seq<(int, int, Seq<char>)>) -> Seq<int> {
    rs.map_values(|x: (int, int, Seq<char>)| x.0)
}

/// A list by descending start in which no two spans start together has
/// strictly descending starts.
proof fn lemma_distinct_starts_strict(rs: Seq<(int, int, Seq<char>)>)
    requires
        by_desc_start(rs),
        starts_of(rs).no_duplicates(),
    ensures
        forall|i: int, j: int| 0 <= i < j < rs.len() ==> (#[trigger] rs[i]).0 > (#[trigger] rs[j]).0,
{
    assert forall|i: int, j: int| 0 <= i < j < rs.len() implies (#[trigger] rs[i]).0 > (
    #[trigger] rs[j]).0 by {
        assert(starts_of(rs)[i] != starts_of(rs)[j]);
    }
}

/// A list by descending start in which two spans start together has two
/// neighbours that do.
proof fn lemma_same_start_neighbours(rs: Seq<(int, int, Seq<char>)>) -> (i: int)
    requires
        by_desc_start(rs),
        !starts_of(rs).no_duplicates(),
    ensures
        0 <= i < rs.len() - 1,
        rs[i].0 == rs[i + 1].0,
{
    let (a, b) = choose|a: int, b: int|
        0 <= a < starts_of(rs).len() && 0 <= b < starts_of(rs).len() && a != b && starts_of(rs)[a]
            == starts_of(rs)[b];
    let lo = if a < b { a } else { b };
    let hi = if a < b { b } else { a };
    assert(rs[lo].0 == rs[hi].0);
    assert(rs[lo].0 >= rs[lo + 1].0);
    assert(rs[lo + 1].0 >= rs[hi].0 || lo + 1 == hi);
    lo
}

/// Starts that occur once in one list occur once in a list with the same
/// elements.
proof fn lemma_no_duplicates_transfer(a: Seq<int>, b: Seq<int>)
    requires
        a.to_multiset() == b.to_multiset(),
        a.no_duplicates(),
    ensures
        b.no_duplicates(),
{
    a.lemma_multiset_has_no_duplicates();
    b.lemma_multiset_has_no_duplicates_conv();
}

/// Replacing the spans of two lists by descending start with the same
/// elements, none of them empty, gives the same outcome.
proof fn lemma_sorted_spans_agree(
    s: Seq<char>,
    file: Seq<char>,
    a: Seq<(int, int, Seq<char>)>,
    b: Seq<(int, int, Seq<char>)>,
)
    requires
        by_desc_start(a),
        by_desc_start(b),
        a.to_multiset() == b.to_multiset(),
        forall|k: int| 0 <= k < a.len() ==> (#[trigger] a[k]).0 < a[k].1,
        forall|k: int| 0 <= k < b.len() ==> (#[trigger] b[k]).0 < b[k].1,
    ensures
        apply_spans(s, a, file) is Ok == apply_spans(s, b, file) is Ok,
        apply_spans(s, a, file) is Ok ==> apply_spans(s, a, file) == apply_spans(s, b, file),
{
    lemma_splice_steps(s, a, s.len() as int, file);
    lemma_splice_steps(s, b, s.len() as int, file);
    let g = |x: (int, int, Seq<char>)| x.0;
    lemma_map_multiset(a, b, g);
    lemma_map_multiset(b, a, g);
    assert(starts_of(a) == a.map_values(g));
    assert(starts_of(b) == b.map_values(g));
    if starts_of(a).no_duplicates() {
        lemma_no_duplicates_transfer(starts_of(a), starts_of(b));
        lemma_distinct_starts_strict(a);
        lemma_distinct_starts_strict(b);
        lemma_strict_desc_unique(a, b);
    } else {
        if starts_of(b).no_duplicates() {
            lemma_no_duplicates_transfer(starts_of(b), starts_of(a));
        }
        let i = lemma_same_start_neighbours(a);
        let j = lemma_same_start_neighbours(b);
        lemma_apply_same_start(s, a, s.len() as int, file, i);
        lemma_apply_same_start(s, b, s.len() as int, file, j);
    }
}

/// Every edit checks out in one list exactly when it does in a list with
/// the same edits.
proof fn lemma_edits_check_alike(
    s: Seq<char>,
    old: Seq<char>,
    file: Seq<char>,
    e: Seq<&RenameEditRecord>,
    p: Seq<&RenameEditRecord>,
)
    requires
        e.to_multiset() == p.to_multiset(),
    ensures
        (forall|i: int| 0 <= i < e.len() ==> #[trigger] edit_span(s, old, file, *e[i]) is Ok)
            == (forall|i: int| 0 <= i < p.len() ==> #[trigger] edit_span(s, old, file, *p[i]) is Ok),
{
    if forall|i: int| 0 <= i < e.len() ==> #[trigger] edit_span(s, old, file, *e[i]) is Ok {
        assert forall|i: int| 0 <= i < p.len() implies #[trigger] edit_span(s, old, file, *p[i]) is Ok by {
            assert(p.contains(p[i]));
            lemma_same_elements(e, p, p[i]);
            let k = choose|k: int| 0 <= k < e.len() && e[k] == p[i];
            assert(edit_span(s, old, file, *e[k]) is Ok);
        }
    }
    if forall|i: int| 0 <= i < p.len() ==> #[trigger] edit_span(s, old, file, *p[i]) is Ok {
        assert forall|i: int| 0 <= i < e.len() implies #[trigger] edit_span(s, old, file, *e[i]) is Ok by {
            assert(e.contains(e[i]));
            lemma_same_elements(e, p, e[i]);
            let k = choose|k: int| 0 <= k < p.len() && p[k] == e[i];
            assert(edit_span(s, old, file, *p[k]) is Ok);
        }
    }
}

/// The spans of checked edits hold the old name, so none is empty.
proof fn lemma_spans_nonempty(
    s: Seq<char>,
    old: Seq<char>,
    file: Seq<char>,
    e: Seq<&RenameEditRecord>,
    a: Seq<(int, int, Seq<char>)>,
)
    requires
        old.len() > 0,
        forall|i: int| 0 <= i < e.len() ==> #[trigger] edit_span(s, old, file, *e[i]) is Ok,
        a.to_multiset() == e.map_values(|x: &RenameEditRecord| span_of(s, old, file, x)).to_multiset(),
    ensures
        forall|k: int| 0 <= k < a.len() ==> (#[trigger] a[k]).0 < a[k].1,
{
    let re = e.map_values(|x: &RenameEditRecord| span_of(s, old, file, x));
    assert forall|k: int| 0 <= k < re.len() implies (#[trigger] re[k]).0 < re[k].1 by {
        let x = *e[k];
        assert(edit_span(s, old, file, x) is Ok);
        lemma_position_index_bounds(s, x.range.start);
        lemma_position_index_bounds(s, x.range.end);
        let ab = edit_span(s, old, file, x)->Ok_0;
        assert(s.subrange(ab.0, ab.1) == old);
    }
    assert forall|k: int| 0 <= k < a.len() implies (#[trigger] a[k]).0 < a[k].1 by {
        assert(a.contains(a[k]));
        lemma_same_elements(a, re, a[k]);
        let m = choose|m: int| 0 <= m < re.len() && re[m] == a[k];
        assert(re[m].0 < re[m].1);
    }
}

/// Applying a file's edits does not depend on their order: for any
/// reordering, both succeed or both fail, and where they succeed they give
/// the same text; with no edits the text is unchanged. The old name is not
/// empty, as a rename's is.
pub proof fn lemma_edit_order_irrelevant(
    s: Seq<char>,
    old: Seq<char>,
    file: Seq<char>,
    e: Seq<&RenameEditRecord>,
    p: Seq<&RenameEditRecord>,
)
    requires
        old.len() > 0,
        e.to_multiset() == p.to_multiset(),
    ensures
        apply_edits_spec(s, old, file, e) is Ok == apply_edits_spec(s, old, file, p) is Ok,
        apply_edits_spec(s, old, file, e) is Ok ==> apply_edits_spec(s, old, file, e)
            == apply_edits_spec(s, old, file, p),
        e.len() == 0 ==> apply_edits_spec(s, old, file, e) == Ok::<Seq<char>, Seq<char>>(s),
{
    lemma_spans_ok(s, old, file, e);
    lemma_spans_ok(s, old, file, p);
    lemma_edits_check_alike(s, old, file, e, p);
    let f = |x: &RenameEditRecord| span_of(s, old, file, x);
    if e.len() == 0 {
        assert(e.map_values(f) =~= Seq::<(int, int, Seq<char>)>::empty());
        assert(sort_desc(e.map_values(f)) == Seq::<(int, int, Seq<char>)>::empty());
    }
    if spans_spec(s, old, file, e) is Ok {
        let re = e.map_values(f);
        let rp = p.map_values(f);
        lemma_map_multiset(e, p, f);
        lemma_sort_desc_props(re);
        lemma_sort_desc_props(rp);
        lemma_spans_nonempty(s, old, file, e, sort_desc(re));
        lemma_spans_nonempty(s, old, file, e, sort_desc(rp));
        lemma_sorted_spans_agree(s, file, sort_desc(re), sort_desc(rp));
    }
}

// ---------------------------------------------------------------------------
// The diff of a rename
// ---------------------------------------------------------------------------

/// What `similar`'s line diff of `old` and `new`, rendered as a unified diff
/// with `context` lines around each change and the given file headers,
/// writes.
pub uninterp spec fn unified_diff_text(
    old: Seq<char>,
    new: Seq<char>,
    context: nat,
    old_header: Seq<char>,
    new_header: Seq<char>,
) -> Seq<char>;

/// `similar::TextDiff::from_lines(old, new).unified_diff()` with a context
/// radius and headers, as a string: claims only that the text is a function
/// of these arguments.
#[verifier::external_body]
fn unified_diff(old: &str, new: &str, context: usize, old_header: &str, new_header: &str) -> (r:
    String)
    ensures
        r@ == unified_diff_text(old@, new@, context as nat, old_header@, new_header@),
{
    similar::TextDiff::from_lines(old, new).unified_diff().context_radius(context).header(
        old_header,
        new_header,
    ).to_string()
}

/// The text of a file that a rename touches, or why it could not be read.
pub struct FileText {
    pub path: String,
    pub text: Result<String, String>,
}

/// The edits of a rename grouped by file, the files in path order, each
/// group's edits in their order; a file's group is keyed by the first of its
/// spellings. The groups are a vector kept in `path_order`: vstd specifies
/// `BTreeMap` only for keys whose `Ord` it knows (integers and tuples of
/// them), which neither `String` nor `PathBuf` is, and the order wanted is
/// that of `Path`, component by component.
pub open spec fn group_edits<'a>(edits: Seq<&'a RenameEditRecord>) -> Seq<(Seq<char>, Seq<&'a RenameEditRecord>)>
    decreases edits.len(),
{
    if edits.len() == 0 {
        Seq::empty()
    } else {
        add_to_groups(group_edits(edits.drop_last()), edits.last())
    }
}

/// `e` added to the group of its file, or in a new group placed in path
/// order.
pub open spec fn add_to_groups<'a>(
    groups: Seq<(Seq<char>, Seq<&'a RenameEditRecord>)>,
    e: &'a RenameEditRecord,
) -> Seq<(Seq<char>, Seq<&'a RenameEditRecord>)> {
    let pos = group_position(groups, e.file@, 0);
    if pos < groups.len() && path_order(groups[pos].0, e.file@) == 0 {
        groups.update(pos, (groups[pos].0, groups[pos].1.push(e)))
    } else {
        groups.take(pos).push((e.file@, seq![e])) + groups.skip(pos)
    }
}

/// The index of the first group at or after `i` whose file does not come
/// before `file`.
pub open spec fn group_position<'a>(
    groups: Seq<(Seq<char>, Seq<&'a RenameEditRecord>)>,
    file: Seq<char>,
    i: int,
) -> int
    decreases groups.len() - i,
{
    if i >= groups.len() {
        groups.len() as int
    } else if path_order(groups[i].0, file) >= 0 {
        i
    } else {
        group_position(groups, file, i + 1)
    }
}

/// The text read for `file`, if one was.
pub open spec fn file_text_spec(files: Seq<FileText>, file: Seq<char>) -> Option<Result<String, String>>
    decreases files.len(),
{
    if files.len() == 0 {
        None
    } else if files[0].path@ == file {
        Some(files[0].text)
    } else {
        file_text_spec(files.drop_first(), file)
    }
}

/// The patch of one file: its edits applied and the change shown as a
/// unified diff with paths relative to the workspace root.
pub open spec fn file_patch_spec(
    root: Seq<char>,
    old: Seq<char>,
    files: Seq<FileText>,
    group: (Seq<char>, Seq<&RenameEditRecord>),
) -> Result<Seq<char>, Seq<char>> {
    let file = group.0;
    match file_text_spec(files, file) {
        None => Err("failed to read rename target "@ + file),
        Some(Err(e)) => Err("failed to read rename target "@ + file + ": "@ + e@),
        Some(Ok(text)) => match apply_edits_spec(text@, old, file, group.1) {
            Err(e) => Err(e),
            Ok(updated) => Ok(
                unified_diff_text(
                    text@,
                    updated,
                    3,
                    "a/"@ + display_spec(root, file),
                    "b/"@ + display_spec(root, file),
                ),
            ),
        },
    }
}

/// The patches of groups in order, or the first failure.
pub open spec fn patches_spec(
    root: Seq<char>,
    old: Seq<char>,
    files: Seq<FileText>,
    groups: Seq<(Seq<char>, Seq<&RenameEditRecord>)>,
) -> Result<Seq<char>, Seq<char>>
    decreases groups.len(),
{
    if groups.len() == 0 {
        Ok(Seq::empty())
    } else {
        match patches_spec(root, old, files, groups.drop_last()) {
            Err(e) => Err(e),
            Ok(p) => match file_patch_spec(root, old, files, groups.last()) {
                Err(e) => Err(e),
                Ok(q) => Ok(p + q),
            },
        }
    }
}

/// A group of edits of one file.
pub struct EditGroup<'a> {
    pub file: Vec<char>,
    pub edits: Vec<&'a RenameEditRecord>,
}

pub open spec fn group_view<'a>(g: EditGroup<'a>) -> (Seq<char>, Seq<&'a RenameEditRecord>) {
    (g.file@, g.edits@)
}

pub open spec fn groups_view<'a>(v: Seq<EditGroup<'a>>) -> Seq<(Seq<char>, Seq<&'a RenameEditRecord>)> {
    v.map_values(|g: EditGroup<'a>| group_view(g))
}

fn add_edit<'a>(groups: &mut Vec<EditGroup<'a>>, e: &'a RenameEditRecord)
    ensures
        groups_view(final(groups)@) == add_to_groups(groups_view(old(groups)@), e),
{
    let ghost g = groups_view(groups@);
    let file = chars_of(e.file.as_str());
    let mut pos: usize = 0;
    assert(group_position(g, file@, 0) == group_position(g, file@, 0));
    while pos < groups.len() && compare_paths(groups[pos].file.as_slice(), file.as_slice()) < 0
        invariant
            pos <= groups.len(),
            g == groups_view(groups@),
            file@ == e.file@,
            group_position(g, file@, 0) == group_position(g, file@, pos as int),
        decreases groups.len() - pos,
    {
        assert(g[pos as int] == group_view(groups@[pos as int]));
        pos += 1;
    }
    if pos < groups.len() {
        assert(g[pos as int] == group_view(groups@[pos as int]));
    }
    assert(group_position(g, file@, pos as int) == pos);
    if pos < groups.len() && compare_paths(groups[pos].file.as_slice(), file.as_slice()) == 0 {
        let ghost old_group = groups@[pos as int];
        let mut group = groups.remove(pos);
        group.edits.push(e);
        groups.insert(pos, group);
        assert(groups_view(groups@) =~= g.update(pos as int, (g[pos as int].0, g[pos as int].1.push(e))));
    } else {
        let mut list = Vec::new();
        list.push(e);
        let ghost list_view = list@;
        groups.insert(pos, EditGroup { file, edits: list });
        assert(list_view =~= seq![e]);
        assert(groups_view(groups@) =~= g.take(pos as int).push((e.file@, seq![e])) + g.skip(pos as int));
    }
}

fn find_file_text<'b>(files: &'b [FileText], file: &[char]) -> (r: Option<&'b Result<String, String>>)
    ensures
        match r {
            Some(t) => file_text_spec(files@, file@) == Some(*t),
            None => file_text_spec(files@, file@) is None,
        },
{
    let mut i: usize = 0;
    assert(files@.skip(0) == files@);
    while i < files.len()
        invariant
            i <= files.len(),
            file_text_spec(files@, file@) == file_text_spec(files@.skip(i as int), file@),
        decreases files.len() - i,
    {
        let path = chars_of(files[i].path.as_str());
        assert(files@.skip(i as int)[0] == files@[i as int]);
        assert(files@.skip(i as int).drop_first() == files@.skip(i + 1));
        let same = path.len() == file.len() && crate::text::starts_with(path.as_slice(), file);
        assert(same == (path@ == file@)) by {
            if path.len() == file.len() && file@.is_prefix_of(path@) {
                assert(path@ =~= file@);
            }
        }
        if same {
            return Some(&files[i].text);
        }
        i += 1;
    }
    None
}

/// Build a complete unified diff from validated semantic rename edits, one
/// patch per file in path order.
pub fn build_rename_diff(
    workspace_root: &str,
    old_name: &str,
    edits: &[RenameEditRecord],
    files: &[FileText],
) -> (r: Result<String, String>)
    ensures
        match r {
            Ok(d) => patches_spec(
                workspace_root@,
                old_name@,
                files@,
                group_edits(Seq::new(edits@.len(), |i: int| &edits@[i])),
            ) == Ok::<Seq<char>, Seq<char>>(d@),
            Err(e) => patches_spec(
                workspace_root@,
                old_name@,
                files@,
                group_edits(Seq::new(edits@.len(), |i: int| &edits@[i])),
            ) == Err::<Seq<char>, Seq<char>>(e@),
        },
{
    let ghost refs = Seq::new(edits@.len(), |i: int| &edits@[i]);
    let mut groups: Vec<EditGroup> = Vec::new();
    let mut i: usize = 0;
    assert(refs.take(0) =~= Seq::<&RenameEditRecord>::empty());
    assert(groups_view(groups@) =~= Seq::<(Seq<char>, Seq<&RenameEditRecord>)>::empty());
    while i < edits.len()
        invariant
            i <= edits.len(),
            refs == Seq::new(edits@.len(), |i: int| &edits@[i]),
            groups_view(groups@) == group_edits(refs.take(i as int)),
        decreases edits.len() - i,
    {
        assert(refs.take(i + 1).drop_last() == refs.take(i as int));
        assert(refs.take(i + 1).last() == &edits[i as int]);
        add_edit(&mut groups, &edits[i]);
        i += 1;
    }
    assert(refs.take(edits.len() as int) == refs);
    let ghost gs = groups_view(groups@);
    let mut patches: Vec<char> = Vec::new();
    let mut k: usize = 0;
    assert(gs.take(0) =~= Seq::<(Seq<char>, Seq<&RenameEditRecord>)>::empty());
    while k < groups.len()
        invariant
            k <= groups.len(),
            refs == Seq::new(edits@.len(), |i: int| &edits@[i]),
            gs == groups_view(groups@),
            gs == group_edits(refs),
            patches_spec(workspace_root@, old_name@, files@, gs.take(k as int)) == Ok::<
                Seq<char>,
                Seq<char>,
            >(patches@),
        decreases groups.len() - k,
    {
        let group = &groups[k];
        assert(gs[k as int] == group_view(*group));
        assert(gs.take(k + 1).drop_last() == gs.take(k as int));
        assert(gs.take(k + 1).last() == gs[k as int]);
        let file = string_of(group.file.as_slice());
        let text = match find_file_text(files, group.file.as_slice()) {
            None => {
                let mut t = chars_of("failed to read rename target ");
                extend(&mut t, group.file.as_slice());
                proof {
                    lemma_patches_err(workspace_root@, old_name@, files@, gs, (k + 1) as int, t@);
                }
                return Err(string_of(t.as_slice()));
            },
            Some(Err(e)) => {
                let mut t = chars_of("failed to read rename target ");
                extend(&mut t, group.file.as_slice());
                push_str(&mut t, ": ");
                push_str(&mut t, e.as_str());
                proof {
                    lemma_patches_err(workspace_root@, old_name@, files@, gs, (k + 1) as int, t@);
                }
                return Err(string_of(t.as_slice()));
            },
            Some(Ok(text)) => text,
        };
        let mut list: Vec<&RenameEditRecord> = Vec::new();
        let mut m: usize = 0;
        while m < group.edits.len()
            invariant
                m <= group.edits.len(),
                list@ == group.edits@.take(m as int),
            decreases group.edits.len() - m,
        {
            list.push(group.edits[m]);
            m += 1;
            assert(list@ =~= group.edits@.take(m as int));
        }
        assert(group.edits@.take(group.edits.len() as int) == group.edits@);
        let updated = match apply_rename_edits(text.as_str(), old_name, file.as_str(), list) {
            Ok(u) => u,
            Err(e) => {
                proof {
                    lemma_patches_err(workspace_root@, old_name@, files@, gs, (k + 1) as int, e@);
                }
                return Err(e);
            },
        };
        let relative = display_path(workspace_root, file.as_str());
        let mut old_header = chars_of("a/");
        push_str(&mut old_header, relative.as_str());
        let mut new_header = chars_of("b/");
        push_str(&mut new_header, relative.as_str());
        let patch = unified_diff(
            text.as_str(),
            updated.as_str(),
            3,
            string_of(old_header.as_slice()).as_str(),
            string_of(new_header.as_slice()).as_str(),
        );
        push_str(&mut patches, patch.as_str());
        k += 1;
    }
    assert(gs.take(groups.len() as int) == gs);
    Ok(string_of(patches.as_slice()))
}

proof fn lemma_patches_err(
    root: Seq<char>,
    old: Seq<char>,
    files: Seq<FileText>,
    groups: Seq<(Seq<char>, Seq<&RenameEditRecord>)>,
    i: int,
    e: Seq<char>,
)
    requires
        0 <= i <= groups.len(),
        patches_spec(root, old, files, groups.take(i)) == Err::<Seq<char>, Seq<char>>(e),
    ensures
        patches_spec(root, old, files, groups) == Err::<Seq<char>, Seq<char>>(e),
    decreases groups.len() - i,
{
    if i < groups.len() {
        assert(groups.take(i + 1).drop_last() == groups.take(i));
        lemma_patches_err(root, old, files, groups, i + 1, e);
    } else {
        assert(groups.take(i) == groups);
    }
}

} // verus!
