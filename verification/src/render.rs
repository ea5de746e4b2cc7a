//! Agent-oriented text for navigation results.
use vstd::prelude::*;
use crate::model::{
    display_path, display_spec, filter_kind, forest_height, indent_spaces, kind_label,
    lemma_forest_height, node_height, push_indent, symbol_kind_name, DocumentSymbolNode, GotoTarget,
    LocationOutput, LocationRecord, OutlineOutput, ResolvedPosition, SymbolAtOutput,
    SymbolKindFilter, WorkspaceSymbolOutput, WorkspaceSymbolRecord,
};
use crate::text::{
    chars_of, contains, contains_seq, debug_quote, debug_quoted, decimal, decimal_chars, extend,
    eq_ascii_ci, eq_ignore_ascii_case, is_blank, join, keep, lemma_keep_step, lines, lines_of,
    lowercase, push_str, starts_with, string_of, to_lowercase, trim, views, is_digit, all_digits,
    lemma_decimal_parses,
};

verus! {

// ---------------------------------------------------------------------------
// Building blocks
// ---------------------------------------------------------------------------

/// `text` ending in a full stop: unchanged if it ends with one.
pub open spec fn sentence_spec(text: Seq<char>) -> Seq<char> {
    if text.len() > 0 && text.last() == '.' {
        text
    } else {
        text + "."@
    }
}

pub fn sentence(text: Vec<char>) -> (r: Vec<char>)
    ensures
        r@ == sentence_spec(text@),
{
    let mut text = text;
    if text.len() > 0 && text[text.len() - 1] == '.' {
        text
    } else {
        push_str(&mut text, ".");
        text
    }
}

/// A titled block: the title and then each line.
pub open spec fn section_spec(title: Seq<char>, lines: Seq<Seq<char>>) -> Seq<char> {
    join(seq![title] + lines, "\n"@)
}

pub fn section(title: &str, lines: Vec<Vec<char>>) -> (r: Vec<char>)
    ensures
        r@ == section_spec(title@, views(lines@)),
{
    let mut block: Vec<Vec<char>> = Vec::new();
    block.push(chars_of(title));
    let ghost first = block@;
    let mut lines = lines;
    let ghost rest = lines@;
    block.append(&mut lines);
    assert(views(block@) =~= seq![title@] + views(rest));
    let sep = chars_of("\n");
    crate::text::join_with(&block, sep.as_slice())
}

/// The sections that are not blank.
pub open spec fn nonblank(sections: Seq<Seq<char>>) -> Seq<Seq<char>> {
    keep(sections, |s: Seq<char>| trim(s).len() > 0)
}

/// The sections that are not blank, separated by blank lines.
pub open spec fn join_sections_spec(sections: Seq<Seq<char>>) -> Seq<char> {
    join(nonblank(sections), "\n\n"@)
}

pub fn join_sections(sections: Vec<Vec<char>>) -> (r: Vec<char>)
    ensures
        r@ == join_sections_spec(views(sections@)),
{
    let ghost all = views(sections@);
    let mut kept: Vec<Vec<char>> = Vec::new();
    let mut i: usize = 0;
    while i < sections.len()
        invariant
            i <= sections.len(),
            all == views(sections@),
            views(kept@) == nonblank(all.take(i as int)),
        decreases sections.len() - i,
    {
        let s = &sections[i];
        assert(all[i as int] == s@);
        proof {
            lemma_keep_step(all, |s: Seq<char>| trim(s).len() > 0, i as int);
        }
        let ghost before_kept = views(kept@);
        if !is_blank(s.as_slice()) {
            let copy = crate::text::slice_copy(s.as_slice(), 0, s.len());
            assert(copy@ =~= s@);
            kept.push(copy);
            assert(views(kept@) == before_kept.push(s@));
        }
        i += 1;
    }
    assert(all.take(sections.len() as int) == all);
    let sep = chars_of("\n\n");
    crate::text::join_with(&kept, sep.as_slice())
}

/// Two sections.
pub fn two(a: Vec<char>, b: Vec<char>) -> (r: Vec<Vec<char>>)
    ensures
        views(r@) == seq![a@, b@],
{
    let mut r: Vec<Vec<char>> = Vec::new();
    let ghost (x, y) = (a@, b@);
    r.push(a);
    r.push(b);
    assert(views(r@) =~= seq![x, y]);
    r
}

/// Three sections.
pub fn three(a: Vec<char>, b: Vec<char>, c: Vec<char>) -> (r: Vec<Vec<char>>)
    ensures
        views(r@) == seq![a@, b@, c@],
{
    let mut r: Vec<Vec<char>> = Vec::new();
    let ghost (x, y, z) = (a@, b@, c@);
    r.push(a);
    r.push(b);
    r.push(c);
    assert(views(r@) =~= seq![x, y, z]);
    r
}

/// `prefix`, the line number, ` | ` and the snippet.
pub open spec fn snippet_line_spec(prefix: Seq<char>, line: nat, snippet: Seq<char>) -> Seq<char> {
    prefix + decimal(line) + " | "@ + snippet
}

pub fn format_snippet_line(prefix: &str, line: usize, snippet: &[char]) -> (r: Vec<char>)
    ensures
        r@ == snippet_line_spec(prefix@, line as nat, snippet@),
{
    let mut out = chars_of(prefix);
    extend(&mut out, decimal_chars(line).as_slice());
    push_str(&mut out, " | ");
    extend(&mut out, snippet);
    out
}

/// Each line of `text` behind `prefix`.
pub open spec fn indent_block_spec(text: Seq<char>, prefix: Seq<char>) -> Seq<Seq<char>> {
    lines(text).map_values(|l: Seq<char>| prefix + l)
}

pub fn indent_block(text: &[char], prefix: &str) -> (r: Vec<Vec<char>>)
    ensures
        views(r@) == indent_block_spec(text@, prefix@),
{
    let ls = lines_of(text);
    let mut out: Vec<Vec<char>> = Vec::new();
    let mut i: usize = 0;
    while i < ls.len()
        invariant
            i <= ls.len(),
            views(ls@) == lines(text@),
            out.len() == i,
            forall|k: int| 0 <= k < i ==> #[trigger] out@[k]@ == prefix@ + ls@[k]@,
        decreases ls.len() - i,
    {
        let mut line = chars_of(prefix);
        extend(&mut line, ls[i].as_slice());
        out.push(line);
        i += 1;
    }
    assert(views(out@) =~= indent_block_spec(text@, prefix@)) by {
        assert forall|k: int| 0 <= k < out.len() implies views(out@)[k] == indent_block_spec(
            text@,
            prefix@,
        )[k] by {
            assert(views(ls@)[k] == ls@[k]@);
        }
    }
    out
}

// ---------------------------------------------------------------------------
// Positions
// ---------------------------------------------------------------------------

/// `file:line:column`, or `file:line` without a column, with the file shown
/// relative to the workspace root.
pub open spec fn workspace_position_spec(
    root: Seq<char>,
    file: Seq<char>,
    line: nat,
    column: Option<usize>,
) -> Seq<char> {
    match column {
        Some(c) => display_spec(root, file) + ":"@ + decimal(line) + ":"@ + decimal(c as nat),
        None => display_spec(root, file) + ":"@ + decimal(line),
    }
}

pub fn format_workspace_position(
    workspace_root: &str,
    file: &str,
    line: usize,
    column: Option<usize>,
) -> (r: Vec<char>)
    ensures
        r@ == workspace_position_spec(workspace_root@, file@, line as nat, column),
{
    let shown = display_path(workspace_root, file);
    let mut out = chars_of(shown.as_str());
    push_str(&mut out, ":");
    extend(&mut out, decimal_chars(line).as_slice());
    match column {
        Some(c) => {
            push_str(&mut out, ":");
            extend(&mut out, decimal_chars(c).as_slice());
        },
        None => {},
    }
    out
}

pub open spec fn requested_spec(root: Seq<char>, p: ResolvedPosition) -> Seq<char> {
    workspace_position_spec(root, p.file@, p.line as nat, Some(p.requested_column))
}

pub open spec fn resolved_spec(root: Seq<char>, p: ResolvedPosition) -> Seq<char> {
    workspace_position_spec(root, p.file@, p.line as nat, p.resolved_column)
}

pub open spec fn location_spec(root: Seq<char>, l: LocationRecord) -> Seq<char> {
    workspace_position_spec(
        root,
        l.file@,
        l.range.start.line as nat,
        Some(l.range.start.column),
    )
}

pub fn format_requested_position(workspace_root: &str, position: &ResolvedPosition) -> (r: Vec<
    char,
>)
    ensures
        r@ == requested_spec(workspace_root@, *position),
{
    format_workspace_position(
        workspace_root,
        position.file.as_str(),
        position.line,
        Some(position.requested_column),
    )
}

pub fn format_resolved_position(workspace_root: &str, position: &ResolvedPosition) -> (r: Vec<
    char,
>)
    ensures
        r@ == resolved_spec(workspace_root@, *position),
{
    format_workspace_position(
        workspace_root,
        position.file.as_str(),
        position.line,
        position.resolved_column,
    )
}

pub fn format_location(workspace_root: &str, location: &LocationRecord) -> (r: Vec<char>)
    ensures
        r@ == location_spec(workspace_root@, *location),
{
    format_workspace_position(
        workspace_root,
        location.file.as_str(),
        location.range.start.line,
        Some(location.range.start.column),
    )
}

/// The lines that say where a request was made: the requested position,
/// the resolved one when it differs, and the source line when there is one.
pub open spec fn position_context_lines(root: Seq<char>, p: ResolvedPosition) -> Seq<Seq<char>> {
    let first = seq!["Requested position: "@ + requested_spec(root, p)];
    let second = if p.resolved_column.is_some() && p.resolved_column != Some(p.requested_column) {
        seq!["Resolved position: "@ + resolved_spec(root, p)]
    } else {
        Seq::empty()
    };
    let third = match p.source_line {
        Some(src) => if src@.len() > 0 {
            seq!["Source"@, snippet_line_spec("  "@, p.line as nat, src@)]
        } else {
            Seq::empty()
        },
        None => Seq::empty(),
    };
    first + second + third
}

pub open spec fn position_context_spec(root: Seq<char>, p: ResolvedPosition) -> Seq<char> {
    join(position_context_lines(root, p), "\n"@)
}

pub fn position_context_section(workspace_root: &str, position: &ResolvedPosition) -> (r: Vec<
    char,
>)
    ensures
        r@ == position_context_spec(workspace_root@, *position),
{
    let mut lines: Vec<Vec<char>> = Vec::new();
    let mut first = chars_of("Requested position: ");
    extend(&mut first, format_requested_position(workspace_root, position).as_slice());
    lines.push(first);
    let ghost l1 = views(lines@);
    let differs = match position.resolved_column {
        Some(c) => c != position.requested_column,
        None => false,
    };
    if differs {
        let mut second = chars_of("Resolved position: ");
        extend(&mut second, format_resolved_position(workspace_root, position).as_slice());
        lines.push(second);
    }
    let ghost l2 = views(lines@);
    match &position.source_line {
        Some(src) => {
            if !src.as_str().is_empty() {
                lines.push(chars_of("Source"));
                let src_chars = chars_of(src.as_str());
                lines.push(format_snippet_line("  ", position.line, src_chars.as_slice()));
            }
        },
        None => {},
    }
    assert(views(lines@) =~= position_context_lines(workspace_root@, *position));
    let sep = chars_of("\n");
    crate::text::join_with(&lines, sep.as_slice())
}

// ---------------------------------------------------------------------------
// Labels
// ---------------------------------------------------------------------------

pub open spec fn goto_target_name_spec(t: GotoTarget) -> Seq<char> {
    match t {
        GotoTarget::Definition => "definition"@,
        GotoTarget::Declaration => "declaration"@,
        GotoTarget::Type => "type definition"@,
    }
}

pub fn goto_target_name(target: GotoTarget) -> (r: &'static str)
    ensures
        r@ == goto_target_name_spec(target),
{
    match target {
        GotoTarget::Definition => "definition",
        GotoTarget::Declaration => "declaration",
        GotoTarget::Type => "type definition",
    }
}

pub open spec fn goto_target_plural_spec(t: GotoTarget) -> Seq<char> {
    match t {
        GotoTarget::Definition => "definitions"@,
        GotoTarget::Declaration => "declarations"@,
        GotoTarget::Type => "type definitions"@,
    }
}

/// The singular and plural nouns for results of a goto target.
pub fn goto_target_labels(target: GotoTarget) -> (r: (&'static str, &'static str))
    ensures
        r.0@ == goto_target_name_spec(target),
        r.1@ == goto_target_plural_spec(target),
{
    match target {
        GotoTarget::Definition => ("definition", "definitions"),
        GotoTarget::Declaration => ("declaration", "declarations"),
        GotoTarget::Type => ("type definition", "type definitions"),
    }
}

pub open spec fn workspace_kind_name_spec(k: SymbolKindFilter) -> Seq<char> {
    match k {
        SymbolKindFilter::Class => "class"@,
        SymbolKindFilter::Function => "function"@,
        SymbolKindFilter::Method => "method"@,
    }
}

/// A kind filter keeps exactly the symbols that are shown with the filter's
/// own name: a symbol passes `--kind function` exactly when its kind is
/// rendered as `function`, `--kind method` when it is rendered as
/// `method`, and `--kind class` when it is rendered as `class`.
pub proof fn lemma_kind_filter_keeps_its_kind(f: SymbolKindFilter, kind: u64)
    ensures
        (kind == filter_kind(f)) <==> kind_label(kind) == workspace_kind_name_spec(f),
{
    reveal_strlit("unknown");
    reveal_strlit("file");
    reveal_strlit("module");
    reveal_strlit("namespace");
    reveal_strlit("package");
    reveal_strlit("class");
    reveal_strlit("method");
    reveal_strlit("property");
    reveal_strlit("field");
    reveal_strlit("constructor");
    reveal_strlit("enum");
    reveal_strlit("interface");
    reveal_strlit("function");
    reveal_strlit("variable");
    reveal_strlit("constant");
    reveal_strlit("string");
    reveal_strlit("number");
    reveal_strlit("boolean");
    reveal_strlit("array");
    reveal_strlit("object");
    reveal_strlit("key");
    reveal_strlit("null");
    reveal_strlit("enum-member");
    reveal_strlit("struct");
    reveal_strlit("event");
    reveal_strlit("operator");
    reveal_strlit("type-parameter");
    match f {
        SymbolKindFilter::Class => {
            assert("file"@.len() != "class"@.len());
            assert("module"@.len() != "class"@.len());
            assert("namespace"@.len() != "class"@.len());
            assert("package"@.len() != "class"@.len());
            assert("method"@.len() != "class"@.len());
            assert("property"@.len() != "class"@.len());
            assert("field"@[0] != "class"@[0]);
            assert("constructor"@.len() != "class"@.len());
            assert("enum"@.len() != "class"@.len());
            assert("interface"@.len() != "class"@.len());
            assert("function"@.len() != "class"@.len());
            assert("variable"@.len() != "class"@.len());
            assert("constant"@.len() != "class"@.len());
            assert("string"@.len() != "class"@.len());
            assert("number"@.len() != "class"@.len());
            assert("boolean"@.len() != "class"@.len());
            assert("array"@[0] != "class"@[0]);
            assert("object"@.len() != "class"@.len());
            assert("key"@.len() != "class"@.len());
            assert("null"@.len() != "class"@.len());
            assert("enum-member"@.len() != "class"@.len());
            assert("struct"@.len() != "class"@.len());
            assert("event"@[0] != "class"@[0]);
            assert("operator"@.len() != "class"@.len());
            assert("type-parameter"@.len() != "class"@.len());
            assert("unknown"@.len() != "class"@.len());
        },
        SymbolKindFilter::Function => {
            assert("file"@.len() != "function"@.len());
            assert("module"@.len() != "function"@.len());
            assert("namespace"@.len() != "function"@.len());
            assert("package"@.len() != "function"@.len());
            assert("class"@.len() != "function"@.len());
            assert("method"@.len() != "function"@.len());
            assert("property"@[0] != "function"@[0]);
            assert("field"@.len() != "function"@.len());
            assert("constructor"@.len() != "function"@.len());
            assert("enum"@.len() != "function"@.len());
            assert("interface"@.len() != "function"@.len());
            assert("variable"@[0] != "function"@[0]);
            assert("constant"@[0] != "function"@[0]);
            assert("string"@.len() != "function"@.len());
            assert("number"@.len() != "function"@.len());
            assert("boolean"@.len() != "function"@.len());
            assert("array"@.len() != "function"@.len());
            assert("object"@.len() != "function"@.len());
            assert("key"@.len() != "function"@.len());
            assert("null"@.len() != "function"@.len());
            assert("enum-member"@.len() != "function"@.len());
            assert("struct"@.len() != "function"@.len());
            assert("event"@.len() != "function"@.len());
            assert("operator"@[0] != "function"@[0]);
            assert("type-parameter"@.len() != "function"@.len());
            assert("unknown"@.len() != "function"@.len());
        },
        SymbolKindFilter::Method => {
            assert("file"@.len() != "method"@.len());
            assert("module"@[1] != "method"@[1]);
            assert("namespace"@.len() != "method"@.len());
            assert("package"@.len() != "method"@.len());
            assert("class"@.len() != "method"@.len());
            assert("property"@.len() != "method"@.len());
            assert("field"@.len() != "method"@.len());
            assert("constructor"@.len() != "method"@.len());
            assert("enum"@.len() != "method"@.len());
            assert("interface"@.len() != "method"@.len());
            assert("function"@.len() != "method"@.len());
            assert("variable"@.len() != "method"@.len());
            assert("constant"@.len() != "method"@.len());
            assert("string"@[0] != "method"@[0]);
            assert("number"@[0] != "method"@[0]);
            assert("boolean"@.len() != "method"@.len());
            assert("array"@.len() != "method"@.len());
            assert("object"@[0] != "method"@[0]);
            assert("key"@.len() != "method"@.len());
            assert("null"@.len() != "method"@.len());
            assert("enum-member"@.len() != "method"@.len());
            assert("struct"@[0] != "method"@[0]);
            assert("event"@.len() != "method"@.len());
            assert("operator"@.len() != "method"@.len());
            assert("type-parameter"@.len() != "method"@.len());
            assert("unknown"@.len() != "method"@.len());
        },
    }
}

pub fn workspace_kind_name(kind: SymbolKindFilter) -> (r: &'static str)
    ensures
        r@ == workspace_kind_name_spec(kind),
{
    match kind {
        SymbolKindFilter::Class => "class",
        SymbolKindFilter::Function => "function",
        SymbolKindFilter::Method => "method",
    }
}

/// How many results there are: `1 thing`, `n things`, or `k shown of n
/// things` when not all are shown.
pub open spec fn summary_count_spec(
    shown: nat,
    total: nat,
    singular: Seq<char>,
    plural: Seq<char>,
) -> Seq<char> {
    if shown == total {
        if total == 1 {
            "1 "@ + singular
        } else {
            decimal(total) + " "@ + plural
        }
    } else {
        decimal(shown) + " shown of "@ + decimal(total) + " "@ + plural
    }
}

pub fn format_summary_count(shown: usize, total: usize, singular: &str, plural: &str) -> (r: Vec<
    char,
>)
    ensures
        r@ == summary_count_spec(shown as nat, total as nat, singular@, plural@),
{
    if shown == total {
        if total == 1 {
            let mut out = chars_of("1 ");
            push_str(&mut out, singular);
            out
        } else {
            let mut out = decimal_chars(total);
            push_str(&mut out, " ");
            push_str(&mut out, plural);
            out
        }
    } else {
        let mut out = decimal_chars(shown);
        push_str(&mut out, " shown of ");
        extend(&mut out, decimal_chars(total).as_slice());
        push_str(&mut out, " ");
        push_str(&mut out, plural);
        out
    }
}

/// A numeral followed by text that starts with something other than a
/// digit can be split back into the number and the text.
proof fn lemma_numeral_split(a: usize, c: usize, x: Seq<char>, y: Seq<char>)
    requires
        decimal(a as nat) + x == decimal(c as nat) + y,
        x.len() > 0,
        y.len() > 0,
        !is_digit(x[0]),
        !is_digit(y[0]),
    ensures
        a == c,
        x == y,
{
    lemma_decimal_parses(a);
    lemma_decimal_parses(c);
    let da = decimal(a as nat);
    let dc = decimal(c as nat);
    if da.len() < dc.len() {
        assert((da + x)[da.len() as int] == x[0]);
        assert((dc + y)[da.len() as int] == dc[da.len() as int]);
        assert(is_digit(dc[da.len() as int]));
    } else if dc.len() < da.len() {
        assert((dc + y)[dc.len() as int] == y[0]);
        assert((da + x)[dc.len() as int] == da[dc.len() as int]);
        assert(is_digit(da[dc.len() as int]));
    }
    assert(da =~= (da + x).subrange(0, da.len() as int));
    assert(dc =~= (dc + y).subrange(0, dc.len() as int));
    assert(x =~= (da + x).skip(da.len() as int));
    assert(y =~= (dc + y).skip(dc.len() as int));
}

/// A count of all the results tells how many there are: two such counts of
/// the same things are the same text only for the same number.
pub proof fn lemma_summary_count_tells_total(
    total1: usize,
    total2: usize,
    singular: Seq<char>,
    plural: Seq<char>,
)
    requires
        summary_count_spec(total1 as nat, total1 as nat, singular, plural) == summary_count_spec(
            total2 as nat,
            total2 as nat,
            singular,
            plural,
        ),
    ensures
        total1 == total2,
{
    reveal_strlit("1 ");
    reveal_strlit(" ");
    let sp = " "@;
    assert(decimal(1) =~= seq!['1']);
    let w1 = if total1 == 1 {
        sp + singular
    } else {
        sp + plural
    };
    let w2 = if total2 == 1 {
        sp + singular
    } else {
        sp + plural
    };
    assert(summary_count_spec(total1 as nat, total1 as nat, singular, plural) =~= decimal(
        total1 as nat,
    ) + w1);
    assert(summary_count_spec(total2 as nat, total2 as nat, singular, plural) =~= decimal(
        total2 as nat,
    ) + w2);
    assert(w1[0] == ' ');
    assert(w2[0] == ' ');
    lemma_numeral_split(total1, total2, w1, w2);
}

/// A count of part of the results tells both how many are shown and how
/// many were found: two such counts of the same things are the same text
/// only when both numbers agree.
pub proof fn lemma_summary_count_tells_both(
    shown1: usize,
    total1: usize,
    shown2: usize,
    total2: usize,
    singular: Seq<char>,
    plural: Seq<char>,
)
    requires
        shown1 != total1,
        shown2 != total2,
        summary_count_spec(shown1 as nat, total1 as nat, singular, plural) == summary_count_spec(
            shown2 as nat,
            total2 as nat,
            singular,
            plural,
        ),
    ensures
        shown1 == shown2,
        total1 == total2,
{
    reveal_strlit(" shown of ");
    reveal_strlit(" ");
    let mid = " shown of "@;
    let sp = " "@;
    let t1 = summary_count_spec(shown1 as nat, total1 as nat, singular, plural);
    let t2 = summary_count_spec(shown2 as nat, total2 as nat, singular, plural);
    let r1 = mid + decimal(total1 as nat) + sp + plural;
    let r2 = mid + decimal(total2 as nat) + sp + plural;
    assert(t1 =~= decimal(shown1 as nat) + r1);
    assert(t2 =~= decimal(shown2 as nat) + r2);
    assert(r1[0] == ' ');
    assert(r2[0] == ' ');
    lemma_numeral_split(shown1, shown2, r1, r2);
    let q1 = decimal(total1 as nat) + (sp + plural);
    let q2 = decimal(total2 as nat) + (sp + plural);
    assert(q1 =~= r1.skip(mid.len() as int));
    assert(q2 =~= r2.skip(mid.len() as int));
    assert((sp + plural)[0] == ' ');
    lemma_numeral_split(total1, total2, sp + plural, sp + plural);
}

// ---------------------------------------------------------------------------
// Summaries and context
// ---------------------------------------------------------------------------

/// The answer when no location was found.
pub open spec fn no_location_spec(p: LocationOutput) -> Seq<char> {
    let requested = requested_spec(p.workspace_root@, p.position);
    match p.position.symbol {
        Some(sym) => match p.target {
            Some(t) => sentence_spec(
                "no "@ + goto_target_name_spec(t) + " found for symbol "@ + debug_quoted(sym.name@)
                    + " at "@ + requested,
            ),
            None => sentence_spec(
                "no usages found for symbol "@ + debug_quoted(sym.name@) + " at "@ + requested,
            ),
        },
        None => sentence_spec("no symbol found at "@ + requested),
    }
}

pub fn no_location_result(payload: &LocationOutput) -> (r: Vec<char>)
    ensures
        r@ == no_location_spec(*payload),
{
    let requested = format_requested_position(payload.workspace_root.as_str(), &payload.position);
    match &payload.position.symbol {
        Some(symbol) => {
            let name = debug_quote(chars_of(symbol.name.as_str()).as_slice());
            match payload.target {
                Some(target) => {
                    let mut t = chars_of("no ");
                    push_str(&mut t, goto_target_name(target));
                    push_str(&mut t, " found for symbol ");
                    extend(&mut t, name.as_slice());
                    push_str(&mut t, " at ");
                    extend(&mut t, requested.as_slice());
                    sentence(t)
                },
                None => {
                    let mut t = chars_of("no usages found for symbol ");
                    extend(&mut t, name.as_slice());
                    push_str(&mut t, " at ");
                    extend(&mut t, requested.as_slice());
                    sentence(t)
                },
            }
        },
        None => {
            let mut t = chars_of("no symbol found at ");
            extend(&mut t, requested.as_slice());
            sentence(t)
        },
    }
}

/// The answer line of goto and usage results.
pub open spec fn location_summary_spec(shown: nat, total: nat, p: LocationOutput) -> Seq<char> {
    if shown == 0 {
        no_location_spec(p)
    } else {
        match p.position.symbol {
            Some(sym) => match p.target {
                Some(t) => sentence_spec(
                    summary_count_spec(
                        shown,
                        total,
                        goto_target_name_spec(t),
                        goto_target_plural_spec(t),
                    ) + " for "@ + sym.name@,
                ),
                None => sentence_spec(
                    summary_count_spec(shown, total, "usage"@, "usages"@) + " of "@ + sym.name@,
                ),
            },
            None => sentence_spec(summary_count_spec(shown, total, "location"@, "locations"@)),
        }
    }
}

pub fn location_summary(shown: usize, total: usize, payload: &LocationOutput) -> (r: Vec<char>)
    ensures
        r@ == location_summary_spec(shown as nat, total as nat, *payload),
{
    if shown == 0 {
        return no_location_result(payload);
    }
    match &payload.position.symbol {
        Some(symbol) => match payload.target {
            Some(target) => {
                let (singular, plural) = goto_target_labels(target);
                let mut t = format_summary_count(shown, total, singular, plural);
                push_str(&mut t, " for ");
                push_str(&mut t, symbol.name.as_str());
                sentence(t)
            },
            None => {
                let mut t = format_summary_count(shown, total, "usage", "usages");
                push_str(&mut t, " of ");
                push_str(&mut t, symbol.name.as_str());
                sentence(t)
            },
        },
        None => sentence(format_summary_count(shown, total, "location", "locations")),
    }
}

/// The answer line of a workspace symbol search.
pub open spec fn workspace_symbol_summary_spec(shown: nat, total: nat, query: Seq<char>) -> Seq<
    char,
> {
    if shown == 0 {
        sentence_spec("no symbols found for query "@ + debug_quoted(query))
    } else {
        sentence_spec(
            summary_count_spec(shown, total, "symbol"@, "symbols"@) + " for query "@
                + debug_quoted(query),
        )
    }
}

pub fn workspace_symbol_summary(shown: usize, total: usize, query: &str) -> (r: Vec<char>)
    ensures
        r@ == workspace_symbol_summary_spec(shown as nat, total as nat, query@),
{
    let quoted = debug_quote(chars_of(query).as_slice());
    if shown == 0 {
        let mut t = chars_of("no symbols found for query ");
        extend(&mut t, quoted.as_slice());
        return sentence(t);
    }
    let mut t = format_summary_count(shown, total, "symbol", "symbols");
    push_str(&mut t, " for query ");
    extend(&mut t, quoted.as_slice());
    sentence(t)
}

/// The answer line of an inspection.
pub open spec fn symbol_at_summary_spec(root: Seq<char>, p: SymbolAtOutput) -> Seq<char> {
    match p.symbol {
        Some(sym) => match sym.kind {
            Some(k) => sentence_spec(
                sym.name@ + " is a "@ + kind_label(k) + " at "@ + resolved_spec(root, p.position),
            ),
            None => sentence_spec(sym.name@ + " is at "@ + resolved_spec(root, p.position)),
        },
        None => sentence_spec("no symbol found at "@ + requested_spec(root, p.position)),
    }
}

pub fn symbol_at_summary(workspace_root: &str, payload: &SymbolAtOutput) -> (r: Vec<char>)
    ensures
        r@ == symbol_at_summary_spec(workspace_root@, *payload),
{
    match &payload.symbol {
        Some(symbol) => {
            let resolved = format_resolved_position(workspace_root, &payload.position);
            let mut t = chars_of(symbol.name.as_str());
            match symbol.kind {
                Some(kind) => {
                    push_str(&mut t, " is a ");
                    push_str(&mut t, symbol_kind_name(kind));
                    push_str(&mut t, " at ");
                },
                None => {
                    push_str(&mut t, " is at ");
                },
            }
            extend(&mut t, resolved.as_slice());
            sentence(t)
        },
        None => {
            let mut t = chars_of("no symbol found at ");
            extend(&mut t, format_requested_position(workspace_root, &payload.position).as_slice());
            sentence(t)
        },
    }
}

/// The answer line of an outline.
pub open spec fn outline_summary_spec(
    shown: nat,
    total: nat,
    root: Seq<char>,
    file: Seq<char>,
) -> Seq<char> {
    if shown == 0 {
        sentence_spec("no symbols found in "@ + display_spec(root, file))
    } else {
        sentence_spec(
            summary_count_spec(shown, total, "top-level symbol"@, "top-level symbols"@) + " in "@
                + display_spec(root, file),
        )
    }
}

pub fn outline_summary(shown: usize, total: usize, workspace_root: &str, file: &str) -> (r: Vec<
    char,
>)
    ensures
        r@ == outline_summary_spec(shown as nat, total as nat, workspace_root@, file@),
{
    let shown_file = display_path(workspace_root, file);
    if shown == 0 {
        let mut t = chars_of("no symbols found in ");
        push_str(&mut t, shown_file.as_str());
        return sentence(t);
    }
    let mut t = format_summary_count(shown, total, "top-level symbol", "top-level symbols");
    push_str(&mut t, " in ");
    push_str(&mut t, shown_file.as_str());
    sentence(t)
}

/// The context of a workspace symbol search: the query, and the kind filter.
pub open spec fn query_context_spec(query: Seq<char>, kind_filter: Option<SymbolKindFilter>) -> Seq<
    char,
> {
    let first = sentence_spec("Query "@ + debug_quoted(query));
    match kind_filter {
        Some(k) => first + "\n"@ + "Filtered to "@ + workspace_kind_name_spec(k) + " symbols."@,
        None => first,
    }
}

pub fn query_context_section(query: &str, kind_filter: Option<SymbolKindFilter>) -> (r: Vec<char>)
    ensures
        r@ == query_context_spec(query@, kind_filter),
{
    let mut t = chars_of("Query ");
    extend(&mut t, debug_quote(chars_of(query).as_slice()).as_slice());
    let mut out = sentence(t);
    match kind_filter {
        Some(k) => {
            push_str(&mut out, "\n");
            push_str(&mut out, "Filtered to ");
            push_str(&mut out, workspace_kind_name(k));
            push_str(&mut out, " symbols.");
        },
        None => {},
    }
    out
}

/// The context of an outline: the file and the depth shown.
pub open spec fn outline_context_spec(p: OutlineOutput) -> Seq<char> {
    let depth = match p.depth {
        Some(d) => decimal(d as nat),
        None => "full"@,
    };
    sentence_spec("File "@ + debug_quoted(display_spec(p.workspace_root@, p.file@))) + "\n"@
        + sentence_spec("Depth "@ + depth)
}

pub fn outline_context_section(payload: &OutlineOutput) -> (r: Vec<char>)
    ensures
        r@ == outline_context_spec(*payload),
{
    let shown = display_path(payload.workspace_root.as_str(), payload.file.as_str());
    let mut file_line = chars_of("File ");
    extend(&mut file_line, debug_quote(chars_of(shown.as_str()).as_slice()).as_slice());
    let mut depth_line = chars_of("Depth ");
    match payload.depth {
        Some(d) => extend(&mut depth_line, decimal_chars(d).as_slice()),
        None => push_str(&mut depth_line, "full"),
    }
    let mut out = sentence(file_line);
    push_str(&mut out, "\n");
    extend(&mut out, sentence(depth_line).as_slice());
    out
}

// ---------------------------------------------------------------------------
// Ranking workspace symbols
// ---------------------------------------------------------------------------

/// The symbols named exactly `query`.
pub open spec fn exact_matches(q: Seq<char>, syms: Seq<&WorkspaceSymbolRecord>) -> Seq<
    &WorkspaceSymbolRecord,
> {
    keep(syms, |s: &WorkspaceSymbolRecord| s.name@ == q)
}

/// The symbols named `query` up to ASCII case.
pub open spec fn ascii_matches(q: Seq<char>, syms: Seq<&WorkspaceSymbolRecord>) -> Seq<
    &WorkspaceSymbolRecord,
> {
    keep(syms, |s: &WorkspaceSymbolRecord| eq_ascii_ci(s.name@, q))
}

/// Whether the lower-cased name starts with the lower-cased query.
pub open spec fn prefix_match(q: Seq<char>, s: &WorkspaceSymbolRecord) -> bool {
    lowercase(q).is_prefix_of(lowercase(s.name@))
}

/// Whether the lower-cased name contains the lower-cased query.
pub open spec fn substring_match(q: Seq<char>, s: &WorkspaceSymbolRecord) -> bool {
    contains_seq(lowercase(s.name@), lowercase(q))
}

/// The ranking of workspace symbols for a query: the exact matches if there
/// are any; else the matches up to ASCII case if there are any; else all
/// symbols, those whose lower-cased name starts with the lower-cased query
/// first, then those that contain it, then the rest, each group in its
/// original order.
pub open spec fn select_spec(q: Seq<char>, syms: Seq<&WorkspaceSymbolRecord>) -> Seq<
    &WorkspaceSymbolRecord,
> {
    if exact_matches(q, syms).len() > 0 {
        exact_matches(q, syms)
    } else if ascii_matches(q, syms).len() > 0 {
        ascii_matches(q, syms)
    } else {
        keep(syms, |s: &WorkspaceSymbolRecord| prefix_match(q, s)) + keep(
            syms,
            |s: &WorkspaceSymbolRecord| !prefix_match(q, s) && substring_match(q, s),
        ) + keep(syms, |s: &WorkspaceSymbolRecord| !prefix_match(q, s) && !substring_match(q, s))
    }
}

fn same_name(a: &str, b: &str) -> (r: bool)
    ensures
        r == (a@ == b@),
{
    let x = chars_of(a);
    let y = chars_of(b);
    if x.len() != y.len() {
        return false;
    }
    let r = starts_with(x.as_slice(), y.as_slice());
    assert(r ==> x@ =~= y@);
    r
}

/// The symbols named exactly `query`, in order.
pub fn exact_symbol_matches<'a>(query: &str, symbols: &Vec<&'a WorkspaceSymbolRecord>) -> (r: Vec<
    &'a WorkspaceSymbolRecord,
>)
    ensures
        r@ == exact_matches(query@, symbols@),
{
    let ghost syms = symbols@;
    let mut exact: Vec<&WorkspaceSymbolRecord> = Vec::new();
    let mut i: usize = 0;
    while i < symbols.len()
        invariant
            i <= symbols.len(),
            syms == symbols@,
            exact@ == keep(syms.take(i as int), |s: &WorkspaceSymbolRecord| s.name@ == query@),
        decreases symbols.len() - i,
    {
        proof {
            lemma_keep_step(syms, |s: &WorkspaceSymbolRecord| s.name@ == query@, i as int);
        }
        if same_name(symbols[i].name.as_str(), query) {
            exact.push(symbols[i]);
        }
        i += 1;
    }
    assert(syms.take(symbols.len() as int) == syms);
    exact
}

/// The symbols named `query` up to ASCII case, in order.
pub fn ascii_symbol_matches<'a>(query: &str, symbols: &Vec<&'a WorkspaceSymbolRecord>) -> (r: Vec<
    &'a WorkspaceSymbolRecord,
>)
    ensures
        r@ == ascii_matches(query@, symbols@),
{
    let q = chars_of(query);
    let ghost syms = symbols@;
    let mut folded: Vec<&WorkspaceSymbolRecord> = Vec::new();
    let mut i: usize = 0;
    while i < symbols.len()
        invariant
            i <= symbols.len(),
            syms == symbols@,
            q@ == query@,
            folded@ == keep(
                syms.take(i as int),
                |s: &WorkspaceSymbolRecord| eq_ascii_ci(s.name@, query@),
            ),
        decreases symbols.len() - i,
    {
        proof {
            lemma_keep_step(syms, |s: &WorkspaceSymbolRecord| eq_ascii_ci(s.name@, query@), i as int);
        }
        let name = chars_of(symbols[i].name.as_str());
        if eq_ignore_ascii_case(name.as_slice(), q.as_slice()) {
            folded.push(symbols[i]);
        }
        i += 1;
    }
    assert(syms.take(symbols.len() as int) == syms);
    folded
}

/// The symbols whose lower-cased name, given alongside in `names`,
/// satisfies `f`, in order.
pub open spec fn pick_folded(
    syms: Seq<&WorkspaceSymbolRecord>,
    names: Seq<Seq<char>>,
    f: spec_fn(Seq<char>) -> bool,
) -> Seq<&WorkspaceSymbolRecord>
    decreases syms.len(),
{
    if syms.len() == 0 || names.len() == 0 {
        Seq::empty()
    } else {
        let k = pick_folded(syms.drop_last(), names.drop_last(), f);
        if f(names.last()) {
            k.push(syms.last())
        } else {
            k
        }
    }
}

/// The ranking of symbols none of which matches the query exactly or up to
/// ASCII case, from the lower-cased query `lq` and the lower-cased names:
/// those whose name starts with the query, then those whose name contains
/// it, then the rest, each group in its original order.
pub open spec fn folded_rank_spec(
    lq: Seq<char>,
    syms: Seq<&WorkspaceSymbolRecord>,
    names: Seq<Seq<char>>,
) -> Seq<&WorkspaceSymbolRecord> {
    pick_folded(syms, names, |n: Seq<char>| lq.is_prefix_of(n)) + pick_folded(
        syms,
        names,
        |n: Seq<char>| !lq.is_prefix_of(n) && contains_seq(n, lq),
    ) + pick_folded(syms, names, |n: Seq<char>| !lq.is_prefix_of(n) && !contains_seq(n, lq))
}

proof fn lemma_pick_step(
    syms: Seq<&WorkspaceSymbolRecord>,
    names: Seq<Seq<char>>,
    f: spec_fn(Seq<char>) -> bool,
    i: int,
)
    requires
        0 <= i < syms.len(),
        syms.len() == names.len(),
    ensures
        pick_folded(syms.take(i + 1), names.take(i + 1), f) == if f(names[i]) {
            pick_folded(syms.take(i), names.take(i), f).push(syms[i])
        } else {
            pick_folded(syms.take(i), names.take(i), f)
        },
{
    assert(syms.take(i + 1).drop_last() == syms.take(i));
    assert(names.take(i + 1).drop_last() == names.take(i));
    assert(syms.take(i + 1).last() == syms[i]);
    assert(names.take(i + 1).last() == names[i]);
}

/// Picking by the lower-cased names given alongside is picking by the
/// lower-cased names themselves.
proof fn lemma_pick_folded(syms: Seq<&WorkspaceSymbolRecord>, f: spec_fn(Seq<char>) -> bool)
    ensures
        pick_folded(
            syms,
            syms.map_values(|s: &WorkspaceSymbolRecord| lowercase(s.name@)),
            f,
        ) == keep(syms, |s: &WorkspaceSymbolRecord| f(lowercase(s.name@))),
    decreases syms.len(),
{
    if syms.len() > 0 {
        let names = syms.map_values(|s: &WorkspaceSymbolRecord| lowercase(s.name@));
        lemma_pick_folded(syms.drop_last(), f);
        assert(names.drop_last() =~= syms.drop_last().map_values(
            |s: &WorkspaceSymbolRecord| lowercase(s.name@),
        ));
    }
}

/// Ranks symbols none of which matches the query exactly or up to ASCII
/// case, given the lower-cased query and the lower-cased name of each
/// symbol, as `folded_rank_spec` says.
pub fn rank_folded_symbols<'a>(
    lowered_query: &[char],
    symbols: &Vec<&'a WorkspaceSymbolRecord>,
    lowered_names: &Vec<Vec<char>>,
) -> (r: Vec<&'a WorkspaceSymbolRecord>)
    requires
        lowered_names.len() == symbols.len(),
    ensures
        r@ == folded_rank_spec(lowered_query@, symbols@, views(lowered_names@)),
{
    let ghost syms = symbols@;
    let ghost names = views(lowered_names@);
    let ghost lq = lowered_query@;
    let ghost fp = |n: Seq<char>| lq.is_prefix_of(n);
    let ghost fs = |n: Seq<char>| !lq.is_prefix_of(n) && contains_seq(n, lq);
    let ghost fo = |n: Seq<char>| !lq.is_prefix_of(n) && !contains_seq(n, lq);
    let mut prefix: Vec<&WorkspaceSymbolRecord> = Vec::new();
    let mut substring: Vec<&WorkspaceSymbolRecord> = Vec::new();
    let mut other: Vec<&WorkspaceSymbolRecord> = Vec::new();
    let mut i: usize = 0;
    assert(syms.take(0) =~= Seq::<&WorkspaceSymbolRecord>::empty());
    while i < symbols.len()
        invariant
            i <= symbols.len(),
            syms == symbols@,
            names == views(lowered_names@),
            lq == lowered_query@,
            lowered_names.len() == symbols.len(),
            fp == (|n: Seq<char>| lq.is_prefix_of(n)),
            fs == (|n: Seq<char>| !lq.is_prefix_of(n) && contains_seq(n, lq)),
            fo == (|n: Seq<char>| !lq.is_prefix_of(n) && !contains_seq(n, lq)),
            prefix@ == pick_folded(syms.take(i as int), names.take(i as int), fp),
            substring@ == pick_folded(syms.take(i as int), names.take(i as int), fs),
            other@ == pick_folded(syms.take(i as int), names.take(i as int), fo),
        decreases symbols.len() - i,
    {
        proof {
            lemma_pick_step(syms, names, fp, i as int);
            lemma_pick_step(syms, names, fs, i as int);
            lemma_pick_step(syms, names, fo, i as int);
        }
        assert(names[i as int] == lowered_names@[i as int]@);
        let name = &lowered_names[i];
        if starts_with(name.as_slice(), lowered_query) {
            prefix.push(symbols[i]);
        } else if contains(name.as_slice(), lowered_query) {
            substring.push(symbols[i]);
        } else {
            other.push(symbols[i]);
        }
        i += 1;
    }
    assert(syms.take(symbols.len() as int) == syms);
    assert(names.take(symbols.len() as int) == names);
    prefix.append(&mut substring);
    prefix.append(&mut other);
    prefix
}

/// Orders workspace symbols for a query as `select_spec` says.
pub fn select_workspace_symbols<'a>(
    query: &str,
    symbols: Vec<&'a WorkspaceSymbolRecord>,
) -> (r: Vec<&'a WorkspaceSymbolRecord>)
    ensures
        r@ == select_spec(query@, symbols@),
{
    let q = chars_of(query);
    let ghost syms = symbols@;
    let exact = exact_symbol_matches(query, &symbols);
    if exact.len() > 0 {
        return exact;
    }
    let folded = ascii_symbol_matches(query, &symbols);
    if folded.len() > 0 {
        return folded;
    }
    let lq = to_lowercase(q.as_slice());
    let mut names: Vec<Vec<char>> = Vec::new();
    let mut i: usize = 0;
    while i < symbols.len()
        invariant
            i <= symbols.len(),
            syms == symbols@,
            names.len() == i,
            forall|k: int| 0 <= k < i ==> (#[trigger] names@[k])@ == lowercase(syms[k].name@),
        decreases symbols.len() - i,
    {
        names.push(to_lowercase(chars_of(symbols[i].name.as_str()).as_slice()));
        i += 1;
    }
    let ghost lqv = lowercase(query@);
    proof {
        assert(views(names@) =~= syms.map_values(|s: &WorkspaceSymbolRecord| lowercase(s.name@)));
        let fp = |n: Seq<char>| lqv.is_prefix_of(n);
        let fs = |n: Seq<char>| !lqv.is_prefix_of(n) && contains_seq(n, lqv);
        let fo = |n: Seq<char>| !lqv.is_prefix_of(n) && !contains_seq(n, lqv);
        lemma_pick_folded(syms, fp);
        lemma_pick_folded(syms, fs);
        lemma_pick_folded(syms, fo);
        assert((|s: &WorkspaceSymbolRecord| fp(lowercase(s.name@))) =~= (|s: &WorkspaceSymbolRecord|
            prefix_match(query@, s)));
        assert((|s: &WorkspaceSymbolRecord| fs(lowercase(s.name@))) =~= (|s: &WorkspaceSymbolRecord|
            !prefix_match(query@, s) && substring_match(query@, s)));
        assert((|s: &WorkspaceSymbolRecord| fo(lowercase(s.name@))) =~= (|s: &WorkspaceSymbolRecord|
            !prefix_match(query@, s) && !substring_match(query@, s)));
    }
    rank_folded_symbols(lq.as_slice(), &symbols, &names)
}

// ---------------------------------------------------------------------------
// Outline trees
// ---------------------------------------------------------------------------

/// The outline line of one symbol.
pub open spec fn outline_line_spec(node: DocumentSymbolNode, indent: nat) -> Seq<char> {
    indent_spaces(indent) + "- "@ + node.name@ + " ["@ + kind_label(node.kind) + "] @ "@ + decimal(
        node.range.start.line as nat,
    ) + ":"@ + decimal(node.range.start.column as nat)
}

/// The outline lines of a symbol followed by those of its children, one
/// step deeper.
pub open spec fn outline_tree_spec(node: DocumentSymbolNode, indent: nat) -> Seq<Seq<char>>
    decreases node,
{
    seq![outline_line_spec(node, indent)] + outline_forest_spec(node.children@, indent + 1)
}

/// The outline lines of sibling symbols, one after the other.
pub open spec fn outline_forest_spec(nodes: Seq<DocumentSymbolNode>, indent: nat) -> Seq<
    Seq<char>,
>
    decreases nodes,
{
    if nodes.len() == 0 {
        Seq::empty()
    } else {
        outline_forest_spec(nodes.drop_last(), indent) + outline_tree_spec(nodes.last(), indent)
    }
}

/// `n` spaces.
pub open spec fn spaces(n: nat) -> Seq<char> {
    Seq::new(n, |i: int| ' ')
}

/// Every line of the outline of sibling symbols rendered at depth `d`
/// starts with 2d spaces.
proof fn lemma_outline_forest_indent(nodes: Seq<DocumentSymbolNode>, d: nat)
    ensures
        forall|j: int|
            0 <= j < outline_forest_spec(nodes, d).len() ==> spaces(2 * d).is_prefix_of(
                #[trigger] outline_forest_spec(nodes, d)[j],
            ),
    decreases nodes,
{
    if nodes.len() > 0 {
        let a = outline_forest_spec(nodes.drop_last(), d);
        let last = nodes.last();
        lemma_outline_forest_indent(nodes.drop_last(), d);
        lemma_outline_forest_indent(last.children@, d + 1);
        let line = outline_line_spec(last, d);
        let kids = outline_forest_spec(last.children@, d + 1);
        let t = outline_forest_spec(nodes, d);
        assert(outline_tree_spec(last, d) == seq![line] + kids);
        assert(t == a + outline_tree_spec(last, d));
        assert(line =~= spaces(2 * d) + ("- "@ + last.name@ + " ["@ + kind_label(last.kind)
            + "] @ "@ + decimal(last.range.start.line as nat) + ":"@ + decimal(
            last.range.start.column as nat,
        )));
        assert forall|j: int| 0 <= j < t.len() implies spaces(2 * d).is_prefix_of(#[trigger] t[j]) by {
            if j < a.len() {
                assert(t[j] == a[j]);
            } else if j == a.len() {
                assert(t[j] == line);
                assert(line.subrange(0, 2 * d as int) =~= spaces(2 * d));
            } else {
                let k = j - a.len() - 1;
                assert(t[j] == kids[k]);
                assert(spaces(2 * (d + 1)).is_prefix_of(kids[k]));
                assert(kids[k].subrange(0, 2 * d as int) =~= spaces(2 * d));
            }
        }
    }
}

/// In a rendered outline each symbol is indented two spaces per level of
/// nesting: the line of a symbol rendered at depth `d` is 2d spaces and
/// `- `, and every line under it, those of the symbols nested in it,
/// starts with two spaces more.
pub proof fn lemma_outline_nesting(node: DocumentSymbolNode, d: nat)
    ensures
        outline_tree_spec(node, d).len() >= 1,
        (spaces(2 * d) + "- "@).is_prefix_of(outline_tree_spec(node, d)[0]),
        forall|j: int|
            1 <= j < outline_tree_spec(node, d).len() ==> spaces(2 * d + 2).is_prefix_of(
                #[trigger] outline_tree_spec(node, d)[j],
            ),
{
    let t = outline_tree_spec(node, d);
    let line = outline_line_spec(node, d);
    let kids = outline_forest_spec(node.children@, d + 1);
    lemma_outline_forest_indent(node.children@, d + 1);
    assert(t == seq![line] + kids);
    let head = spaces(2 * d) + "- "@;
    assert(line =~= head + (node.name@ + " ["@ + kind_label(node.kind) + "] @ "@ + decimal(
        node.range.start.line as nat,
    ) + ":"@ + decimal(node.range.start.column as nat)));
    assert(line.subrange(0, head.len() as int) =~= head);
    assert forall|j: int| 1 <= j < t.len() implies spaces(2 * d + 2).is_prefix_of(#[trigger] t[j]) by {
        assert(t[j] == kids[j - 1]);
        assert(spaces(2 * (d + 1)) == spaces(2 * d + 2));
    }
}

pub fn format_outline_tree(symbol: &DocumentSymbolNode, indent: usize) -> (r: Vec<Vec<char>>)
    requires
        indent + node_height(*symbol) <= usize::MAX / 2,
    ensures
        views(r@) == outline_tree_spec(*symbol, indent as nat),
    decreases symbol,
{
    let mut line: Vec<char> = Vec::new();
    push_indent(&mut line, indent);
    push_str(&mut line, "- ");
    push_str(&mut line, symbol.name.as_str());
    push_str(&mut line, " [");
    push_str(&mut line, symbol_kind_name(symbol.kind));
    push_str(&mut line, "] @ ");
    extend(&mut line, decimal_chars(symbol.range.start.line).as_slice());
    push_str(&mut line, ":");
    extend(&mut line, decimal_chars(symbol.range.start.column).as_slice());
    let mut lines: Vec<Vec<char>> = Vec::new();
    lines.push(line);
    let ghost kids = symbol.children@;
    let mut i: usize = 0;
    while i < symbol.children.len()
        invariant
            i <= symbol.children.len(),
            kids == symbol.children@,
            indent + node_height(*symbol) <= usize::MAX / 2,
            views(lines@) == seq![outline_line_spec(*symbol, indent as nat)] + outline_forest_spec(
                kids.take(i as int),
                indent as nat + 1,
            ),
        decreases symbol.children.len() - i,
    {
        proof {
            lemma_forest_height(kids, i as int);
            assert(kids.take(i + 1).drop_last() == kids.take(i as int));
            assert(kids.take(i + 1).last() == kids[i as int]);
        }
        let ghost before = views(lines@);
        let mut sub = format_outline_tree(&symbol.children[i], indent + 1);
        let ghost sub_view = views(sub@);
        lines.append(&mut sub);
        assert(views(lines@) =~= before + sub_view);
        i += 1;
    }
    assert(kids.take(symbol.children.len() as int) == kids);
    lines
}

// ---------------------------------------------------------------------------
// Rendering results
// ---------------------------------------------------------------------------

/// How many of `len` items a limit lets through.
pub open spec fn limit_spec(len: nat, limit: Option<usize>) -> nat {
    match limit {
        Some(n) => if n < len {
            n as nat
        } else {
            len
        },
        None => len,
    }
}

/// The number of items that `limit` keeps of `len` (`apply_limit`'s slice
/// length).
pub fn apply_limit(len: usize, limit: Option<usize>) -> (r: usize)
    ensures
        r == limit_spec(len as nat, limit),
{
    match limit {
        Some(n) => if n < len {
            n
        } else {
            len
        },
        None => len,
    }
}

/// The lines for one location result.
pub open spec fn location_entry(root: Seq<char>, i: nat, l: LocationRecord) -> Seq<Seq<char>> {
    let first = seq![decimal(i + 1) + ". "@ + location_spec(root, l)];
    match l.snippet {
        Some(s) => first.push(snippet_line_spec("   "@, l.range.start.line as nat, s@)),
        None => first,
    }
}

/// The lines for location results.
pub open spec fn location_entries(root: Seq<char>, ls: Seq<LocationRecord>) -> Seq<Seq<char>>
    decreases ls.len(),
{
    if ls.len() == 0 {
        Seq::empty()
    } else {
        location_entries(root, ls.drop_last()) + location_entry(
            root,
            (ls.len() - 1) as nat,
            ls.last(),
        )
    }
}

/// The text of goto and usage results.
pub open spec fn render_location_spec(limit: Option<usize>, p: LocationOutput) -> Seq<char> {
    let total = p.locations@.len();
    let shown = limit_spec(total, limit);
    let root = p.workspace_root@;
    if shown == 0 {
        join_sections_spec(seq![no_location_spec(p), position_context_spec(root, p.position)])
    } else {
        join_sections_spec(
            seq![
                location_summary_spec(shown, total, p),
                position_context_spec(root, p.position),
                section_spec("Results"@, location_entries(root, p.locations@.take(shown as int))),
            ],
        )
    }
}

pub fn render_location_output(limit: Option<usize>, payload: &LocationOutput) -> (r: Result<
    String,
    String,
>)
    ensures
        r matches Ok(text) && text@ == render_location_spec(limit, *payload),
{
    let total = payload.locations.len();
    let shown = apply_limit(total, limit);
    let root = payload.workspace_root.as_str();
    if shown == 0 {
        let sections = two(
            no_location_result(payload),
            position_context_section(root, &payload.position),
        );
        return Ok(string_of(join_sections(sections).as_slice()));
    }
    let answer = location_summary(shown, total, payload);
    let ghost ls = payload.locations@;
    let mut results: Vec<Vec<char>> = Vec::new();
    let mut i: usize = 0;
    while i < shown
        invariant
            i <= shown <= total,
            total == payload.locations.len(),
            ls == payload.locations@,
            root@ == payload.workspace_root@,
            views(results@) == location_entries(root@, ls.take(shown as int).take(i as int)),
        decreases shown - i,
    {
        let location = &payload.locations[i];
        proof {
            let t = ls.take(shown as int);
            assert(t.take(i + 1).drop_last() == t.take(i as int));
            assert(t.take(i + 1).last() == ls[i as int]);
            assert(t.take(i + 1).len() == i + 1);
        }
        let ghost before = views(results@);
        let mut first = decimal_chars(i + 1);
        push_str(&mut first, ". ");
        extend(&mut first, format_location(root, location).as_slice());
        results.push(first);
        match &location.snippet {
            Some(snippet) => {
                let snip = chars_of(snippet.as_str());
                results.push(format_snippet_line("   ", location.range.start.line, snip.as_slice()));
            },
            None => {},
        }
        assert(views(results@) =~= before + location_entry(root@, i as nat, ls[i as int]));
        i += 1;
    }
    assert(ls.take(shown as int).take(shown as int) == ls.take(shown as int));
    let sections = three(
        answer,
        position_context_section(root, &payload.position),
        section("Results", results),
    );
    Ok(string_of(join_sections(sections).as_slice()))
}

/// The symbols a kind filter lets through.
pub open spec fn kind_filtered(
    syms: Seq<&WorkspaceSymbolRecord>,
    kind_filter: Option<SymbolKindFilter>,
) -> Seq<&WorkspaceSymbolRecord> {
    keep(
        syms,
        |s: &WorkspaceSymbolRecord|
            match kind_filter {
                Some(f) => s.kind == filter_kind(f),
                None => true,
            },
    )
}

/// The lines for one workspace symbol result.
pub open spec fn symbol_entry(root: Seq<char>, i: nat, s: &WorkspaceSymbolRecord) -> Seq<
    Seq<char>,
> {
    let head = seq![
        decimal(i + 1) + ". "@ + s.name@ + " ["@ + kind_label(s.kind) + "]"@,
        "   "@ + workspace_position_spec(
            root,
            s.file@,
            s.range.start.line as nat,
            Some(s.range.start.column),
        ),
    ];
    let with_container = match s.container_name {
        Some(c) => head.push("   in "@ + c@),
        None => head,
    };
    match s.snippet {
        Some(snip) => with_container.push(
            snippet_line_spec("   "@, s.range.start.line as nat, snip@),
        ),
        None => with_container,
    }
}

/// The lines for workspace symbol results.
pub open spec fn symbol_entries(root: Seq<char>, ss: Seq<&WorkspaceSymbolRecord>) -> Seq<
    Seq<char>,
>
    decreases ss.len(),
{
    if ss.len() == 0 {
        Seq::empty()
    } else {
        symbol_entries(root, ss.drop_last()) + symbol_entry(root, (ss.len() - 1) as nat, ss.last())
    }
}

/// References to the symbols of a result.
pub open spec fn symbol_refs(p: &WorkspaceSymbolOutput) -> Seq<&WorkspaceSymbolRecord> {
    Seq::new(p.symbols@.len(), |i: int| &p.symbols@[i])
}

/// The text of workspace symbol search results.
pub open spec fn render_workspace_symbol_spec(
    limit: Option<usize>,
    p: &WorkspaceSymbolOutput,
    kind_filter: Option<SymbolKindFilter>,
) -> Seq<char> {
    let selected = select_spec(p.query@, kind_filtered(symbol_refs(p), kind_filter));
    let total = selected.len();
    let shown = limit_spec(total, limit);
    if shown == 0 {
        join_sections_spec(
            seq![
                workspace_symbol_summary_spec(0, total, p.query@),
                query_context_spec(p.query@, kind_filter),
            ],
        )
    } else {
        join_sections_spec(
            seq![
                workspace_symbol_summary_spec(shown, total, p.query@),
                query_context_spec(p.query@, kind_filter),
                section_spec(
                    "Results"@,
                    symbol_entries(p.workspace_root@, selected.take(shown as int)),
                ),
            ],
        )
    }
}

pub fn render_workspace_symbol_output(
    limit: Option<usize>,
    payload: &WorkspaceSymbolOutput,
    kind_filter: Option<SymbolKindFilter>,
) -> (r: Result<String, String>)
    ensures
        r matches Ok(text) && text@ == render_workspace_symbol_spec(limit, payload, kind_filter),
{
    let ghost refs = symbol_refs(payload);
    let ghost pred = |s: &WorkspaceSymbolRecord|
        match kind_filter {
            Some(f) => s.kind == filter_kind(f),
            None => true,
        };
    let mut filtered: Vec<&WorkspaceSymbolRecord> = Vec::new();
    let mut i: usize = 0;
    while i < payload.symbols.len()
        invariant
            i <= payload.symbols.len(),
            refs == symbol_refs(payload),
            pred == (|s: &WorkspaceSymbolRecord|
                match kind_filter {
                    Some(f) => s.kind == filter_kind(f),
                    None => true,
                }),
            filtered@ == keep(refs.take(i as int), pred),
        decreases payload.symbols.len() - i,
    {
        proof {
            lemma_keep_step(refs, pred, i as int);
        }
        let symbol = &payload.symbols[i];
        assert(refs[i as int] == symbol);
        let pass = match kind_filter {
            Some(f) => f.matches(symbol.kind),
            None => true,
        };
        if pass {
            filtered.push(symbol);
        }
        i += 1;
    }
    assert(refs.take(payload.symbols.len() as int) == refs);
    let mut symbols = select_workspace_symbols(payload.query.as_str(), filtered);
    let ghost selected = symbols@;
    let total = symbols.len();
    let shown = apply_limit(total, limit);
    symbols.truncate(shown);
    let root = payload.workspace_root.as_str();
    let query = payload.query.as_str();
    if shown == 0 {
        let sections = two(
            workspace_symbol_summary(0, total, query),
            query_context_section(query, kind_filter),
        );
        return Ok(string_of(join_sections(sections).as_slice()));
    }
    let mut results: Vec<Vec<char>> = Vec::new();
    let mut i: usize = 0;
    while i < shown
        invariant
            i <= shown,
            symbols.len() == shown,
            symbols@ == selected.take(shown as int),
            root@ == payload.workspace_root@,
            views(results@) == symbol_entries(root@, symbols@.take(i as int)),
        decreases shown - i,
    {
        let symbol = symbols[i];
        proof {
            let t = symbols@;
            assert(t.take(i + 1).drop_last() == t.take(i as int));
            assert(t.take(i + 1).last() == t[i as int]);
        }
        let ghost before = views(results@);
        let mut first = decimal_chars(i + 1);
        push_str(&mut first, ". ");
        push_str(&mut first, symbol.name.as_str());
        push_str(&mut first, " [");
        push_str(&mut first, symbol_kind_name(symbol.kind));
        push_str(&mut first, "]");
        results.push(first);
        let mut second = chars_of("   ");
        extend(
            &mut second,
            format_workspace_position(
                root,
                symbol.file.as_str(),
                symbol.range.start.line,
                Some(symbol.range.start.column),
            ).as_slice(),
        );
        results.push(second);
        match &symbol.container_name {
            Some(container) => {
                let mut third = chars_of("   in ");
                push_str(&mut third, container.as_str());
                results.push(third);
            },
            None => {},
        }
        match &symbol.snippet {
            Some(snippet) => {
                let snip = chars_of(snippet.as_str());
                results.push(format_snippet_line("   ", symbol.range.start.line, snip.as_slice()));
            },
            None => {},
        }
        assert(views(results@) =~= before + symbol_entry(root@, i as nat, symbols@[i as int]));
        i += 1;
    }
    assert(symbols@.take(shown as int) == symbols@);
    let sections = three(
        workspace_symbol_summary(shown, total, query),
        query_context_section(query, kind_filter),
        section("Results", results),
    );
    Ok(string_of(join_sections(sections).as_slice()))
}

/// The detail lines of an inspected symbol.
pub open spec fn symbol_details(sym: crate::model::SymbolAtRecord) -> Seq<Seq<char>> {
    let kind = match sym.kind {
        Some(k) => seq!["Kind: "@ + kind_label(k)],
        None => Seq::empty(),
    };
    let range = seq![
        "Range: columns "@ + decimal(sym.start_column as nat) + "-"@ + decimal(
            sym.end_column as nat,
        ),
    ];
    let detail = match sym.detail {
        Some(d) => seq!["Detail: "@ + d@],
        None => Seq::empty(),
    };
    kind + range + detail
}

/// The text of an inspection.
pub open spec fn render_symbol_at_spec(p: SymbolAtOutput) -> Seq<char> {
    let root = p.workspace_root@;
    match p.symbol {
        Some(sym) => {
            let base = seq![
                symbol_at_summary_spec(root, p),
                position_context_spec(root, p.position),
                section_spec("Details"@, symbol_details(sym)),
            ];
            let hover = match p.hover {
                Some(h) => if trim(h@).len() > 0 {
                    seq![section_spec("Hover"@, indent_block_spec(h@, "  "@))]
                } else {
                    Seq::empty()
                },
                None => Seq::empty(),
            };
            join_sections_spec(base + hover)
        },
        None => join_sections_spec(
            seq![symbol_at_summary_spec(root, p), position_context_spec(root, p.position)],
        ),
    }
}

pub fn render_symbol_at_output(payload: &SymbolAtOutput) -> (r: Result<String, String>)
    ensures
        r matches Ok(text) && text@ == render_symbol_at_spec(*payload),
{
    let root = payload.workspace_root.as_str();
    match &payload.symbol {
        Some(symbol) => {
            let mut details: Vec<Vec<char>> = Vec::new();
            match symbol.kind {
                Some(kind) => {
                    let mut t = chars_of("Kind: ");
                    push_str(&mut t, symbol_kind_name(kind));
                    details.push(t);
                },
                None => {},
            }
            let mut range = chars_of("Range: columns ");
            extend(&mut range, decimal_chars(symbol.start_column).as_slice());
            push_str(&mut range, "-");
            extend(&mut range, decimal_chars(symbol.end_column).as_slice());
            details.push(range);
            match &symbol.detail {
                Some(detail) => {
                    let mut t = chars_of("Detail: ");
                    push_str(&mut t, detail.as_str());
                    details.push(t);
                },
                None => {},
            }
            assert(views(details@) =~= symbol_details(*symbol));
            let mut sections = three(
                symbol_at_summary(root, payload),
                position_context_section(root, &payload.position),
                section("Details", details),
            );
            let ghost base = views(sections@);
            match &payload.hover {
                Some(hover) => {
                    let h = chars_of(hover.as_str());
                    if !is_blank(h.as_slice()) {
                        sections.push(section("Hover", indent_block(h.as_slice(), "  ")));
                    }
                },
                None => {},
            }
            assert(views(sections@) =~= base + match payload.hover {
                Some(h) => if trim(h@).len() > 0 {
                    seq![section_spec("Hover"@, indent_block_spec(h@, "  "@))]
                } else {
                    Seq::<Seq<char>>::empty()
                },
                None => Seq::<Seq<char>>::empty(),
            });
            Ok(string_of(join_sections(sections).as_slice()))
        },
        None => {
            let sections = two(
                symbol_at_summary(root, payload),
                position_context_section(root, &payload.position),
            );
            Ok(string_of(join_sections(sections).as_slice()))
        },
    }
}

/// The text of an outline.
pub open spec fn render_outline_spec(limit: Option<usize>, p: OutlineOutput) -> Seq<char> {
    let total = p.symbols@.len();
    let shown = limit_spec(total, limit);
    let root = p.workspace_root@;
    if shown == 0 {
        join_sections_spec(
            seq![outline_summary_spec(0, total, root, p.file@), outline_context_spec(p)],
        )
    } else {
        join_sections_spec(
            seq![
                outline_summary_spec(shown, total, root, p.file@),
                outline_context_spec(p),
                section_spec("Outline"@, outline_forest_spec(p.symbols@.take(shown as int), 0)),
            ],
        )
    }
}

pub fn render_outline_output(limit: Option<usize>, payload: &OutlineOutput) -> (r: Result<
    String,
    String,
>)
    requires
        forest_height(payload.symbols@) <= usize::MAX / 2,
    ensures
        r matches Ok(text) && text@ == render_outline_spec(limit, *payload),
{
    let total = payload.symbols.len();
    let shown = apply_limit(total, limit);
    let root = payload.workspace_root.as_str();
    let file = payload.file.as_str();
    if shown == 0 {
        let sections = two(
            outline_summary(0, total, root, file),
            outline_context_section(payload),
        );
        return Ok(string_of(join_sections(sections).as_slice()));
    }
    let ghost syms = payload.symbols@;
    let mut tree: Vec<Vec<char>> = Vec::new();
    let mut i: usize = 0;
    while i < shown
        invariant
            i <= shown <= total,
            total == payload.symbols.len(),
            syms == payload.symbols@,
            forest_height(syms) <= usize::MAX / 2,
            views(tree@) == outline_forest_spec(syms.take(shown as int).take(i as int), 0),
        decreases shown - i,
    {
        proof {
            lemma_forest_height(syms, i as int);
            let t = syms.take(shown as int);
            assert(t.take(i + 1).drop_last() == t.take(i as int));
            assert(t.take(i + 1).last() == syms[i as int]);
        }
        let ghost before = views(tree@);
        let mut lines = format_outline_tree(&payload.symbols[i], 0);
        let ghost added = views(lines@);
        tree.append(&mut lines);
        assert(views(tree@) =~= before + added);
        i += 1;
    }
    assert(syms.take(shown as int).take(shown as int) == syms.take(shown as int));
    let sections = three(
        outline_summary(shown, total, root, file),
        outline_context_section(payload),
        section("Outline", tree),
    );
    Ok(string_of(join_sections(sections).as_slice()))
}

} // verus!
