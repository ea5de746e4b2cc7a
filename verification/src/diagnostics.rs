//! Merging, ordering and rendering of Ruff and ty diagnostics.
use vstd::prelude::*;
use crate::model::{display_path, display_spec};
use crate::paths::{
    compare_chars, compare_paths, join_path, join_spec, lemma_chars_order_antisym,
    lemma_chars_order_trans, lemma_path_order_total_order, chars_order, path_order,
};
use crate::text::{
    chars_of, decimal, decimal_chars, extend, join, join_with, push_str, squash,
    squash_whitespace, string_of, views,
};

verus! {

/// The number of diagnostics returned when no limit is given.
pub const DEFAULT_DIAGNOSTIC_LIMIT: usize = 100;

/// Whether a tool ran and reported.
#[derive(Clone, Copy, Debug, PartialEq, Eq, Structural)]
pub enum DiagnosticToolStatus {
    Success,
    Error,
}

/// The tool that reported a diagnostic.
#[derive(Clone, Copy, Debug, PartialEq, Eq, Structural)]
pub enum DiagnosticSource {
    Ruff,
    Ty,
}

/// The position in the order of sources: Ruff before ty.
pub open spec fn source_rank(s: DiagnosticSource) -> int {
    match s {
        DiagnosticSource::Ruff => 0,
        DiagnosticSource::Ty => 1,
    }
}

pub open spec fn source_label(s: DiagnosticSource) -> Seq<char> {
    match s {
        DiagnosticSource::Ruff => "ruff"@,
        DiagnosticSource::Ty => "ty"@,
    }
}

impl DiagnosticSource {
    /// The tool's name.
    pub fn label(self) -> (r: &'static str)
        ensures
            r@ == source_label(self),
    {
        match self {
            DiagnosticSource::Ruff => "ruff",
            DiagnosticSource::Ty => "ty",
        }
    }
}

/// A 1-based line and column of a diagnostic.
#[derive(Clone, Copy, Debug, PartialEq, Eq, Structural)]
pub struct DiagnosticPosition {
    pub line: usize,
    pub column: usize,
}

/// A fix that a tool offers.
#[derive(Clone, Debug)]
pub struct DiagnosticFix {
    pub applicability: Option<String>,
    pub message: Option<String>,
}

/// One diagnostic, from either tool.
#[derive(Clone, Debug)]
pub struct DiagnosticRecord {
    pub source: DiagnosticSource,
    pub code: String,
    pub severity: Option<String>,
    pub message: String,
    pub file: String,
    pub start: DiagnosticPosition,
    pub end: DiagnosticPosition,
    pub fix: Option<DiagnosticFix>,
}

/// How one tool's run went.
#[derive(Clone, Debug)]
pub struct DiagnosticToolReport {
    pub status: DiagnosticToolStatus,
    pub count: usize,
    pub binary: Option<String>,
    pub error: Option<String>,
}

/// How both tools' runs went.
#[derive(Clone, Debug)]
pub struct DiagnosticToolReports {
    pub ruff: DiagnosticToolReport,
    pub ty: DiagnosticToolReport,
}

/// The merged result of a diagnostics request.
#[derive(Clone, Debug)]
pub struct DiagnosticsOutput {
    pub complete: bool,
    pub workspace_root: String,
    pub target: String,
    pub total: usize,
    pub shown: usize,
    pub truncated: bool,
    pub tools: DiagnosticToolReports,
    pub diagnostics: Vec<DiagnosticRecord>,
}

impl DiagnosticsOutput {
    /// Whether neither tool produced a report.
    pub fn all_tools_failed(&self) -> (r: bool)
        ensures
            r == (self.tools.ruff.status == DiagnosticToolStatus::Error && self.tools.ty.status
                == DiagnosticToolStatus::Error),
    {
        self.tools.ruff.status == DiagnosticToolStatus::Error && self.tools.ty.status
            == DiagnosticToolStatus::Error
    }
}

/// The outcome of running one tool: the binary used, if one was found, and
/// its diagnostics or the error, rendered with its causes.
pub struct ToolRun {
    pub binary: Option<String>,
    pub result: Result<Vec<DiagnosticRecord>, String>,
}

// ---------------------------------------------------------------------------
// Order
// ---------------------------------------------------------------------------

/// The order of diagnostics: by file (as paths are ordered), line, column,
/// source and code.
pub open spec fn diag_order(a: DiagnosticRecord, b: DiagnosticRecord) -> int {
    let f = path_order(a.file@, b.file@);
    if f != 0 {
        f
    } else if a.start.line != b.start.line {
        if a.start.line < b.start.line {
            -1
        } else {
            1
        }
    } else if a.start.column != b.start.column {
        if a.start.column < b.start.column {
            -1
        } else {
            1
        }
    } else if source_rank(a.source) != source_rank(b.source) {
        if source_rank(a.source) < source_rank(b.source) {
            -1
        } else {
            1
        }
    } else {
        chars_order(a.code@, b.code@)
    }
}

/// Compares two diagnostics.
pub fn compare_diagnostics(a: &DiagnosticRecord, b: &DiagnosticRecord) -> (r: i8)
    ensures
        r as int == diag_order(*a, *b),
{
    let f = compare_paths(chars_of(a.file.as_str()).as_slice(), chars_of(b.file.as_str()).as_slice());
    if f != 0 {
        return f;
    }
    if a.start.line != b.start.line {
        return if a.start.line < b.start.line {
            -1
        } else {
            1
        };
    }
    if a.start.column != b.start.column {
        return if a.start.column < b.start.column {
            -1
        } else {
            1
        };
    }
    let ra: i8 = match a.source {
        DiagnosticSource::Ruff => 0,
        DiagnosticSource::Ty => 1,
    };
    let rb: i8 = match b.source {
        DiagnosticSource::Ruff => 0,
        DiagnosticSource::Ty => 1,
    };
    if ra != rb {
        return if ra < rb {
            -1
        } else {
            1
        };
    }
    compare_chars(chars_of(a.code.as_str()).as_slice(), chars_of(b.code.as_str()).as_slice())
}

/// `x` inserted into `sorted` after every element that does not come after
/// it.
pub open spec fn insert_sorted(sorted: Seq<DiagnosticRecord>, x: DiagnosticRecord) -> Seq<
    DiagnosticRecord,
>
    decreases sorted.len(),
{
    if sorted.len() == 0 {
        seq![x]
    } else if diag_order(sorted.last(), x) <= 0 {
        sorted.push(x)
    } else {
        insert_sorted(sorted.drop_last(), x).push(sorted.last())
    }
}

/// The stable sort of `s` by `diag_order`: equal elements keep their order.
pub open spec fn stable_sort(s: Seq<DiagnosticRecord>) -> Seq<DiagnosticRecord>
    decreases s.len(),
{
    if s.len() == 0 {
        Seq::empty()
    } else {
        insert_sorted(stable_sort(s.drop_last()), s.last())
    }
}

proof fn lemma_insert_at(sorted: Seq<DiagnosticRecord>, x: DiagnosticRecord, j: int)
    requires
        0 <= j <= sorted.len(),
        j == 0 || diag_order(sorted[j - 1], x) <= 0,
        forall|k: int| j <= k < sorted.len() ==> diag_order(#[trigger] sorted[k], x) > 0,
    ensures
        insert_sorted(sorted, x) == sorted.take(j).push(x) + sorted.skip(j),
    decreases sorted.len() - j,
{
    if sorted.len() == j {
        assert(sorted.take(j) == sorted);
        assert(sorted.skip(j).len() == 0);
        if j > 0 {
            assert(sorted.last() == sorted[j - 1]);
        }
        assert(sorted.take(j).push(x) + sorted.skip(j) =~= sorted.push(x));
    } else {
        let d = sorted.drop_last();
        assert(diag_order(sorted[sorted.len() - 1], x) > 0);
        assert forall|k: int| j <= k < d.len() implies diag_order(#[trigger] d[k], x) > 0 by {
            assert(d[k] == sorted[k]);
        }
        if j > 0 {
            assert(d[j - 1] == sorted[j - 1]);
        }
        lemma_insert_at(d, x, j);
        assert(d.take(j) == sorted.take(j));
        assert((d.take(j).push(x) + d.skip(j)).push(sorted.last()) =~= sorted.take(j).push(x)
            + sorted.skip(j));
    }
}

/// Inserts `x` into `sorted` where `insert_sorted` puts it.
fn insert_diagnostic(sorted: &mut Vec<DiagnosticRecord>, x: DiagnosticRecord)
    ensures
        final(sorted)@ == insert_sorted(old(sorted)@, x),
{
    let mut j = sorted.len();
    while j > 0 && compare_diagnostics(&sorted[j - 1], &x) > 0
        invariant
            j <= sorted.len(),
            forall|k: int| j <= k < sorted.len() ==> diag_order(#[trigger] sorted@[k], x) > 0,
        decreases j,
    {
        j -= 1;
    }
    proof {
        lemma_insert_at(sorted@, x, j as int);
    }
    let ghost before = sorted@;
    sorted.insert(j, x);
    assert(sorted@ =~= before.take(j as int).push(x) + before.skip(j as int));
}

/// Sorts diagnostics stably by `diag_order`.
pub fn sort_diagnostics(items: Vec<DiagnosticRecord>) -> (r: Vec<DiagnosticRecord>)
    ensures
        r@ == stable_sort(items@),
{
    let ghost all = items@;
    // Take the items out back to front, then insert them front to back.
    let mut items = items;
    let mut stack: Vec<DiagnosticRecord> = Vec::new();
    while items.len() > 0
        invariant
            items@ + stack@.reverse() == all,
        decreases items.len(),
    {
        let ghost before_items = items@;
        let ghost before_stack = stack@;
        let x = items.pop().unwrap();
        stack.push(x);
        assert(before_items =~= items@.push(x));
        assert(stack@.reverse() =~= seq![x] + before_stack.reverse());
    }
    assert(stack@.reverse() == all);
    let n = stack.len();
    let mut sorted: Vec<DiagnosticRecord> = Vec::new();
    let mut i: usize = 0;
    while i < n
        invariant
            i <= n,
            n == all.len(),
            stack.len() == n - i,
            stack@.reverse() == all.skip(i as int),
            sorted@ == stable_sort(all.take(i as int)),
        decreases n - i,
    {
        let ghost before_stack = stack@;
        let x = stack.pop().unwrap();
        assert(before_stack.reverse()[0] == x);
        assert(all.skip(i as int)[0] == all[i as int]);
        assert(stack@.reverse() =~= all.skip(i + 1)) by {
            assert forall|k: int| 0 <= k < stack@.len() implies stack@.reverse()[k] == all.skip(
                i + 1,
            )[k] by {
                assert(before_stack.reverse()[k + 1] == all.skip(i as int)[k + 1]);
            }
        }
        assert(all.take(i + 1).drop_last() == all.take(i as int));
        assert(all.take(i + 1).last() == x);
        insert_diagnostic(&mut sorted, x);
        i += 1;
    }
    assert(all.take(n as int) == all);
    sorted
}

// ---------------------------------------------------------------------------
// Merging the tools' reports
// ---------------------------------------------------------------------------

/// The report for one tool's run.
pub open spec fn report_spec(binary: Option<String>, result: Result<Vec<DiagnosticRecord>, String>) -> (
    DiagnosticToolStatus,
    nat,
    Option<String>,
    Option<Seq<char>>,
) {
    match result {
        Ok(d) => (DiagnosticToolStatus::Success, d@.len(), binary, None),
        Err(e) => (DiagnosticToolStatus::Error, 0, binary, Some(e@)),
    }
}

/// The diagnostics of one tool's run: none when it failed.
pub open spec fn run_diagnostics_of(result: Result<Vec<DiagnosticRecord>, String>) -> Seq<
    DiagnosticRecord,
> {
    match result {
        Ok(d) => d@,
        Err(_) => Seq::empty(),
    }
}

pub open spec fn report_matches(
    r: DiagnosticToolReport,
    binary: Option<String>,
    result: Result<Vec<DiagnosticRecord>, String>,
) -> bool {
    let (status, count, bin, error) = report_spec(binary, result);
    &&& r.status == status
    &&& r.count == count
    &&& r.binary == bin
    &&& match error {
        Some(e) => r.error matches Some(x) && x@ == e,
        None => r.error is None,
    }
}

/// The report and the diagnostics of one tool's run.
pub fn tool_report(run: ToolRun) -> (r: (DiagnosticToolReport, Vec<DiagnosticRecord>))
    ensures
        report_matches(r.0, run.binary, run.result),
        r.1@ == run_diagnostics_of(run.result),
{
    match run.result {
        Ok(diagnostics) => (
            DiagnosticToolReport {
                status: DiagnosticToolStatus::Success,
                count: diagnostics.len(),
                binary: run.binary,
                error: None,
            },
            diagnostics,
        ),
        Err(error) => (
            DiagnosticToolReport {
                status: DiagnosticToolStatus::Error,
                count: 0,
                binary: run.binary,
                error: Some(error),
            },
            Vec::new(),
        ),
    }
}

/// The merged diagnostics of both runs, sorted, before the limit.
pub open spec fn merged_spec(
    ruff: Result<Vec<DiagnosticRecord>, String>,
    ty: Result<Vec<DiagnosticRecord>, String>,
) -> Seq<DiagnosticRecord> {
    stable_sort(run_diagnostics_of(ruff) + run_diagnostics_of(ty))
}

/// Merges both tools' runs: reports for each, the diagnostics of both sorted
/// by file, position, tool and code, cut to `limit`, with the total before
/// the cut.
pub fn build_output(
    workspace_root: &str,
    target: &str,
    limit: usize,
    ruff_run: ToolRun,
    ty_run: ToolRun,
) -> (r: DiagnosticsOutput)
    ensures
        report_matches(r.tools.ruff, ruff_run.binary, ruff_run.result),
        report_matches(r.tools.ty, ty_run.binary, ty_run.result),
        r.complete == (ruff_run.result is Ok && ty_run.result is Ok),
        r.workspace_root@ == workspace_root@,
        r.target@ == target@,
        r.total == merged_spec(ruff_run.result, ty_run.result).len(),
        r.diagnostics@ == merged_spec(ruff_run.result, ty_run.result).take(r.shown as int),
        r.shown == if limit < r.total {
            limit
        } else {
            r.total
        },
        r.truncated == (r.shown < r.total),
{
    let ghost ruff_result = ruff_run.result;
    let ghost ty_result = ty_run.result;
    let (ruff_report, mut ruff_diagnostics) = tool_report(ruff_run);
    let (ty_report, mut ty_diagnostics) = tool_report(ty_run);
    let complete = ruff_report.status == DiagnosticToolStatus::Success && ty_report.status
        == DiagnosticToolStatus::Success;
    ruff_diagnostics.append(&mut ty_diagnostics);
    let mut diagnostics = sort_diagnostics(ruff_diagnostics);
    let total = diagnostics.len();
    diagnostics.truncate(limit);
    let shown = diagnostics.len();
    proof {
        lemma_stable_sort_len(run_diagnostics_of(ruff_result) + run_diagnostics_of(ty_result));
    }
    DiagnosticsOutput {
        complete,
        workspace_root: workspace_root.to_owned(),
        target: target.to_owned(),
        total,
        shown,
        truncated: shown < total,
        tools: DiagnosticToolReports { ruff: ruff_report, ty: ty_report },
        diagnostics,
    }
}

proof fn lemma_insert_sorted_len(sorted: Seq<DiagnosticRecord>, x: DiagnosticRecord)
    ensures
        insert_sorted(sorted, x).len() == sorted.len() + 1,
    decreases sorted.len(),
{
    if sorted.len() > 0 && diag_order(sorted.last(), x) > 0 {
        lemma_insert_sorted_len(sorted.drop_last(), x);
    }
}

/// Sorting keeps the number of diagnostics.
pub proof fn lemma_stable_sort_len(s: Seq<DiagnosticRecord>)
    ensures
        stable_sort(s).len() == s.len(),
    decreases s.len(),
{
    if s.len() > 0 {
        lemma_stable_sort_len(s.drop_last());
        lemma_insert_sorted_len(stable_sort(s.drop_last()), s.last());
    }
}

// ---------------------------------------------------------------------------
// What the order promises
// ---------------------------------------------------------------------------

/// Whether diagnostics are listed in order.
pub open spec fn diag_sorted(s: Seq<DiagnosticRecord>) -> bool {
    forall|i: int, j: int| 0 <= i < j < s.len() ==> diag_order(#[trigger] s[i], #[trigger] s[j]) <= 0
}

/// Comparing two diagnostics the other way round gives the opposite.
pub proof fn lemma_diag_order_antisym(a: DiagnosticRecord, b: DiagnosticRecord)
    ensures
        diag_order(a, b) == -diag_order(b, a),
{
    crate::paths::lemma_path_order_total_order(a.file@, b.file@, b.file@);
    crate::paths::lemma_chars_order_antisym(a.code@, b.code@);
}

/// The order of diagnostics is transitive.
pub proof fn lemma_diag_order_trans(a: DiagnosticRecord, b: DiagnosticRecord, c: DiagnosticRecord)
    requires
        diag_order(a, b) <= 0,
        diag_order(b, c) <= 0,
    ensures
        diag_order(a, c) <= 0,
{
    let pa = crate::paths::comps(a.file@);
    let pb = crate::paths::comps(b.file@);
    let pc = crate::paths::comps(c.file@);
    crate::paths::lemma_parts_order_antisym(pa, pb);
    crate::paths::lemma_parts_order_antisym(pb, pc);
    crate::paths::lemma_parts_order_antisym(pa, pc);
    let f1 = path_order(a.file@, b.file@);
    let f2 = path_order(b.file@, c.file@);
    assert(f1 <= 0 && f2 <= 0);
    crate::paths::lemma_parts_order_trans(pa, pb, pc);
    if f1 == 0 && f2 == 0 {
        crate::paths::lemma_parts_order_antisym(pc, pb);
        crate::paths::lemma_parts_order_antisym(pb, pa);
        crate::paths::lemma_parts_order_trans(pc, pb, pa);
        assert(path_order(a.file@, c.file@) == 0);
        if a.start.line == b.start.line && b.start.line == c.start.line && a.start.column
            == b.start.column && b.start.column == c.start.column && source_rank(a.source)
            == source_rank(b.source) && source_rank(b.source) == source_rank(c.source) {
            crate::paths::lemma_chars_order_trans(a.code@, b.code@, c.code@);
        }
    }
}

proof fn lemma_insert_sorted_keeps_order(sorted: Seq<DiagnosticRecord>, x: DiagnosticRecord)
    requires
        diag_sorted(sorted),
    ensures
        diag_sorted(insert_sorted(sorted, x)),
        insert_sorted(sorted, x).to_multiset() == sorted.to_multiset().insert(x),
        forall|k: int|
            0 <= k < insert_sorted(sorted, x).len() ==> (#[trigger] insert_sorted(sorted, x)[k]
                == x || sorted.contains(insert_sorted(sorted, x)[k])),
    decreases sorted.len(),
{
    broadcast use vstd::seq_lib::group_to_multiset_ensures;
    if sorted.len() == 0 {
        assert(seq![x] == Seq::<DiagnosticRecord>::empty().push(x));
        vstd::seq_lib::to_multiset_build(Seq::<DiagnosticRecord>::empty(), x);
    } else if diag_order(sorted.last(), x) <= 0 {
        let r = sorted.push(x);
        assert forall|i: int, j: int| 0 <= i < j < r.len() implies diag_order(
            #[trigger] r[i],
            #[trigger] r[j],
        ) <= 0 by {
            if j == r.len() - 1 && i < sorted.len() - 1 {
                lemma_diag_order_trans(sorted[i], sorted.last(), x);
            }
        }
        vstd::seq_lib::to_multiset_build(sorted, x);
        assert forall|k: int| 0 <= k < r.len() implies (#[trigger] r[k] == x || sorted.contains(r[k])) by {
            if k < sorted.len() {
                assert(sorted[k] == r[k]);
            }
        }
    } else {
        let init = sorted.drop_last();
        let last = sorted.last();
        assert(diag_sorted(init)) by {
            assert forall|i: int, j: int| 0 <= i < j < init.len() implies diag_order(
                #[trigger] init[i],
                #[trigger] init[j],
            ) <= 0 by {
                assert(init[i] == sorted[i] && init[j] == sorted[j]);
            }
        }
        lemma_insert_sorted_keeps_order(init, x);
        let m = insert_sorted(init, x);
        let r = m.push(last);
        lemma_diag_order_antisym(last, x);
        assert forall|i: int, j: int| 0 <= i < j < r.len() implies diag_order(
            #[trigger] r[i],
            #[trigger] r[j],
        ) <= 0 by {
            if j == r.len() - 1 {
                assert(r[i] == m[i]);
                if m[i] != x {
                    assert(init.contains(m[i]));
                    let k = choose|k: int| 0 <= k < init.len() && init[k] == m[i];
                    assert(sorted[k] == init[k]);
                    assert(diag_order(sorted[k], sorted[sorted.len() - 1]) <= 0);
                }
            } else {
                assert(r[i] == m[i] && r[j] == m[j]);
            }
        }
        vstd::seq_lib::to_multiset_build(m, last);
        vstd::seq_lib::to_multiset_build(init, last);
        assert(init.push(last) == sorted);
        assert forall|k: int| 0 <= k < r.len() implies (#[trigger] r[k] == x || sorted.contains(r[k])) by {
            if k < m.len() {
                assert(r[k] == m[k]);
                if m[k] != x {
                    let q = choose|q: int| 0 <= q < init.len() && init[q] == m[k];
                    assert(sorted[q] == init[q]);
                }
            } else {
                assert(r[k] == sorted[sorted.len() - 1]);
            }
        }
    }
}

/// Sorting lists the diagnostics in order, and lists exactly the
/// diagnostics it was given.
pub proof fn lemma_stable_sort_sorted_permutation(s: Seq<DiagnosticRecord>)
    ensures
        diag_sorted(stable_sort(s)),
        stable_sort(s).to_multiset() == s.to_multiset(),
    decreases s.len(),
{
    broadcast use vstd::seq_lib::group_to_multiset_ensures;
    if s.len() == 0 {
        assert(s.to_multiset() =~= vstd::multiset::Multiset::<DiagnosticRecord>::empty());
        assert(stable_sort(s).to_multiset() =~= vstd::multiset::Multiset::<DiagnosticRecord>::empty());
    } else {
        lemma_stable_sort_sorted_permutation(s.drop_last());
        lemma_insert_sorted_keeps_order(stable_sort(s.drop_last()), s.last());
        vstd::seq_lib::to_multiset_build(s.drop_last(), s.last());
        assert(s.drop_last().push(s.last()) == s);
    }
}

/// Diagnostics are ordered by file, then line, then column, then tool
/// (Ruff's before ty's): one in an earlier file, or in the same file on an
/// earlier line, or on the same line at an earlier column, or at the same
/// place from Ruff where the other is from ty, or from the same tool with
/// an earlier code, comes first.
pub proof fn lemma_diag_order_by_position(a: DiagnosticRecord, b: DiagnosticRecord)
    ensures
        path_order(a.file@, b.file@) < 0 ==> diag_order(a, b) < 0,
        path_order(a.file@, b.file@) == 0 && a.start.line < b.start.line ==> diag_order(a, b) < 0,
        path_order(a.file@, b.file@) == 0 && a.start.line == b.start.line && a.start.column
            < b.start.column ==> diag_order(a, b) < 0,
        path_order(a.file@, b.file@) == 0 && a.start.line == b.start.line && a.start.column
            == b.start.column && a.source == DiagnosticSource::Ruff && b.source
            == DiagnosticSource::Ty ==> diag_order(a, b) < 0,
        path_order(a.file@, b.file@) == 0 && a.start.line == b.start.line && a.start.column
            == b.start.column && a.source == b.source && chars_order(a.code@, b.code@) < 0
            ==> diag_order(a, b) < 0,
{
}

/// The diagnostics of a report come in file, line and column order: no
/// diagnostic is listed after one in a later file, nor after one further
/// down the same file, nor after one further along the same line.
pub proof fn lemma_report_in_position_order(
    ruff: Result<Vec<DiagnosticRecord>, String>,
    ty: Result<Vec<DiagnosticRecord>, String>,
)
    ensures
        forall|i: int, j: int|
            0 <= i < j < merged_spec(ruff, ty).len() ==> {
                let x = #[trigger] merged_spec(ruff, ty)[i];
                let y = #[trigger] merged_spec(ruff, ty)[j];
                &&& path_order(x.file@, y.file@) <= 0
                &&& path_order(x.file@, y.file@) == 0 ==> x.start.line <= y.start.line
                &&& path_order(x.file@, y.file@) == 0 && x.start.line == y.start.line
                    ==> x.start.column <= y.start.column
            },
{
    let s = merged_spec(ruff, ty);
    lemma_stable_sort_sorted_permutation(run_diagnostics_of(ruff) + run_diagnostics_of(ty));
    assert forall|i: int, j: int| 0 <= i < j < s.len() implies {
        let x = #[trigger] s[i];
        let y = #[trigger] s[j];
        &&& path_order(x.file@, y.file@) <= 0
        &&& path_order(x.file@, y.file@) == 0 ==> x.start.line <= y.start.line
        &&& path_order(x.file@, y.file@) == 0 && x.start.line == y.start.line ==> x.start.column
            <= y.start.column
    } by {
        let x = s[i];
        let y = s[j];
        assert(diag_order(x, y) <= 0);
        lemma_path_order_total_order(x.file@, y.file@, y.file@);
        lemma_diag_order_by_position(y, x);
        lemma_diag_order_antisym(x, y);
    }
}

// ---------------------------------------------------------------------------
// Rendering
// ---------------------------------------------------------------------------

pub open spec fn bool_text(b: bool) -> Seq<char> {
    if b {
        "true"@
    } else {
        "false"@
    }
}

/// The first line of a diagnostics report.
pub open spec fn diagnostics_summary_spec(o: DiagnosticsOutput) -> Seq<char> {
    if o.total == 0 && o.complete {
        "summary: no diagnostics (ruff and ty passed)"@
    } else {
        "summary: "@ + decimal(o.total as nat) + " diagnostics (ruff "@ + decimal(
            o.tools.ruff.count as nat,
        ) + ", ty "@ + decimal(o.tools.ty.count as nat) + ")"@ + if o.truncated {
            ", showing "@ + decimal(o.shown as nat)
        } else {
            Seq::empty()
        }
    }
}

/// The line that reports a tool's failure, if it failed.
pub open spec fn tool_error_lines(name: Seq<char>, r: DiagnosticToolReport) -> Seq<Seq<char>> {
    match r.error {
        Some(e) => seq![name + ": failed: "@ + e@],
        None => Seq::empty(),
    }
}

/// The labels of a diagnostic: tool and code, then severity.
pub open spec fn diag_labels(d: DiagnosticRecord) -> Seq<Seq<char>> {
    let first = seq![source_label(d.source) + "/"@ + d.code@];
    match d.severity {
        Some(s) => first.push(s@),
        None => first,
    }
}

/// The note on a fix: its applicability, or `available`.
pub open spec fn fix_text(d: DiagnosticRecord) -> Seq<char> {
    match d.fix {
        Some(f) => " ("@ + match f.applicability {
            Some(a) => a@,
            None => "available"@,
        } + " fix)"@,
        None => Seq::empty(),
    }
}

/// The line of one diagnostic.
pub open spec fn diag_line(root: Seq<char>, d: DiagnosticRecord) -> Seq<char> {
    display_spec(root, d.file@) + ":"@ + decimal(d.start.line as nat) + ":"@ + decimal(
        d.start.column as nat,
    ) + " ["@ + join(diag_labels(d), ", "@) + "] "@ + d.message@ + fix_text(d)
}

/// The lines of a compact diagnostics report.
pub open spec fn diagnostics_lines(o: DiagnosticsOutput) -> Seq<Seq<char>> {
    let root = o.workspace_root@;
    seq![
        diagnostics_summary_spec(o),
        "complete: "@ + bool_text(o.complete),
        "workspace: "@ + root,
        "target: "@ + display_spec(root, o.target@),
    ] + tool_error_lines("ruff"@, o.tools.ruff) + tool_error_lines("ty"@, o.tools.ty) + if o.diagnostics@.len()
        > 0 {
        seq![Seq::<char>::empty()]
    } else {
        Seq::empty()
    } + o.diagnostics@.map_values(|d: DiagnosticRecord| diag_line(root, d))
}

fn push_tool_error(lines: &mut Vec<Vec<char>>, name: &str, report: &DiagnosticToolReport)
    ensures
        views(final(lines)@) == views(old(lines)@) + tool_error_lines(name@, *report),
{
    let ghost before = views(lines@);
    match &report.error {
        Some(error) => {
            let mut t = chars_of(name);
            push_str(&mut t, ": failed: ");
            push_str(&mut t, error.as_str());
            lines.push(t);
        },
        None => {},
    }
    assert(views(lines@) =~= before + tool_error_lines(name@, *report));
}

fn diagnostic_line(root: &str, d: &DiagnosticRecord) -> (r: Vec<char>)
    ensures
        r@ == diag_line(root@, *d),
{
    let mut labels: Vec<Vec<char>> = Vec::new();
    let mut first = chars_of(d.source.label());
    push_str(&mut first, "/");
    push_str(&mut first, d.code.as_str());
    labels.push(first);
    match &d.severity {
        Some(severity) => labels.push(chars_of(severity.as_str())),
        None => {},
    }
    assert(views(labels@) =~= diag_labels(*d));
    let mut t = chars_of(display_path(root, d.file.as_str()).as_str());
    push_str(&mut t, ":");
    extend(&mut t, decimal_chars(d.start.line).as_slice());
    push_str(&mut t, ":");
    extend(&mut t, decimal_chars(d.start.column).as_slice());
    push_str(&mut t, " [");
    let sep = chars_of(", ");
    extend(&mut t, join_with(&labels, sep.as_slice()).as_slice());
    push_str(&mut t, "] ");
    push_str(&mut t, d.message.as_str());
    match &d.fix {
        Some(fix) => {
            push_str(&mut t, " (");
            match &fix.applicability {
                Some(a) => push_str(&mut t, a.as_str()),
                None => push_str(&mut t, "available"),
            }
            push_str(&mut t, " fix)");
        },
        None => {},
    }
    t
}

/// Render a compact agent-oriented summary of a diagnostics result.
pub fn render_diagnostics(output: &DiagnosticsOutput) -> (r: String)
    ensures
        r@ == join(diagnostics_lines(*output), "\n"@),
{
    let root = output.workspace_root.as_str();
    let mut lines: Vec<Vec<char>> = Vec::new();
    if output.total == 0 && output.complete {
        lines.push(chars_of("summary: no diagnostics (ruff and ty passed)"));
    } else {
        let mut t = chars_of("summary: ");
        extend(&mut t, decimal_chars(output.total).as_slice());
        push_str(&mut t, " diagnostics (ruff ");
        extend(&mut t, decimal_chars(output.tools.ruff.count).as_slice());
        push_str(&mut t, ", ty ");
        extend(&mut t, decimal_chars(output.tools.ty.count).as_slice());
        push_str(&mut t, ")");
        if output.truncated {
            push_str(&mut t, ", showing ");
            extend(&mut t, decimal_chars(output.shown).as_slice());
        }
        assert(t@ =~= diagnostics_summary_spec(*output));
        lines.push(t);
    }
    let mut complete = chars_of("complete: ");
    push_str(&mut complete, if output.complete {
        "true"
    } else {
        "false"
    });
    assert(complete@ =~= "complete: "@ + bool_text(output.complete));
    lines.push(complete);
    let mut workspace = chars_of("workspace: ");
    push_str(&mut workspace, root);
    lines.push(workspace);
    let mut target = chars_of("target: ");
    push_str(&mut target, display_path(root, output.target.as_str()).as_str());
    lines.push(target);
    assert(views(lines@) =~= seq![
        diagnostics_summary_spec(*output),
        "complete: "@ + bool_text(output.complete),
        "workspace: "@ + root@,
        "target: "@ + display_spec(root@, output.target@),
    ]);
    push_tool_error(&mut lines, "ruff", &output.tools.ruff);
    push_tool_error(&mut lines, "ty", &output.tools.ty);
    let ghost before_blank = views(lines@);
    if output.diagnostics.len() > 0 {
        lines.push(Vec::new());
    }
    let ghost head = views(lines@);
    assert(head =~= before_blank + if output.diagnostics@.len() > 0 {
        seq![Seq::<char>::empty()]
    } else {
        Seq::<Seq<char>>::empty()
    });
    let mut i: usize = 0;
    while i < output.diagnostics.len()
        invariant
            i <= output.diagnostics.len(),
            root@ == output.workspace_root@,
            views(lines@) == head + output.diagnostics@.take(i as int).map_values(
                |d: DiagnosticRecord| diag_line(root@, d),
            ),
        decreases output.diagnostics.len() - i,
    {
        let ghost before = views(lines@);
        lines.push(diagnostic_line(root, &output.diagnostics[i]));
        assert(output.diagnostics@.take(i + 1).map_values(|d: DiagnosticRecord| diag_line(root@, d))
            =~= output.diagnostics@.take(i as int).map_values(
            |d: DiagnosticRecord| diag_line(root@, d),
        ).push(diag_line(root@, output.diagnostics@[i as int])));
        assert(views(lines@) =~= before.push(diag_line(root@, output.diagnostics@[i as int])));
        i += 1;
    }
    assert(output.diagnostics@.take(output.diagnostics.len() as int) == output.diagnostics@);
    assert(views(lines@) =~= diagnostics_lines(*output));
    let sep = chars_of("\n");
    string_of(join_with(&lines, sep.as_slice()).as_slice())
}

// ---------------------------------------------------------------------------
// Normalizing tool output
// ---------------------------------------------------------------------------

/// The longest error text kept before it is cut.
pub const MAX_ERROR_CHARS: usize = 2000;

/// `message` with its words joined by single spaces.
pub fn compact_message(message: &str) -> (r: String)
    ensures
        r@ == squash(message@),
{
    let m = chars_of(message);
    string_of(squash_whitespace(m.as_slice()).as_slice())
}

/// An error text compacted, and cut to `MAX_ERROR_CHARS` characters with a
/// trailing `...` when longer.
pub open spec fn compact_error_spec(error: Seq<char>) -> Seq<char> {
    let c = squash(error);
    if c.len() <= MAX_ERROR_CHARS {
        c
    } else {
        c.take(MAX_ERROR_CHARS as int) + "..."@
    }
}

pub fn compact_error(error: &str) -> (r: String)
    ensures
        r@ == compact_error_spec(error@),
{
    let e = chars_of(error);
    let c = squash_whitespace(e.as_slice());
    if c.len() <= MAX_ERROR_CHARS {
        return string_of(c.as_slice());
    }
    let mut t = crate::text::slice_copy(c.as_slice(), 0, MAX_ERROR_CHARS);
    push_str(&mut t, "...");
    string_of(t.as_slice())
}

/// A path as a diagnostic reports it, made absolute against the workspace
/// root when it is relative.
pub fn absolute_diagnostic_path(workspace_root: &str, path: &str) -> (r: String)
    ensures
        r@ == join_spec(workspace_root@, path@),
{
    let root = chars_of(workspace_root);
    let p = chars_of(path);
    string_of(join_path(root.as_slice(), p.as_slice()).as_slice())
}

/// A position as Ruff's JSON output writes it.
#[derive(Clone, Copy, Debug)]
pub struct RuffPosition {
    pub row: usize,
    pub column: usize,
}

/// A fix as Ruff's JSON output writes it.
#[derive(Clone, Debug)]
pub struct RuffFix {
    pub applicability: Option<String>,
    pub message: Option<String>,
}

/// One diagnostic of Ruff's JSON output.
#[derive(Clone, Debug)]
pub struct RuffDiagnostic {
    pub code: Option<String>,
    pub filename: String,
    pub location: RuffPosition,
    pub end_location: RuffPosition,
    pub message: String,
    pub severity: Option<String>,
    pub fix: Option<RuffFix>,
}

/// The record for a Ruff diagnostic.
pub open spec fn ruff_record_matches(root: Seq<char>, d: RuffDiagnostic, r: DiagnosticRecord) -> bool {
    &&& r.source == DiagnosticSource::Ruff
    &&& r.code@ == match d.code {
        Some(c) => c@,
        None => "unknown"@,
    }
    &&& r.severity == d.severity
    &&& r.message@ == squash(d.message@)
    &&& r.file@ == join_spec(root, d.filename@)
    &&& r.start == DiagnosticPosition { line: d.location.row, column: d.location.column }
    &&& r.end == DiagnosticPosition { line: d.end_location.row, column: d.end_location.column }
    &&& match d.fix {
        Some(f) => r.fix matches Some(x) && x.applicability == f.applicability && x.message
            == f.message,
        None => r.fix is None,
    }
}

/// Normalizes Ruff's diagnostics.
pub fn ruff_records(diagnostics: Vec<RuffDiagnostic>, workspace_root: &str) -> (r: Vec<
    DiagnosticRecord,
>)
    ensures
        r.len() == diagnostics.len(),
        forall|i: int|
            0 <= i < r.len() ==> ruff_record_matches(
                workspace_root@,
                #[trigger] diagnostics@[i],
                r@[i],
            ),
{
    let mut out: Vec<DiagnosticRecord> = Vec::new();
    let ghost input = diagnostics@;
    let mut diagnostics = diagnostics;
    // Take the diagnostics out back to front, then convert front to back.
    let mut stack: Vec<RuffDiagnostic> = Vec::new();
    while diagnostics.len() > 0
        invariant
            diagnostics@ + stack@.reverse() == input,
        decreases diagnostics.len(),
    {
        let ghost before_d = diagnostics@;
        let ghost before_s = stack@;
        let x = diagnostics.pop().unwrap();
        stack.push(x);
        assert(before_d =~= diagnostics@.push(x));
        assert(stack@.reverse() =~= seq![x] + before_s.reverse());
    }
    assert(stack@.reverse() == input);
    let n = stack.len();
    while stack.len() > 0
        invariant
            n == input.len(),
            out.len() + stack.len() == n,
            stack@.reverse() == input.skip(out.len() as int),
            forall|i: int|
                0 <= i < out.len() ==> ruff_record_matches(
                    workspace_root@,
                    #[trigger] input[i],
                    out@[i],
                ),
        decreases stack.len(),
    {
        let ghost before_s = stack@;
        let ghost k = out.len() as int;
        let d = stack.pop().unwrap();
        assert(before_s.reverse()[0] == d);
        assert(input.skip(k)[0] == input[k]);
        assert(stack@.reverse() =~= input.skip(k + 1)) by {
            assert forall|m: int| 0 <= m < stack@.len() implies stack@.reverse()[m] == input.skip(
                k + 1,
            )[m] by {
                assert(before_s.reverse()[m + 1] == input.skip(k)[m + 1]);
            }
        }
        let code = match d.code {
            Some(c) => c,
            None => "unknown".to_owned(),
        };
        let fix = match d.fix {
            Some(f) => Some(DiagnosticFix { applicability: f.applicability, message: f.message }),
            None => None,
        };
        let record = DiagnosticRecord {
            source: DiagnosticSource::Ruff,
            code,
            severity: d.severity,
            message: compact_message(d.message.as_str()),
            file: absolute_diagnostic_path(workspace_root, d.filename.as_str()),
            start: DiagnosticPosition { line: d.location.row, column: d.location.column },
            end: DiagnosticPosition { line: d.end_location.row, column: d.end_location.column },
            fix,
        };
        out.push(record);
    }
    out
}

/// A position as ty's GitLab output writes it.
#[derive(Clone, Copy, Debug)]
pub struct TyPosition {
    pub line: usize,
    pub column: Option<usize>,
}

/// The positions of a ty diagnostic.
#[derive(Clone, Copy, Debug)]
pub struct TyPositions {
    pub begin: TyPosition,
    pub end: TyPosition,
}

/// The lines of a ty diagnostic.
#[derive(Clone, Copy, Debug)]
pub struct TyLines {
    pub begin: usize,
    pub end: Option<usize>,
}

/// Where a ty diagnostic is.
#[derive(Clone, Debug)]
pub struct TyLocation {
    pub path: String,
    pub positions: Option<TyPositions>,
    pub lines: Option<TyLines>,
}

/// One diagnostic of ty's GitLab output.
#[derive(Clone, Debug)]
pub struct TyDiagnostic {
    pub check_name: String,
    pub description: String,
    pub severity: Option<String>,
    pub location: TyLocation,
}

/// The range of a ty diagnostic: its positions (a missing column is 1), or
/// else its lines at column 1 (a missing begin is line 1, a missing end is
/// the begin line).
pub open spec fn ty_range_spec(l: TyLocation) -> (DiagnosticPosition, DiagnosticPosition) {
    match l.positions {
        Some(p) => (
            DiagnosticPosition {
                line: p.begin.line,
                column: match p.begin.column {
                    Some(c) => c,
                    None => 1,
                },
            },
            DiagnosticPosition {
                line: p.end.line,
                column: match p.end.column {
                    Some(c) => c,
                    None => 1,
                },
            },
        ),
        None => {
            let start = match l.lines {
                Some(ls) => ls.begin,
                None => 1,
            };
            let end = match l.lines {
                Some(ls) => match ls.end {
                    Some(e) => e,
                    None => start,
                },
                None => start,
            };
            (DiagnosticPosition { line: start, column: 1 }, DiagnosticPosition { line: end, column: 1 })
        },
    }
}

pub fn ty_range(location: &TyLocation) -> (r: (DiagnosticPosition, DiagnosticPosition))
    ensures
        r == ty_range_spec(*location),
{
    match location.positions {
        Some(p) => {
            return (
                DiagnosticPosition {
                    line: p.begin.line,
                    column: match p.begin.column {
                        Some(c) => c,
                        None => 1,
                    },
                },
                DiagnosticPosition {
                    line: p.end.line,
                    column: match p.end.column {
                        Some(c) => c,
                        None => 1,
                    },
                },
            );
        },
        None => {},
    }
    let start = match location.lines {
        Some(ls) => ls.begin,
        None => 1,
    };
    let end = match location.lines {
        Some(ls) => match ls.end {
            Some(e) => e,
            None => start,
        },
        None => start,
    };
    (DiagnosticPosition { line: start, column: 1 }, DiagnosticPosition { line: end, column: 1 })
}

/// The message of a ty diagnostic: its description without the leading
/// `check_name: `, if it has one.
pub open spec fn ty_message_spec(check_name: Seq<char>, description: Seq<char>) -> Seq<char> {
    let p = check_name + ": "@;
    if p.is_prefix_of(description) {
        description.skip(p.len() as int)
    } else {
        description
    }
}

/// The record for a ty diagnostic.
pub open spec fn ty_record_matches(root: Seq<char>, d: TyDiagnostic, r: DiagnosticRecord) -> bool {
    &&& r.source == DiagnosticSource::Ty
    &&& r.code@ == d.check_name@
    &&& r.severity == d.severity
    &&& r.message@ == squash(ty_message_spec(d.check_name@, d.description@))
    &&& r.file@ == join_spec(root, d.location.path@)
    &&& (r.start, r.end) == ty_range_spec(d.location)
    &&& r.fix is None
}

fn ty_record(d: TyDiagnostic, workspace_root: &str) -> (r: DiagnosticRecord)
    ensures
        ty_record_matches(workspace_root@, d, r),
{
    let (start, end) = ty_range(&d.location);
    let mut prefix = chars_of(d.check_name.as_str());
    push_str(&mut prefix, ": ");
    let description = chars_of(d.description.as_str());
    let message = if crate::text::starts_with(description.as_slice(), prefix.as_slice()) {
        crate::text::slice_copy(description.as_slice(), prefix.len(), description.len())
    } else {
        description
    };
    DiagnosticRecord {
        source: DiagnosticSource::Ty,
        code: d.check_name,
        severity: d.severity,
        message: string_of(squash_whitespace(message.as_slice()).as_slice()),
        file: absolute_diagnostic_path(workspace_root, d.location.path.as_str()),
        start,
        end,
        fix: None,
    }
}

/// Normalizes ty's diagnostics.
pub fn ty_records(diagnostics: Vec<TyDiagnostic>, workspace_root: &str) -> (r: Vec<
    DiagnosticRecord,
>)
    ensures
        r.len() == diagnostics.len(),
        forall|i: int|
            0 <= i < r.len() ==> ty_record_matches(workspace_root@, #[trigger] diagnostics@[i], r@[i]),
{
    let mut out: Vec<DiagnosticRecord> = Vec::new();
    let ghost input = diagnostics@;
    let mut diagnostics = diagnostics;
    let mut stack: Vec<TyDiagnostic> = Vec::new();
    while diagnostics.len() > 0
        invariant
            diagnostics@ + stack@.reverse() == input,
        decreases diagnostics.len(),
    {
        let ghost before_d = diagnostics@;
        let ghost before_s = stack@;
        let x = diagnostics.pop().unwrap();
        stack.push(x);
        assert(before_d =~= diagnostics@.push(x));
        assert(stack@.reverse() =~= seq![x] + before_s.reverse());
    }
    assert(stack@.reverse() == input);
    let n = stack.len();
    while stack.len() > 0
        invariant
            n == input.len(),
            out.len() + stack.len() == n,
            stack@.reverse() == input.skip(out.len() as int),
            forall|i: int|
                0 <= i < out.len() ==> ty_record_matches(
                    workspace_root@,
                    #[trigger] input[i],
                    out@[i],
                ),
        decreases stack.len(),
    {
        let ghost before_s = stack@;
        let ghost k = out.len() as int;
        let d = stack.pop().unwrap();
        assert(before_s.reverse()[0] == d);
        assert(input.skip(k)[0] == input[k]);
        assert(stack@.reverse() =~= input.skip(k + 1)) by {
            assert forall|m: int| 0 <= m < stack@.len() implies stack@.reverse()[m] == input.skip(
                k + 1,
            )[m] by {
                assert(before_s.reverse()[m + 1] == input.skip(k)[m + 1]);
            }
        }
        out.push(ty_record(d, workspace_root));
    }
    out
}

/// A signed decimal numeral.
pub open spec fn signed_decimal(n: int) -> Seq<char> {
    if n < 0 {
        "-"@ + decimal((-n) as nat)
    } else {
        decimal(n as nat)
    }
}

fn signed_decimal_chars(n: i32) -> (r: Vec<char>)
    ensures
        r@ == signed_decimal(n as int),
{
    if n < 0 {
        let magnitude: u64 = (-(n as i64)) as u64;
        let mut t = chars_of("-");
        extend(&mut t, crate::text::decimal_chars_u64(magnitude).as_slice());
        t
    } else {
        crate::text::decimal_chars_u64(n as u64)
    }
}

/// What a tool's exit means: success when its exit code is accepted; else
/// an error naming the tool and the code, with the compacted error output
/// when there is any.
pub open spec fn exit_check_spec(
    tool: Seq<char>,
    code: Option<i32>,
    stderr: Seq<char>,
    accepted: Seq<i32>,
) -> Result<(), Seq<char>> {
    match code {
        None => Err(tool + " terminated without an exit code"@),
        Some(c) => if accepted.contains(c) {
            Ok(())
        } else if compact_error_spec(stderr).len() == 0 {
            Err(tool + " failed with exit code "@ + signed_decimal(c as int))
        } else {
            Err(
                tool + " failed with exit code "@ + signed_decimal(c as int) + ": "@
                    + compact_error_spec(stderr),
            )
        },
    }
}

/// Checks a tool's exit code (`None` when it was killed by a signal) and
/// its error output, decoded as UTF-8 with replacement characters.
pub fn validate_diagnostic_exit(tool: &str, code: Option<i32>, stderr: &str, accepted: &[i32]) -> (r:
    Result<(), String>)
    ensures
        match r {
            Ok(()) => exit_check_spec(tool@, code, stderr@, accepted@) == Ok::<(), Seq<char>>(()),
            Err(e) => exit_check_spec(tool@, code, stderr@, accepted@) == Err::<(), Seq<char>>(e@),
        },
{
    let c = match code {
        None => {
            let mut t = chars_of(tool);
            push_str(&mut t, " terminated without an exit code");
            return Err(string_of(t.as_slice()));
        },
        Some(c) => c,
    };
    let mut i: usize = 0;
    while i < accepted.len()
        invariant
            i <= accepted.len(),
            forall|k: int| 0 <= k < i ==> accepted@[k] != c,
            code == Some(c),
        decreases accepted.len() - i,
    {
        if accepted[i] == c {
            assert(accepted@[i as int] == c);
            assert(accepted@.contains(c));
            return Ok(());
        }
        i += 1;
    }
    assert(!accepted@.contains(c));
    let compact = compact_error(stderr);
    let mut t = chars_of(tool);
    push_str(&mut t, " failed with exit code ");
    extend(&mut t, signed_decimal_chars(c).as_slice());
    if !compact.as_str().is_empty() {
        push_str(&mut t, ": ");
        push_str(&mut t, compact.as_str());
    }
    Err(string_of(t.as_slice()))
}

/// Where Ruff keeps its cache for a workspace: `~/.cache/lspyx/ruff/` and
/// the workspace's hash as sixteen hex digits.
pub open spec fn ruff_cache_spec(home: Seq<char>, workspace_root: Seq<char>) -> Seq<char> {
    join_spec(
        join_spec(join_spec(join_spec(home, ".cache"@), "lspyx"@), "ruff"@),
        crate::text::hex_digits(crate::daemon::path_hash(workspace_root) as nat, 16),
    )
}

/// Where Ruff keeps its cache for a workspace, outside the workspace.
pub fn ruff_cache_dir(home: &str, workspace_root: &str) -> (r: String)
    ensures
        r@ == ruff_cache_spec(home@, workspace_root@),
{
    let h = chars_of(home);
    let a = join_path(h.as_slice(), chars_of(".cache").as_slice());
    let b = join_path(a.as_slice(), chars_of("lspyx").as_slice());
    let c = join_path(b.as_slice(), chars_of("ruff").as_slice());
    let hash = crate::daemon::workspace_hash(workspace_root);
    let d = join_path(c.as_slice(), crate::text::hex16(hash).as_slice());
    string_of(d.as_slice())
}

/// The arguments of a Ruff check of `target` with JSON output: its cache
/// kept in `cache_dir`, or no cache where there is none.
pub open spec fn ruff_args_spec(cache_dir: Option<Seq<char>>, target: Seq<char>) -> Seq<Seq<char>> {
    seq!["check"@, "--output-format"@, "json"@, "--color"@, "never"@] + match cache_dir {
        Some(d) => seq!["--cache-dir"@, d],
        None => seq!["--no-cache"@],
    } + seq![target]
}

/// The arguments of a Ruff check.
pub fn ruff_args(cache_dir: Option<&str>, target: &str) -> (r: Vec<String>)
    ensures
        crate::workspace::texts(r@) == ruff_args_spec(
            match cache_dir {
                Some(d) => Some(d@),
                None => None,
            },
            target@,
        ),
{
    let mut args: Vec<String> = Vec::new();
    args.push("check".to_owned());
    args.push("--output-format".to_owned());
    args.push("json".to_owned());
    args.push("--color".to_owned());
    args.push("never".to_owned());
    match cache_dir {
        Some(d) => {
            args.push("--cache-dir".to_owned());
            args.push(string_of(chars_of(d).as_slice()));
        },
        None => args.push("--no-cache".to_owned()),
    }
    args.push(string_of(chars_of(target).as_slice()));
    proof {
        let expected = ruff_args_spec(
            match cache_dir {
                Some(d) => Some(d@),
                None => None,
            },
            target@,
        );
        assert(crate::workspace::texts(args@) =~= expected);
    }
    args
}

/// The arguments of a ty check of `target` in the project at
/// `workspace_root`, with GitLab output.
pub open spec fn ty_args_spec(workspace_root: Seq<char>, target: Seq<char>) -> Seq<Seq<char>> {
    seq![
        "check"@,
        "--project"@,
        workspace_root,
        "--output-format"@,
        "gitlab"@,
        "--no-progress"@,
        "--color"@,
        "never"@,
        target,
    ]
}

/// The arguments of a ty check.
pub fn ty_args(workspace_root: &str, target: &str) -> (r: Vec<String>)
    ensures
        crate::workspace::texts(r@) == ty_args_spec(workspace_root@, target@),
{
    let mut args: Vec<String> = Vec::new();
    args.push("check".to_owned());
    args.push("--project".to_owned());
    args.push(string_of(chars_of(workspace_root).as_slice()));
    args.push("--output-format".to_owned());
    args.push("gitlab".to_owned());
    args.push("--no-progress".to_owned());
    args.push("--color".to_owned());
    args.push("never".to_owned());
    args.push(string_of(chars_of(target).as_slice()));
    assert(crate::workspace::texts(args@) =~= ty_args_spec(workspace_root@, target@));
    args
}

} // verus!
