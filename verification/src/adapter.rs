//! The daemon's side of a language server session: which documents the
//! server has been sent, and how its answers are filled in and combined.
use vstd::prelude::*;
use crate::lsp::{is_symbol_char, is_symbol_char_spec, line_text_spec, read_line_text};
use crate::model::{LocationRecord, RangeRecord, WorkspaceSymbolRecord};
use crate::paths::{comps, compare_paths, extension, extension_spec, file_name, file_name_spec, lemma_path_order_same};
use crate::render::{ascii_matches, exact_matches};
use crate::text::{
    chars_of, contains, contains_seq, eq_ascii_ci, eq_ignore_ascii_case, occurs_at, occurs_at_exec,
    starts_with, string_of, trim, trim_start, trimmed,
};

verus! {

// ---------------------------------------------------------------------------
// Snippets
// ---------------------------------------------------------------------------

/// The trimmed text of a line of a file, where the file could be read and
/// has the line.
pub open spec fn snippet_spec(file_text: Option<Seq<char>>, line: nat, path: Seq<char>) -> Option<
    Seq<char>,
> {
    match file_text {
        Some(t) => match line_text_spec(t, line, path) {
            Ok(l) => Some(trim(l)),
            Err(_) => None,
        },
        None => None,
    }
}

/// The trimmed text of a line of a file, given the file's text if it
/// could be read.
pub fn snippet_of(file_text: Option<&str>, line: usize, path: &str) -> (r: Option<String>)
    ensures
        match r {
            Some(s) => snippet_spec(
                match file_text {
                    Some(t) => Some(t@),
                    None => None,
                },
                line as nat,
                path@,
            ) == Some(s@),
            None => snippet_spec(
                match file_text {
                    Some(t) => Some(t@),
                    None => None,
                },
                line as nat,
                path@,
            ) is None,
        },
{
    match file_text {
        Some(text) => match read_line_text(text, line, path) {
            Ok(l) => Some(string_of(trimmed(chars_of(l.as_str()).as_slice()).as_slice())),
            Err(_) => None,
        },
        None => None,
    }
}

/// The location of a workspace symbol, with the trimmed line it starts
/// on, given its file's text if it could be read.
pub fn location_from_workspace_symbol(symbol: &WorkspaceSymbolRecord, file_text: Option<&str>) -> (r:
    LocationRecord)
    ensures
        r.file@ == symbol.file@,
        r.range == symbol.range,
        match r.snippet {
            Some(s) => snippet_spec(
                match file_text {
                    Some(t) => Some(t@),
                    None => None,
                },
                symbol.range.start.line as nat,
                symbol.file@,
            ) == Some(s@),
            None => snippet_spec(
                match file_text {
                    Some(t) => Some(t@),
                    None => None,
                },
                symbol.range.start.line as nat,
                symbol.file@,
            ) is None,
        },
{
    LocationRecord {
        file: string_of(chars_of(symbol.file.as_str()).as_slice()),
        range: symbol.range,
        snippet: snippet_of(file_text, symbol.range.start.line, symbol.file.as_str()),
    }
}

// ---------------------------------------------------------------------------
// Imports and unique symbols
// ---------------------------------------------------------------------------

/// Whether a location's line is an import that names the symbol: its
/// snippet, without leading whitespace, starts with `from ` or `import `
/// and contains the name.
pub open spec fn import_location_spec(l: LocationRecord, symbol_name: Seq<char>) -> bool {
    match l.snippet {
        Some(s) => {
            let t = trim_start(s@);
            ("from "@.is_prefix_of(t) || "import "@.is_prefix_of(t)) && contains_seq(t, symbol_name)
        },
        None => false,
    }
}

/// Whether a definition found for a symbol is only the import that brings
/// it in.
pub fn is_import_location(location: &LocationRecord, symbol_name: &str) -> (r: bool)
    ensures
        r == import_location_spec(*location, symbol_name@),
{
    let snippet = match &location.snippet {
        Some(s) => s,
        None => return false,
    };
    let t = crate::text::trimmed_start(chars_of(snippet.as_str()).as_slice());
    let from = chars_of("from ");
    let import = chars_of("import ");
    (starts_with(t.as_slice(), from.as_slice()) || starts_with(t.as_slice(), import.as_slice()))
        && contains(t.as_slice(), chars_of(symbol_name).as_slice())
}

/// The references to the symbols of a slice.
pub open spec fn symbol_refs_of<'a>(s: Seq<WorkspaceSymbolRecord>) -> Seq<&'a WorkspaceSymbolRecord> {
    Seq::new(s.len(), |i: int| &s[i])
}

/// The one symbol named exactly `query`, else the one named `query` up to
/// ASCII case, else none.
pub open spec fn unique_symbol_spec<'a>(q: Seq<char>, syms: Seq<&'a WorkspaceSymbolRecord>) -> Option<
    &'a WorkspaceSymbolRecord,
> {
    if exact_matches(q, syms).len() == 1 {
        Some(exact_matches(q, syms)[0])
    } else if ascii_matches(q, syms).len() == 1 {
        Some(ascii_matches(q, syms)[0])
    } else {
        None
    }
}

/// Picks the workspace symbol that a query names without doubt.
pub fn unique_workspace_symbol<'a>(symbols: &'a [WorkspaceSymbolRecord], query: &str) -> (r: Option<
    &'a WorkspaceSymbolRecord,
>)
    ensures
        r == unique_symbol_spec(query@, symbol_refs_of(symbols@)),
{
    let ghost syms = symbol_refs_of(symbols@);
    let mut refs: Vec<&WorkspaceSymbolRecord> = Vec::new();
    let mut i: usize = 0;
    while i < symbols.len()
        invariant
            i <= symbols.len(),
            syms == symbol_refs_of(symbols@),
            refs@ == syms.take(i as int),
        decreases symbols.len() - i,
    {
        refs.push(&symbols[i]);
        i += 1;
        assert(refs@ =~= syms.take(i as int));
    }
    assert(syms.take(symbols.len() as int) == syms);
    let exact = crate::render::exact_symbol_matches(query, &refs);
    if exact.len() == 1 {
        return Some(exact[0]);
    }
    let ascii = crate::render::ascii_symbol_matches(query, &refs);
    if ascii.len() == 1 {
        return Some(ascii[0]);
    }
    None
}

// ---------------------------------------------------------------------------
// Occurrences of a name in a line
// ---------------------------------------------------------------------------

/// The starts of the matches of `p` in `s` at or after `i`, as
/// `str::match_indices` finds them: left to right, not overlapping, an
/// empty pattern matching at every position.
pub open spec fn match_starts(s: Seq<char>, p: Seq<char>, i: int) -> Seq<int>
    decreases s.len() + 1 - i,
{
    if i < 0 || i > s.len() {
        Seq::empty()
    } else if occurs_at(s, p, i) {
        seq![i] + match_starts(s, p, i + if p.len() == 0 { 1 } else { p.len() as int })
    } else {
        match_starts(s, p, i + 1)
    }
}

/// Whether the match of `p` at `i` stands alone: no identifier character
/// right before or right after it.
pub open spec fn standalone(s: Seq<char>, p: Seq<char>, i: int) -> bool {
    !(i > 0 && is_symbol_char_spec(s[i - 1])) && !(i + p.len() < s.len() && is_symbol_char_spec(
        s[i + p.len()],
    ))
}

/// The 1-based columns of the standalone matches among `starts`.
pub open spec fn standalone_columns(s: Seq<char>, p: Seq<char>, starts: Seq<int>) -> Seq<int>
    decreases starts.len(),
{
    if starts.len() == 0 {
        Seq::empty()
    } else {
        let rest = standalone_columns(s, p, starts.drop_last());
        if standalone(s, p, starts.last()) {
            rest.push(starts.last() + 1)
        } else {
            rest
        }
    }
}

/// The 1-based columns where `symbol_name` occurs in `line` as a whole
/// identifier.
pub open spec fn symbol_columns_spec(line: Seq<char>, symbol_name: Seq<char>) -> Seq<int> {
    standalone_columns(line, symbol_name, match_starts(line, symbol_name, 0))
}

/// The 1-based columns where `symbol_name` occurs in `line` as a whole
/// identifier.
pub fn symbol_columns(line: &str, symbol_name: &str) -> (r: Vec<usize>)
    ensures
        r@.len() == symbol_columns_spec(line@, symbol_name@).len(),
        forall|k: int|
            0 <= k < r@.len() ==> r@[k] as int == #[trigger] symbol_columns_spec(
                line@,
                symbol_name@,
            )[k],
        forall|k: int| 0 <= k < r@.len() ==> #[trigger] r@[k] <= line@.len() + 1,
{
    let s = chars_of(line);
    let p = chars_of(symbol_name);
    let step: usize = if p.len() == 0 {
        1
    } else {
        p.len()
    };
    let mut columns: Vec<usize> = Vec::new();
    let mut starts: Ghost<Seq<int>> = Ghost(Seq::empty());
    let mut i: usize = 0;
    assert(match_starts(s@, p@, 0) == starts@ + match_starts(s@, p@, 0));
    while i <= s.len()
        invariant
            i <= s.len() + 1,
            s@ == line@,
            p@ == symbol_name@,
            step as int == if p@.len() == 0 { 1 } else { p@.len() as int },
            s@.len() <= isize::MAX,
            p@.len() <= isize::MAX,
            match_starts(s@, p@, 0) == starts@ + match_starts(s@, p@, i as int),
            columns@.len() == standalone_columns(s@, p@, starts@).len(),
            forall|k: int|
                0 <= k < columns@.len() ==> columns@[k] as int == #[trigger] standalone_columns(
                    s@,
                    p@,
                    starts@,
                )[k],
            forall|k: int| 0 <= k < starts@.len() ==> #[trigger] starts@[k] < i,
            forall|k: int| 0 <= k < columns@.len() ==> #[trigger] columns@[k] <= s@.len() + 1,
        decreases s.len() + 1 - i,
    {
        if occurs_at_exec(s.as_slice(), p.as_slice(), i) {
            let before = i > 0 && is_symbol_char(s[i - 1]);
            let after = i + p.len() < s.len() && is_symbol_char(s[i + p.len()]);
            let ghost old_starts = starts@;
            let ghost old_columns = columns@;
            proof {
                starts@ = starts@.push(i as int);
                assert(starts@.drop_last() == old_starts);
                assert(seq![i as int] + match_starts(s@, p@, i + step) == match_starts(s@, p@, i as int));
                assert(match_starts(s@, p@, 0) == starts@ + match_starts(s@, p@, i + step));
            }
            if !before && !after {
                columns.push(i + 1);
            }
            assert(forall|k: int| 0 <= k < old_columns.len() ==> columns@[k] == old_columns[k]);
            i = i + step;
        } else {
            i = i + 1;
        }
    }
    assert(match_starts(s@, p@, i as int) =~= Seq::<int>::empty());
    assert(starts@ + Seq::<int>::empty() =~= starts@);
    columns
}

// ---------------------------------------------------------------------------
// Files the search looks at
// ---------------------------------------------------------------------------

/// Whether a path names a Python source or stub file.
pub open spec fn python_file_spec(path: Seq<char>) -> bool {
    extension_spec(path) == Some("py"@) || extension_spec(path) == Some("pyi"@)
}

fn same_text(a: &[char], b: &str) -> (r: bool)
    ensures
        r == (a@ == b@),
{
    let y = chars_of(b);
    if a.len() != y.len() {
        return false;
    }
    let r = starts_with(a, y.as_slice());
    assert(r ==> a@ =~= y@);
    r
}

/// Whether a path names a Python source or stub file.
pub fn is_python_file(path: &str) -> (r: bool)
    ensures
        r == python_file_spec(path@),
{
    match extension(chars_of(path).as_slice()) {
        Some(e) => same_text(e.as_slice(), "py") || same_text(e.as_slice(), "pyi"),
        None => false,
    }
}

/// The directories that the search skips.
pub open spec fn ignored_names() -> Seq<Seq<char>> {
    seq![
        ".git"@,
        ".hg"@,
        ".mypy_cache"@,
        ".pytest_cache"@,
        ".ruff_cache"@,
        ".tox"@,
        ".venv"@,
        "__pycache__"@,
        "node_modules"@,
        "target"@,
    ]
}

/// Whether a directory is one that searches skip: version control,
/// caches, virtual environments and build output.
pub open spec fn ignored_directory_spec(path: Seq<char>) -> bool {
    match file_name_spec(path) {
        Some(name) => ignored_names().contains(name),
        None => false,
    }
}

/// Whether a directory is one that searches skip.
pub fn is_ignored_directory(path: &str) -> (r: bool)
    ensures
        r == ignored_directory_spec(path@),
{
    let name = match file_name(chars_of(path).as_slice()) {
        Some(n) => n,
        None => return false,
    };
    let names: [&str; 10] = [
        ".git",
        ".hg",
        ".mypy_cache",
        ".pytest_cache",
        ".ruff_cache",
        ".tox",
        ".venv",
        "__pycache__",
        "node_modules",
        "target",
    ];
    proof {
        assert(names@.len() == 10);
    }
    let mut i: usize = 0;
    while i < 10
        invariant
            i <= 10,
            names@.len() == 10,
            file_name_spec(path@) == Some(name@),
            forall|k: int| 0 <= k < 10 ==> (#[trigger] names@[k])@ == ignored_names()[k],
            forall|k: int| 0 <= k < i ==> ignored_names()[k] != name@,
        decreases 10 - i,
    {
        if same_text(name.as_slice(), names[i]) {
            assert(ignored_names()[i as int] == name@);
            assert(ignored_names().len() == 10);
            assert(ignored_names().contains(name@));
            return true;
        }
        i += 1;
    }
    proof {
        if ignored_names().contains(name@) {
            let k = choose|k: int| 0 <= k < 10 && ignored_names()[k] == name@;
            assert(ignored_names()[k] != name@);
        }
    }
    false
}

// ---------------------------------------------------------------------------
// Combining locations
// ---------------------------------------------------------------------------

/// What identifies a location when results are combined: the components of
/// its file, as `Path` compares them, and its start.
pub open spec fn location_key(l: LocationRecord) -> (Seq<(nat, Seq<char>)>, usize, usize) {
    (comps(l.file@), l.range.start.line, l.range.start.column)
}

/// Whether some location of `s` has key `k`.
pub open spec fn has_key(s: Seq<LocationRecord>, k: (Seq<(nat, Seq<char>)>, usize, usize)) -> bool {
    exists|i: int| 0 <= i < s.len() && location_key(#[trigger] s[i]) == k
}

/// The primary locations followed by each additional location whose key
/// is new, in order.
pub open spec fn merge_spec(primary: Seq<LocationRecord>, additional: Seq<LocationRecord>) -> Seq<
    LocationRecord,
>
    decreases additional.len(),
{
    if additional.len() == 0 {
        primary
    } else {
        let m = merge_spec(primary, additional.drop_last());
        if has_key(m, location_key(additional.last())) {
            m
        } else {
            m.push(additional.last())
        }
    }
}

fn same_key(a: &LocationRecord, b: &LocationRecord) -> (r: bool)
    ensures
        r == (location_key(*a) == location_key(*b)),
{
    proof {
        lemma_path_order_same(a.file@, b.file@);
    }
    a.range.start.line == b.range.start.line && a.range.start.column == b.range.start.column
        && compare_paths(chars_of(a.file.as_str()).as_slice(), chars_of(b.file.as_str()).as_slice())
        == 0
}

/// The semantic locations followed by the lexical ones at starts they do
/// not have yet.
pub fn merge_locations(primary: Vec<LocationRecord>, additional: Vec<LocationRecord>) -> (r: Vec<
    LocationRecord,
>)
    ensures
        r@ == merge_spec(primary@, additional@),
{
    let ghost all = additional@;
    let mut pending = additional;
    let mut reversed: Vec<LocationRecord> = Vec::new();
    while pending.len() > 0
        invariant
            all == pending@ + reversed@.reverse(),
        decreases pending.len(),
    {
        let l = pending.pop().unwrap();
        let ghost before = reversed@;
        reversed.push(l);
        assert(reversed@.reverse() =~= seq![l] + before.reverse());
    }
    assert(all =~= reversed@.reverse());
    let mut out = primary;
    let ghost mut done: Seq<LocationRecord> = Seq::empty();
    while reversed.len() > 0
        invariant
            all == done + reversed@.reverse(),
            out@ == merge_spec(primary@, done),
        decreases reversed.len(),
    {
        let ghost before = reversed@;
        let l = reversed.pop().unwrap();
        assert(before.reverse() =~= seq![l] + reversed@.reverse());
        let mut found = false;
        let mut j: usize = 0;
        while j < out.len()
            invariant
                j <= out.len(),
                found == exists|k: int| 0 <= k < j && location_key(#[trigger] out@[k]) == location_key(l),
            decreases out.len() - j,
        {
            if same_key(&out[j], &l) {
                found = true;
            }
            j += 1;
        }
        assert(found == has_key(out@, location_key(l)));
        proof {
            assert(done.push(l).drop_last() == done);
            assert(done.push(l).last() == l);
        }
        if !found {
            out.push(l);
        }
        proof {
            done = done.push(l);
        }
    }
    assert(done =~= all);
    out
}

// ---------------------------------------------------------------------------
// Counting files
// ---------------------------------------------------------------------------

/// The number of different values in `s`.
pub open spec fn distinct_count<T>(s: Seq<T>) -> nat
    decreases s.len(),
{
    if s.len() == 0 {
        0
    } else {
        distinct_count(s.drop_last()) + if s.drop_last().contains(s.last()) {
            0nat
        } else {
            1nat
        }
    }
}

/// The texts of strings.
pub open spec fn string_views(s: Seq<String>) -> Seq<Seq<char>> {
    s.map_values(|x: String| x@)
}

/// The files of a list of paths, each as `Path` compares it: by its
/// components.
pub open spec fn file_identities(s: Seq<Seq<char>>) -> Seq<Seq<(nat, Seq<char>)>> {
    s.map_values(|p: Seq<char>| comps(p))
}

/// The number of different files among `files`, two spellings of one path
/// (`/a//b.py` and `/a/b.py`) counting once.
pub fn count_distinct(files: &Vec<String>) -> (r: usize)
    ensures
        r == distinct_count(file_identities(string_views(files@))),
{
    let ghost w = string_views(files@);
    let ghost v = file_identities(w);
    let mut count: usize = 0;
    let mut i: usize = 0;
    assert(v.take(0) =~= Seq::<Seq<(nat, Seq<char>)>>::empty());
    while i < files.len()
        invariant
            i <= files.len(),
            w == string_views(files@),
            v == file_identities(w),
            count == distinct_count(v.take(i as int)),
            count <= i,
        decreases files.len() - i,
    {
        let mut seen = false;
        let mut j: usize = 0;
        while j < i
            invariant
                j <= i < files.len(),
                w == string_views(files@),
                v == file_identities(w),
                seen == exists|k: int| 0 <= k < j && v[k] == v[i as int],
            decreases i - j,
        {
            assert(v[j as int] == comps(files@[j as int]@));
            assert(v[i as int] == comps(files@[i as int]@));
            proof {
                lemma_path_order_same(files@[j as int]@, files@[i as int]@);
            }
            if compare_paths(chars_of(files[j].as_str()).as_slice(), chars_of(files[i].as_str()).as_slice())
                == 0 {
                seen = true;
            }
            j += 1;
        }
        proof {
            let t = v.take(i + 1);
            assert(t.drop_last() == v.take(i as int));
            assert(t.last() == v[i as int]);
            if seen {
                let k = choose|k: int| 0 <= k < i && v[k] == v[i as int];
                assert(v.take(i as int)[k] == v[i as int]);
            } else {
                assert forall|k: int| 0 <= k < i implies v.take(i as int)[k] != v[i as int] by {}
            }
        }
        if !seen {
            count += 1;
        }
        i += 1;
    }
    assert(v.take(files.len() as int) == v);
    count
}

/// The count of different values is the size of the set of values, so
/// counting files is what collecting them into a set and taking its
/// length gives.
pub proof fn lemma_distinct_count_is_set_len<T>(s: Seq<T>)
    ensures
        distinct_count(s) == s.to_set().len(),
    decreases s.len(),
{
    broadcast use vstd::set::group_set_axioms;
    if s.len() == 0 {
        assert(s.to_set() =~= Set::<T>::empty());
    } else {
        let t = s.drop_last();
        lemma_distinct_count_is_set_len(t);
        assert(t.push(s.last()) == s);
        t.lemma_push_to_set_commute(s.last());
        vstd::seq_lib::seq_to_set_is_finite(t);
        assert(t.to_set().contains(s.last()) == t.contains(s.last()));
    }
}

// ---------------------------------------------------------------------------
// Documents the server has been sent
// ---------------------------------------------------------------------------

/// A document the server has open: its path, the text it was last sent
/// and the version it was sent with.
#[derive(Debug)]
pub struct OpenDocument {
    pub path: String,
    pub text: String,
    pub version: i32,
}

/// What keeping the server's copy of a file up to date takes.
#[derive(Debug, Clone, Copy, PartialEq, Eq)]
pub enum SyncAction {
    /// Open the file with its text, at this version.
    Open { version: i32 },
    /// Send the file's new text, at this version.
    Change { version: i32 },
    /// The server has the current text.
    Unchanged,
}

/// The index of the open document with a path, paths compared by their
/// components as `Path` compares them.
pub open spec fn doc_index(docs: Seq<OpenDocument>, path: Seq<char>) -> Option<int> {
    if exists|i: int| 0 <= i < docs.len() && comps((#[trigger] docs[i]).path@) == comps(path) {
        Some(choose|i: int| 0 <= i < docs.len() && comps((#[trigger] docs[i]).path@) == comps(path))
    } else {
        None
    }
}

/// Whether no path is open twice, under any spelling.
pub open spec fn paths_unique(docs: Seq<OpenDocument>) -> bool {
    forall|i: int, j: int|
        0 <= i < j < docs.len() ==> comps((#[trigger] docs[i]).path@) != comps((#[trigger] docs[j]).path@)
}

/// Deciding how to sync a file with the text `text`: open it at version 1
/// when it is not open; send it at the next version when its text
/// changed, counting that version as used; else nothing.
pub open spec fn plan_spec(docs: Seq<OpenDocument>, path: Seq<char>, text: Seq<char>) -> (
    Seq<OpenDocument>,
    SyncAction,
) {
    match doc_index(docs, path) {
        None => (docs, SyncAction::Open { version: 1 }),
        Some(i) => if docs[i].text@ == text {
            (docs, SyncAction::Unchanged)
        } else {
            let v = (docs[i].version + 1) as i32;
            (
                docs.update(
                    i,
                    OpenDocument { path: docs[i].path, text: docs[i].text, version: v },
                ),
                SyncAction::Change { version: v },
            )
        },
    }
}

/// Recording that the server was sent what a sync decided.
pub open spec fn commit_spec(
    docs: Seq<OpenDocument>,
    path: String,
    text: String,
    action: SyncAction,
) -> Seq<OpenDocument> {
    match action {
        SyncAction::Open { version } => docs.push(OpenDocument { path, text, version }),
        SyncAction::Change { .. } => match doc_index(docs, path@) {
            Some(i) => docs.update(
                i,
                OpenDocument { path: docs[i].path, text, version: docs[i].version },
            ),
            None => docs,
        },
        SyncAction::Unchanged => docs,
    }
}

/// The documents the server has open, no path twice.
#[derive(Debug)]
pub struct DocumentTable {
    documents: Vec<OpenDocument>,
}

impl View for DocumentTable {
    type V = Seq<OpenDocument>;

    /// The open documents.
    closed spec fn view(&self) -> Seq<OpenDocument> {
        self.documents@
    }
}

impl DocumentTable {
    #[verifier::type_invariant]
    spec fn well_formed(self) -> bool {
        paths_unique(self.documents@)
    }
}

proof fn lemma_doc_index_unique(docs: Seq<OpenDocument>, path: Seq<char>, i: int)
    requires
        paths_unique(docs),
        0 <= i < docs.len(),
        comps(docs[i].path@) == comps(path),
    ensures
        doc_index(docs, path) == Some(i),
{
    let k = choose|k: int| 0 <= k < docs.len() && comps((#[trigger] docs[k]).path@) == comps(path);
    if k != i {
        if k < i {
            assert(comps(docs[k].path@) != comps(docs[i].path@));
        } else {
            assert(comps(docs[i].path@) != comps(docs[k].path@));
        }
    }
}

impl DocumentTable {
    /// A table with no document open.
    pub fn new() -> (r: DocumentTable)
        ensures
            r@.len() == 0,
            paths_unique(r@),
    {
        DocumentTable { documents: Vec::new() }
    }

    fn find(&self, path: &str) -> (r: Option<usize>)
        ensures
            paths_unique(self@),
            match r {
                Some(i) => doc_index(self@, path@) == Some(i as int) && i < self@.len(),
                None => doc_index(self@, path@) is None,
            },
    {
        proof {
            use_type_invariant(self);
        }
        find_document(&self.documents, path)
    }

    /// The version a file was last sent with, if it is open.
    pub fn version_of(&self, path: &str) -> (r: Option<i32>)
        ensures
            paths_unique(self@),
            r == match doc_index(self@, path@) {
                Some(i) => Some(self@[i].version),
                None => None,
            },
    {
        match self.find(path) {
            Some(i) => Some(self.documents[i].version),
            None => None,
        }
    }

    /// Decides how to bring the server's copy of `path` up to date with
    /// `text`; a changed file uses up its next version at once.
    pub fn plan_sync(&mut self, path: &str, text: &str) -> (r: SyncAction)
        requires
            doc_index(old(self)@, path@) matches Some(i) ==> old(self)@[i].version < i32::MAX,
        ensures
            paths_unique(old(self)@),
            paths_unique(final(self)@),
            (final(self)@, r) == plan_spec(old(self)@, path@, text@),
    {
        proof {
            use_type_invariant(&*self);
        }
        match self.find(path) {
            None => SyncAction::Open { version: 1 },
            Some(i) => {
                let t = text.to_owned();
                if self.documents[i].text == t {
                    SyncAction::Unchanged
                } else {
                    let mut docs: Vec<OpenDocument> = Vec::new();
                    std::mem::swap(&mut docs, &mut self.documents);
                    let ghost before = docs@;
                    let mut d = docs.remove(i);
                    d.version = d.version + 1;
                    let v = d.version;
                    docs.insert(i, d);
                    proof {
                        assert(docs@ =~= before.update(i as int, d));
                        assert forall|a: int, b: int|
                            0 <= a < b < docs@.len() implies comps((#[trigger] docs@[a]).path@) != comps((#[trigger] docs@[b]).path@) by {
                            assert(comps(before[a].path@) != comps(before[b].path@));
                        }
                    }
                    self.documents = docs;
                    SyncAction::Change { version: v }
                }
            },
        }
    }

    /// Records that the server was sent what `plan_sync` decided for `path`
    /// and `text`.
    pub fn commit_sync(&mut self, path: String, text: String, action: SyncAction)
        requires
            action is Open ==> doc_index(old(self)@, path@) is None,
        ensures
            paths_unique(old(self)@),
            paths_unique(final(self)@),
            final(self)@ == commit_spec(old(self)@, path, text, action),
    {
        proof {
            use_type_invariant(&*self);
        }
        match action {
            SyncAction::Open { version } => {
                let mut docs: Vec<OpenDocument> = Vec::new();
                std::mem::swap(&mut docs, &mut self.documents);
                let ghost before = docs@;
                let ghost p = path;
                docs.push(OpenDocument { path, text, version });
                proof {
                    assert forall|a: int, b: int|
                        0 <= a < b < docs@.len() implies comps((#[trigger] docs@[a]).path@) != comps((#[trigger] docs@[b]).path@) by {
                        if b == docs@.len() - 1 {
                            assert(comps(before[a].path@) != comps(p@));
                        } else {
                            assert(comps(before[a].path@) != comps(before[b].path@));
                        }
                    }
                }
                self.documents = docs;
            },
            SyncAction::Change { .. } => {
                match self.find(path.as_str()) {
                    Some(i) => {
                        let mut docs: Vec<OpenDocument> = Vec::new();
                        std::mem::swap(&mut docs, &mut self.documents);
                        let ghost before = docs@;
                        let mut d = docs.remove(i);
                        d.text = text;
                        docs.insert(i, d);
                        proof {
                            assert(docs@ =~= before.update(i as int, d));
                            assert forall|a: int, b: int|
                                0 <= a < b < docs@.len() implies comps((#[trigger] docs@[a]).path@) != comps((#[trigger] docs@[b]).path@) by {
                                assert(comps(before[a].path@) != comps(before[b].path@));
                            }
                        }
                        self.documents = docs;
                    },
                    None => {},
                }
            },
            SyncAction::Unchanged => {},
        }
    }
}

/// The index of the document with `path` among documents with unique
/// paths.
fn find_document(docs: &Vec<OpenDocument>, path: &str) -> (r: Option<usize>)
    requires
        paths_unique(docs@),
    ensures
        match r {
            Some(i) => doc_index(docs@, path@) == Some(i as int) && i < docs@.len(),
            None => doc_index(docs@, path@) is None,
        },
{
    let mut i: usize = 0;
    while i < docs.len()
        invariant
            i <= docs.len(),
            paths_unique(docs@),
            forall|k: int| 0 <= k < i ==> comps((#[trigger] docs@[k]).path@) != comps(path@),
        decreases docs.len() - i,
    {
        proof {
            lemma_path_order_same(docs@[i as int].path@, path@);
        }
        if compare_paths(chars_of(docs[i].path.as_str()).as_slice(), chars_of(path).as_slice()) == 0 {
            proof {
                lemma_doc_index_unique(docs@, path@, i as int);
            }
            return Some(i);
        }
        i += 1;
    }
    None
}

/// Once what a sync decided was sent and recorded, syncing the same text
/// again sends nothing.
pub proof fn lemma_sync_then_unchanged(docs: Seq<OpenDocument>, path: String, text: String)
    requires
        paths_unique(docs),
    ensures
        ({
            let (planned, action) = plan_spec(docs, path@, text@);
            let after = commit_spec(planned, path, text, action);
            plan_spec(after, path@, text@) == (after, SyncAction::Unchanged)
        }),
{
    let (planned, action) = plan_spec(docs, path@, text@);
    match doc_index(docs, path@) {
        None => {
            let after = planned.push(OpenDocument { path, text, version: 1 });
            assert(after[docs.len() as int].path@ == path@);
            assert(paths_unique(after)) by {
                assert forall|a: int, b: int|
                    0 <= a < b < after.len() implies comps((#[trigger] after[a]).path@) != comps((#[trigger] after[b]).path@) by {
                    if b == after.len() - 1 {
                        assert(comps(docs[a].path@) != comps(path@));
                    } else {
                        assert(comps(docs[a].path@) != comps(docs[b].path@));
                    }
                }
            }
            lemma_doc_index_unique(after, path@, docs.len() as int);
        },
        Some(i) => {
            if docs[i].text@ != text@ {
                let v = (docs[i].version + 1) as i32;
                assert(comps(planned[i].path@) == comps(path@));
                assert(paths_unique(planned)) by {
                    assert forall|a: int, b: int|
                        0 <= a < b < planned.len() implies comps((#[trigger] planned[a]).path@) != comps((#[trigger] planned[b]).path@) by {
                        assert(comps(docs[a].path@) != comps(docs[b].path@));
                    }
                }
                lemma_doc_index_unique(planned, path@, i);
                let after = commit_spec(planned, path, text, action);
                assert(comps(after[i].path@) == comps(path@));
                assert(paths_unique(after)) by {
                    assert forall|a: int, b: int|
                        0 <= a < b < after.len() implies comps((#[trigger] after[a]).path@) != comps((#[trigger] after[b]).path@) by {
                        assert(comps(docs[a].path@) != comps(docs[b].path@));
                    }
                }
                lemma_doc_index_unique(after, path@, i);
            }
        },
    }
}

/// After a sync is planned, sent and recorded, the table holds the file
/// with the text sent: opened at version 1 when it was not open, at its
/// old version when its text had not changed, and at the next version when
/// it had; that is what was sent, and no other document changes.
pub proof fn lemma_sync_holds_text(docs: Seq<OpenDocument>, path: String, text: String)
    requires
        paths_unique(docs),
        doc_index(docs, path@) matches Some(i) ==> docs[i].version < i32::MAX,
    ensures
        ({
            let (planned, action) = plan_spec(docs, path@, text@);
            let after = commit_spec(planned, path, text, action);
            &&& paths_unique(after)
            &&& doc_index(after, path@) matches Some(k) && after[k].text@ == text@ && match doc_index(
                docs,
                path@,
            ) {
                None => action == SyncAction::Open { version: 1 } && after[k].version == 1
                    && after.len() == docs.len() + 1,
                Some(i) => k == i && after.len() == docs.len() && if docs[i].text@ == text@ {
                    action == SyncAction::Unchanged && after[k] == docs[i]
                } else {
                    action == SyncAction::Change { version: (docs[i].version + 1) as i32 }
                        && after[k].version == docs[i].version + 1
                },
            }
            &&& forall|j: int|
                0 <= j < docs.len() && comps(docs[j].path@) != comps(path@) ==> #[trigger] after[j]
                    == docs[j]
        }),
{
    let (planned, action) = plan_spec(docs, path@, text@);
    match doc_index(docs, path@) {
        None => {
            let after = planned.push(OpenDocument { path, text, version: 1 });
            assert(after[docs.len() as int].path@ == path@);
            assert(paths_unique(after)) by {
                assert forall|a: int, b: int|
                    0 <= a < b < after.len() implies comps((#[trigger] after[a]).path@) != comps((#[trigger] after[b]).path@) by {
                    if b == after.len() - 1 {
                        assert(comps(docs[a].path@) != comps(path@));
                    } else {
                        assert(comps(docs[a].path@) != comps(docs[b].path@));
                    }
                }
            }
            lemma_doc_index_unique(after, path@, docs.len() as int);
        },
        Some(i) => {
            lemma_doc_index_unique(docs, path@, i);
            if docs[i].text@ != text@ {
                assert(comps(planned[i].path@) == comps(path@));
                assert(paths_unique(planned)) by {
                    assert forall|a: int, b: int|
                        0 <= a < b < planned.len() implies comps((#[trigger] planned[a]).path@) != comps((#[trigger] planned[b]).path@) by {
                        assert(comps(docs[a].path@) != comps(docs[b].path@));
                    }
                }
                lemma_doc_index_unique(planned, path@, i);
                let after = commit_spec(planned, path, text, action);
                assert(comps(after[i].path@) == comps(path@));
                assert(paths_unique(after)) by {
                    assert forall|a: int, b: int|
                        0 <= a < b < after.len() implies comps((#[trigger] after[a]).path@) != comps((#[trigger] after[b]).path@) by {
                        assert(comps(docs[a].path@) != comps(docs[b].path@));
                    }
                }
                lemma_doc_index_unique(after, path@, i);
            }
        },
    }
}

/// A file whose text changed is sent at a version above the one it had.
pub proof fn lemma_change_raises_version(docs: Seq<OpenDocument>, path: Seq<char>, text: Seq<char>)
    requires
        paths_unique(docs),
        doc_index(docs, path) matches Some(i) ==> docs[i].version < i32::MAX,
    ensures
        plan_spec(docs, path, text).1 matches SyncAction::Change { version } ==> doc_index(
            docs,
            path,
        ) matches Some(i) && version > docs[i].version,
{
}

// ---------------------------------------------------------------------------
// Occurrences of a name in a file
// ---------------------------------------------------------------------------

/// A location as plain values: file, range and snippet.
pub open spec fn location_full_view(l: LocationRecord) -> (Seq<char>, RangeRecord, Option<Seq<char>>) {
    (
        l.file@,
        l.range,
        match l.snippet {
            Some(s) => Some(s@),
            None => None,
        },
    )
}

/// The locations of the whole-identifier occurrences of `name` in line
/// `k` (0-based) of a file: from the column to the column plus the length
/// of the name, with the trimmed line.
pub open spec fn line_occurrences(path: Seq<char>, k: int, line: Seq<char>, name: Seq<char>) -> Seq<
    (Seq<char>, RangeRecord, Option<Seq<char>>),
> {
    symbol_columns_spec(line, name).map_values(
        |c: int|
            (
                path,
                RangeRecord {
                    start: crate::model::PositionRecord { line: (k + 1) as usize, column: c as usize },
                    end: crate::model::PositionRecord {
                        line: (k + 1) as usize,
                        column: (c + name.len()) as usize,
                    },
                },
                Some(trim(line)),
            ),
    )
}

/// The locations of the occurrences of `name` in the lines of a file, line
/// by line.
pub open spec fn text_occurrences(path: Seq<char>, ls: Seq<Seq<char>>, name: Seq<char>) -> Seq<
    (Seq<char>, RangeRecord, Option<Seq<char>>),
>
    decreases ls.len(),
{
    if ls.len() == 0 {
        Seq::empty()
    } else {
        text_occurrences(path, ls.drop_last(), name) + line_occurrences(
            path,
            ls.len() - 1,
            ls.last(),
            name,
        )
    }
}

/// The locations where `symbol_name` occurs as a whole identifier in the
/// text of the file at `path`.
pub fn occurrences_in_text(path: &str, text: &str, symbol_name: &str) -> (r: Vec<LocationRecord>)
    ensures
        r@.map_values(|l: LocationRecord| location_full_view(l)) == text_occurrences(
            path@,
            crate::text::lines(text@),
            symbol_name@,
        ),
{
    let all = chars_of(text);
    let ls = crate::text::lines_of(all.as_slice());
    let name_len = chars_of(symbol_name).len();
    let mut out: Vec<LocationRecord> = Vec::new();
    let mut k: usize = 0;
    let ghost lv = crate::text::views(ls@);
    assert(lv.take(0) =~= Seq::<Seq<char>>::empty());
    assert(out@.map_values(|l: LocationRecord| location_full_view(l)) =~= Seq::<
        (Seq<char>, RangeRecord, Option<Seq<char>>),
    >::empty());
    while k < ls.len()
        invariant
            k <= ls.len(),
            lv == crate::text::views(ls@),
            lv == crate::text::lines(text@),
            name_len == symbol_name@.len(),
            name_len <= isize::MAX,
            out@.map_values(|l: LocationRecord| location_full_view(l)) == text_occurrences(
                path@,
                lv.take(k as int),
                symbol_name@,
            ),
        decreases ls.len() - k,
    {
        let line = string_of(ls[k].as_slice());
        assert(line@ == lv[k as int]);
        let columns = symbol_columns(line.as_str(), symbol_name);
        let snippet = trimmed(ls[k].as_slice());
        let ghost base = out@.map_values(|l: LocationRecord| location_full_view(l));
        let ghost occ = line_occurrences(path@, k as int, line@, symbol_name@);
        let ghost line_len = line@.len();
        let line_chars = chars_of(line.as_str());
        assert(line_chars@.len() == line_len);
        assert(forall|q: int| 0 <= q < columns@.len() ==> #[trigger] columns@[q] <= line_len + 1);
        let mut j: usize = 0;
        while j < columns.len()
            invariant
                j <= columns.len(),
                k < ls.len(),
                name_len == symbol_name@.len(),
                name_len <= isize::MAX,
                line_len <= isize::MAX,
                line@.len() == line_len,
                snippet@ == trim(line@),
                columns@.len() == symbol_columns_spec(line@, symbol_name@).len(),
                forall|q: int|
                    0 <= q < columns@.len() ==> columns@[q] as int == #[trigger] symbol_columns_spec(
                        line@,
                        symbol_name@,
                    )[q],
                forall|q: int| 0 <= q < columns@.len() ==> #[trigger] columns@[q] <= line_len + 1,
                occ == line_occurrences(path@, k as int, line@, symbol_name@),
                out@.map_values(|l: LocationRecord| location_full_view(l)) == base + occ.take(
                    j as int,
                ),
            decreases columns.len() - j,
        {
            let c = columns[j];
            let loc = LocationRecord {
                file: string_of(chars_of(path).as_slice()),
                range: RangeRecord {
                    start: crate::model::PositionRecord { line: k + 1, column: c },
                    end: crate::model::PositionRecord { line: k + 1, column: c + name_len },
                },
                snippet: Some(string_of(snippet.as_slice())),
            };
            let ghost before = out@;
            out.push(loc);
            assert(occ[j as int] == location_full_view(loc));
            assert(out@.map_values(|l: LocationRecord| location_full_view(l)) =~= before.map_values(
                |l: LocationRecord| location_full_view(l),
            ).push(location_full_view(loc)));
            assert(occ.take(j + 1) =~= occ.take(j as int).push(occ[j as int]));
            j += 1;
        }
        assert(occ.take(columns.len() as int) =~= occ);
        assert(lv.take(k + 1).drop_last() =~= lv.take(k as int));
        assert(lv.take(k + 1).last() == lv[k as int]);
        k += 1;
    }
    assert(lv.take(ls.len() as int) =~= lv);
    out
}

} // verus!
