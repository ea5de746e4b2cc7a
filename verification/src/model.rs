//! The records that navigation results are made of.
use vstd::prelude::*;
use crate::paths::strip_prefix_spec;
use crate::text::{decimal, join};

verus! {

/// A 1-based line and column.
#[derive(Clone, Copy, Debug, PartialEq, Eq)]
pub struct PositionRecord {
    pub line: usize,
    pub column: usize,
}

/// A range between two positions.
#[derive(Clone, Copy, Debug, PartialEq, Eq)]
pub struct RangeRecord {
    pub start: PositionRecord,
    pub end: PositionRecord,
}

/// A location in a file, with the trimmed source line when it was read.
#[derive(Clone, Debug)]
pub struct LocationRecord {
    pub file: String,
    pub range: RangeRecord,
    pub snippet: Option<String>,
}

/// A node of a file's symbol tree.
#[derive(Debug)]
pub struct DocumentSymbolNode {
    pub name: String,
    pub detail: Option<String>,
    pub kind: u64,
    pub range: RangeRecord,
    pub selection_range: RangeRecord,
    pub children: Vec<DocumentSymbolNode>,
}

/// A symbol that a workspace search found.
#[derive(Clone, Debug)]
pub struct WorkspaceSymbolRecord {
    pub name: String,
    pub kind: u64,
    pub container_name: Option<String>,
    pub file: String,
    pub range: RangeRecord,
    pub snippet: Option<String>,
}

/// The identifier under a position: its text and 1-based column span, with
/// the kind and detail of the document symbol it names, where one does.
#[derive(Clone, Debug)]
pub struct SymbolAtRecord {
    pub name: String,
    pub start_column: usize,
    pub end_column: usize,
    pub kind: Option<u64>,
    pub detail: Option<String>,
}

impl SymbolAtRecord {
    /// A copy of the record.
    pub fn duplicate(&self) -> (r: SymbolAtRecord)
        ensures
            r == *self,
    {
        SymbolAtRecord {
            name: self.name.clone(),
            start_column: self.start_column,
            end_column: self.end_column,
            kind: self.kind,
            detail: match &self.detail {
                Some(d) => Some(d.clone()),
                None => None,
            },
        }
    }
}

/// A requested position and what was found there.
#[derive(Clone, Debug)]
pub struct ResolvedPosition {
    pub file: String,
    pub line: usize,
    pub requested_column: usize,
    pub resolved_column: Option<usize>,
    pub source_line: Option<String>,
    pub symbol: Option<SymbolAtRecord>,
}

/// Which semantic target a goto request resolves.
#[derive(Clone, Copy, Debug, PartialEq, Eq)]
pub enum GotoTarget {
    Definition,
    Declaration,
    Type,
}

/// A restriction of workspace symbol search to one kind of symbol.
#[derive(Clone, Copy, Debug, PartialEq, Eq)]
pub enum SymbolKindFilter {
    Class,
    Function,
    Method,
}

/// The LSP symbol kind that a filter keeps.
pub open spec fn filter_kind(f: SymbolKindFilter) -> u64 {
    match f {
        SymbolKindFilter::Class => 5,
        SymbolKindFilter::Function => 12,
        SymbolKindFilter::Method => 6,
    }
}

impl SymbolKindFilter {
    /// Whether a symbol of LSP kind `kind` passes the filter.
    pub fn matches(self, kind: u64) -> (r: bool)
        ensures
            r == (kind == filter_kind(self)),
    {
        match self {
            SymbolKindFilter::Class => kind == 5,
            SymbolKindFilter::Function => kind == 12,
            SymbolKindFilter::Method => kind == 6,
        }
    }
}

/// Goto or usage results for a position.
#[derive(Clone, Debug)]
pub struct LocationOutput {
    pub ok: bool,
    pub workspace_root: String,
    pub position: ResolvedPosition,
    pub target: Option<GotoTarget>,
    pub locations: Vec<LocationRecord>,
}

/// Workspace symbol search results.
#[derive(Clone, Debug)]
pub struct WorkspaceSymbolOutput {
    pub ok: bool,
    pub workspace_root: String,
    pub query: String,
    pub symbols: Vec<WorkspaceSymbolRecord>,
}

/// A file's symbol tree.
#[derive(Debug)]
pub struct OutlineOutput {
    pub ok: bool,
    pub workspace_root: String,
    pub file: String,
    pub depth: Option<usize>,
    pub symbols: Vec<DocumentSymbolNode>,
}

/// The symbol at a position, with hover text.
#[derive(Clone, Debug)]
pub struct SymbolAtOutput {
    pub ok: bool,
    pub workspace_root: String,
    pub position: ResolvedPosition,
    pub symbol: Option<SymbolAtRecord>,
    pub hover: Option<String>,
}

/// The label of an LSP `SymbolKind`.
pub open spec fn kind_label(kind: u64) -> Seq<char> {
    if kind == 1 {
        "file"@
    } else if kind == 2 {
        "module"@
    } else if kind == 3 {
        "namespace"@
    } else if kind == 4 {
        "package"@
    } else if kind == 5 {
        "class"@
    } else if kind == 6 {
        "method"@
    } else if kind == 7 {
        "property"@
    } else if kind == 8 {
        "field"@
    } else if kind == 9 {
        "constructor"@
    } else if kind == 10 {
        "enum"@
    } else if kind == 11 {
        "interface"@
    } else if kind == 12 {
        "function"@
    } else if kind == 13 {
        "variable"@
    } else if kind == 14 {
        "constant"@
    } else if kind == 15 {
        "string"@
    } else if kind == 16 {
        "number"@
    } else if kind == 17 {
        "boolean"@
    } else if kind == 18 {
        "array"@
    } else if kind == 19 {
        "object"@
    } else if kind == 20 {
        "key"@
    } else if kind == 21 {
        "null"@
    } else if kind == 22 {
        "enum-member"@
    } else if kind == 23 {
        "struct"@
    } else if kind == 24 {
        "event"@
    } else if kind == 25 {
        "operator"@
    } else if kind == 26 {
        "type-parameter"@
    } else {
        "unknown"@
    }
}

/// Map an LSP SymbolKind integer to a human-readable label.
pub fn symbol_kind_name(kind: u64) -> (r: &'static str)
    ensures
        r@ == kind_label(kind),
{
    if kind == 1 {
        "file"
    } else if kind == 2 {
        "module"
    } else if kind == 3 {
        "namespace"
    } else if kind == 4 {
        "package"
    } else if kind == 5 {
        "class"
    } else if kind == 6 {
        "method"
    } else if kind == 7 {
        "property"
    } else if kind == 8 {
        "field"
    } else if kind == 9 {
        "constructor"
    } else if kind == 10 {
        "enum"
    } else if kind == 11 {
        "interface"
    } else if kind == 12 {
        "function"
    } else if kind == 13 {
        "variable"
    } else if kind == 14 {
        "constant"
    } else if kind == 15 {
        "string"
    } else if kind == 16 {
        "number"
    } else if kind == 17 {
        "boolean"
    } else if kind == 18 {
        "array"
    } else if kind == 19 {
        "object"
    } else if kind == 20 {
        "key"
    } else if kind == 21 {
        "null"
    } else if kind == 22 {
        "enum-member"
    } else if kind == 23 {
        "struct"
    } else if kind == 24 {
        "event"
    } else if kind == 25 {
        "operator"
    } else if kind == 26 {
        "type-parameter"
    } else {
        "unknown"
    }
}

/// How a path is shown: relative to the workspace root when it lies under
/// it (`.` for the root itself), else as it is.
pub open spec fn display_spec(root: Seq<char>, path: Seq<char>) -> Seq<char> {
    match strip_prefix_spec(path, root) {
        Some(rel) => if rel.len() == 0 {
            "."@
        } else {
            rel
        },
        None => path,
    }
}

/// `path` as shown relative to `workspace_root`.
pub fn display_path(workspace_root: &str, path: &str) -> (r: String)
    ensures
        r@ == display_spec(workspace_root@, path@),
{
    let root = crate::text::chars_of(workspace_root);
    let p = crate::text::chars_of(path);
    match crate::paths::strip_prefix(p.as_slice(), root.as_slice()) {
        Some(rel) => {
            if rel.len() == 0 {
                ".".to_owned()
            } else {
                crate::text::string_of(rel.as_slice())
            }
        },
        None => path.to_owned(),
    }
}

/// The line that shows one symbol of a tree at an indent.
pub open spec fn node_line(node: DocumentSymbolNode, indent: nat) -> Seq<char> {
    Seq::new(2 * indent, |i: int| ' ') + node.name@ + " ["@ + kind_label(node.kind) + "] "@
        + decimal(node.range.start.line as nat) + ":"@ + decimal(node.range.start.column as nat)
}

/// The text that shows a symbol and, on the lines below it and indented one
/// step more, each of its children.
pub open spec fn node_text(node: DocumentSymbolNode, indent: nat) -> Seq<char>
    decreases node,
{
    join(seq![node_line(node, indent)] + children_texts(node.children@, indent + 1), "\n"@)
}

/// The texts of a sequence of sibling symbols.
pub open spec fn children_texts(nodes: Seq<DocumentSymbolNode>, indent: nat) -> Seq<Seq<char>>
    decreases nodes,
{
    if nodes.len() == 0 {
        Seq::empty()
    } else {
        children_texts(nodes.drop_last(), indent).push(node_text(nodes.last(), indent))
    }
}

/// The number of levels of a symbol tree.
pub open spec fn node_height(node: DocumentSymbolNode) -> nat
    decreases node,
{
    1 + forest_height(node.children@)
}

/// The greatest height among sibling trees.
pub open spec fn forest_height(nodes: Seq<DocumentSymbolNode>) -> nat
    decreases nodes,
{
    if nodes.len() == 0 {
        0
    } else {
        let a = forest_height(nodes.drop_last());
        let b = node_height(nodes.last());
        if a >= b {
            a
        } else {
            b
        }
    }
}

/// No tree of a forest is higher than the forest.
pub proof fn lemma_forest_height(nodes: Seq<DocumentSymbolNode>, i: int)
    requires
        0 <= i < nodes.len(),
    ensures
        node_height(nodes[i]) <= forest_height(nodes),
    decreases nodes.len(),
{
    if i < nodes.len() - 1 {
        lemma_forest_height(nodes.drop_last(), i);
    }
}

/// Whether a symbol forest has at most `bound` levels.
pub fn forest_height_within(nodes: &Vec<DocumentSymbolNode>, bound: usize) -> (r: bool)
    ensures
        r == (forest_height(nodes@) <= bound),
    decreases nodes@,
{
    let mut i: usize = 0;
    assert(nodes@.take(0) =~= Seq::<DocumentSymbolNode>::empty());
    while i < nodes.len()
        invariant
            i <= nodes.len(),
            forest_height(nodes@.take(i as int)) <= bound,
        decreases nodes.len() - i,
    {
        proof {
            assert(nodes@.take(i + 1).drop_last() == nodes@.take(i as int));
            assert(nodes@.take(i + 1).last() == nodes@[i as int]);
            assert(decreases_to!(nodes@ => nodes@[i as int]));
            assert(decreases_to!(nodes@[i as int] => nodes@[i as int].children));
            assert(decreases_to!(nodes@[i as int].children => nodes@[i as int].children@));
        }
        if bound == 0 {
            proof {
                lemma_forest_height(nodes@, i as int);
            }
            return false;
        }
        if !forest_height_within(&nodes[i].children, bound - 1) {
            proof {
                lemma_forest_height(nodes@, i as int);
            }
            return false;
        }
        proof {
            assert(node_height(nodes@[i as int]) <= bound);
            let t = nodes@.take(i + 1);
            assert(t.drop_last() == nodes@.take(i as int));
            assert(t.last() == nodes@[i as int]);
            assert(forest_height(t) <= bound);
        }
        i += 1;
    }
    assert(nodes@.take(nodes.len() as int) == nodes@);
    true
}

/// Two spaces for each level of indent.
pub open spec fn indent_spaces(indent: nat) -> Seq<char> {
    Seq::new(2 * indent, |i: int| ' ')
}

/// The spaces of an indent.
pub fn push_indent(out: &mut Vec<char>, indent: usize)
    requires
        indent <= usize::MAX / 2,
    ensures
        final(out)@ == old(out)@ + indent_spaces(indent as nat),
{
    let mut k: usize = 0;
    while k < 2 * indent
        invariant
            indent <= usize::MAX / 2,
            k <= 2 * indent,
            out@ == old(out)@ + Seq::new(k as nat, |i: int| ' '),
        decreases 2 * indent - k,
    {
        out.push(' ');
        k += 1;
        assert(out@ =~= old(out)@ + Seq::new(k as nat, |i: int| ' '));
    }
    assert(Seq::new(k as nat, |i: int| ' ') =~= indent_spaces(indent as nat));
}

impl DocumentSymbolNode {
    /// The symbol tree as indented lines.
    pub fn format_text(&self) -> (r: String)
        requires
            node_height(*self) <= usize::MAX / 2,
        ensures
            r@ == node_text(*self, 0),
    {
        crate::text::string_of(self.format_with_indent(0).as_slice())
    }

    fn format_with_indent(&self, indent: usize) -> (r: Vec<char>)
        requires
            indent + node_height(*self) <= usize::MAX / 2,
        ensures
            r@ == node_text(*self, indent as nat),
        decreases self,
    {
        let mut line: Vec<char> = Vec::new();
        push_indent(&mut line, indent);
        crate::text::push_str(&mut line, self.name.as_str());
        crate::text::push_str(&mut line, " [");
        crate::text::push_str(&mut line, symbol_kind_name(self.kind));
        crate::text::push_str(&mut line, "] ");
        crate::text::extend(&mut line, crate::text::decimal_chars(self.range.start.line).as_slice());
        crate::text::push_str(&mut line, ":");
        crate::text::extend(
            &mut line,
            crate::text::decimal_chars(self.range.start.column).as_slice(),
        );
        let mut lines: Vec<Vec<char>> = Vec::new();
        lines.push(line);
        let ghost kids = self.children@;
        let mut i: usize = 0;
        while i < self.children.len()
            invariant
                i <= self.children.len(),
                kids == self.children@,
                indent + node_height(*self) <= usize::MAX / 2,
                crate::text::views(lines@) == seq![node_line(*self, indent as nat)]
                    + children_texts(kids.take(i as int), indent as nat + 1),
            decreases self.children.len() - i,
        {
            proof {
                lemma_forest_height(kids, i as int);
                assert(kids.take(i + 1).drop_last() == kids.take(i as int));
                assert(kids.take(i + 1).last() == kids[i as int]);
            }
            let ghost before = crate::text::views(lines@);
            let text = self.children[i].format_with_indent(indent + 1);
            lines.push(text);
            assert(crate::text::views(lines@) == before.push(text@));
            i += 1;
        }
        assert(kids.take(self.children.len() as int) == kids);
        let sep = crate::text::chars_of("\n");
        crate::text::join_with(&lines, sep.as_slice())
    }
}

} // verus!
