//! Shaping a file's document symbols into the tree an outline shows.
use vstd::prelude::*;
use crate::model::{DocumentSymbolNode, RangeRecord, SymbolAtRecord};
use crate::response::{NodeView, node_view, nodes_view};

verus! {

// ---------------------------------------------------------------------------
// Ranges
// ---------------------------------------------------------------------------

/// Whether position `(l1, c1)` comes at or before `(l2, c2)`.
pub open spec fn at_or_before(l1: usize, c1: usize, l2: usize, c2: usize) -> bool {
    l1 < l2 || (l1 == l2 && c1 <= c2)
}

/// Whether `parent` encloses `child`: it starts at or before it and ends at
/// or after it.
pub open spec fn contains_spec(parent: RangeRecord, child: RangeRecord) -> bool {
    at_or_before(parent.start.line, parent.start.column, child.start.line, child.start.column)
        && at_or_before(child.end.line, child.end.column, parent.end.line, parent.end.column)
}

/// Whether `parent` encloses `child`.
pub fn range_contains(parent: &RangeRecord, child: &RangeRecord) -> (r: bool)
    ensures
        r == contains_spec(*parent, *child),
{
    let starts_before = parent.start.line < child.start.line || (parent.start.line
        == child.start.line && parent.start.column <= child.start.column);
    let ends_after = child.end.line < parent.end.line || (child.end.line == parent.end.line
        && child.end.column <= parent.end.column);
    starts_before && ends_after
}

// ---------------------------------------------------------------------------
// Building the tree
// ---------------------------------------------------------------------------

/// The last of the first `k` nodes whose range encloses `r`.
pub open spec fn last_container(nodes: Seq<NodeView>, r: RangeRecord, k: int) -> Option<int>
    decreases k,
{
    if k <= 0 {
        None
    } else if contains_spec(nodes[k - 1].range, r) {
        Some(k - 1)
    } else {
        last_container(nodes, r, k - 1)
    }
}

/// `s` placed in a forest: under the last root that encloses it, at the
/// depth where no child encloses it any more; as a new last root where no
/// root encloses it.
pub open spec fn insert_spec(nodes: Seq<NodeView>, s: NodeView) -> Seq<NodeView>
    decreases nodes,
{
    match last_container(nodes, s.range, nodes.len() as int) {
        Some(i) => if 0 <= i < nodes.len() {
            let n = nodes[i];
            nodes.update(
                i,
                NodeView {
                    name: n.name,
                    detail: n.detail,
                    kind: n.kind,
                    range: n.range,
                    selection_range: n.selection_range,
                    children: insert_spec(n.children, s),
                },
            )
        } else {
            nodes
        },
        None => nodes.push(s),
    }
}

/// The forest that placing the symbols one after another builds.
pub open spec fn hierarchy_spec(symbols: Seq<NodeView>) -> Seq<NodeView>
    decreases symbols.len(),
{
    if symbols.len() == 0 {
        Seq::empty()
    } else {
        insert_spec(hierarchy_spec(symbols.drop_last()), symbols.last())
    }
}

proof fn lemma_last_container_bounds(nodes: Seq<NodeView>, r: RangeRecord, k: int)
    requires
        k <= nodes.len(),
    ensures
        last_container(nodes, r, k) matches Some(i) ==> 0 <= i < k && contains_spec(
            nodes[i].range,
            r,
        ),
    decreases k,
{
    if k > 0 && !contains_spec(nodes[k - 1].range, r) {
        lemma_last_container_bounds(nodes, r, k - 1);
    }
}

/// Places `symbol` in the forest `nodes`.
pub fn insert_document_symbol(nodes: &mut Vec<DocumentSymbolNode>, symbol: DocumentSymbolNode)
    ensures
        nodes_view(final(nodes)@) == insert_spec(nodes_view(old(nodes)@), node_view(symbol)),
    decreases old(nodes)@,
{
    let ghost v = nodes_view(nodes@);
    proof {
        lemma_nodes_view_len(nodes@);
    }
    let mut k = nodes.len();
    while k > 0
        invariant
            k <= nodes.len(),
            nodes@ == old(nodes)@,
            v == nodes_view(nodes@),
            v.len() == nodes@.len(),
            last_container(v, symbol.range, nodes.len() as int) == last_container(
                v,
                symbol.range,
                k as int,
            ),
        decreases k,
    {
        proof {
            lemma_nodes_view_index(nodes@, (k - 1) as int);
        }
        if range_contains(&nodes[k - 1].range, &symbol.range) {
            let i = k - 1;
            let ghost old_node = nodes@[i as int];
            let mut node = nodes.remove(i);
            proof {
                assert(decreases_to!(old(nodes)@ => old(nodes)@[i as int]));
                assert(decreases_to!(old(nodes)@[i as int] => old(nodes)@[i as int].children));
                assert(decreases_to!(old(nodes)@[i as int].children => old(nodes)@[i as int].children@));
            }
            insert_document_symbol(&mut node.children, symbol);
            let ghost new_node = node;
            nodes.insert(i, node);
            proof {
                lemma_nodes_view_update(old(nodes)@, i as int, new_node);
                assert(nodes@ == old(nodes)@.update(i as int, new_node));
            }
            return;
        }
        k -= 1;
    }
    nodes.push(symbol);
    proof {
        lemma_nodes_view_push(old(nodes)@, symbol);
    }
}

/// Builds the symbol tree of a file from its symbols in document order.
pub fn build_symbol_hierarchy(symbols: Vec<DocumentSymbolNode>) -> (r: Vec<DocumentSymbolNode>)
    ensures
        nodes_view(r@) == hierarchy_spec(nodes_view(symbols@)),
{
    let ghost all = symbols@;
    let mut pending = symbols;
    let mut reversed: Vec<DocumentSymbolNode> = Vec::new();
    while pending.len() > 0
        invariant
            all == pending@ + reversed@.reverse(),
        decreases pending.len(),
    {
        let n = pending.pop().unwrap();
        let ghost before = reversed@;
        reversed.push(n);
        assert(reversed@.reverse() =~= seq![n] + before.reverse());
    }
    assert(pending@ =~= Seq::<DocumentSymbolNode>::empty());
    assert(all =~= reversed@.reverse());
    let mut roots: Vec<DocumentSymbolNode> = Vec::new();
    let ghost mut done: Seq<DocumentSymbolNode> = Seq::empty();
    while reversed.len() > 0
        invariant
            all == done + reversed@.reverse(),
            nodes_view(roots@) == hierarchy_spec(nodes_view(done)),
        decreases reversed.len(),
    {
        let ghost before = reversed@;
        let n = reversed.pop().unwrap();
        assert(before.reverse() =~= seq![n] + reversed@.reverse());
        insert_document_symbol(&mut roots, n);
        proof {
            lemma_nodes_view_push(done, n);
            assert(nodes_view(done.push(n)).drop_last() == nodes_view(done));
            assert(nodes_view(done.push(n)).last() == node_view(n));
            done = done.push(n);
        }
    }
    assert(reversed@.reverse() =~= Seq::<DocumentSymbolNode>::empty());
    assert(done =~= all);
    roots
}

// ---------------------------------------------------------------------------
// Limiting the depth
// ---------------------------------------------------------------------------

/// A node with its descendants kept down to `depth` levels below it.
pub open spec fn prune_node(n: NodeView, depth: nat) -> NodeView
    decreases n, 1nat,
{
    NodeView {
        name: n.name,
        detail: n.detail,
        kind: n.kind,
        range: n.range,
        selection_range: n.selection_range,
        children: prune_nodes(n.children, if depth == 0 { 0 } else { (depth - 1) as nat }),
    }
}

/// A forest with `depth` levels kept: none for depth 0, else every root
/// with its descendants down to `depth - 1` levels below it.
pub open spec fn prune_nodes(s: Seq<NodeView>, depth: nat) -> Seq<NodeView>
    decreases s, 0nat,
{
    if depth == 0 || s.len() == 0 {
        Seq::empty()
    } else {
        prune_nodes(s.drop_last(), depth).push(prune_node(s.last(), depth))
    }
}

/// Keeps `depth` levels of a symbol tree.
#[verifier::loop_isolation(false)]
pub fn prune_outline_depth(symbols: Vec<DocumentSymbolNode>, depth: usize) -> (r: Vec<
    DocumentSymbolNode,
>)
    ensures
        nodes_view(r@) == prune_nodes(nodes_view(symbols@), depth as nat),
    decreases symbols@,
{
    let mut out: Vec<DocumentSymbolNode> = Vec::new();
    if depth == 0 {
        assert(nodes_view(out@) =~= Seq::<NodeView>::empty());
        return out;
    }
    let ghost all = symbols@;
    let total = symbols.len();
    let mut pending = symbols;
    let mut i: usize = 0;
    assert(all.take(0) =~= Seq::<DocumentSymbolNode>::empty());
    assert(nodes_view(out@) =~= Seq::<NodeView>::empty());
    while pending.len() > 0
        invariant
            0 < depth,
            i <= all.len(),
            all.len() == total,
            pending@ == all.skip(i as int),
            nodes_view(out@) == prune_nodes(nodes_view(all.take(i as int)), depth as nat),
        decreases pending.len(),
    {
        assert(pending@.len() == all.len() - i);
        let node = pending.remove(0);
        assert(node == all[i as int]);
        proof {
            assert(decreases_to!(all => all[i as int]));
            assert(decreases_to!(all[i as int] => all[i as int].children));
            assert(decreases_to!(all[i as int].children => all[i as int].children@));
        }
        let DocumentSymbolNode { name, detail, kind, range, selection_range, children } = node;
        let pruned = prune_outline_depth(children, depth - 1);
        let ghost before = out@;
        let kept = DocumentSymbolNode { name, detail, kind, range, selection_range, children: pruned };
        out.push(kept);
        proof {
            lemma_nodes_view_push(before, kept);
            lemma_nodes_view_push(all.take(i as int), node);
            assert(all.take(i + 1) == all.take(i as int).push(node));
            lemma_nodes_view_len(all.take(i as int));
            assert(nodes_view(all.take(i + 1)).drop_last() == nodes_view(all.take(i as int)));
            assert(nodes_view(all.take(i + 1)).last() == node_view(node));
            assert(node_view(kept) == prune_node(node_view(node), depth as nat));
        }
        i += 1;
        assert(pending@ =~= all.skip(i as int));
    }
    assert(all.take(i as int) =~= all);
    out
}

// ---------------------------------------------------------------------------
// What the tree keeps
// ---------------------------------------------------------------------------

/// The number of symbols in a tree.
pub open spec fn tree_size(n: NodeView) -> nat
    decreases n, 1nat,
{
    1 + forest_size(n.children)
}

/// The number of symbols in a forest.
pub open spec fn forest_size(s: Seq<NodeView>) -> nat
    decreases s, 0nat,
{
    if s.len() == 0 {
        0
    } else {
        forest_size(s.drop_last()) + tree_size(s.last())
    }
}

/// The number of levels of a tree.
pub open spec fn tree_height(n: NodeView) -> nat
    decreases n, 1nat,
{
    1 + forest_depth(n.children)
}

/// The number of levels of a forest: 0 when it is empty.
pub open spec fn forest_depth(s: Seq<NodeView>) -> nat
    decreases s, 0nat,
{
    if s.len() == 0 {
        0
    } else {
        let a = forest_depth(s.drop_last());
        let b = tree_height(s.last());
        if a >= b {
            a
        } else {
            b
        }
    }
}

proof fn lemma_forest_size_update(s: Seq<NodeView>, i: int, x: NodeView)
    requires
        0 <= i < s.len(),
    ensures
        forest_size(s.update(i, x)) + tree_size(s[i]) == forest_size(s) + tree_size(x),
    decreases s.len(),
{
    if i < s.len() - 1 {
        lemma_forest_size_update(s.drop_last(), i, x);
        assert(s.update(i, x).drop_last() == s.drop_last().update(i, x));
    } else {
        assert(s.update(i, x).drop_last() == s.drop_last());
    }
}

proof fn lemma_insert_size(nodes: Seq<NodeView>, s: NodeView)
    ensures
        forest_size(insert_spec(nodes, s)) == forest_size(nodes) + tree_size(s),
    decreases nodes,
{
    lemma_last_container_bounds(nodes, s.range, nodes.len() as int);
    match last_container(nodes, s.range, nodes.len() as int) {
        Some(i) => {
            let n = nodes[i];
            lemma_insert_size(n.children, s);
            let m = NodeView {
                name: n.name,
                detail: n.detail,
                kind: n.kind,
                range: n.range,
                selection_range: n.selection_range,
                children: insert_spec(n.children, s),
            };
            lemma_forest_size_update(nodes, i, m);
        },
        None => {
            assert(nodes.push(s).drop_last() == nodes);
        },
    }
}

/// Building the tree keeps every symbol: it holds as many symbols as were
/// given.
pub proof fn lemma_hierarchy_keeps_symbols(symbols: Seq<NodeView>)
    ensures
        forest_size(hierarchy_spec(symbols)) == forest_size(symbols),
    decreases symbols.len(),
{
    if symbols.len() > 0 {
        lemma_hierarchy_keeps_symbols(symbols.drop_last());
        lemma_insert_size(hierarchy_spec(symbols.drop_last()), symbols.last());
    }
}

/// Limiting a tree to `a` levels and then to `b` levels limits it to the
/// smaller of the two; limiting twice to the same depth changes nothing.
pub proof fn lemma_prune_twice(s: Seq<NodeView>, a: nat, b: nat)
    ensures
        prune_nodes(prune_nodes(s, a), b) == prune_nodes(s, if a <= b { a } else { b }),
    decreases s, 0nat,
{
    if a == 0 || b == 0 || s.len() == 0 {
        assert(prune_nodes(s, 0) =~= Seq::<NodeView>::empty());
    } else {
        lemma_prune_twice(s.drop_last(), a, b);
        lemma_prune_node_twice(s.last(), a, b);
        let p = prune_nodes(s.drop_last(), a);
        assert(p.push(prune_node(s.last(), a)).drop_last() == p);
    }
}

proof fn lemma_prune_node_twice(n: NodeView, a: nat, b: nat)
    requires
        a > 0,
        b > 0,
    ensures
        prune_node(prune_node(n, a), b) == prune_node(n, if a <= b { a } else { b }),
    decreases n, 1nat,
{
    lemma_prune_twice(n.children, (a - 1) as nat, (b - 1) as nat);
}

/// A tree limited to `depth` levels has at most `depth` levels.
pub proof fn lemma_prune_depth(s: Seq<NodeView>, depth: nat)
    ensures
        forest_depth(prune_nodes(s, depth)) <= depth,
    decreases s, 0nat,
{
    if depth == 0 || s.len() == 0 {
        assert(prune_nodes(s, depth) =~= Seq::<NodeView>::empty());
    } else {
        lemma_prune_depth(s.drop_last(), depth);
        lemma_prune_node_height(s.last(), depth);
        let p = prune_nodes(s.drop_last(), depth);
        assert(p.push(prune_node(s.last(), depth)).drop_last() == p);
    }
}

proof fn lemma_prune_node_height(n: NodeView, depth: nat)
    requires
        depth > 0,
    ensures
        tree_height(prune_node(n, depth)) <= depth,
    decreases n, 1nat,
{
    lemma_prune_depth(n.children, (depth - 1) as nat);
}

// ---------------------------------------------------------------------------
// The symbol at a position
// ---------------------------------------------------------------------------

/// The first symbol of a tree, itself before its descendants, whose name
/// starts at `(line, column)`.
pub open spec fn node_find(n: DocumentSymbolNode, line: usize, column: usize) -> Option<
    DocumentSymbolNode,
>
    decreases n, 1nat,
{
    if n.selection_range.start.line == line && n.selection_range.start.column == column {
        Some(n)
    } else {
        forest_find(n.children@, line, column)
    }
}

/// The first symbol of a forest, depth first, whose name starts at
/// `(line, column)`.
pub open spec fn forest_find(nodes: Seq<DocumentSymbolNode>, line: usize, column: usize) -> Option<
    DocumentSymbolNode,
>
    decreases nodes, 0nat,
{
    if nodes.len() == 0 {
        None
    } else {
        match node_find(nodes[0], line, column) {
            Some(n) => Some(n),
            None => forest_find(nodes.drop_first(), line, column),
        }
    }
}

/// Finds the document symbol whose name starts at a position.
pub fn find_document_symbol(nodes: &[DocumentSymbolNode], line: usize, column: usize) -> (r: Option<
    &DocumentSymbolNode,
>)
    ensures
        match r {
            Some(n) => forest_find(nodes@, line, column) == Some(*n),
            None => forest_find(nodes@, line, column) is None,
        },
    decreases nodes@,
{
    let mut i: usize = 0;
    assert(nodes@.skip(0) == nodes@);
    while i < nodes.len()
        invariant
            i <= nodes.len(),
            forest_find(nodes@, line, column) == forest_find(nodes@.skip(i as int), line, column),
        decreases nodes.len() - i,
    {
        let n = &nodes[i];
        assert(nodes@.skip(i as int)[0] == nodes@[i as int]);
        assert(nodes@.skip(i as int).drop_first() == nodes@.skip(i + 1));
        if n.selection_range.start.line == line && n.selection_range.start.column == column {
            assert(node_find(nodes@[i as int], line, column) == Some(nodes@[i as int]));
            assert(forest_find(nodes@.skip(i as int), line, column) == Some(nodes@[i as int]));
            return Some(n);
        }
        proof {
            assert(decreases_to!(nodes@ => nodes@[i as int]));
            assert(decreases_to!(nodes@[i as int] => nodes@[i as int].children));
            assert(decreases_to!(nodes@[i as int].children => nodes@[i as int].children@));
        }
        match find_document_symbol(n.children.as_slice(), line, column) {
            Some(found) => {
                assert(node_find(nodes@[i as int], line, column) == Some(*found));
                assert(forest_find(nodes@.skip(i as int), line, column) == Some(*found));
                return Some(found);
            },
            None => {
                assert(node_find(nodes@[i as int], line, column) is None);
            },
        }
        i += 1;
    }
    None
}

/// The identifier at a position with the kind and detail of the document
/// symbol it names, where one was found with the same name.
pub fn apply_document_symbol_metadata(
    symbol: SymbolAtRecord,
    document_symbol: Option<&DocumentSymbolNode>,
) -> (r: SymbolAtRecord)
    ensures
        r.name == symbol.name,
        r.start_column == symbol.start_column,
        r.end_column == symbol.end_column,
        match document_symbol {
            Some(d) => if d.name@ == symbol.name@ {
                r.kind == Some(d.kind) && r.detail == d.detail
            } else {
                r.kind == symbol.kind && r.detail == symbol.detail
            },
            None => r.kind == symbol.kind && r.detail == symbol.detail,
        },
{
    match document_symbol {
        Some(d) => {
            if d.name == symbol.name {
                let detail = match &d.detail {
                    Some(t) => Some(t.clone()),
                    None => None,
                };
                SymbolAtRecord { kind: Some(d.kind), detail, ..symbol }
            } else {
                symbol
            }
        },
        None => symbol,
    }
}

// ---------------------------------------------------------------------------
// Views
// ---------------------------------------------------------------------------

proof fn lemma_nodes_view_len(s: Seq<DocumentSymbolNode>)
    ensures
        nodes_view(s).len() == s.len(),
    decreases s.len(),
{
    if s.len() > 0 {
        lemma_nodes_view_len(s.drop_last());
    }
}

proof fn lemma_nodes_view_index(s: Seq<DocumentSymbolNode>, i: int)
    requires
        0 <= i < s.len(),
    ensures
        nodes_view(s)[i] == node_view(s[i]),
    decreases s.len(),
{
    lemma_nodes_view_len(s.drop_last());
    if i < s.len() - 1 {
        lemma_nodes_view_index(s.drop_last(), i);
    }
}

proof fn lemma_nodes_view_update(s: Seq<DocumentSymbolNode>, i: int, n: DocumentSymbolNode)
    requires
        0 <= i < s.len(),
    ensures
        nodes_view(s.update(i, n)) == nodes_view(s).update(i, node_view(n)),
    decreases s.len(),
{
    lemma_nodes_view_len(s);
    lemma_nodes_view_len(s.update(i, n));
    if i < s.len() - 1 {
        lemma_nodes_view_update(s.drop_last(), i, n);
        assert(s.update(i, n).drop_last() == s.drop_last().update(i, n));
    } else {
        assert(s.update(i, n).drop_last() == s.drop_last());
    }
    assert(nodes_view(s.update(i, n)) =~= nodes_view(s).update(i, node_view(n)));
}

proof fn lemma_nodes_view_push(s: Seq<DocumentSymbolNode>, n: DocumentSymbolNode)
    ensures
        nodes_view(s.push(n)) == nodes_view(s).push(node_view(n)),
{
    assert(s.push(n).drop_last() == s);
}

} // verus!
