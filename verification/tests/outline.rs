use lspyx::dispatch::outline_symbols;
use lspyx::model::{DocumentSymbolNode, PositionRecord, RangeRecord};
use lspyx::outline::{build_symbol_hierarchy, prune_outline_depth, range_contains};

fn range(a: (usize, usize), b: (usize, usize)) -> RangeRecord {
    RangeRecord {
        start: PositionRecord { line: a.0, column: a.1 },
        end: PositionRecord { line: b.0, column: b.1 },
    }
}

fn node(name: &str, r: RangeRecord) -> DocumentSymbolNode {
    DocumentSymbolNode {
        name: name.to_string(),
        detail: None,
        kind: 5,
        range: r,
        selection_range: r,
        children: Vec::new(),
    }
}

fn count(nodes: &[DocumentSymbolNode]) -> usize {
    nodes.iter().map(|n| 1 + count(&n.children)).sum()
}

#[test]
fn flat_symbols_are_nested_by_range() {
    let symbols = vec![
        node("A", range((1, 1), (10, 1))),
        node("m", range((2, 5), (3, 1))),
        node("inner", range((2, 9), (2, 20))),
        node("B", range((11, 1), (12, 1))),
    ];
    let tree = build_symbol_hierarchy(symbols);
    assert_eq!(tree.len(), 2);
    assert_eq!(tree[0].name, "A");
    assert_eq!(tree[0].children[0].name, "m");
    assert_eq!(tree[0].children[0].children[0].name, "inner");
    assert_eq!(tree[1].name, "B");
    assert_eq!(count(&tree), 4);
}

#[test]
fn pruning_limits_depth_and_is_idempotent() {
    let symbols = vec![
        node("A", range((1, 1), (10, 1))),
        node("m", range((2, 5), (3, 1))),
        node("inner", range((2, 9), (2, 20))),
    ];
    let pruned = prune_outline_depth(build_symbol_hierarchy(symbols), 2);
    assert_eq!(pruned[0].children[0].children.len(), 0);
    assert_eq!(count(&pruned), 2);
    let again = prune_outline_depth(pruned, 2);
    assert_eq!(count(&again), 2);
    assert!(prune_outline_depth(again, 0).is_empty());
}

#[test]
fn outline_depth_is_applied_only_when_asked() {
    let make = || {
        vec![
            node("A", range((1, 1), (10, 1))),
            node("m", range((2, 5), (3, 1))),
        ]
    };
    assert_eq!(count(&outline_symbols(make(), None)), 2);
    assert_eq!(count(&outline_symbols(make(), Some(1))), 1);
}

#[test]
fn ranges_contain_their_own_bounds() {
    let r = range((1, 1), (2, 1));
    assert!(range_contains(&r, &r));
    assert!(!range_contains(&range((1, 2), (2, 1)), &r));
}
