use lspyx::model::{PositionRecord, RangeRecord, WorkspaceSymbolRecord};
use lspyx::render::select_workspace_symbols;

fn symbol(name: &str) -> WorkspaceSymbolRecord {
    WorkspaceSymbolRecord {
        name: name.to_string(),
        kind: 5,
        container_name: None,
        file: "src/app.py".to_string(),
        range: RangeRecord {
            start: PositionRecord { line: 1, column: 1 },
            end: PositionRecord { line: 1, column: 1 },
        },
        snippet: None,
    }
}

#[test]
fn exact_case_sensitive_workspace_symbol_matches_win() {
    let symbols = [symbol("order"), symbol("Order"), symbol("OrderManager")];
    let symbols = symbols.iter().collect();

    let selected = select_workspace_symbols("Order", symbols);

    assert_eq!(selected.iter().map(|item| item.name.as_str()).collect::<Vec<_>>(), vec!["Order"]);
}

#[test]
fn exact_case_insensitive_workspace_symbol_matches_win() {
    let symbols = [symbol("order"), symbol("OrderManager")];
    let symbols = symbols.iter().collect();

    let selected = select_workspace_symbols("Order", symbols);

    assert_eq!(selected.iter().map(|item| item.name.as_str()).collect::<Vec<_>>(), vec!["order"]);
}

#[test]
fn prefix_workspace_symbol_matches_rank_before_substrings() {
    let symbols = [
        symbol("TestOrderFlow"),
        symbol("OrderManager"),
        symbol("PreOrder"),
        symbol("OrderPolicy"),
        symbol("execute_orders"),
    ];
    let symbols = symbols.iter().collect();

    let selected = select_workspace_symbols("Order", symbols);

    assert_eq!(
        selected.iter().map(|item| item.name.as_str()).collect::<Vec<_>>(),
        vec!["OrderManager", "OrderPolicy", "TestOrderFlow", "PreOrder", "execute_orders"]
    );
}

#[test]
fn symbols_without_any_match_keep_their_order() {
    let symbols = [symbol("Alpha"), symbol("Beta")];
    let selected = select_workspace_symbols("zzz", symbols.iter().collect());
    assert_eq!(selected.iter().map(|item| item.name.as_str()).collect::<Vec<_>>(), vec!["Alpha", "Beta"]);
}
