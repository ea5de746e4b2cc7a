use lspyx::adapter::{
    count_distinct, is_ignored_directory, is_import_location, is_python_file, merge_locations,
    occurrences_in_text, snippet_of, symbol_columns, unique_workspace_symbol, DocumentTable,
    SyncAction,
};
use lspyx::model::{LocationRecord, PositionRecord, RangeRecord, WorkspaceSymbolRecord};

fn location(file: &str, line: usize, column: usize, snippet: Option<&str>) -> LocationRecord {
    LocationRecord {
        file: file.to_string(),
        range: RangeRecord {
            start: PositionRecord { line, column },
            end: PositionRecord { line, column: column + 1 },
        },
        snippet: snippet.map(str::to_string),
    }
}

fn symbol(name: &str) -> WorkspaceSymbolRecord {
    WorkspaceSymbolRecord {
        name: name.to_string(),
        kind: 5,
        container_name: None,
        file: "/repo/m.py".to_string(),
        range: RangeRecord {
            start: PositionRecord { line: 1, column: 1 },
            end: PositionRecord { line: 1, column: 5 },
        },
        snippet: None,
    }
}

#[test]
fn columns_of_whole_identifiers_only() {
    assert_eq!(symbol_columns("User(user, User_x, User)", "User"), vec![1, 20]);
    assert_eq!(symbol_columns("é = User", "User"), vec![5]);
    assert!(symbol_columns("Users", "User").is_empty());
}

#[test]
fn occurrences_carry_line_range_and_snippet() {
    let found = occurrences_in_text("/repo/a.py", "x = 1\n  y = User\n", "User");
    assert_eq!(found.len(), 1);
    assert_eq!(found[0].range.start, PositionRecord { line: 2, column: 7 });
    assert_eq!(found[0].range.end, PositionRecord { line: 2, column: 11 });
    assert_eq!(found[0].snippet.as_deref(), Some("y = User"));
}

#[test]
fn merged_locations_skip_starts_already_seen() {
    let merged = merge_locations(
        vec![location("/a.py", 1, 1, None)],
        vec![
            location("/a.py", 1, 1, Some("dup")),
            location("/b.py", 2, 3, None),
            location("/b.py", 2, 3, None),
        ],
    );
    assert_eq!(merged.len(), 2);
    assert_eq!(merged[1].file, "/b.py");
    assert!(merged[0].snippet.is_none());
}

#[test]
fn imports_are_recognized() {
    assert!(is_import_location(&location("/a.py", 1, 1, Some("  from m import User")), "User"));
    assert!(is_import_location(&location("/a.py", 1, 1, Some("import User")), "User"));
    assert!(!is_import_location(&location("/a.py", 1, 1, Some("x = User")), "User"));
    assert!(!is_import_location(&location("/a.py", 1, 1, None), "User"));
}

#[test]
fn unique_symbols_need_a_single_match() {
    let symbols = vec![symbol("user"), symbol("User"), symbol("Users")];
    assert_eq!(unique_workspace_symbol(&symbols, "User").unwrap().name, "User");
    let folded = vec![symbol("user"), symbol("Users")];
    assert_eq!(unique_workspace_symbol(&folded, "USER").unwrap().name, "user");
    let twice = vec![symbol("user"), symbol("USER")];
    assert!(unique_workspace_symbol(&twice, "User").is_none());
}

#[test]
fn python_files_and_ignored_directories() {
    assert!(is_python_file("/repo/a.py"));
    assert!(is_python_file("/repo/a.pyi"));
    assert!(!is_python_file("/repo/a.pyc"));
    assert!(!is_python_file("/repo/.py"));
    assert!(is_ignored_directory("/repo/.venv"));
    assert!(is_ignored_directory("node_modules"));
    assert!(!is_ignored_directory("/repo/src"));
}

#[test]
fn distinct_files_are_counted_once() {
    let files = vec!["/a.py".to_string(), "/b.py".to_string(), "/a.py".to_string()];
    assert_eq!(count_distinct(&files), 2);
    assert_eq!(snippet_of(Some("a\n  b  \n"), 2, "/f.py").as_deref(), Some("b"));
    assert!(snippet_of(None, 1, "/f.py").is_none());
}

#[test]
fn documents_are_opened_once_and_versions_grow() {
    let mut table = DocumentTable::new();
    let first = table.plan_sync("/a.py", "x = 1");
    assert_eq!(first, SyncAction::Open { version: 1 });
    table.commit_sync("/a.py".to_string(), "x = 1".to_string(), first);
    assert_eq!(table.plan_sync("/a.py", "x = 1"), SyncAction::Unchanged);
    let change = table.plan_sync("/a.py", "x = 2");
    assert_eq!(change, SyncAction::Change { version: 2 });
    table.commit_sync("/a.py".to_string(), "x = 2".to_string(), change);
    assert_eq!(table.plan_sync("/a.py", "x = 2"), SyncAction::Unchanged);
    assert_eq!(table.version_of("/a.py"), Some(2));
    assert_eq!(table.version_of("/b.py"), None);
}

#[test]
fn merged_locations_compare_files_as_paths() {
    let merged = merge_locations(
        vec![location("/a/b.py", 1, 1, None)],
        vec![location("/a//b.py", 1, 1, None), location("/a/./b.py/", 1, 1, None)],
    );
    assert_eq!(merged.len(), 1);
    assert_eq!(merged[0].file, "/a/b.py");
}

#[test]
fn spellings_of_one_path_count_as_one_file() {
    let files = vec!["/a/b.py".to_string(), "/a//b.py".to_string(), "/a/c.py".to_string()];
    assert_eq!(count_distinct(&files), 2);
}

#[test]
fn documents_are_found_under_any_spelling_of_their_path() {
    let mut table = DocumentTable::new();
    let first = table.plan_sync("/a/b.py", "x = 1");
    table.commit_sync("/a/b.py".to_string(), "x = 1".to_string(), first);
    assert_eq!(table.plan_sync("/a//b.py", "x = 1"), SyncAction::Unchanged);
    assert_eq!(table.version_of("/a/./b.py"), Some(1));
}
