use lspyx::dispatch::rename_summary;
use lspyx::json::Json;
use lspyx::lsp::{column_to_utf16_offset, initialize_params, ty_settings};
use lspyx::model::PositionRecord;
use lspyx::rename::position_to_byte_offset;

fn keys(j: &Json) -> Vec<String> {
    match j {
        Json::Object(m, _) => m.iter().map(|x| x.key.clone()).collect(),
        _ => panic!("not an object"),
    }
}

fn text_of(j: &Json) -> String {
    match j {
        Json::Str(s) => s.clone(),
        _ => panic!("not a string"),
    }
}

#[test]
fn rename_summary_heads_the_diff() {
    assert_eq!(
        rename_summary("old", "new", 3, 2, "--- a\n+++ b\n"),
        "summary: rename old to new: 3 edits in 2 files\n\n--- a\n+++ b\n"
    );
}

#[test]
fn initialize_params_follow_the_session_template() {
    let p = initialize_params("file:///repo", "1.2.3", "repo", Json::Bool(true));
    assert_eq!(
        keys(&p),
        vec![
            "processId",
            "clientInfo",
            "rootUri",
            "capabilities",
            "initializationOptions",
            "workspaceFolders",
            "trace"
        ]
    );
    let Json::Object(m, _) = &p else { panic!("not an object") };
    assert!(matches!(m[0].value, Json::Null));
    assert_eq!(text_of(&m[1].value.get("version").unwrap()), "1.2.3");
    assert_eq!(text_of(&m[1].value.get("name").unwrap()), "lspyx");
    assert_eq!(text_of(&m[2].value), "file:///repo");
    assert!(keys(&m[3].value).is_empty());
    let Json::Array(folders) = &m[5].value else { panic!("not an array") };
    assert_eq!(text_of(folders[0].get("uri").unwrap()), "file:///repo");
    assert_eq!(text_of(folders[0].get("name").unwrap()), "repo");
    assert_eq!(text_of(&m[6].value), "off");
    let configuration = m[4].value.get("settings").unwrap().get("ty").unwrap().get("configuration");
    assert!(matches!(configuration, Some(Json::Bool(true))));
}

#[test]
fn ty_settings_nest_the_configuration() {
    let s = ty_settings(Json::Null);
    assert_eq!(keys(&s), vec!["settings"]);
    assert!(s.get("settings").unwrap().get("ty").unwrap().get("configuration").unwrap().is_null());
}

#[test]
fn utf16_columns_read_back_to_the_same_character() {
    let text = "a\u{e9}\u{1f600}b";
    for (column, byte) in [(1usize, 0usize), (2, 1), (3, 3), (4, 7), (5, 8)] {
        let units = column_to_utf16_offset(text, column).unwrap();
        let position = PositionRecord { line: 1, column: units + 1 };
        assert_eq!(position_to_byte_offset(text, &position).unwrap(), byte);
    }
}

fn workspace_symbol(name: &str) -> lspyx::model::WorkspaceSymbolRecord {
    lspyx::model::WorkspaceSymbolRecord {
        name: name.to_string(),
        kind: 12,
        container_name: None,
        file: "/repo/m.py".to_string(),
        range: lspyx::model::RangeRecord {
            start: PositionRecord { line: 1, column: 1 },
            end: PositionRecord { line: 1, column: 2 },
        },
        snippet: None,
    }
}

#[test]
fn folded_ranking_puts_prefixes_then_substrings_then_the_rest() {
    let a = workspace_symbol("Xuser");
    let b = workspace_symbol("Other");
    let c = workspace_symbol("USERNAME");
    let symbols = vec![&a, &b, &c];
    let names: Vec<Vec<char>> = vec!["xuser".chars().collect(), "other".chars().collect(), "username".chars().collect()];
    let query: Vec<char> = "user".chars().collect();
    let ranked = lspyx::render::rank_folded_symbols(&query, &symbols, &names);
    let order: Vec<&str> = ranked.iter().map(|s| s.name.as_str()).collect();
    assert_eq!(order, vec!["USERNAME", "Xuser", "Other"]);
}
