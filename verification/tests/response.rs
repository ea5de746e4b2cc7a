use lspyx::json::{Json, Member};
use lspyx::response::{
    parse_document_symbols, parse_hover_contents, parse_location_response, parse_position,
    parse_workspace_symbols, stringify_hover_contents,
};

fn obj(members: Vec<(&str, Json)>) -> Json {
    Json::Object(
        members
            .into_iter()
            .map(|(key, value)| Member { key: key.to_string(), value })
            .collect(),
        "{}".to_string(),
    )
}

fn num(n: u64) -> Json {
    Json::Number(Some(n), n.to_string())
}

fn text(s: &str) -> Json {
    Json::Str(s.to_string())
}

fn position(line: u64, character: u64) -> Json {
    obj(vec![("line", num(line)), ("character", num(character))])
}

fn range(a: (u64, u64), b: (u64, u64)) -> Json {
    obj(vec![("start", position(a.0, a.1)), ("end", position(b.0, b.1))])
}

#[test]
fn parse_location_link_uses_target_selection_range() {
    let value = obj(vec![
        ("targetUri", text("file:///tmp/example.py")),
        ("targetRange", range((0, 0), (0, 10))),
        ("targetSelectionRange", range((1, 2), (1, 5))),
    ]);

    let parsed = parse_location_response(&value).unwrap();
    assert_eq!(parsed.len(), 1);
    assert_eq!(parsed[0].range.start.line, 2);
    assert_eq!(parsed[0].range.start.column, 3);
}

#[test]
fn locations_read_from_arrays_and_null() {
    assert!(parse_location_response(&Json::Null).unwrap().is_empty());
    let value = Json::Array(vec![
        obj(vec![("uri", text("file:///tmp/a.py")), ("range", range((4, 0), (4, 3)))]),
        obj(vec![("uri", text("file:///tmp/b.py")), ("range", range((0, 1), (0, 2)))]),
    ]);
    let parsed = parse_location_response(&value).unwrap();
    assert_eq!(parsed.len(), 2);
    assert_eq!(parsed[0].file, "/tmp/a.py");
    assert_eq!(parsed[0].range.start.line, 5);
    assert_eq!(parsed[1].file, "/tmp/b.py");
    assert!(parsed[1].snippet.is_none());
    let missing = obj(vec![("uri", text("file:///tmp/a.py"))]);
    assert_eq!(parse_location_response(&missing).unwrap_err(), "missing range");
}

#[test]
fn positions_need_line_and_character() {
    let p = parse_position(&position(0, 0)).unwrap();
    assert_eq!((p.line, p.column), (1, 1));
    assert_eq!(
        parse_position(&obj(vec![("line", num(1))])).unwrap_err(),
        "position missing character"
    );
}

#[test]
fn hover_text_joins_parts_and_unwraps_values() {
    assert_eq!(parse_hover_contents(&Json::Null).unwrap(), "");
    let markup = obj(vec![("contents", obj(vec![("kind", text("markdown")), ("value", text("doc"))]))]);
    assert_eq!(parse_hover_contents(&markup).unwrap(), "doc");
    let list = Json::Array(vec![text("a"), text(""), obj(vec![("language", text("python"))])]);
    assert_eq!(stringify_hover_contents(&list), "a\n\n```python\n\n```");
    assert_eq!(stringify_hover_contents(&Json::Bool(true)), "true");
    assert_eq!(
        parse_hover_contents(&obj(vec![])).unwrap_err(),
        "hover response missing contents"
    );
}

#[test]
fn document_symbols_read_both_shapes() {
    let child = obj(vec![
        ("name", text("method")),
        ("kind", num(6)),
        ("range", range((2, 4), (3, 0))),
        ("selectionRange", range((2, 8), (2, 14))),
    ]);
    let node = obj(vec![
        ("name", text("User")),
        ("detail", text("class")),
        ("kind", num(5)),
        ("range", range((0, 0), (3, 0))),
        ("selectionRange", range((0, 6), (0, 10))),
        ("children", Json::Array(vec![child])),
    ]);
    let info = obj(vec![
        ("name", text("main")),
        ("kind", num(12)),
        ("location", obj(vec![("uri", text("file:///tmp/a.py")), ("range", range((5, 0), (6, 0)))])),
    ]);
    let parsed = parse_document_symbols(&Json::Array(vec![node, info])).unwrap();
    assert_eq!(parsed.len(), 2);
    assert_eq!(parsed[0].name, "User");
    assert_eq!(parsed[0].detail.as_deref(), Some("class"));
    assert_eq!(parsed[0].children.len(), 1);
    assert_eq!(parsed[0].children[0].selection_range.start.column, 9);
    assert_eq!(parsed[1].name, "main");
    assert_eq!(parsed[1].selection_range, parsed[1].range);
    assert_eq!(
        parse_document_symbols(&text("x")).unwrap_err(),
        "documentSymbol response was not an array"
    );
}

#[test]
fn workspace_symbols_carry_container_and_file() {
    let item = obj(vec![
        ("name", text("User")),
        ("kind", num(5)),
        ("containerName", text("models")),
        ("location", obj(vec![("uri", text("file:///tmp/m.py")), ("range", range((9, 6), (9, 10)))])),
    ]);
    let parsed = parse_workspace_symbols(&Json::Array(vec![item])).unwrap();
    assert_eq!(parsed[0].name, "User");
    assert_eq!(parsed[0].container_name.as_deref(), Some("models"));
    assert_eq!(parsed[0].file, "/tmp/m.py");
    assert_eq!(parsed[0].range.start.line, 10);
    let nameless = obj(vec![("kind", num(5))]);
    assert_eq!(
        parse_workspace_symbols(&Json::Array(vec![nameless])).unwrap_err(),
        "workspace symbol missing name"
    );
}

#[test]
fn positions_past_the_last_usize_are_out_of_range() {
    let max = usize::MAX as u64;
    assert_eq!(parse_position(&position(max, 0)).unwrap_err(), "position line out of range");
    assert_eq!(parse_position(&position(0, max)).unwrap_err(), "position character out of range");
    let p = parse_position(&position(max - 1, 2)).unwrap();
    assert_eq!((p.line, p.column), (usize::MAX, 3));
    let hover = obj(vec![
        ("contents", text("x")),
        ("big", num(u64::MAX)),
    ]);
    assert_eq!(parse_hover_contents(&hover).unwrap(), "x");
}

#[test]
fn uris_of_paths_that_are_not_utf8_still_read_as_paths() {
    assert_eq!(
        lspyx::response::file_uri_to_path("file:///tmp/a%FFb.py").unwrap(),
        "/tmp/a\u{FFFD}b.py"
    );
    assert_eq!(lspyx::response::file_uri_to_path("file:///tmp/a.py").unwrap(), "/tmp/a.py");
}
