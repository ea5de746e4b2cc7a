use lspyx::lsp::{
    classify_response, column_to_utf16_offset, content_length_header, extract_symbol_at,
    header_step, read_line_text, request_failed, HeaderStep, ResponseAction,
};

#[test]
fn utf16_offset_counts_surrogate_pairs() {
    let line = "a😀b";
    assert_eq!(column_to_utf16_offset(line, 1).unwrap(), 0);
    assert_eq!(column_to_utf16_offset(line, 2).unwrap(), 1);
    assert_eq!(column_to_utf16_offset(line, 3).unwrap(), 3);
    assert_eq!(column_to_utf16_offset(line, 4).unwrap(), 4);
}

#[test]
fn utf16_offset_rejects_columns_out_of_range() {
    assert_eq!(column_to_utf16_offset("ab", 0).unwrap_err(), "column must be 1-based");
    assert_eq!(
        column_to_utf16_offset("ab", 4).unwrap_err(),
        "column 4 is out of range for line of length 2"
    );
}

#[test]
fn symbol_at_takes_the_identifier_under_or_before_the_column() {
    let found = extract_symbol_at("value = Chat(x)", 10).unwrap().unwrap();
    assert_eq!(found.name, "Chat");
    assert_eq!(found.start_column, 9);
    assert_eq!(found.end_column, 13);
    let after = extract_symbol_at("value = Chat(x)", 13).unwrap().unwrap();
    assert_eq!(after.name, "Chat");
    assert!(extract_symbol_at("a  = 1", 3).unwrap().is_none());
    assert!(extract_symbol_at("", 1).unwrap().is_none());
    assert!(extract_symbol_at("abc", 5).is_err());
}

#[test]
fn line_text_reads_one_line() {
    assert_eq!(read_line_text("a\r\nb\n", 2, "f.py").unwrap(), "b");
    assert_eq!(read_line_text("a\nb\n", 3, "f.py").unwrap_err(), "line 3 is out of range for f.py");
}

#[test]
fn headers_announce_the_length() {
    assert_eq!(content_length_header("Content-Length: 42\r\n"), Some(Some(42)));
    assert_eq!(content_length_header("Content-Type: x\r\n"), None);
    assert_eq!(content_length_header("Content-Length: x\r\n"), Some(None));
    match header_step(Some(5), "\r\n", 2) {
        HeaderStep::Body(n) => assert_eq!(n, 5),
        other => panic!("unexpected {other:?}"),
    }
    match header_step(None, "\r\n", 2) {
        HeaderStep::Fail(e) => assert_eq!(e, "missing Content-Length header from LSP server"),
        other => panic!("unexpected {other:?}"),
    }
    match header_step(None, "", 0) {
        HeaderStep::Fail(e) => assert_eq!(e, "LSP server closed stdout unexpectedly"),
        other => panic!("unexpected {other:?}"),
    }
    match header_step(None, "Content-Length: x\r\n", 19) {
        HeaderStep::Fail(e) => assert_eq!(e, "invalid digit found in string"),
        other => panic!("unexpected {other:?}"),
    }
}

#[test]
fn responses_are_matched_by_id() {
    assert_eq!(classify_response(None, 3, false), ResponseAction::Skip);
    assert_eq!(classify_response(Some(2), 3, false), ResponseAction::Skip);
    assert_eq!(classify_response(Some(3), 3, false), ResponseAction::Accept);
    assert_eq!(classify_response(Some(3), 3, true), ResponseAction::Reject);
    assert_eq!(request_failed("hover", "{}"), "LSP request hover failed: {}");
}
