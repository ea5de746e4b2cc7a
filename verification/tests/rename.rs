use lspyx::model::{PositionRecord, RangeRecord};
use lspyx::rename::{
    apply_rename_edits, build_rename_diff, position_to_byte_offset, FileText, RenameEditRecord,
};

fn edit(line: usize, start: usize, end: usize, new_text: &str) -> RenameEditRecord {
    RenameEditRecord {
        file: "example.py".into(),
        range: RangeRecord {
            start: PositionRecord { line, column: start },
            end: PositionRecord { line, column: end },
        },
        new_text: new_text.to_string(),
    }
}

#[test]
fn applies_multiple_edits_from_the_end() {
    let original = "value = Chat(Chat.id)\n";
    let edits = [edit(1, 9, 13, "Conversation"), edit(1, 14, 18, "Conversation")];

    let updated = apply_rename_edits(original, "Chat", "example.py", edits.iter().collect()).unwrap();

    assert_eq!(updated, "value = Conversation(Conversation.id)\n");
}

#[test]
fn converts_utf16_columns_to_byte_offsets() {
    let text = "x = '😀'; Chat\n";
    let offset = position_to_byte_offset(text, &PositionRecord { line: 1, column: 11 }).unwrap();

    assert_eq!(&text[offset..offset + 4], "Chat");
}

#[test]
fn rejects_stale_edits() {
    let edits = [edit(1, 1, 5, "Conversation")];

    let error = apply_rename_edits("User = 1\n", "Chat", "example.py", edits.iter().collect())
        .unwrap_err();

    assert!(error.to_string().contains("expected \"Chat\", found \"User\""));
}

#[test]
fn position_past_the_last_line_is_refused() {
    let error = position_to_byte_offset("a\n", &PositionRecord { line: 5, column: 1 }).unwrap_err();
    assert!(!error.is_empty());
}

#[test]
fn rename_diff_covers_each_file_once() {
    let mut second = edit(1, 1, 5, "Conversation");
    second.file = "/repo/b.py".to_string();
    let mut first = edit(1, 9, 13, "Conversation");
    first.file = "/repo/a.py".to_string();
    let edits = vec![second, first];
    let files = vec![
        FileText { path: "/repo/a.py".to_string(), text: Ok("value = Chat()\n".to_string()) },
        FileText { path: "/repo/b.py".to_string(), text: Ok("Chat = 1\n".to_string()) },
    ];
    let diff = build_rename_diff("/repo", "Chat", &edits, &files).unwrap();
    let a = diff.find("--- a/a.py").unwrap();
    let b = diff.find("--- a/b.py").unwrap();
    assert!(a < b);
    assert!(diff.contains("+value = Conversation()"));
    assert!(diff.contains("+Conversation = 1"));
}

#[test]
fn rename_diff_reports_unreadable_files() {
    let mut only = edit(1, 1, 5, "Conversation");
    only.file = "/repo/a.py".to_string();
    let files = vec![FileText { path: "/repo/a.py".to_string(), text: Err("denied".to_string()) }];
    let error = build_rename_diff("/repo", "Chat", &[only], &files).unwrap_err();
    assert_eq!(error, "failed to read rename target /repo/a.py: denied");
}

#[test]
fn edit_order_does_not_change_the_result() {
    let original = "value = Chat(Chat.id)\nChat\n";
    let a = edit(1, 9, 13, "Conversation");
    let b = edit(1, 14, 18, "Conversation");
    let c = edit(2, 1, 5, "Conversation");
    let forward = apply_rename_edits(original, "Chat", "example.py", vec![&a, &b, &c]).unwrap();
    let backward = apply_rename_edits(original, "Chat", "example.py", vec![&c, &b, &a]).unwrap();
    assert_eq!(forward, backward);
    assert_eq!(forward, "value = Conversation(Conversation.id)\nConversation\n");
    assert!(apply_rename_edits(original, "Chat", "example.py", vec![&a, &a]).is_err());
    assert_eq!(apply_rename_edits(original, "Chat", "example.py", vec![]).unwrap(), original);
}
