use lspyx::cli::{parse_colon_location, CommandInput, FileArgs, PositionArgs};
use lspyx::workspace::{local_binary_path, relative_root_string, ty_roots, workspace_folder_name};

#[test]
fn colon_locations_split_from_the_right() {
    assert_eq!(parse_colon_location("src/app.py:42:17").unwrap(), ("src/app.py".to_string(), 42, 17));
    assert_eq!(parse_colon_location("C:/x.py:1:2").unwrap(), ("C:/x.py".to_string(), 1, 2));
    assert_eq!(
        parse_colon_location("src/app.py:42").unwrap_err(),
        "expected FILE:LINE:COLUMN format, got: src/app.py:42"
    );
    assert_eq!(
        parse_colon_location(":1:2").unwrap_err(),
        "expected FILE:LINE:COLUMN format, got: :1:2"
    );
    assert!(parse_colon_location("a.py:x:2").is_err());
}

#[test]
fn positions_are_one_based() {
    let input = CommandInput::from_position_args(PositionArgs { location: "a.py:3:4".to_string() }).unwrap();
    assert_eq!((input.file.as_str(), input.line, input.column), ("a.py", 3, 4));
    assert_eq!(
        CommandInput::from_position_args(PositionArgs { location: "a.py:0:4".to_string() }).unwrap_err(),
        "line must be a 1-based value"
    );
    assert_eq!(
        CommandInput::from_position_args(PositionArgs { location: "a.py:1:0".to_string() }).unwrap_err(),
        "column must be a 1-based value"
    );
    let file = CommandInput::from_file_args(FileArgs { file: "a.py".to_string() });
    assert_eq!((file.line, file.column), (1, 1));
}

#[test]
fn type_checker_roots_are_sorted_and_relative() {
    let roots = ty_roots(
        "/repo",
        &vec!["/repo/src".to_string(), "/repo/python".to_string(), "/repo/src".to_string()],
    );
    assert_eq!(roots, vec![".".to_string(), "./python".to_string(), "./src".to_string()]);
    assert_eq!(relative_root_string("/repo", "/other/src"), "/other/src");
}

#[test]
fn workspace_names_and_binaries() {
    assert_eq!(workspace_folder_name("/home/u/project"), "project");
    assert_eq!(workspace_folder_name("/"), "workspace");
    assert_eq!(local_binary_path("/repo", "ty"), "/repo/.venv/bin/ty");
}
