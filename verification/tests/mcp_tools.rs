use lspyx::daemon::DaemonRequest;
use lspyx::mcp::diagnostics::{
    check_target_in_workspace, prepare as prepare_diagnostics, target_path, DiagnosticsRequest,
    DiagnosticsTarget,
};
use lspyx::mcp::explore::{
    execute, position_bundle, prepare as prepare_explore, run_position_bundle, section,
    ExploreCall, ExploreRequest, ExploreRoute, PositionStep, PreparedExplore,
};
use lspyx::mcp::rename::{prepare as prepare_rename, rename_request, RenameRequest};

#[test]
fn diagnostics_requires_workspace_without_path() {
    let error = prepare_diagnostics(DiagnosticsRequest { workspace: None, path: None, limit: None })
        .unwrap_err();

    assert_eq!(error.to_string(), "workspace is required when path is omitted");
}

#[test]
fn diagnostics_rejects_zero_limit() {
    let error = prepare_diagnostics(DiagnosticsRequest {
        workspace: Some("/tmp".into()),
        path: None,
        limit: Some(0),
    })
    .unwrap_err();

    assert_eq!(error.to_string(), "limit must be greater than 0");
}

#[test]
fn rename_rejects_empty_new_name() {
    let error = prepare_rename(RenameRequest {
        workspace: Some("/tmp".into()),
        file: "example.py".into(),
        line: 1,
        column: 1,
        new_name: "  ".to_string(),
    })
    .unwrap_err();

    assert_eq!(error.to_string(), "new_name must not be empty");
}

#[test]
fn diagnostics_defaults_the_limit_and_places_relative_paths() {
    let plan = prepare_diagnostics(DiagnosticsRequest {
        workspace: Some("/repo".into()),
        path: Some("src".into()),
        limit: None,
    })
    .unwrap();
    assert_eq!(plan.limit, 100);
    assert!(matches!(plan.target, DiagnosticsTarget::InWorkspace(_)));
    assert_eq!(target_path(&plan.target, "/repo"), "/repo/src");
    let error = prepare_diagnostics(DiagnosticsRequest {
        workspace: None,
        path: Some("src".into()),
        limit: Some(3),
    })
    .unwrap_err();
    assert_eq!(error, "workspace is required when path is relative");
}

#[test]
fn diagnostics_target_must_be_in_the_workspace() {
    assert!(check_target_in_workspace("/repo/src/a.py", "/repo").is_ok());
    assert!(check_target_in_workspace("/repo", "/repo").is_ok());
    assert_eq!(
        check_target_in_workspace("/repository/a.py", "/repo").unwrap_err(),
        "path /repository/a.py is outside workspace /repo"
    );
}

#[test]
fn rename_trims_the_new_name_and_places_the_file() {
    let plan = prepare_rename(RenameRequest {
        workspace: Some("/tmp".into()),
        file: "example.py".into(),
        line: 3,
        column: 4,
        new_name: " Conversation ".to_string(),
    })
    .unwrap();
    assert_eq!(plan.new_name, "Conversation");
    assert_eq!(plan.file, "/tmp/example.py");
    let error = prepare_rename(RenameRequest {
        workspace: None,
        file: "example.py".into(),
        line: 3,
        column: 4,
        new_name: "X".to_string(),
    })
    .unwrap_err();
    assert_eq!(error, "workspace is required when file is relative");
    match rename_request("/tmp/example.py", 3, 4, "X") {
        DaemonRequest::Rename { file, line, column, new_name } => {
            assert_eq!((file.as_str(), line, column, new_name.as_str()), ("/tmp/example.py", 3, 4, "X"));
        }
        other => panic!("unexpected {other:?}"),
    }
}

#[test]
fn explore_places_relative_files_under_the_workspace() {
    let request = ExploreRequest {
        query: Some("  ".to_string()),
        workspace: Some("/repo".to_string()),
        file: Some("src/app.py".to_string()),
        line: None,
        column: None,
        limit: None,
        kind: None,
        depth: None,
        full: false,
    };
    let plan = prepare_explore(request).unwrap();
    assert_eq!(plan.route, ExploreRoute::Outline);
    assert_eq!(plan.file.as_deref(), Some("/repo/src/app.py"));
    assert_eq!(plan.query, None);
}

#[test]
fn explore_asks_the_daemon_per_route() {
    let prepared = PreparedExplore {
        query: None,
        workspace_root: "/repo".to_string(),
        file: Some("/repo/a.py".to_string()),
        line: None,
        column: None,
        limit: Some(4),
        kind: None,
        depth: None,
        full: false,
        route: ExploreRoute::Outline,
    };
    match execute(&prepared).unwrap() {
        ExploreCall::Answer(DaemonRequest::Outline { file, depth, limit }) => {
            assert_eq!(file, "/repo/a.py");
            assert_eq!(depth, Some(2));
            assert_eq!(limit, Some(4));
        }
        other => panic!("unexpected {other:?}"),
    }
    let missing = PreparedExplore { route: ExploreRoute::WorkspaceSymbols, ..prepared };
    assert_eq!(execute(&missing).unwrap_err(), "query is required for workspace symbol search");
}

#[test]
fn position_bundle_stops_when_nothing_is_found() {
    match run_position_bundle("/repo/a.py", 1, 1, None, "no symbol found at a.py:1:1.") {
        PositionStep::Done(text) => assert_eq!(text, "## Inspect\n\nno symbol found at a.py:1:1."),
        other => panic!("unexpected {other:?}"),
    }
    match run_position_bundle("/repo/a.py", 2, 3, Some(5), "User is a class") {
        PositionStep::Follow { definition, usages } => {
            assert!(matches!(definition, DaemonRequest::Goto { line: 2, column: 3, limit: Some(5), .. }));
            assert!(matches!(
                usages,
                DaemonRequest::Usages { line: 2, column: 3, include_declaration: true, limit: Some(5), .. }
            ));
        }
        other => panic!("unexpected {other:?}"),
    }
    assert_eq!(
        position_bundle("I", "D", "U"),
        "## Inspect\n\nI\n\n## Definition\n\nD\n\n## Usages\n\nU"
    );
    assert_eq!(section("T", "b"), "## T\n\nb");
}
