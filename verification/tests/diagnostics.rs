use lspyx::diagnostics::{
    build_output, render_diagnostics, ruff_records, ty_records, DiagnosticPosition,
    DiagnosticRecord, DiagnosticSource, DiagnosticToolStatus, RuffDiagnostic, RuffFix,
    RuffPosition, ToolRun, TyDiagnostic, TyLocation, TyPosition, TyPositions,
};

fn diagnostic(source: DiagnosticSource, file: &str, line: usize) -> DiagnosticRecord {
    DiagnosticRecord {
        source,
        code: "test".to_string(),
        severity: None,
        message: "message".to_string(),
        file: file.into(),
        start: DiagnosticPosition { line, column: 1 },
        end: DiagnosticPosition { line, column: 2 },
        fix: None,
    }
}

#[test]
fn parses_ruff_json_diagnostics() {
    // [{"code":"F401","filename":"/repo/app.py","location":{"row":1,"column":8},
    //   "end_location":{"row":1,"column":10},"message":"`os` imported but unused",
    //   "severity":"error","fix":{"applicability":"safe","message":"Remove unused import"}}]
    let diagnostics = ruff_records(
        vec![RuffDiagnostic {
            code: Some("F401".to_string()),
            filename: "/repo/app.py".to_string(),
            location: RuffPosition { row: 1, column: 8 },
            end_location: RuffPosition { row: 1, column: 10 },
            message: "`os` imported but unused".to_string(),
            severity: Some("error".to_string()),
            fix: Some(RuffFix {
                applicability: Some("safe".to_string()),
                message: Some("Remove unused import".to_string()),
            }),
        }],
        "/repo",
    );

    assert_eq!(diagnostics.len(), 1);
    assert_eq!(diagnostics[0].source, DiagnosticSource::Ruff);
    assert_eq!(diagnostics[0].code, "F401");
    assert_eq!(diagnostics[0].start.line, 1);
    assert_eq!(
        diagnostics[0].fix.as_ref().unwrap().applicability.as_deref(),
        Some("safe")
    );
}

#[test]
fn parses_ty_gitlab_diagnostics() {
    // [{"check_name":"invalid-return-type","description":"invalid-return-type: Return type
    //   does not match","severity":"major","fingerprint":"abc","location":{"path":"src/app.py",
    //   "positions":{"begin":{"line":3,"column":12},"end":{"line":3,"column":19}}}}]
    let diagnostics = ty_records(
        vec![TyDiagnostic {
            check_name: "invalid-return-type".to_string(),
            description: "invalid-return-type: Return type does not match".to_string(),
            severity: Some("major".to_string()),
            location: TyLocation {
                path: "src/app.py".to_string(),
                positions: Some(TyPositions {
                    begin: TyPosition { line: 3, column: Some(12) },
                    end: TyPosition { line: 3, column: Some(19) },
                }),
                lines: None,
            },
        }],
        "/repo",
    );

    assert_eq!(diagnostics.len(), 1);
    assert_eq!(diagnostics[0].source, DiagnosticSource::Ty);
    assert_eq!(diagnostics[0].file, "/repo/src/app.py");
    assert_eq!(diagnostics[0].message, "Return type does not match");
    assert_eq!(diagnostics[0].end.column, 19);
}

#[test]
fn limits_sorted_diagnostics_and_preserves_total() {
    let output = build_output(
        "/repo",
        "/repo/src",
        1,
        ToolRun {
            binary: Some("/bin/ruff".into()),
            result: Ok(vec![diagnostic(DiagnosticSource::Ruff, "/repo/src/b.py", 2)]),
        },
        ToolRun {
            binary: Some("/bin/ty".into()),
            result: Ok(vec![diagnostic(DiagnosticSource::Ty, "/repo/src/a.py", 3)]),
        },
    );

    assert_eq!(output.total, 2);
    assert_eq!(output.shown, 1);
    assert!(output.truncated);
    assert_eq!(output.diagnostics[0].file, "/repo/src/a.py");
}

#[test]
fn reports_partial_tool_failure_with_available_diagnostics() {
    let output = build_output(
        "/repo",
        "/repo/app.py",
        10,
        ToolRun {
            binary: None,
            result: Err("ruff missing".to_string()),
        },
        ToolRun {
            binary: Some("/bin/ty".into()),
            result: Ok(vec![diagnostic(DiagnosticSource::Ty, "/repo/app.py", 4)]),
        },
    );
    let rendered = render_diagnostics(&output);

    assert!(!output.complete);
    assert!(!output.all_tools_failed());
    assert!(rendered.contains("ruff: failed: ruff missing"));
    assert!(rendered.contains("app.py:4:1 [ty/test"));
}

#[test]
fn diagnostics_are_ordered_by_file_line_and_source() {
    let output = build_output(
        "/repo",
        "/repo",
        10,
        ToolRun {
            binary: Some("/bin/ruff".into()),
            result: Ok(vec![
                diagnostic(DiagnosticSource::Ruff, "/repo/b.py", 1),
                diagnostic(DiagnosticSource::Ruff, "/repo/a.py", 7),
            ]),
        },
        ToolRun {
            binary: Some("/bin/ty".into()),
            result: Ok(vec![diagnostic(DiagnosticSource::Ty, "/repo/a.py", 2)]),
        },
    );
    let order: Vec<(String, usize)> = output
        .diagnostics
        .iter()
        .map(|d| (d.file.clone(), d.start.line))
        .collect();
    assert_eq!(
        order,
        vec![
            ("/repo/a.py".to_string(), 2),
            ("/repo/a.py".to_string(), 7),
            ("/repo/b.py".to_string(), 1),
        ]
    );
    assert!(output.complete);
    assert!(!output.truncated);
    assert_eq!(output.tools.ruff.count, 2);
    assert_eq!(output.tools.ty.count, 1);
}

#[test]
fn both_tools_failing_is_reported() {
    let output = build_output(
        "/repo",
        "/repo",
        10,
        ToolRun { binary: None, result: Err("ruff missing".to_string()) },
        ToolRun { binary: None, result: Err("ty missing".to_string()) },
    );
    assert!(output.all_tools_failed());
    assert_eq!(output.tools.ruff.status, DiagnosticToolStatus::Error);
    assert_eq!(output.total, 0);
}
