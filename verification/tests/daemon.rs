use std::hash::{Hash, Hasher};

use lspyx::daemon::{
    daemon_cache_dir, daemon_serve_args, daemon_status, error_response, render_status, render_stop,
    run_via_daemon, run_via_daemon_response, socket_path, startup_lock_path, stop_daemon,
    validate_daemon_response, DaemonAttempt, DaemonCall, DaemonStatus, DaemonWireResponse,
};
use lspyx::dispatch::{
    already_running_error, dispatch_outcome, goto_method, idle_step, DispatchResult, IdleAction,
};
use lspyx::json::{Json, Member};
use lspyx::model::GotoTarget;

fn serve_args_case() {
    let args = daemon_serve_args("/tmp/example", 900);

    assert_eq!(
        args,
        vec![
            "daemon".to_string(),
            "--workspace".to_string(),
            "/tmp/example".to_string(),
            "serve".to_string(),
            "--idle-seconds".to_string(),
            "900".to_string(),
        ]
    );
}

#[test]
fn daemon_daemon_serve_args_place_workspace_under_daemon_subcommand() {
    serve_args_case();
}

#[test]
fn mod_daemon_serve_args_place_workspace_under_daemon_subcommand() {
    serve_args_case();
}

fn pid_payload(pid: u64) -> Json {
    Json::Object(
        vec![Member { key: "pid".to_string(), value: Json::Number(Some(pid), pid.to_string()) }],
        String::new(),
    )
}

fn answer(ok: bool, text: Option<&str>, error: Option<&str>) -> DaemonWireResponse {
    DaemonWireResponse {
        ok,
        payload: None,
        text: text.map(str::to_string),
        error: error.map(str::to_string),
    }
}

#[test]
fn status_reports_running_and_pid() {
    let running = daemon_status(
        "/repo",
        "/home/u/.cache/lspyx/00000000000000ff.sock",
        Some(DaemonWireResponse { ok: true, payload: Some(pid_payload(42)), text: None, error: None }),
    );
    assert!(running.running);
    assert_eq!(running.pid, Some(42));
    assert_eq!(
        render_status(&running),
        "summary: daemon running\nrunning: true\npid: 42\nsocket: /home/u/.cache/lspyx/00000000000000ff.sock"
    );
    let stopped = DaemonStatus {
        running: false,
        socket_path: "/s.sock".to_string(),
        workspace_root: "/repo".to_string(),
        pid: None,
    };
    assert_eq!(render_status(&stopped), "summary: daemon not running\nrunning: false\npid: none\nsocket: /s.sock");
    let silent = daemon_status("/repo", "/s.sock", None);
    assert!(!silent.running);
}

#[test]
fn stop_reports_whether_a_daemon_answered() {
    assert!(stop_daemon(&Some(answer(true, None, None))));
    assert!(!stop_daemon(&None));
    assert_eq!(render_stop(true), "summary: daemon stopped\nstopped: true");
    assert_eq!(render_stop(false), "summary: daemon was not running\nstopped: false");
}

#[test]
fn sockets_and_locks_are_named_by_workspace_hash() {
    let mut hasher = std::collections::hash_map::DefaultHasher::new();
    std::path::Path::new("/repo").hash(&mut hasher);
    let hash = format!("{:016x}", hasher.finish());
    let dir = daemon_cache_dir(Some("/home/u")).unwrap();
    assert_eq!(dir, "/home/u/.cache/lspyx");
    assert_eq!(socket_path(&dir, "/repo"), format!("/home/u/.cache/lspyx/{hash}.sock"));
    assert_eq!(startup_lock_path(&dir, "/repo"), format!("/home/u/.cache/lspyx/{hash}.lock"));
    assert_ne!(socket_path(&dir, "/repo"), socket_path(&dir, "/other"));
    assert_eq!(
        daemon_cache_dir(None).unwrap_err(),
        "HOME is not set; unable to derive daemon cache directory"
    );
}

#[test]
fn clients_start_a_daemon_once() {
    assert!(matches!(run_via_daemon("/repo", DaemonAttempt::First, None), DaemonCall::StartDaemon));
    match run_via_daemon("/repo", DaemonAttempt::AfterStart, None) {
        DaemonCall::Done(Err(e)) => {
            assert_eq!(e, "daemon started for workspace /repo but did not accept the request")
        }
        other => panic!("unexpected {other:?}"),
    }
    match run_via_daemon("/repo", DaemonAttempt::First, Some(answer(true, Some("hello"), None))) {
        DaemonCall::Done(Ok(text)) => assert_eq!(text, "hello"),
        other => panic!("unexpected {other:?}"),
    }
    match run_via_daemon_response("/repo", DaemonAttempt::First, Some(answer(false, None, None))) {
        DaemonCall::Done(Err(e)) => assert_eq!(e, "daemon request failed"),
        other => panic!("unexpected {other:?}"),
    }
    assert_eq!(
        validate_daemon_response(answer(false, None, Some("boom"))).unwrap_err(),
        "boom"
    );
}

#[test]
fn failed_requests_are_answered_and_shutdown_stops() {
    let (response, stop) = dispatch_outcome(Err("bad".to_string()));
    assert!(!response.ok);
    assert_eq!(response.error.as_deref(), Some("bad"));
    assert!(!stop);
    let (_, stop) = dispatch_outcome(Ok(DispatchResult::Shutdown(error_response("x".to_string()))));
    assert!(stop);
}

#[test]
fn idle_daemons_exit_after_their_idle_time() {
    assert_eq!(idle_step(999_999_999, 0), IdleAction::Wait);
    assert_eq!(idle_step(1_000_000_000, 0), IdleAction::Exit);
    assert_eq!(idle_step(5_000_000_000, 900), IdleAction::Wait);
}

#[test]
fn a_live_socket_is_not_taken_over() {
    let live = DaemonWireResponse { ok: true, payload: Some(pid_payload(7)), text: None, error: None };
    assert_eq!(already_running_error("/repo", &live), "daemon already running for workspace /repo (pid 7)");
    let anonymous = answer(true, None, None);
    assert_eq!(
        already_running_error("/repo", &anonymous),
        "daemon already running for workspace /repo (pid unknown)"
    );
}

#[test]
fn goto_targets_map_to_lsp_methods() {
    assert_eq!(goto_method(GotoTarget::Definition), "textDocument/definition");
    assert_eq!(goto_method(GotoTarget::Declaration), "textDocument/declaration");
    assert_eq!(goto_method(GotoTarget::Type), "textDocument/typeDefinition");
}

#[test]
fn only_a_shutdown_stops_the_daemon() {
    use_control_answers();
}

fn use_control_answers() {
    let ping = lspyx::daemon::DaemonRequest::Ping;
    let shutdown = lspyx::daemon::DaemonRequest::Shutdown;
    let inspect = lspyx::daemon::DaemonRequest::Inspect { file: "/a.py".into(), line: 1, column: 1 };
    assert_eq!(lspyx::dispatch::request_kind(&ping), lspyx::dispatch::RequestKind::Alive);
    assert_eq!(lspyx::dispatch::request_kind(&shutdown), lspyx::dispatch::RequestKind::Stop);
    assert_eq!(lspyx::dispatch::request_kind(&inspect), lspyx::dispatch::RequestKind::Language);
    match lspyx::dispatch::control_response(lspyx::dispatch::RequestKind::Alive, "/repo", Json::Null) {
        Some(DispatchResult::Respond(a)) => {
            assert!(a.ok);
            assert_eq!(a.text.as_deref(), Some("daemon alive: /repo"));
        }
        other => panic!("unexpected {other:?}"),
    }
    match lspyx::dispatch::control_response(lspyx::dispatch::RequestKind::Stop, "/repo", Json::Null) {
        Some(DispatchResult::Shutdown(a)) => {
            assert_eq!(a.text.as_deref(), Some("daemon shutting down"))
        }
        other => panic!("unexpected {other:?}"),
    }
    assert!(lspyx::dispatch::control_response(lspyx::dispatch::RequestKind::Language, "/repo", Json::Null)
        .is_none());
}
