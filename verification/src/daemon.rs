//! The per-workspace daemon: its requests and responses, where its socket
//! lives, how a client talks to it and how it answers.
use std::hash::{Hash, Hasher};
use vstd::prelude::*;
use crate::json::{Json, get_spec, u64_spec};
use crate::model::{GotoTarget, SymbolKindFilter};
use crate::paths::{join_path, join_spec};
use crate::text::{chars_of, decimal, decimal_chars_u64, extend, hex16, hex_digits, push_str, string_of};

verus! {

/// How long an idle daemon waits for a request before it exits.
pub const DEFAULT_IDLE_SECONDS: u64 = 1800;

/// The options of `lspyx daemon`.
#[derive(Debug)]
pub struct DaemonArgs {
    /// Optional override for a different repo; omit in the current workspace.
    pub workspace: Option<String>,
    pub command: DaemonSubcommand,
}

/// What `lspyx daemon` does.
#[derive(Debug)]
pub enum DaemonSubcommand {
    Ensure(DaemonLifecycleArgs),
    Serve(DaemonLifecycleArgs),
    Status,
    Stop,
}

/// The options of starting a daemon.
#[derive(Debug, Clone, Copy)]
pub struct DaemonLifecycleArgs {
    pub idle_seconds: u64,
}

/// Whether a daemon answers for a workspace, and where.
#[derive(Debug)]
pub struct DaemonStatus {
    pub running: bool,
    pub socket_path: String,
    pub workspace_root: String,
    pub pid: Option<u32>,
}

/// A request to a daemon.
#[derive(Debug)]
pub enum DaemonRequest {
    Ping,
    Shutdown,
    Goto { file: String, line: usize, column: usize, target: GotoTarget, limit: Option<usize> },
    Usages {
        file: String,
        line: usize,
        column: usize,
        include_declaration: bool,
        limit: Option<usize>,
    },
    FindSymbol { query: String, kind: Option<SymbolKindFilter>, limit: Option<usize> },
    Inspect { file: String, line: usize, column: usize },
    Outline { file: String, depth: Option<usize>, limit: Option<usize> },
    Rename { file: String, line: usize, column: usize, new_name: String },
}

/// A daemon's answer to a request.
#[derive(Debug)]
pub struct DaemonWireResponse {
    pub ok: bool,
    pub payload: Option<Json>,
    pub text: Option<String>,
    pub error: Option<String>,
}

// ---------------------------------------------------------------------------
// Status and lifecycle output
// ---------------------------------------------------------------------------

/// The summary line of a status report.
pub open spec fn status_summary_spec(running: bool) -> Seq<char> {
    if running {
        "daemon running"@
    } else {
        "daemon not running"@
    }
}

pub fn daemon_status_summary(running: bool) -> (r: &'static str)
    ensures
        r@ == status_summary_spec(running),
{
    if running {
        "daemon running"
    } else {
        "daemon not running"
    }
}

/// The summary line of a stop report.
pub open spec fn stop_summary_spec(stopped: bool) -> Seq<char> {
    if stopped {
        "daemon stopped"@
    } else {
        "daemon was not running"@
    }
}

pub fn stop_summary(stopped: bool) -> (r: &'static str)
    ensures
        r@ == stop_summary_spec(stopped),
{
    if stopped {
        "daemon stopped"
    } else {
        "daemon was not running"
    }
}

/// `true` or `false`.
pub open spec fn bool_word(b: bool) -> Seq<char> {
    if b {
        "true"@
    } else {
        "false"@
    }
}

fn bool_chars(b: bool) -> (r: Vec<char>)
    ensures
        r@ == bool_word(b),
{
    if b {
        chars_of("true")
    } else {
        chars_of("false")
    }
}

/// The report of `lspyx daemon status` and `lspyx daemon ensure`.
pub open spec fn status_report_spec(s: DaemonStatus) -> Seq<char> {
    "summary: "@ + status_summary_spec(s.running) + "\nrunning: "@ + bool_word(s.running)
        + "\npid: "@ + match s.pid {
        Some(p) => decimal(p as nat),
        None => "none"@,
    } + "\nsocket: "@ + s.socket_path@
}

/// Renders a daemon status.
pub fn render_status(status: &DaemonStatus) -> (r: String)
    ensures
        r@ == status_report_spec(*status),
{
    let mut t = chars_of("summary: ");
    push_str(&mut t, daemon_status_summary(status.running));
    push_str(&mut t, "\nrunning: ");
    extend(&mut t, bool_chars(status.running).as_slice());
    push_str(&mut t, "\npid: ");
    match status.pid {
        Some(p) => extend(&mut t, decimal_chars_u64(p as u64).as_slice()),
        None => push_str(&mut t, "none"),
    }
    push_str(&mut t, "\nsocket: ");
    push_str(&mut t, status.socket_path.as_str());
    string_of(t.as_slice())
}

/// The report of `lspyx daemon stop`.
pub open spec fn stop_report_spec(stopped: bool) -> Seq<char> {
    "summary: "@ + stop_summary_spec(stopped) + "\nstopped: "@ + bool_word(stopped)
}

/// Renders the outcome of stopping a daemon.
pub fn render_stop(stopped: bool) -> (r: String)
    ensures
        r@ == stop_report_spec(stopped),
{
    let mut t = chars_of("summary: ");
    push_str(&mut t, stop_summary(stopped));
    push_str(&mut t, "\nstopped: ");
    extend(&mut t, bool_chars(stopped).as_slice());
    string_of(t.as_slice())
}

/// What `lspyx daemon serve` prints when the daemon exits.
pub fn serve_exit_report() -> (r: String)
    ensures
        r@ == "summary: daemon exited"@,
{
    "summary: daemon exited".to_owned()
}

/// The arguments that start a daemon process for a workspace.
pub open spec fn serve_args_spec(workspace_root: Seq<char>, idle_seconds: u64) -> Seq<Seq<char>> {
    seq![
        "daemon"@,
        "--workspace"@,
        workspace_root,
        "serve"@,
        "--idle-seconds"@,
        decimal(idle_seconds as nat),
    ]
}

/// The command-line arguments of a daemon process: the workspace goes
/// with the `daemon` command, the idle time with `serve`.
pub fn daemon_serve_args(workspace_root: &str, idle_seconds: u64) -> (r: Vec<String>)
    ensures
        r@.len() == 6,
        forall|i: int| 0 <= i < 6 ==> (#[trigger] r@[i])@ == serve_args_spec(
            workspace_root@,
            idle_seconds,
        )[i],
{
    let mut args: Vec<String> = Vec::new();
    args.push("daemon".to_owned());
    args.push("--workspace".to_owned());
    args.push(string_of(chars_of(workspace_root).as_slice()));
    args.push("serve".to_owned());
    args.push("--idle-seconds".to_owned());
    args.push(string_of(decimal_chars_u64(idle_seconds).as_slice()));
    args
}

// ---------------------------------------------------------------------------
// Where the daemon lives
// ---------------------------------------------------------------------------

/// The directory that daemon sockets and locks are kept in.
pub open spec fn cache_dir_spec(home: Seq<char>) -> Seq<char> {
    join_spec(join_spec(home, ".cache"@), "lspyx"@)
}

/// `$HOME/.cache/lspyx`, or why there is none.
pub fn daemon_cache_dir(home: Option<&str>) -> (r: Result<String, String>)
    ensures
        match home {
            Some(h) => r matches Ok(d) && d@ == cache_dir_spec(h@),
            None => r matches Err(e) && e@
                == "HOME is not set; unable to derive daemon cache directory"@,
        },
{
    match home {
        Some(h) => {
            let a = join_path(chars_of(h).as_slice(), chars_of(".cache").as_slice());
            let b = join_path(a.as_slice(), chars_of("lspyx").as_slice());
            Ok(string_of(b.as_slice()))
        },
        None => Err("HOME is not set; unable to derive daemon cache directory".to_owned()),
    }
}

/// The file of a workspace's daemon in the cache directory: the
/// workspace's hash as sixteen hex digits, and the extension.
pub open spec fn daemon_file_spec(cache_dir: Seq<char>, workspace_hash: u64, extension: Seq<
    char,
>) -> Seq<char> {
    join_spec(cache_dir, hex_digits(workspace_hash as nat, 16) + "."@ + extension)
}

fn daemon_file(cache_dir: &str, workspace_hash: u64, extension: &str) -> (r: String)
    ensures
        r@ == daemon_file_spec(cache_dir@, workspace_hash, extension@),
{
    let mut name = hex16(workspace_hash);
    push_str(&mut name, ".");
    push_str(&mut name, extension);
    string_of(join_path(chars_of(cache_dir).as_slice(), name.as_slice()).as_slice())
}

/// The socket of a workspace's daemon.
pub fn socket_path(cache_dir: &str, workspace_root: &str) -> (r: String)
    ensures
        r@ == daemon_file_spec(cache_dir@, path_hash(workspace_root@), "sock"@),
{
    daemon_file(cache_dir, workspace_hash(workspace_root), "sock")
}

/// The lock that serializes starting a workspace's daemon.
pub fn startup_lock_path(cache_dir: &str, workspace_root: &str) -> (r: String)
    ensures
        r@ == daemon_file_spec(cache_dir@, path_hash(workspace_root@), "lock"@),
{
    daemon_file(cache_dir, workspace_hash(workspace_root), "lock")
}

/// What `std`'s `DefaultHasher`, made by `DefaultHasher::new`, gives for
/// a path.
pub uninterp spec fn path_hash(path: Seq<char>) -> u64;

/// The hash of a workspace path with `std::collections::hash_map::DefaultHasher`
/// (`Path::hash`, then `Hasher::finish`). Claims only that it is a function
/// of the path: every `DefaultHasher::new` starts from the same keys.
#[verifier::external_body]
pub(crate) fn workspace_hash(workspace_root: &str) -> (r: u64)
    ensures
        r == path_hash(workspace_root@),
{
    let mut hasher = std::collections::hash_map::DefaultHasher::new();
    std::path::Path::new(workspace_root).hash(&mut hasher);
    hasher.finish()
}

// ---------------------------------------------------------------------------
// Talking to a daemon
// ---------------------------------------------------------------------------

/// The process id that a daemon put in a response, cut to 32 bits.
pub open spec fn response_pid_spec(r: DaemonWireResponse) -> Option<u32> {
    match r.payload {
        Some(p) => match u64_spec(get_spec(p, "pid"@)) {
            Some(v) => Some(v as u32),
            None => None,
        },
        None => None,
    }
}

/// The process id that a daemon put in a response.
pub fn response_pid(response: &DaemonWireResponse) -> (r: Option<u32>)
    ensures
        r == response_pid_spec(*response),
{
    match &response.payload {
        Some(payload) => match payload.get("pid") {
            Some(v) => match v.as_u64() {
                Some(pid) => Some(pid as u32),
                None => None,
            },
            None => None,
        },
        None => None,
    }
}

/// The status of a workspace's daemon from the answer to a ping: running
/// exactly when the answer names a process.
pub fn daemon_status(workspace_root: &str, socket_path: &str, ping: Option<DaemonWireResponse>) -> (r:
    DaemonStatus)
    ensures
        r.pid == match ping {
            Some(p) => response_pid_spec(p),
            None => None,
        },
        r.running == r.pid is Some,
        r.socket_path@ == socket_path@,
        r.workspace_root@ == workspace_root@,
{
    let pid = match &ping {
        Some(response) => response_pid(response),
        None => None,
    };
    DaemonStatus {
        running: pid.is_some(),
        socket_path: string_of(chars_of(socket_path).as_slice()),
        workspace_root: string_of(chars_of(workspace_root).as_slice()),
        pid,
    }
}

/// A response that succeeded, or its error: the one it names, else a
/// generic one.
pub open spec fn validated_spec(r: DaemonWireResponse) -> Result<DaemonWireResponse, Seq<char>> {
    if r.ok {
        Ok(r)
    } else {
        match r.error {
            Some(e) => Err(e@),
            None => Err("daemon request failed"@),
        }
    }
}

/// Passes a successful response on and turns a failed one into its error.
pub fn validate_daemon_response(response: DaemonWireResponse) -> (r: Result<DaemonWireResponse, String>)
    ensures
        match r {
            Ok(v) => validated_spec(response) == Ok::<DaemonWireResponse, Seq<char>>(v),
            Err(e) => validated_spec(response) == Err::<DaemonWireResponse, Seq<char>>(e@),
        },
{
    if response.ok {
        return Ok(response);
    }
    match response.error {
        Some(e) => Err(e),
        None => Err("daemon request failed".to_owned()),
    }
}

/// The text of a response; empty where it has none.
pub fn render_daemon_response(response: DaemonWireResponse) -> (r: String)
    ensures
        r@ == match response.text {
            Some(t) => t@,
            None => Seq::<char>::empty(),
        },
{
    match response.text {
        Some(t) => t,
        None => String::new(),
    }
}

/// The answer to a request that failed.
pub fn error_response(error: String) -> (r: DaemonWireResponse)
    ensures
        !r.ok,
        r.payload is None,
        r.text is None,
        r.error == Some(error),
{
    DaemonWireResponse { ok: false, payload: None, text: None, error: Some(error) }
}

/// The answer to a request that was served, with its rendered text.
pub fn build_rendered_response(text: String) -> (r: DaemonWireResponse)
    ensures
        r.ok,
        r.payload is None,
        r.text == Some(text),
        r.error is None,
{
    DaemonWireResponse { ok: true, payload: None, text: Some(text), error: None }
}

/// Which attempt at a request a client is at: the first, made to a daemon
/// that may be running, or the one after starting a daemon.
#[derive(Debug, Clone, Copy, PartialEq, Eq)]
pub enum DaemonAttempt {
    First,
    AfterStart,
}

/// What a client does next with a request.
#[derive(Debug)]
pub enum DaemonCall<T> {
    /// No daemon took the request: start one and send the request again.
    StartDaemon,
    /// The outcome of the request.
    Done(T),
}

/// The error of a daemon that was started and still took no request.
pub open spec fn not_accepted_spec(workspace_root: Seq<char>) -> Seq<char> {
    "daemon started for workspace "@ + workspace_root + " but did not accept the request"@
}

/// The step of a client after an attempt at a request: a reply is
/// validated; no reply at the first attempt starts a daemon, and no reply
/// after starting one is an error.
pub open spec fn call_step_spec(
    workspace_root: Seq<char>,
    attempt: DaemonAttempt,
    reply: Option<DaemonWireResponse>,
) -> DaemonCall<Result<DaemonWireResponse, Seq<char>>> {
    match reply {
        Some(r) => DaemonCall::Done(validated_spec(r)),
        None => match attempt {
            DaemonAttempt::First => DaemonCall::StartDaemon,
            DaemonAttempt::AfterStart => DaemonCall::Done(Err(not_accepted_spec(workspace_root))),
        },
    }
}

/// Decides what a client does after an attempt at sending a request to
/// the daemon of `workspace_root`, given the reply if one came.
pub fn run_via_daemon_response(
    workspace_root: &str,
    attempt: DaemonAttempt,
    reply: Option<DaemonWireResponse>,
) -> (r: DaemonCall<Result<DaemonWireResponse, String>>)
    ensures
        match (r, call_step_spec(workspace_root@, attempt, reply)) {
            (DaemonCall::StartDaemon, DaemonCall::StartDaemon) => true,
            (DaemonCall::Done(Ok(a)), DaemonCall::Done(Ok(b))) => a == b,
            (DaemonCall::Done(Err(a)), DaemonCall::Done(Err(b))) => a@ == b,
            _ => false,
        },
{
    match reply {
        Some(response) => DaemonCall::Done(validate_daemon_response(response)),
        None => match attempt {
            DaemonAttempt::First => DaemonCall::StartDaemon,
            DaemonAttempt::AfterStart => {
                let mut t = chars_of("daemon started for workspace ");
                push_str(&mut t, workspace_root);
                push_str(&mut t, " but did not accept the request");
                DaemonCall::Done(Err(string_of(t.as_slice())))
            },
        },
    }
}

/// Decides what a client does after an attempt at sending a request, and
/// gives the text of a successful response.
pub fn run_via_daemon(workspace_root: &str, attempt: DaemonAttempt, reply: Option<DaemonWireResponse>) -> (r:
    DaemonCall<Result<String, String>>)
    ensures
        match (r, call_step_spec(workspace_root@, attempt, reply)) {
            (DaemonCall::StartDaemon, DaemonCall::StartDaemon) => true,
            (DaemonCall::Done(Ok(a)), DaemonCall::Done(Ok(b))) => a@ == match b.text {
                Some(t) => t@,
                None => Seq::<char>::empty(),
            },
            (DaemonCall::Done(Err(a)), DaemonCall::Done(Err(b))) => a@ == b,
            _ => false,
        },
{
    match run_via_daemon_response(workspace_root, attempt, reply) {
        DaemonCall::StartDaemon => DaemonCall::StartDaemon,
        DaemonCall::Done(Ok(response)) => DaemonCall::Done(Ok(render_daemon_response(response))),
        DaemonCall::Done(Err(e)) => DaemonCall::Done(Err(e)),
    }
}

/// A client starts a daemon at most once for a request: after a start,
/// every outcome ends the request.
pub proof fn lemma_daemon_started_at_most_once(
    workspace_root: Seq<char>,
    first_reply: Option<DaemonWireResponse>,
    second_reply: Option<DaemonWireResponse>,
)
    ensures
        call_step_spec(workspace_root, DaemonAttempt::First, first_reply) is StartDaemon
            <==> first_reply is None,
        call_step_spec(workspace_root, DaemonAttempt::AfterStart, second_reply) is Done,
{
}

/// Whether a shutdown request stopped a daemon: it did when one answered.
pub fn stop_daemon(reply: &Option<DaemonWireResponse>) -> (r: bool)
    ensures
        r == reply is Some,
{
    reply.is_some()
}

} // verus!
