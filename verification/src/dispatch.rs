//! How the daemon serves: what it asks the language server for each
//! request, how it answers, and when it stops.
use vstd::prelude::*;
use crate::adapter::{
    count_distinct, distinct_count, file_identities, import_location_spec, is_import_location,
    string_views,
};
use crate::daemon::{
    DaemonRequest, DaemonWireResponse, build_rendered_response, error_response, response_pid,
};
use crate::json::Json;
use crate::model::{
    DocumentSymbolNode, GotoTarget, LocationOutput, LocationRecord, OutlineOutput, ResolvedPosition,
    SymbolAtOutput, forest_height,
};
use crate::outline::{build_symbol_hierarchy, hierarchy_spec, prune_nodes, prune_outline_depth};
use crate::render::{
    render_location_output, render_location_spec, render_outline_output, render_outline_spec,
    render_symbol_at_output, render_symbol_at_spec,
};
use crate::rename::RenameEditRecord;
use crate::response::nodes_view;
use crate::text::{chars_of, decimal, decimal_chars, decimal_chars_u64, push_str, extend, string_of};

verus! {

/// How long a daemon sleeps between looks for a connection, in
/// milliseconds.
pub const DAEMON_POLL_INTERVAL_MILLIS: u64 = 25;

/// How long a client waits for a daemon it started, in seconds.
pub const DAEMON_STARTUP_TIMEOUT_SECONDS: u64 = 5;

// ---------------------------------------------------------------------------
// Requests to the language server
// ---------------------------------------------------------------------------

/// The LSP method that resolves a goto target.
pub open spec fn goto_method_spec(target: GotoTarget) -> Seq<char> {
    match target {
        GotoTarget::Definition => "textDocument/definition"@,
        GotoTarget::Declaration => "textDocument/declaration"@,
        GotoTarget::Type => "textDocument/typeDefinition"@,
    }
}

/// The LSP method that resolves a goto target; a definition is then
/// followed through imports.
pub fn goto_method(target: GotoTarget) -> (r: &'static str)
    ensures
        r@ == goto_method_spec(target),
{
    match target {
        GotoTarget::Definition => "textDocument/definition",
        GotoTarget::Declaration => "textDocument/declaration",
        GotoTarget::Type => "textDocument/typeDefinition",
    }
}

/// Whether a definition that was found is only the import of the symbol,
/// so that the symbol's own definition should be looked up.
pub fn any_import_location(locations: &Vec<LocationRecord>, symbol_name: &str) -> (r: bool)
    ensures
        r == exists|i: int|
            0 <= i < locations@.len() && import_location_spec(
                #[trigger] locations@[i],
                symbol_name@,
            ),
{
    let mut i: usize = 0;
    while i < locations.len()
        invariant
            i <= locations.len(),
            forall|k: int| 0 <= k < i ==> !import_location_spec(#[trigger] locations@[k], symbol_name@),
        decreases locations.len() - i,
    {
        if is_import_location(&locations[i], symbol_name) {
            return true;
        }
        i += 1;
    }
    false
}

/// Whether references found in one file only should be widened with a
/// search of the workspace for the name: they are when they do not span
/// several files.
pub fn references_need_search(locations: &Vec<LocationRecord>) -> (r: bool)
    ensures
        r == (distinct_count(file_identities(locations@.map_values(|l: LocationRecord| l.file@))) <= 1),
{
    let mut files: Vec<String> = Vec::new();
    let mut i: usize = 0;
    while i < locations.len()
        invariant
            i <= locations.len(),
            files@.len() == i,
            forall|k: int| 0 <= k < i ==> (#[trigger] files@[k])@ == locations@[k].file@,
        decreases locations.len() - i,
    {
        files.push(string_of(chars_of(locations[i].file.as_str()).as_slice()));
        i += 1;
    }
    assert(string_views(files@) =~= locations@.map_values(|l: LocationRecord| l.file@));
    count_distinct(&files) <= 1
}

// ---------------------------------------------------------------------------
// Answers
// ---------------------------------------------------------------------------

/// The text of a ping's answer.
pub open spec fn alive_text_spec(workspace_root: Seq<char>) -> Seq<char> {
    "daemon alive: "@ + workspace_root
}

/// The text a daemon answers a ping with.
pub fn alive_text(workspace_root: &str) -> (r: String)
    ensures
        r@ == alive_text_spec(workspace_root@),
{
    let mut t = chars_of("daemon alive: ");
    push_str(&mut t, workspace_root);
    string_of(t.as_slice())
}

/// The text a daemon answers a shutdown with.
pub fn shutdown_text() -> (r: String)
    ensures
        r@ == "daemon shutting down"@,
{
    "daemon shutting down".to_owned()
}

/// The answer to a goto or usages request.
pub fn build_location_response(payload: LocationOutput, limit: Option<usize>) -> (r:
    DaemonWireResponse)
    ensures
        r.ok && r.payload is None && r.error is None,
        r.text matches Some(t) && t@ == render_location_spec(limit, payload),
{
    let text = match render_location_output(limit, &payload) {
        Ok(t) => t,
        Err(e) => e,
    };
    build_rendered_response(text)
}

/// What an inspect request found: the position, the symbol at it, and
/// the hover text.
pub fn symbol_at_payload(workspace_root: &str, position: ResolvedPosition, hover: String) -> (r:
    SymbolAtOutput)
    ensures
        r.ok,
        r.workspace_root@ == workspace_root@,
        r.symbol == position.symbol,
        r.position == position,
        r.hover == Some(hover),
{
    let symbol = match &position.symbol {
        Some(s) => Some(s.duplicate()),
        None => None,
    };
    SymbolAtOutput {
        ok: true,
        workspace_root: string_of(chars_of(workspace_root).as_slice()),
        position,
        symbol,
        hover: Some(hover),
    }
}

/// The answer to an inspect request.
pub fn build_symbol_at_response(payload: &SymbolAtOutput) -> (r: DaemonWireResponse)
    ensures
        r.ok && r.payload is None && r.error is None,
        r.text matches Some(t) && t@ == render_symbol_at_spec(*payload),
{
    let text = match render_symbol_at_output(payload) {
        Ok(t) => t,
        Err(e) => e,
    };
    build_rendered_response(text)
}

/// The tree an outline shows: the symbols in a tree, limited to `depth`
/// levels when a depth is asked for.
pub open spec fn outline_symbols_spec(symbols: Seq<crate::response::NodeView>, depth: Option<usize>) -> Seq<
    crate::response::NodeView,
> {
    match depth {
        Some(d) => prune_nodes(hierarchy_spec(symbols), d as nat),
        None => hierarchy_spec(symbols),
    }
}

/// Builds the tree an outline shows.
pub fn outline_symbols(symbols: Vec<DocumentSymbolNode>, depth: Option<usize>) -> (r: Vec<
    DocumentSymbolNode,
>)
    ensures
        nodes_view(r@) == outline_symbols_spec(nodes_view(symbols@), depth),
{
    match depth {
        Some(d) => prune_outline_depth(build_symbol_hierarchy(symbols), d),
        None => build_symbol_hierarchy(symbols),
    }
}

/// The answer to an outline request; the tree must be shallow enough to
/// indent.
pub fn build_outline_response(payload: &OutlineOutput, limit: Option<usize>) -> (r: DaemonWireResponse)
    requires
        forest_height(payload.symbols@) <= usize::MAX / 2,
    ensures
        r.ok && r.payload is None && r.error is None,
        r.text matches Some(t) && t@ == render_outline_spec(limit, *payload),
{
    let text = match render_outline_output(limit, payload) {
        Ok(t) => t,
        Err(e) => e,
    };
    build_rendered_response(text)
}

/// The name a rename changes: that of the symbol at the position.
pub fn rename_old_name(position: &ResolvedPosition) -> (r: Result<String, String>)
    ensures
        match position.symbol {
            Some(s) => r matches Ok(n) && n@ == s.name@,
            None => r matches Err(e) && e@ == "no symbol found at the requested rename position"@,
        },
{
    match &position.symbol {
        Some(s) => Ok(s.name.clone()),
        None => Err("no symbol found at the requested rename position".to_owned()),
    }
}

/// The number of edits of a rename and the number of files they touch.
pub fn rename_totals(edits: &Vec<RenameEditRecord>) -> (r: (usize, usize))
    ensures
        r.0 == edits@.len(),
        r.1 == distinct_count(file_identities(edits@.map_values(|e: RenameEditRecord| e.file@))),
{
    let mut files: Vec<String> = Vec::new();
    let mut i: usize = 0;
    while i < edits.len()
        invariant
            i <= edits.len(),
            files@.len() == i,
            forall|k: int| 0 <= k < i ==> (#[trigger] files@[k])@ == edits@[k].file@,
        decreases edits.len() - i,
    {
        files.push(string_of(chars_of(edits[i].file.as_str()).as_slice()));
        i += 1;
    }
    assert(string_views(files@) =~= edits@.map_values(|e: RenameEditRecord| e.file@));
    (edits.len(), count_distinct(&files))
}

/// The text answer of a rename preview: its summary line, a blank line and
/// the diff.
pub open spec fn rename_summary_spec(
    old_name: Seq<char>,
    new_name: Seq<char>,
    total: nat,
    total_files: nat,
    diff: Seq<char>,
) -> Seq<char> {
    "summary: rename "@ + old_name + " to "@ + new_name + ": "@ + decimal(total) + " edits in "@
        + decimal(total_files) + " files\n\n"@ + diff
}

/// Writes the text answer of a rename preview.
pub fn rename_summary(old_name: &str, new_name: &str, total: usize, total_files: usize, diff: &str) -> (r:
    String)
    ensures
        r@ == rename_summary_spec(old_name@, new_name@, total as nat, total_files as nat, diff@),
{
    let mut t = chars_of("summary: rename ");
    push_str(&mut t, old_name);
    push_str(&mut t, " to ");
    push_str(&mut t, new_name);
    push_str(&mut t, ": ");
    extend(&mut t, decimal_chars(total).as_slice());
    push_str(&mut t, " edits in ");
    extend(&mut t, decimal_chars(total_files).as_slice());
    push_str(&mut t, " files\n\n");
    push_str(&mut t, diff);
    string_of(t.as_slice())
}

// ---------------------------------------------------------------------------
// Serving
// ---------------------------------------------------------------------------

/// What handling a request gave: an answer, or the answer to a shutdown.
#[derive(Debug)]
pub enum DispatchResult {
    Respond(DaemonWireResponse),
    Shutdown(DaemonWireResponse),
}

/// The answer a daemon writes for a handled request, and whether it then
/// stops: a failure is answered with its error and the daemon goes on.
pub fn dispatch_outcome(result: Result<DispatchResult, String>) -> (r: (DaemonWireResponse, bool))
    ensures
        match result {
            Ok(DispatchResult::Respond(a)) => r.0 == a && !r.1,
            Ok(DispatchResult::Shutdown(a)) => r.0 == a && r.1,
            Err(e) => !r.0.ok && r.0.error == Some(e) && r.0.text is None && r.0.payload is None
                && !r.1,
        },
{
    match result {
        Ok(DispatchResult::Respond(response)) => (response, false),
        Ok(DispatchResult::Shutdown(response)) => (response, true),
        Err(error) => (error_response(error), false),
    }
}

/// What a request to a daemon concerns.
#[derive(Debug, Clone, Copy, PartialEq, Eq, Structural)]
pub enum RequestKind {
    /// A ping: is the daemon alive?
    Alive,
    /// A shutdown: stop the daemon.
    Stop,
    /// A question for the language server.
    Language,
}

/// What a request concerns: a ping asks whether the daemon is alive, a
/// shutdown stops it, and every other request goes to the language server.
pub fn request_kind(request: &DaemonRequest) -> (r: RequestKind)
    ensures
        r == match request {
            DaemonRequest::Ping => RequestKind::Alive,
            DaemonRequest::Shutdown => RequestKind::Stop,
            _ => RequestKind::Language,
        },
{
    match request {
        DaemonRequest::Ping => RequestKind::Alive,
        DaemonRequest::Shutdown => RequestKind::Stop,
        _ => RequestKind::Language,
    }
}

/// The answer to a request about the daemon itself, with the daemon's
/// process details as payload: a ping is answered as alive and the daemon
/// goes on; a shutdown is answered and stops the daemon, the only request
/// that does. A request for the language server gets no answer here.
pub fn control_response(kind: RequestKind, workspace_root: &str, payload: Json) -> (r: Option<
    DispatchResult,
>)
    ensures
        match kind {
            RequestKind::Alive => r matches Some(DispatchResult::Respond(a)) && a.ok && a.payload
                == Some(payload) && (a.text matches Some(t) && t@ == alive_text_spec(
                workspace_root@)) && a.error is None,
            RequestKind::Stop => r matches Some(DispatchResult::Shutdown(a)) && a.ok && a.payload
                == Some(payload) && (a.text matches Some(t) && t@ == "daemon shutting down"@)
                && a.error is None,
            RequestKind::Language => r is None,
        },
{
    match kind {
        RequestKind::Alive => Some(
            DispatchResult::Respond(
                DaemonWireResponse {
                    ok: true,
                    payload: Some(payload),
                    text: Some(alive_text(workspace_root)),
                    error: None,
                },
            ),
        ),
        RequestKind::Stop => Some(
            DispatchResult::Shutdown(
                DaemonWireResponse {
                    ok: true,
                    payload: Some(payload),
                    text: Some(shutdown_text()),
                    error: None,
                },
            ),
        ),
        RequestKind::Language => None,
    }
}

/// What a daemon with no pending connection does.
#[derive(Debug, Clone, Copy, PartialEq, Eq)]
pub enum IdleAction {
    /// Look again after the poll interval.
    Wait,
    /// It was idle for its whole idle time: exit.
    Exit,
}

/// The idle time of a daemon, at least one second, in nanoseconds.
pub open spec fn idle_timeout_nanos(idle_seconds: u64) -> int {
    (if idle_seconds < 1 {
        1
    } else {
        idle_seconds as int
    }) * 1_000_000_000
}

/// Whether a daemon idle for `elapsed_nanos` since its last request exits.
pub fn idle_step(elapsed_nanos: u128, idle_seconds: u64) -> (r: IdleAction)
    ensures
        r == if elapsed_nanos >= idle_timeout_nanos(idle_seconds) {
            IdleAction::Exit
        } else {
            IdleAction::Wait
        },
{
    let seconds: u64 = if idle_seconds < 1 {
        1
    } else {
        idle_seconds
    };
    let timeout = (seconds as u128) * 1_000_000_000u128;
    if elapsed_nanos >= timeout {
        IdleAction::Exit
    } else {
        IdleAction::Wait
    }
}

/// The error of a daemon that finds another one answering on its socket.
pub open spec fn already_running_spec(workspace_root: Seq<char>, pid: Option<u32>) -> Seq<char> {
    "daemon already running for workspace "@ + workspace_root + " (pid "@ + match pid {
        Some(p) => decimal(p as nat),
        None => "unknown"@,
    } + ")"@
}

/// Refuses to serve where a daemon already answers.
pub fn already_running_error(workspace_root: &str, response: &DaemonWireResponse) -> (r: String)
    ensures
        r@ == already_running_spec(workspace_root@, crate::daemon::response_pid_spec(*response)),
{
    let mut t = chars_of("daemon already running for workspace ");
    push_str(&mut t, workspace_root);
    push_str(&mut t, " (pid ");
    match response_pid(response) {
        Some(p) => extend(&mut t, decimal_chars_u64(p as u64).as_slice()),
        None => push_str(&mut t, "unknown"),
    }
    push_str(&mut t, ")");
    string_of(t.as_slice())
}

/// The error of a daemon that did not answer in time after being started.
pub fn not_ready_error(workspace_root: &str) -> (r: String)
    ensures
        r@ == "daemon did not become ready for workspace "@ + workspace_root@,
{
    let mut t = chars_of("daemon did not become ready for workspace ");
    push_str(&mut t, workspace_root);
    string_of(t.as_slice())
}

} // verus!
