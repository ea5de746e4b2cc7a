//! The `diagnostics` tool: which path to check, in which workspace, and
//! how many findings to return.
use vstd::prelude::*;
use crate::diagnostics::DEFAULT_DIAGNOSTIC_LIMIT;
use crate::mcp::inputs::opt_view;
use crate::paths::{is_abs, is_absolute, join_path, join_spec, path_has_prefix, path_starts_with};
use crate::text::{chars_of, push_str, string_of};

verus! {

/// What an agent asks `diagnostics` for.
#[derive(Debug)]
pub struct DiagnosticsRequest {
    /// Workspace root; required when path is omitted or relative.
    pub workspace: Option<String>,
    /// File or directory to diagnose; omit to diagnose the workspace.
    pub path: Option<String>,
    /// Maximum diagnostics to return; defaults to 100.
    pub limit: Option<usize>,
}

/// Where the checked path comes from, once the workspace is resolved.
#[derive(Debug)]
pub enum DiagnosticsTarget {
    /// An absolute path, to resolve on disk.
    Path(String),
    /// A path relative to the workspace.
    InWorkspace(String),
    /// The workspace itself.
    Workspace,
}

/// A checked request: the workspace as given, where the target comes from,
/// and the number of findings to return.
#[derive(Debug)]
pub struct DiagnosticsPlan {
    pub workspace: Option<String>,
    pub target: DiagnosticsTarget,
    pub limit: usize,
}

/// What checking a request gives: the target's source and the limit, or
/// the first problem. A limit must be positive; a relative or omitted
/// path needs a workspace.
pub open spec fn diagnostics_plan_spec(
    workspace: Option<Seq<char>>,
    path: Option<Seq<char>>,
    limit: Option<usize>,
) -> Result<(Option<Seq<char>>, nat), Seq<char>> {
    if limit == Some(0usize) {
        Err("limit must be greater than 0"@)
    } else {
        let n: nat = match limit {
            Some(l) => l as nat,
            None => DEFAULT_DIAGNOSTIC_LIMIT as nat,
        };
        match path {
            Some(p) => if is_abs(p) {
                Ok((Some(p), n))
            } else if workspace is None {
                Err("workspace is required when path is relative"@)
            } else {
                Ok((Some(p), n))
            },
            None => if workspace is None {
                Err("workspace is required when path is omitted"@)
            } else {
                Ok((None, n))
            },
        }
    }
}

/// Checks a `diagnostics` request; what is left is resolving the workspace
/// and the target on disk.
pub fn prepare(request: DiagnosticsRequest) -> (r: Result<DiagnosticsPlan, String>)
    ensures
        match r {
            Ok(p) => diagnostics_plan_spec(opt_view(request.workspace), opt_view(request.path), request.limit)
                == Ok::<(Option<Seq<char>>, nat), Seq<char>>(
                (
                    match p.target {
                        DiagnosticsTarget::Path(t) => Some(t@),
                        DiagnosticsTarget::InWorkspace(t) => Some(t@),
                        DiagnosticsTarget::Workspace => None,
                    },
                    p.limit as nat,
                ),
            ) && p.workspace == request.workspace && (p.target is Path <==> (request.path matches Some(
                x,
            ) && is_abs(x@))),
            Err(e) => diagnostics_plan_spec(opt_view(request.workspace), opt_view(request.path), request.limit)
                == Err::<(Option<Seq<char>>, nat), Seq<char>>(e@),
        },
{
    if request.limit == Some(0usize) {
        return Err("limit must be greater than 0".to_owned());
    }
    let limit = match request.limit {
        Some(l) => l,
        None => DEFAULT_DIAGNOSTIC_LIMIT,
    };
    let target = match request.path {
        Some(p) => {
            if is_absolute(chars_of(p.as_str()).as_slice()) {
                DiagnosticsTarget::Path(p)
            } else if request.workspace.is_none() {
                return Err("workspace is required when path is relative".to_owned());
            } else {
                DiagnosticsTarget::InWorkspace(p)
            }
        },
        None => {
            if request.workspace.is_none() {
                return Err("workspace is required when path is omitted".to_owned());
            }
            DiagnosticsTarget::Workspace
        },
    };
    Ok(DiagnosticsPlan { workspace: request.workspace, target, limit })
}

/// The path to resolve for a target, given the resolved workspace: an
/// absolute path itself, a relative one under the workspace, or the
/// workspace.
pub fn target_path(target: &DiagnosticsTarget, workspace: &str) -> (r: String)
    ensures
        r@ == match target {
            DiagnosticsTarget::Path(p) => p@,
            DiagnosticsTarget::InWorkspace(p) => join_spec(workspace@, p@),
            DiagnosticsTarget::Workspace => workspace@,
        },
{
    match target {
        DiagnosticsTarget::Path(p) => string_of(chars_of(p.as_str()).as_slice()),
        DiagnosticsTarget::InWorkspace(p) => string_of(
            join_path(chars_of(workspace).as_slice(), chars_of(p.as_str()).as_slice()).as_slice(),
        ),
        DiagnosticsTarget::Workspace => string_of(chars_of(workspace).as_slice()),
    }
}

/// The error of a target outside its workspace.
pub open spec fn outside_workspace_spec(target: Seq<char>, workspace_root: Seq<char>) -> Seq<char> {
    "path "@ + target + " is outside workspace "@ + workspace_root
}

/// Refuses a target that is not the workspace or under it, component by
/// component.
pub fn check_target_in_workspace(target: &str, workspace_root: &str) -> (r: Result<(), String>)
    ensures
        match r {
            Ok(()) => path_has_prefix(target@, workspace_root@),
            Err(e) => !path_has_prefix(target@, workspace_root@) && e@ == outside_workspace_spec(
                target@,
                workspace_root@,
            ),
        },
{
    if path_starts_with(chars_of(target).as_slice(), chars_of(workspace_root).as_slice()) {
        return Ok(());
    }
    let mut t = chars_of("path ");
    push_str(&mut t, target);
    push_str(&mut t, " is outside workspace ");
    push_str(&mut t, workspace_root);
    Err(string_of(t.as_slice()))
}

} // verus!
