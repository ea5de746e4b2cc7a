//! The `explore` tool: find symbols, outline a file, or inspect a position
//! with its definition and usages.
use vstd::prelude::*;
use crate::daemon::DaemonRequest;
use crate::mcp::inputs::{file_candidate, file_candidate_spec, opt_view};
use crate::model::{GotoTarget, SymbolKindFilter};
use crate::text::{chars_of, push_str, string_of, trim, trimmed};

verus! {

/// The outline depth when neither a depth nor the full tree is asked for.
pub const DEFAULT_OUTLINE_DEPTH: usize = 2;

/// What an agent asks `explore` for.
#[derive(Debug)]
pub struct ExploreRequest {
    /// Symbol text for workspace search; required when file is omitted.
    pub query: Option<String>,
    /// Workspace root for query-only searches and relative file paths.
    pub workspace: Option<String>,
    /// Python file to outline or inspect. Relative paths require workspace.
    pub file: Option<String>,
    /// 1-based line for exact position inspection; use with column.
    pub line: Option<usize>,
    /// 1-based column for exact position inspection; use with line.
    pub column: Option<usize>,
    /// Maximum symbols, top-level outline entries, definitions, or usages to return.
    pub limit: Option<usize>,
    /// Symbol kind filter for query-only searches.
    pub kind: Option<SymbolKindFilter>,
    /// Outline nesting depth. Omit for the default depth; use full for the complete tree.
    pub depth: Option<usize>,
    /// Return the complete outline tree; cannot be combined with depth.
    pub full: bool,
}

/// Which exploration a request asks for.
#[derive(Debug, Clone, Copy, PartialEq, Eq, Structural)]
pub enum ExploreRoute {
    WorkspaceSymbols,
    Outline,
    Position,
}

/// A checked request: the trimmed query, the workspace as given, and the
/// path the file stands for before it is resolved on disk.
#[derive(Debug)]
pub struct ExplorePlan {
    pub query: Option<String>,
    pub workspace: Option<String>,
    pub file: Option<String>,
    pub line: Option<usize>,
    pub column: Option<usize>,
    pub limit: Option<usize>,
    pub kind: Option<SymbolKindFilter>,
    pub depth: Option<usize>,
    pub full: bool,
    pub route: ExploreRoute,
}

/// A request whose file and workspace were resolved on disk.
#[derive(Debug)]
pub struct PreparedExplore {
    pub query: Option<String>,
    pub workspace_root: String,
    pub file: Option<String>,
    pub line: Option<usize>,
    pub column: Option<usize>,
    pub limit: Option<usize>,
    pub kind: Option<SymbolKindFilter>,
    pub depth: Option<usize>,
    pub full: bool,
    pub route: ExploreRoute,
}

/// The route of a request: a query alone searches the workspace, a file
/// alone is outlined, a file with a line and a column is inspected there;
/// positions are 1-based and need a file, and line and column go together.
pub open spec fn route_spec(
    has_file: bool,
    line: Option<usize>,
    column: Option<usize>,
    has_workspace: bool,
) -> Result<ExploreRoute, Seq<char>> {
    if !has_file {
        if line is None && column is None {
            if !has_workspace {
                Err("workspace is required when file is omitted"@)
            } else {
                Ok(ExploreRoute::WorkspaceSymbols)
            }
        } else {
            Err("line and column require file"@)
        }
    } else {
        match (line, column) {
            (None, None) => Ok(ExploreRoute::Outline),
            (Some(l), Some(c)) => if l == 0 {
                Err("line must be a 1-based value"@)
            } else if c == 0 {
                Err("column must be a 1-based value"@)
            } else {
                Ok(ExploreRoute::Position)
            },
            _ => Err("line and column must be provided together"@),
        }
    }
}

/// Chooses the exploration a request asks for.
pub fn select_route(request: &ExploreRequest) -> (r: Result<ExploreRoute, String>)
    ensures
        match r {
            Ok(route) => route_spec(
                request.file is Some,
                request.line,
                request.column,
                request.workspace is Some,
            ) == Ok::<ExploreRoute, Seq<char>>(route),
            Err(e) => route_spec(
                request.file is Some,
                request.line,
                request.column,
                request.workspace is Some,
            ) == Err::<ExploreRoute, Seq<char>>(e@),
        },
{
    match (&request.file, request.line, request.column) {
        (None, None, None) => {
            if request.workspace.is_none() {
                return Err("workspace is required when file is omitted".to_owned());
            }
            Ok(ExploreRoute::WorkspaceSymbols)
        },
        (Some(_), None, None) => Ok(ExploreRoute::Outline),
        (Some(_), Some(line), Some(column)) => {
            if line == 0 {
                return Err("line must be a 1-based value".to_owned());
            }
            if column == 0 {
                return Err("column must be a 1-based value".to_owned());
            }
            Ok(ExploreRoute::Position)
        },
        (None, _, _) => Err("line and column require file".to_owned()),
        (Some(_), _, _) => Err("line and column must be provided together".to_owned()),
    }
}

/// The options that a route takes: a positive limit on any route, a kind
/// only for workspace search, a depth or the full tree only for outlines,
/// and not both of these.
pub open spec fn options_spec(
    limit: Option<usize>,
    kind: Option<SymbolKindFilter>,
    depth: Option<usize>,
    full: bool,
    route: ExploreRoute,
) -> Result<(), Seq<char>> {
    if limit == Some(0usize) {
        Err("limit must be greater than 0"@)
    } else if kind is Some && route != ExploreRoute::WorkspaceSymbols {
        Err("kind is only supported for workspace symbol search"@)
    } else if (depth is Some || full) && route != ExploreRoute::Outline {
        Err("depth and full are only supported for file outlines"@)
    } else if depth is Some && full {
        Err("depth cannot be combined with full"@)
    } else {
        Ok(())
    }
}

/// Checks that a request's options fit its route.
pub fn validate_route_options(request: &ExploreRequest, route: ExploreRoute) -> (r: Result<(), String>)
    ensures
        match r {
            Ok(()) => options_spec(request.limit, request.kind, request.depth, request.full, route)
                is Ok,
            Err(e) => options_spec(request.limit, request.kind, request.depth, request.full, route)
                == Err::<(), Seq<char>>(e@),
        },
{
    if request.limit == Some(0usize) {
        return Err("limit must be greater than 0".to_owned());
    }
    if request.kind.is_some() && route != ExploreRoute::WorkspaceSymbols {
        return Err("kind is only supported for workspace symbol search".to_owned());
    }
    if (request.depth.is_some() || request.full) && route != ExploreRoute::Outline {
        return Err("depth and full are only supported for file outlines".to_owned());
    }
    if request.depth.is_some() && request.full {
        return Err("depth cannot be combined with full".to_owned());
    }
    Ok(())
}

/// The query a route goes on with: trimmed, and dropped when blank; a
/// workspace search needs one.
pub open spec fn query_spec(query: Option<Seq<char>>, route: ExploreRoute) -> Result<
    Option<Seq<char>>,
    Seq<char>,
> {
    let q = match query {
        Some(s) => if trim(s).len() > 0 {
            Some(trim(s))
        } else {
            None
        },
        None => None,
    };
    if route == ExploreRoute::WorkspaceSymbols && q is None {
        Err("query is required when file is omitted"@)
    } else {
        Ok(q)
    }
}

/// Trims the query, and refuses a blank one for a workspace search.
pub fn validate_query(query: Option<&str>, route: ExploreRoute) -> (r: Result<Option<String>, String>)
    ensures
        match r {
            Ok(q) => query_spec(
                match query {
                    Some(s) => Some(s@),
                    None => None,
                },
                route,
            ) == Ok::<Option<Seq<char>>, Seq<char>>(opt_view(q)),
            Err(e) => query_spec(
                match query {
                    Some(s) => Some(s@),
                    None => None,
                },
                route,
            ) == Err::<Option<Seq<char>>, Seq<char>>(e@),
        },
{
    let q = match query {
        Some(s) => {
            let t = trimmed(chars_of(s).as_slice());
            if t.len() > 0 {
                Some(string_of(t.as_slice()))
            } else {
                None
            }
        },
        None => None,
    };
    if route == ExploreRoute::WorkspaceSymbols && q.is_none() {
        return Err("query is required when file is omitted".to_owned());
    }
    Ok(q)
}

/// What checking a request gives: its route, its query and the path its
/// file stands for, or the first problem.
pub open spec fn prepare_spec(r: ExploreRequest) -> Result<
    (ExploreRoute, Option<Seq<char>>, Option<Seq<char>>),
    Seq<char>,
> {
    match route_spec(r.file is Some, r.line, r.column, r.workspace is Some) {
        Err(e) => Err(e),
        Ok(route) => match options_spec(r.limit, r.kind, r.depth, r.full, route) {
            Err(e) => Err(e),
            Ok(_) => match query_spec(opt_view(r.query), route) {
                Err(e) => Err(e),
                Ok(q) => match r.file {
                    None => Ok((route, q, None)),
                    Some(f) => match file_candidate_spec(f@, opt_view(r.workspace)) {
                        Err(e) => Err(e),
                        Ok(p) => Ok((route, q, Some(p))),
                    },
                },
            },
        },
    }
}

/// Checks an `explore` request: its route, options and query, and where
/// its file is; what is left is resolving the file and workspace on disk.
pub fn prepare(request: ExploreRequest) -> (r: Result<ExplorePlan, String>)
    ensures
        match r {
            Ok(p) => prepare_spec(request) == Ok::<
                (ExploreRoute, Option<Seq<char>>, Option<Seq<char>>),
                Seq<char>,
            >((p.route, opt_view(p.query), opt_view(p.file))) && p.workspace == request.workspace
                && p.line == request.line && p.column == request.column && p.limit
                == request.limit && p.kind == request.kind && p.depth == request.depth && p.full
                == request.full,
            Err(e) => prepare_spec(request) == Err::<
                (ExploreRoute, Option<Seq<char>>, Option<Seq<char>>),
                Seq<char>,
            >(e@),
        },
{
    let route = select_route(&request)?;
    validate_route_options(&request, route)?;
    let query = match &request.query {
        Some(q) => validate_query(Some(q.as_str()), route)?,
        None => validate_query(None, route)?,
    };
    let file = match &request.file {
        Some(f) => {
            let workspace = match &request.workspace {
                Some(w) => Some(w.as_str()),
                None => None,
            };
            Some(file_candidate(f.as_str(), workspace)?)
        },
        None => None,
    };
    Ok(
        ExplorePlan {
            query,
            workspace: request.workspace,
            file,
            line: request.line,
            column: request.column,
            limit: request.limit,
            kind: request.kind,
            depth: request.depth,
            full: request.full,
            route,
        },
    )
}

/// The outline depth to ask for: none for the full tree, else the depth
/// asked for or the default.
pub fn outline_depth(depth: Option<usize>, full: bool) -> (r: Option<usize>)
    ensures
        r == if full {
            None
        } else {
            match depth {
                Some(d) => Some(d),
                None => Some(DEFAULT_OUTLINE_DEPTH),
            }
        },
{
    if full {
        None
    } else {
        match depth {
            Some(d) => Some(d),
            None => Some(DEFAULT_OUTLINE_DEPTH),
        }
    }
}

/// Whether an inspection found no symbol at the position.
pub fn inspect_found_no_symbol(inspect: &str) -> (r: bool)
    ensures
        r == "no symbol found at "@.is_prefix_of(inspect@),
{
    crate::text::starts_with(chars_of(inspect).as_slice(), chars_of("no symbol found at ").as_slice())
}

/// A titled part of an exploration's answer.
pub open spec fn section_spec(title: Seq<char>, body: Seq<char>) -> Seq<char> {
    "## "@ + title + "\n\n"@ + body
}

/// A titled part of an exploration's answer.
pub fn section(title: &str, body: &str) -> (r: String)
    ensures
        r@ == section_spec(title@, body@),
{
    let mut t = chars_of("## ");
    push_str(&mut t, title);
    push_str(&mut t, "\n\n");
    push_str(&mut t, body);
    string_of(t.as_slice())
}

/// The first thing to ask the daemon for a prepared exploration.
#[derive(Debug)]
pub enum ExploreCall {
    /// Ask this; its text is the answer.
    Answer(DaemonRequest),
    /// Inspect the position with this request, then go on with
    /// `run_position_bundle`.
    Inspect(DaemonRequest),
}

/// Whether a request is a workspace search with these values.
pub open spec fn is_find_symbol(
    r: DaemonRequest,
    query: Seq<char>,
    kind: Option<SymbolKindFilter>,
    limit: Option<usize>,
) -> bool {
    r matches DaemonRequest::FindSymbol { query: q, kind: k, limit: l } && q@ == query && k == kind
        && l == limit
}

/// Whether a request is an outline with these values.
pub open spec fn is_outline(
    r: DaemonRequest,
    file: Seq<char>,
    depth: Option<usize>,
    limit: Option<usize>,
) -> bool {
    r matches DaemonRequest::Outline { file: f, depth: d, limit: l } && f@ == file && d == depth
        && l == limit
}

/// Whether a request inspects this position.
pub open spec fn is_inspect(r: DaemonRequest, file: Seq<char>, line: usize, column: usize) -> bool {
    r matches DaemonRequest::Inspect { file: f, line: l, column: c } && f@ == file && l == line && c
        == column
}

/// Whether a request asks for the definition at this position.
pub open spec fn is_definition_goto(
    r: DaemonRequest,
    file: Seq<char>,
    line: usize,
    column: usize,
    limit: Option<usize>,
) -> bool {
    r matches DaemonRequest::Goto { file: f, line: l, column: c, target: t, limit: n } && f@ == file
        && l == line && c == column && t == GotoTarget::Definition && n == limit
}

/// Whether a request asks for the usages at this position, declaration
/// included.
pub open spec fn is_usages_with_declaration(
    r: DaemonRequest,
    file: Seq<char>,
    line: usize,
    column: usize,
    limit: Option<usize>,
) -> bool {
    r matches DaemonRequest::Usages { file: f, line: l, column: c, include_declaration: d, limit: n }
        && f@ == file && l == line && c == column && d && n == limit
}

/// Decides the first request of a prepared exploration.
pub fn execute(prepared: &PreparedExplore) -> (r: Result<ExploreCall, String>)
    ensures
        match prepared.route {
            ExploreRoute::WorkspaceSymbols => match prepared.query {
                Some(q) => r matches Ok(ExploreCall::Answer(d)) && is_find_symbol(
                    d,
                    q@,
                    prepared.kind,
                    prepared.limit,
                ),
                None => r matches Err(e) && e@ == "query is required for workspace symbol search"@,
            },
            ExploreRoute::Outline => match prepared.file {
                Some(f) => r matches Ok(ExploreCall::Answer(d)) && is_outline(
                    d,
                    f@,
                    if prepared.full {
                        None
                    } else {
                        match prepared.depth {
                            Some(x) => Some(x),
                            None => Some(DEFAULT_OUTLINE_DEPTH),
                        }
                    },
                    prepared.limit,
                ),
                None => r matches Err(e) && e@ == "file is required for outline exploration"@,
            },
            ExploreRoute::Position => match (prepared.file, prepared.line, prepared.column) {
                (Some(f), Some(l), Some(c)) => r matches Ok(ExploreCall::Inspect(d)) && is_inspect(
                    d,
                    f@,
                    l,
                    c,
                ),
                (None, _, _) => r matches Err(e) && e@ == "file is required for position exploration"@,
                (Some(_), None, _) => r matches Err(e) && e@
                    == "line is required for position exploration"@,
                (Some(_), Some(_), None) => r matches Err(e) && e@
                    == "column is required for position exploration"@,
            },
        },
{
    match prepared.route {
        ExploreRoute::WorkspaceSymbols => match &prepared.query {
            Some(q) => Ok(
                ExploreCall::Answer(
                    DaemonRequest::FindSymbol {
                        query: string_of(chars_of(q.as_str()).as_slice()),
                        kind: prepared.kind,
                        limit: prepared.limit,
                    },
                ),
            ),
            None => Err("query is required for workspace symbol search".to_owned()),
        },
        ExploreRoute::Outline => match &prepared.file {
            Some(f) => Ok(
                ExploreCall::Answer(
                    DaemonRequest::Outline {
                        file: string_of(chars_of(f.as_str()).as_slice()),
                        depth: outline_depth(prepared.depth, prepared.full),
                        limit: prepared.limit,
                    },
                ),
            ),
            None => Err("file is required for outline exploration".to_owned()),
        },
        ExploreRoute::Position => {
            let file = match &prepared.file {
                Some(f) => string_of(chars_of(f.as_str()).as_slice()),
                None => return Err("file is required for position exploration".to_owned()),
            };
            let line = match prepared.line {
                Some(l) => l,
                None => return Err("line is required for position exploration".to_owned()),
            };
            let column = match prepared.column {
                Some(c) => c,
                None => return Err("column is required for position exploration".to_owned()),
            };
            Ok(ExploreCall::Inspect(DaemonRequest::Inspect { file, line, column }))
        },
    }
}

/// How a position exploration goes on after the inspection.
#[derive(Debug)]
pub enum PositionStep {
    /// Nothing is at the position: this is the answer.
    Done(String),
    /// Ask for the definition and the usages, then put the answer together
    /// with `position_bundle`.
    Follow { definition: DaemonRequest, usages: DaemonRequest },
}

/// The answer of a position exploration: the inspection, the definition
/// and the usages, each under its title.
pub open spec fn bundle_spec(inspect: Seq<char>, definition: Seq<char>, usages: Seq<char>) -> Seq<
    char,
> {
    section_spec("Inspect"@, inspect) + "\n\n"@ + section_spec("Definition"@, definition) + "\n\n"@
        + section_spec("Usages"@, usages)
}

/// Decides, from the inspection of a position, whether the exploration is
/// done or needs the definition (limited) and the usages with the
/// declaration (limited).
pub fn run_position_bundle(
    file: &str,
    line: usize,
    column: usize,
    limit: Option<usize>,
    inspect: &str,
) -> (r: PositionStep)
    ensures
        match r {
            PositionStep::Done(t) => "no symbol found at "@.is_prefix_of(inspect@) && t@
                == section_spec("Inspect"@, inspect@),
            PositionStep::Follow { definition, usages } => !"no symbol found at "@.is_prefix_of(
                inspect@,
            ) && is_definition_goto(definition, file@, line, column, limit) && is_usages_with_declaration(
                usages,
                file@,
                line,
                column,
                limit,
            ),
        },
{
    if inspect_found_no_symbol(inspect) {
        return PositionStep::Done(section("Inspect", inspect));
    }
    PositionStep::Follow {
        definition: DaemonRequest::Goto {
            file: string_of(chars_of(file).as_slice()),
            line,
            column,
            target: GotoTarget::Definition,
            limit,
        },
        usages: DaemonRequest::Usages {
            file: string_of(chars_of(file).as_slice()),
            line,
            column,
            include_declaration: true,
            limit,
        },
    }
}

/// Puts the answer of a position exploration together.
pub fn position_bundle(inspect: &str, definition: &str, usages: &str) -> (r: String)
    ensures
        r@ == bundle_spec(inspect@, definition@, usages@),
{
    let mut t = chars_of(section("Inspect", inspect).as_str());
    push_str(&mut t, "\n\n");
    push_str(&mut t, section("Definition", definition).as_str());
    push_str(&mut t, "\n\n");
    push_str(&mut t, section("Usages", usages).as_str());
    string_of(t.as_slice())
}

} // verus!
