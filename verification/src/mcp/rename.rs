//! The `rename` tool: a semantic rename previewed as a diff.
use vstd::prelude::*;
use crate::daemon::DaemonRequest;
use crate::mcp::inputs::{file_candidate, file_candidate_spec, opt_view};
use crate::text::{chars_of, string_of, trim, trimmed};

verus! {

/// What an agent asks `rename` for.
#[derive(Debug)]
pub struct RenameRequest {
    /// Workspace root; required when file is relative.
    pub workspace: Option<String>,
    /// Python file containing the symbol to rename.
    pub file: String,
    /// 1-based line containing the symbol.
    pub line: usize,
    /// 1-based column on the symbol.
    pub column: usize,
    /// New symbol name to preview.
    pub new_name: String,
}

/// A checked request: the workspace as given, the path its file stands
/// for, and the trimmed new name.
#[derive(Debug)]
pub struct RenamePlan {
    pub workspace: Option<String>,
    pub file: String,
    pub line: usize,
    pub column: usize,
    pub new_name: String,
}

/// What checking a request gives: the file's path and the trimmed new
/// name, or the first problem. Positions are 1-based and the new name must
/// not be blank.
pub open spec fn rename_plan_spec(r: RenameRequest) -> Result<(Seq<char>, Seq<char>), Seq<char>> {
    if r.line == 0 {
        Err("line must be a 1-based value"@)
    } else if r.column == 0 {
        Err("column must be a 1-based value"@)
    } else if trim(r.new_name@).len() == 0 {
        Err("new_name must not be empty"@)
    } else {
        match file_candidate_spec(r.file@, opt_view(r.workspace)) {
            Err(e) => Err(e),
            Ok(f) => Ok((f, trim(r.new_name@))),
        }
    }
}

/// Checks a `rename` request; what is left is resolving the file and the
/// workspace on disk.
pub fn prepare(request: RenameRequest) -> (r: Result<RenamePlan, String>)
    ensures
        match r {
            Ok(p) => rename_plan_spec(request) == Ok::<(Seq<char>, Seq<char>), Seq<char>>(
                (p.file@, p.new_name@),
            ) && p.workspace == request.workspace && p.line == request.line && p.column
                == request.column,
            Err(e) => rename_plan_spec(request) == Err::<(Seq<char>, Seq<char>), Seq<char>>(e@),
        },
{
    if request.line == 0 {
        return Err("line must be a 1-based value".to_owned());
    }
    if request.column == 0 {
        return Err("column must be a 1-based value".to_owned());
    }
    let new_name = trimmed(chars_of(request.new_name.as_str()).as_slice());
    if new_name.len() == 0 {
        return Err("new_name must not be empty".to_owned());
    }
    let workspace = match &request.workspace {
        Some(w) => Some(w.as_str()),
        None => None,
    };
    let file = file_candidate(request.file.as_str(), workspace)?;
    Ok(
        RenamePlan {
            workspace: request.workspace,
            file,
            line: request.line,
            column: request.column,
            new_name: string_of(new_name.as_slice()),
        },
    )
}

/// The daemon request that previews a rename of a resolved file.
pub fn rename_request(file: &str, line: usize, column: usize, new_name: &str) -> (r: DaemonRequest)
    ensures
        r matches DaemonRequest::Rename { file: f, line: l, column: c, new_name: n } && f@ == file@
            && l == line && c == column && n@ == new_name@,
{
    DaemonRequest::Rename {
        file: string_of(chars_of(file).as_slice()),
        line,
        column,
        new_name: string_of(chars_of(new_name).as_slice()),
    }
}

} // verus!
