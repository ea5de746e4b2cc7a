//! Paths that an agent passes to a tool.
use vstd::prelude::*;
use crate::paths::{is_abs, is_absolute, join_path, join_spec};
use crate::text::{chars_of, string_of};

verus! {

/// The path a file argument stands for before it is resolved on disk: an
/// absolute path as it is, a relative one under the workspace; a relative
/// one without a workspace is refused.
pub open spec fn file_candidate_spec(file: Seq<char>, workspace: Option<Seq<char>>) -> Result<
    Seq<char>,
    Seq<char>,
> {
    if is_abs(file) {
        Ok(file)
    } else {
        match workspace {
            Some(w) => Ok(join_spec(w, file)),
            None => Err("workspace is required when file is relative"@),
        }
    }
}

/// The view of an optional string.
pub open spec fn opt_view(s: Option<String>) -> Option<Seq<char>> {
    match s {
        Some(v) => Some(v@),
        None => None,
    }
}

/// The path a file argument stands for before it is resolved on disk.
pub fn file_candidate(file: &str, workspace: Option<&str>) -> (r: Result<String, String>)
    ensures
        match r {
            Ok(p) => file_candidate_spec(
                file@,
                match workspace {
                    Some(w) => Some(w@),
                    None => None,
                },
            ) == Ok::<Seq<char>, Seq<char>>(p@),
            Err(e) => file_candidate_spec(
                file@,
                match workspace {
                    Some(w) => Some(w@),
                    None => None,
                },
            ) == Err::<Seq<char>, Seq<char>>(e@),
        },
{
    let f = chars_of(file);
    if is_absolute(f.as_slice()) {
        return Ok(string_of(f.as_slice()));
    }
    match workspace {
        Some(w) => Ok(string_of(join_path(chars_of(w).as_slice(), f.as_slice()).as_slice())),
        None => Err("workspace is required when file is relative".to_owned()),
    }
}

} // verus!
