//! The workspace: the roots the type checker is told about, and the names
//! it is known by.
use vstd::prelude::*;
use crate::paths::{
    compare_paths, file_name, file_name_spec, join_path, join_spec, path_order, strip_prefix,
    strip_prefix_spec,
};
use crate::text::{chars_of, extend, push_str, string_of};

verus! {

/// How a root is given to the type checker: `.` for the workspace itself,
/// `./` and the relative path for a root inside it, else the path.
pub open spec fn relative_root_spec(workspace_root: Seq<char>, path: Seq<char>) -> Seq<char> {
    match strip_prefix_spec(path, workspace_root) {
        Some(rel) => if rel.len() == 0 {
            "."@
        } else {
            "./"@ + rel
        },
        None => path,
    }
}

/// How a root is given to the type checker.
pub fn relative_root_string(workspace_root: &str, path: &str) -> (r: String)
    ensures
        r@ == relative_root_spec(workspace_root@, path@),
{
    let p = chars_of(path);
    match strip_prefix(p.as_slice(), chars_of(workspace_root).as_slice()) {
        Some(rel) => {
            if rel.len() == 0 {
                ".".to_owned()
            } else {
                let mut t = chars_of("./");
                extend(&mut t, rel.as_slice());
                string_of(t.as_slice())
            }
        },
        None => string_of(p.as_slice()),
    }
}

/// The position at or after `i` where `x` belongs among sorted paths.
pub open spec fn root_position(roots: Seq<Seq<char>>, x: Seq<char>, i: int) -> int
    decreases roots.len() - i,
{
    if i >= roots.len() {
        roots.len() as int
    } else if path_order(roots[i], x) >= 0 {
        i
    } else {
        root_position(roots, x, i + 1)
    }
}

/// `x` added to paths kept sorted and without two equal paths: an equal
/// path already there stays.
pub open spec fn add_root(roots: Seq<Seq<char>>, x: Seq<char>) -> Seq<Seq<char>> {
    let pos = root_position(roots, x, 0);
    if pos < roots.len() && path_order(roots[pos], x) == 0 {
        roots
    } else {
        roots.take(pos).push(x) + roots.skip(pos)
    }
}

/// The candidate roots as an ordered set of paths, the first of equal
/// paths kept.
pub open spec fn roots_spec(candidates: Seq<Seq<char>>) -> Seq<Seq<char>>
    decreases candidates.len(),
{
    if candidates.len() == 0 {
        Seq::empty()
    } else {
        add_root(roots_spec(candidates.drop_last()), candidates.last())
    }
}

/// The texts of strings.
pub open spec fn texts(s: Seq<String>) -> Seq<Seq<char>> {
    s.map_values(|x: String| x@)
}

fn add_root_exec(roots: &mut Vec<Vec<char>>, x: Vec<char>)
    ensures
        crate::text::views(final(roots)@) == add_root(crate::text::views(old(roots)@), x@),
{
    let ghost v = crate::text::views(roots@);
    let mut pos: usize = 0;
    while pos < roots.len() && compare_paths(roots[pos].as_slice(), x.as_slice()) < 0
        invariant
            pos <= roots.len(),
            v == crate::text::views(roots@),
            root_position(v, x@, 0) == root_position(v, x@, pos as int),
        decreases roots.len() - pos,
    {
        assert(v[pos as int] == roots@[pos as int]@);
        pos += 1;
    }
    if pos < roots.len() {
        assert(v[pos as int] == roots@[pos as int]@);
    }
    assert(root_position(v, x@, pos as int) == pos);
    if pos < roots.len() && compare_paths(roots[pos].as_slice(), x.as_slice()) == 0 {
        return;
    }
    let ghost xv = x@;
    roots.insert(pos, x);
    assert(crate::text::views(roots@) =~= v.take(pos as int).push(xv) + v.skip(pos as int));
}

/// The roots the type checker is told about: the workspace and the
/// candidate directories found in it, as an ordered set of paths, each
/// written as `relative_root_spec` says.
///
/// The set is a vector kept sorted and free of repeats by `path_order`:
/// vstd specifies `BTreeSet` only for keys whose `Ord` it knows (integers
/// and tuples of them), which neither `String` nor `PathBuf` is, and the
/// order wanted is that of `Path`, component by component, which a `String`
/// key would not give.
pub fn ty_roots(workspace_root: &str, candidates: &Vec<String>) -> (r: Vec<String>)
    ensures
        texts(r@) == roots_spec(seq![workspace_root@] + texts(candidates@)).map_values(
            |p: Seq<char>| relative_root_spec(workspace_root@, p),
        ),
{
    let ghost all = seq![workspace_root@] + texts(candidates@);
    let mut roots: Vec<Vec<char>> = Vec::new();
    assert(crate::text::views(roots@) =~= Seq::<Seq<char>>::empty());
    add_root_exec(&mut roots, chars_of(workspace_root));
    proof {
        assert(all.take(1).drop_last() =~= Seq::<Seq<char>>::empty());
        assert(all.take(1).last() == workspace_root@);
        assert(roots_spec(Seq::<Seq<char>>::empty()) == Seq::<Seq<char>>::empty());
        assert(crate::text::views(roots@) == roots_spec(all.take(1)));
    }
    let mut i: usize = 0;
    while i < candidates.len()
        invariant
            i <= candidates.len(),
            all == seq![workspace_root@] + texts(candidates@),
            crate::text::views(roots@) == roots_spec(all.take(i + 1)),
        decreases candidates.len() - i,
    {
        add_root_exec(&mut roots, chars_of(candidates[i].as_str()));
        proof {
            assert(all.take(i + 2).drop_last() == all.take(i + 1));
            assert(all.take(i + 2).last() == candidates@[i as int]@);
        }
        i += 1;
    }
    assert(all.take(candidates.len() + 1) == all);
    let ghost sorted = crate::text::views(roots@);
    let mut out: Vec<String> = Vec::new();
    let mut k: usize = 0;
    while k < roots.len()
        invariant
            k <= roots.len(),
            sorted == crate::text::views(roots@),
            texts(out@) == sorted.take(k as int).map_values(
                |p: Seq<char>| relative_root_spec(workspace_root@, p),
            ),
        decreases roots.len() - k,
    {
        let s = relative_root_string(workspace_root, string_of(roots[k].as_slice()).as_str());
        assert(sorted[k as int] == roots@[k as int]@);
        let ghost before = out@;
        out.push(s);
        assert(texts(out@) =~= texts(before).push(s@));
        assert(sorted.take(k + 1) =~= sorted.take(k as int).push(sorted[k as int]));
        k += 1;
        assert(texts(out@) =~= sorted.take(k as int).map_values(
            |p: Seq<char>| relative_root_spec(workspace_root@, p),
        ));
    }
    assert(sorted.take(roots.len() as int) == sorted);
    out
}

/// The name of the workspace folder sent to the language server: the
/// root's final component, else `workspace`.
pub fn workspace_folder_name(workspace_root: &str) -> (r: String)
    ensures
        r@ == match file_name_spec(workspace_root@) {
            Some(n) => n,
            None => "workspace"@,
        },
{
    match file_name(chars_of(workspace_root).as_slice()) {
        Some(n) => string_of(n.as_slice()),
        None => "workspace".to_owned(),
    }
}

/// Where a workspace's virtual environment keeps a tool.
pub fn local_binary_path(workspace_root: &str, name: &str) -> (r: String)
    ensures
        r@ == join_spec(join_spec(join_spec(workspace_root@, ".venv"@), "bin"@), name@),
{
    let a = join_path(chars_of(workspace_root).as_slice(), chars_of(".venv").as_slice());
    let b = join_path(a.as_slice(), chars_of("bin").as_slice());
    string_of(join_path(b.as_slice(), chars_of(name).as_slice()).as_slice())
}

} // verus!
