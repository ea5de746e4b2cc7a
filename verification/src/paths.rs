//! File-system paths as character sequences, with the component semantics of
//! `std::path::Path` on Unix.
use vstd::prelude::*;
use crate::text::{extend, join, slice_copy, split_char, split_on, views};

verus! {

/// One component of a path: its rank in the order that `Component` derives
/// (root 0, current directory 1, parent directory 2, normal 3) and its text.
pub struct Part {
    pub rank: u8,
    pub name: Vec<char>,
}

impl View for Part {
    type V = (nat, Seq<char>);

    /// The component's rank and text.
    open spec fn view(&self) -> (nat, Seq<char>) {
        (self.rank as nat, self.name@)
    }
}

pub open spec fn parts_view(v: Seq<Part>) -> Seq<(nat, Seq<char>)> {
    v.map_values(|x: Part| x.view())
}

pub open spec fn dot() -> Seq<char> {
    seq!['.']
}

pub open spec fn dot_dot() -> Seq<char> {
    seq!['.', '.']
}

/// The component that a piece between separators gives, if any: empty
/// pieces and `.` give none.
pub open spec fn piece_part(piece: Seq<char>) -> Option<(nat, Seq<char>)> {
    if piece.len() == 0 || piece == dot() {
        None
    } else if piece == dot_dot() {
        Some((2nat, piece))
    } else {
        Some((3nat, piece))
    }
}

pub open spec fn parts_of_pieces(ps: Seq<Seq<char>>) -> Seq<(nat, Seq<char>)>
    decreases ps.len(),
{
    if ps.len() == 0 {
        Seq::empty()
    } else {
        let rest = parts_of_pieces(ps.drop_last());
        match piece_part(ps.last()) {
            Some(x) => rest.push(x),
            None => rest,
        }
    }
}

/// The component before the pieces: the root of an absolute path, or the
/// current directory of a path that is `.` or starts with `./`.
pub open spec fn head_parts(p: Seq<char>) -> Seq<(nat, Seq<char>)> {
    if p.len() > 0 && p[0] == '/' {
        seq![(0nat, seq!['/'])]
    } else if p == dot() || (p.len() >= 2 && p[0] == '.' && p[1] == '/') {
        seq![(1nat, dot())]
    } else {
        Seq::empty()
    }
}

/// The components of `p` (`Path::components`).
pub open spec fn comps(p: Seq<char>) -> Seq<(nat, Seq<char>)> {
    head_parts(p) + parts_of_pieces(split_on(p, '/'))
}

/// The components of `p`.
pub fn path_parts(p: &[char]) -> (r: Vec<Part>)
    ensures
        parts_view(r@) == comps(p@),
{
    let mut r: Vec<Part> = Vec::new();
    if p.len() > 0 && p[0] == '/' {
        let mut name = Vec::new();
        name.push('/');
        r.push(Part { rank: 0, name });
    } else if (p.len() == 1 && p[0] == '.') || (p.len() >= 2 && p[0] == '.' && p[1] == '/') {
        let mut name = Vec::new();
        name.push('.');
        r.push(Part { rank: 1, name });
        assert(p.len() == 1 ==> p@ == dot());
    }
    assert(parts_view(r@) == head_parts(p@)) by {
        if p.len() == 1 && p@[0] == '.' {
            assert(p@ =~= dot());
        }
    }
    let ghost head = parts_view(r@);
    let pieces = split_char(p, '/');
    let mut i: usize = 0;
    while i < pieces.len()
        invariant
            i <= pieces.len(),
            views(pieces@) == split_on(p@, '/'),
            parts_view(r@) == head + parts_of_pieces(views(pieces@).take(i as int)),
        decreases pieces.len() - i,
    {
        let piece = &pieces[i];
        let ghost t = views(pieces@).take(i + 1);
        assert(t.drop_last() == views(pieces@).take(i as int));
        assert(t.last() == piece@);
        let is_dot = piece.len() == 1 && piece[0] == '.';
        let is_dot_dot = piece.len() == 2 && piece[0] == '.' && piece[1] == '.';
        assert(is_dot == (piece@ == dot())) by {
            if piece.len() == 1 && piece@[0] == '.' {
                assert(piece@ =~= dot());
            }
        }
        assert(is_dot_dot == (piece@ == dot_dot())) by {
            if piece.len() == 2 && piece@[0] == '.' && piece@[1] == '.' {
                assert(piece@ =~= dot_dot());
            }
        }
        let ghost before = parts_view(r@);
        assert(views(pieces@)[i as int] == pieces@[i as int]@);
        assert(parts_of_pieces(t) == match piece_part(t.last()) {
            Some(x) => parts_of_pieces(t.drop_last()).push(x),
            None => parts_of_pieces(t.drop_last()),
        });
        if piece.len() == 0 || is_dot {
        } else if is_dot_dot {
            let part = Part { rank: 2, name: slice_copy(piece.as_slice(), 0, piece.len()) };
            assert(part.name@ =~= piece@);
            r.push(part);
            assert(parts_view(r@) == before.push(part.view()));
        } else {
            let part = Part { rank: 3, name: slice_copy(piece.as_slice(), 0, piece.len()) };
            assert(part.name@ =~= piece@);
            r.push(part);
            assert(parts_view(r@) == before.push(part.view()));
        }
        assert(parts_view(r@) =~= head + parts_of_pieces(t));
        i += 1;
    }
    assert(views(pieces@).take(pieces.len() as int) == views(pieces@));
    r
}

// ---------------------------------------------------------------------------
// Ordering
// ---------------------------------------------------------------------------

/// Lexicographic comparison of character sequences by code point, which is
/// also the byte order of their UTF-8 encodings: -1, 0 or 1.
pub open spec fn chars_order(a: Seq<char>, b: Seq<char>) -> int
    decreases a.len(),
{
    if a.len() == 0 {
        if b.len() == 0 {
            0
        } else {
            -1
        }
    } else if b.len() == 0 {
        1
    } else if a[0] < b[0] {
        -1
    } else if a[0] > b[0] {
        1
    } else {
        chars_order(a.drop_first(), b.drop_first())
    }
}

/// Comparison of components: by rank, then by text.
pub open spec fn part_order(x: (nat, Seq<char>), y: (nat, Seq<char>)) -> int {
    if x.0 < y.0 {
        -1
    } else if x.0 > y.0 {
        1
    } else {
        chars_order(x.1, y.1)
    }
}

/// Lexicographic comparison of component sequences.
pub open spec fn parts_order(a: Seq<(nat, Seq<char>)>, b: Seq<(nat, Seq<char>)>) -> int
    decreases a.len(),
{
    if a.len() == 0 {
        if b.len() == 0 {
            0
        } else {
            -1
        }
    } else if b.len() == 0 {
        1
    } else if part_order(a[0], b[0]) != 0 {
        part_order(a[0], b[0])
    } else {
        parts_order(a.drop_first(), b.drop_first())
    }
}

/// The order of `Path`: component by component.
pub open spec fn path_order(a: Seq<char>, b: Seq<char>) -> int {
    parts_order(comps(a), comps(b))
}

/// Compares two character sequences.
pub fn compare_chars(a: &[char], b: &[char]) -> (r: i8)
    ensures
        r as int == chars_order(a@, b@),
{
    let mut i: usize = 0;
    assert(a@.skip(0) == a@);
    assert(b@.skip(0) == b@);
    while i < a.len() && i < b.len() && a[i] == b[i]
        invariant
            i <= a.len(),
            i <= b.len(),
            chars_order(a@, b@) == chars_order(a@.skip(i as int), b@.skip(i as int)),
        decreases a.len() - i,
    {
        assert(a@.skip(i as int).drop_first() == a@.skip(i + 1));
        assert(b@.skip(i as int).drop_first() == b@.skip(i + 1));
        assert(a@.skip(i as int)[0] == a@[i as int]);
        assert(b@.skip(i as int)[0] == b@[i as int]);
        i += 1;
    }
    if i < a.len() {
        assert(a@.skip(i as int)[0] == a@[i as int]);
    } else {
        assert(a@.skip(i as int).len() == 0);
    }
    if i < b.len() {
        assert(b@.skip(i as int)[0] == b@[i as int]);
    } else {
        assert(b@.skip(i as int).len() == 0);
    }
    if i == a.len() {
        if i == b.len() {
            0
        } else {
            -1
        }
    } else if i == b.len() {
        1
    } else if a[i] < b[i] {
        -1
    } else {
        1
    }
}

fn compare_part(x: &Part, y: &Part) -> (r: i8)
    ensures
        r as int == part_order(x.view(), y.view()),
{
    if x.rank < y.rank {
        -1
    } else if x.rank > y.rank {
        1
    } else {
        compare_chars(x.name.as_slice(), y.name.as_slice())
    }
}

fn compare_parts(a: &Vec<Part>, b: &Vec<Part>) -> (r: i8)
    ensures
        r as int == parts_order(parts_view(a@), parts_view(b@)),
{
    let ghost av = parts_view(a@);
    let ghost bv = parts_view(b@);
    let mut i: usize = 0;
    assert(av.skip(0) == av);
    assert(bv.skip(0) == bv);
    while i < a.len() && i < b.len()
        invariant
            i <= a.len(),
            i <= b.len(),
            av == parts_view(a@),
            bv == parts_view(b@),
            parts_order(av, bv) == parts_order(av.skip(i as int), bv.skip(i as int)),
        decreases a.len() - i,
    {
        let c = compare_part(&a[i], &b[i]);
        assert(av.skip(i as int)[0] == a@[i as int].view());
        assert(bv.skip(i as int)[0] == b@[i as int].view());
        if c != 0 {
            return c;
        }
        assert(av.skip(i as int).drop_first() == av.skip(i + 1));
        assert(bv.skip(i as int).drop_first() == bv.skip(i + 1));
        i += 1;
    }
    if i == a.len() {
        if i == b.len() {
            0
        } else {
            -1
        }
    } else {
        1
    }
}

/// Compares two paths as `Path::order` does.
pub fn compare_paths(a: &[char], b: &[char]) -> (r: i8)
    ensures
        r as int == path_order(a@, b@),
{
    let pa = path_parts(a);
    let pb = path_parts(b);
    compare_parts(&pa, &pb)
}

// ---------------------------------------------------------------------------
// Prefixes, joining and names
// ---------------------------------------------------------------------------

/// Whether `base` is a component-wise prefix of `p` (`Path::starts_with`).
pub open spec fn path_has_prefix(p: Seq<char>, base: Seq<char>) -> bool {
    comps(base).is_prefix_of(comps(p))
}

/// The text of a sequence of components that does not start at the root:
/// their texts joined by `/`.
pub open spec fn render_parts(ps: Seq<(nat, Seq<char>)>) -> Seq<char> {
    if ps.len() > 0 && ps[0].0 == 0 {
        seq!['/'] + join(ps.drop_first().map_values(|x: (nat, Seq<char>)| x.1), seq!['/'])
    } else {
        join(ps.map_values(|x: (nat, Seq<char>)| x.1), seq!['/'])
    }
}

/// What `Path::strip_prefix` returns: the components of `p` after those of
/// `base`, written out again, when `base` is a prefix of `p`.
pub open spec fn strip_prefix_spec(p: Seq<char>, base: Seq<char>) -> Option<Seq<char>> {
    if path_has_prefix(p, base) {
        Some(render_parts(comps(p).skip(comps(base).len() as int)))
    } else {
        None
    }
}

fn parts_have_prefix(a: &Vec<Part>, b: &Vec<Part>) -> (r: bool)
    ensures
        r == parts_view(b@).is_prefix_of(parts_view(a@)),
{
    if b.len() > a.len() {
        return false;
    }
    let mut i: usize = 0;
    while i < b.len()
        invariant
            b.len() <= a.len(),
            i <= b.len(),
            forall|k: int| 0 <= k < i ==> parts_view(a@)[k] == parts_view(b@)[k],
        decreases b.len() - i,
    {
        if compare_part(&a[i], &b[i]) != 0 {
            assert(a@[i as int].view() != b@[i as int].view()) by {
                lemma_part_order_refl(a@[i as int].view());
            }
            assert(parts_view(a@)[i as int] == a@[i as int].view());
            assert(parts_view(b@)[i as int] == b@[i as int].view());
            assert(parts_view(a@).subrange(0, b.len() as int)[i as int] == parts_view(a@)[i as int]);
            return false;
        }
        proof {
            lemma_part_order_zero(a@[i as int].view(), b@[i as int].view());
        }
        i += 1;
    }
    assert(parts_view(b@) =~= parts_view(a@).subrange(0, b.len() as int));
    true
}

/// Whether `p` starts with `base`, component-wise.
pub fn path_starts_with(p: &[char], base: &[char]) -> (r: bool)
    ensures
        r == path_has_prefix(p@, base@),
{
    let pp = path_parts(p);
    let pb = path_parts(base);
    parts_have_prefix(&pp, &pb)
}

fn render_from(parts: &Vec<Part>, from: usize) -> (r: Vec<char>)
    requires
        from <= parts.len(),
    ensures
        r@ == render_parts(parts_view(parts@).skip(from as int)),
{
    let ghost rest = parts_view(parts@).skip(from as int);
    let mut out: Vec<char> = Vec::new();
    let mut start = from;
    if from < parts.len() && parts[from].rank == 0 {
        out.push('/');
        start = from + 1;
    }
    let ghost names = if rest.len() > 0 && rest[0].0 == 0 {
        rest.drop_first().map_values(|x: (nat, Seq<char>)| x.1)
    } else {
        rest.map_values(|x: (nat, Seq<char>)| x.1)
    };
    assert(names =~= parts_view(parts@).skip(start as int).map_values(
        |x: (nat, Seq<char>)| x.1,
    ));
    let ghost prefix = out@;
    let mut i = start;
    while i < parts.len()
        invariant
            start <= i <= parts.len(),
            names == parts_view(parts@).skip(start as int).map_values(|x: (nat, Seq<char>)| x.1),
            out@ == prefix + join(names.take(i - start), seq!['/']),
        decreases parts.len() - i,
    {
        let ghost t = names.take(i - start + 1);
        assert(t.drop_last() == names.take(i - start));
        assert(t.last() == parts@[i as int].name@);
        if i > start {
            out.push('/');
        }
        extend(&mut out, parts[i].name.as_slice());
        i += 1;
        proof {
            if i - start == 1 {
                assert(out@ == prefix + t[0]);
            } else {
                assert(out@ == prefix + (join(names.take(i - 1 - start), seq!['/']) + seq!['/']
                    + parts@[i - 1].name@));
            }
        }
    }
    assert(names.take(parts.len() - start) == names);
    out
}

/// `p` with the prefix `base` removed, if `base` is a prefix of `p`.
pub fn strip_prefix(p: &[char], base: &[char]) -> (r: Option<Vec<char>>)
    ensures
        match r {
            Some(v) => strip_prefix_spec(p@, base@) == Some(v@),
            None => strip_prefix_spec(p@, base@) is None,
        },
{
    let pp = path_parts(p);
    let pb = path_parts(base);
    if !parts_have_prefix(&pp, &pb) {
        return None;
    }
    Some(render_from(&pp, pb.len()))
}

/// Whether `p` is absolute (`Path::is_absolute` on Unix).
pub open spec fn is_abs(p: Seq<char>) -> bool {
    p.len() > 0 && p[0] == '/'
}

pub fn is_absolute(p: &[char]) -> (r: bool)
    ensures
        r == is_abs(p@),
{
    p.len() > 0 && p[0] == '/'
}

/// What `base.join(p)` gives: `p` itself when it is absolute, else `p`
/// appended to `base` with a `/` between them unless `base` is empty or
/// already ends with one.
pub open spec fn join_spec(base: Seq<char>, p: Seq<char>) -> Seq<char> {
    if is_abs(p) {
        p
    } else if base.len() == 0 || base.last() == '/' {
        base + p
    } else {
        base + seq!['/'] + p
    }
}

/// `base.join(p)`.
pub fn join_path(base: &[char], p: &[char]) -> (r: Vec<char>)
    ensures
        r@ == join_spec(base@, p@),
{
    if is_absolute(p) {
        return slice_copy(p, 0, p.len());
    }
    let mut out = slice_copy(base, 0, base.len());
    if !(base.len() == 0 || base[base.len() - 1] == '/') {
        out.push('/');
    }
    extend(&mut out, p);
    out
}

/// The final component of `p` when it is a normal one (`Path::file_name`).
pub open spec fn file_name_spec(p: Seq<char>) -> Option<Seq<char>> {
    let c = comps(p);
    if c.len() > 0 && c.last().0 == 3 {
        Some(c.last().1)
    } else {
        None
    }
}

pub fn file_name(p: &[char]) -> (r: Option<Vec<char>>)
    ensures
        match r {
            Some(v) => file_name_spec(p@) == Some(v@),
            None => file_name_spec(p@) is None,
        },
{
    let parts = path_parts(p);
    if parts.len() > 0 && parts[parts.len() - 1].rank == 3 {
        let last = &parts[parts.len() - 1];
        Some(slice_copy(last.name.as_slice(), 0, last.name.len()))
    } else {
        None
    }
}

/// The index of the last `.` in `s`, if any.
pub open spec fn last_dot(s: Seq<char>) -> Option<int>
    decreases s.len(),
{
    if s.len() == 0 {
        None
    } else if s.last() == '.' {
        Some(s.len() - 1)
    } else {
        last_dot(s.drop_last())
    }
}

/// What `Path::extension` returns: the text after the last `.` of the file
/// name, unless that `.` is its first character or the name is `..`.
pub open spec fn extension_spec(p: Seq<char>) -> Option<Seq<char>> {
    match file_name_spec(p) {
        Some(name) => match last_dot(name) {
            Some(i) => if i > 0 {
                Some(name.skip(i + 1))
            } else {
                None
            },
            None => None,
        },
        None => None,
    }
}

proof fn lemma_last_dot_bounds(s: Seq<char>)
    ensures
        last_dot(s) matches Some(i) ==> 0 <= i < s.len() && s[i] == '.',
    decreases s.len(),
{
    if s.len() > 0 && s.last() != '.' {
        lemma_last_dot_bounds(s.drop_last());
    }
}

pub fn extension(p: &[char]) -> (r: Option<Vec<char>>)
    ensures
        match r {
            Some(v) => extension_spec(p@) == Some(v@),
            None => extension_spec(p@) is None,
        },
{
    let name = match file_name(p) {
        Some(n) => n,
        None => return None,
    };
    let mut j = name.len();
    assert(name@.take(name.len() as int) == name@);
    while j > 0 && name[j - 1] != '.'
        invariant
            j <= name.len(),
            last_dot(name@) == last_dot(name@.take(j as int)),
        decreases j,
    {
        assert(name@.take(j as int).drop_last() == name@.take(j - 1));
        j -= 1;
    }
    assert(name@.take(name.len() as int) == name@);
    if j == 0 {
        assert(name@.take(0).len() == 0);
        return None;
    }
    assert(name@.take(j as int).last() == '.');
    if j == 1 {
        return None;
    }
    Some(slice_copy(name.as_slice(), j, name.len()))
}

// ---------------------------------------------------------------------------
// Properties of the order
// ---------------------------------------------------------------------------

/// A text compares equal to itself.
pub proof fn lemma_chars_order_refl(a: Seq<char>)
    ensures
        chars_order(a, a) == 0,
    decreases a.len(),
{
    if a.len() > 0 {
        lemma_chars_order_refl(a.drop_first());
    }
}

/// Texts that compare equal are the same text.
pub proof fn lemma_chars_order_zero(a: Seq<char>, b: Seq<char>)
    requires
        chars_order(a, b) == 0,
    ensures
        a == b,
    decreases a.len(),
{
    if a.len() > 0 && b.len() > 0 {
        lemma_chars_order_zero(a.drop_first(), b.drop_first());
        assert(a =~= seq![a[0]] + a.drop_first());
        assert(b =~= seq![b[0]] + b.drop_first());
    }
}

/// Comparing two texts the other way round gives the opposite sign.
pub proof fn lemma_chars_order_antisym(a: Seq<char>, b: Seq<char>)
    ensures
        chars_order(a, b) == -chars_order(b, a),
        -1 <= chars_order(a, b) <= 1,
    decreases a.len(),
{
    if a.len() > 0 && b.len() > 0 {
        lemma_chars_order_antisym(a.drop_first(), b.drop_first());
    }
}

/// The order on texts is transitive, strictly where one step is strict.
pub proof fn lemma_chars_order_trans(a: Seq<char>, b: Seq<char>, c: Seq<char>)
    requires
        chars_order(a, b) <= 0,
        chars_order(b, c) <= 0,
    ensures
        chars_order(a, c) <= 0,
        chars_order(a, b) < 0 || chars_order(b, c) < 0 ==> chars_order(a, c) < 0,
    decreases a.len(),
{
    if a.len() > 0 && b.len() > 0 && c.len() > 0 && a[0] == b[0] && b[0] == c[0] {
        lemma_chars_order_trans(a.drop_first(), b.drop_first(), c.drop_first());
    }
}

/// A path component compares equal to itself.
pub proof fn lemma_part_order_refl(x: (nat, Seq<char>))
    ensures
        part_order(x, x) == 0,
{
    lemma_chars_order_refl(x.1);
}

/// Components that compare equal are the same component.
pub proof fn lemma_part_order_zero(x: (nat, Seq<char>), y: (nat, Seq<char>))
    requires
        part_order(x, y) == 0,
    ensures
        x == y,
{
    lemma_chars_order_zero(x.1, y.1);
}

/// Comparing two components the other way round gives the opposite sign.
pub proof fn lemma_part_order_antisym(x: (nat, Seq<char>), y: (nat, Seq<char>))
    ensures
        part_order(x, y) == -part_order(y, x),
        -1 <= part_order(x, y) <= 1,
{
    lemma_chars_order_antisym(x.1, y.1);
}

/// The order on components is transitive, strictly where one step is strict.
pub proof fn lemma_part_order_trans(x: (nat, Seq<char>), y: (nat, Seq<char>), z: (nat, Seq<char>))
    requires
        part_order(x, y) <= 0,
        part_order(y, z) <= 0,
    ensures
        part_order(x, z) <= 0,
        part_order(x, y) < 0 || part_order(y, z) < 0 ==> part_order(x, z) < 0,
{
    if x.0 == y.0 && y.0 == z.0 {
        lemma_chars_order_trans(x.1, y.1, z.1);
    }
}

/// A component sequence compares equal to itself.
pub proof fn lemma_parts_order_refl(a: Seq<(nat, Seq<char>)>)
    ensures
        parts_order(a, a) == 0,
    decreases a.len(),
{
    if a.len() > 0 {
        lemma_part_order_refl(a[0]);
        lemma_parts_order_refl(a.drop_first());
    }
}

/// Comparing two component sequences the other way round gives the
/// opposite sign.
pub proof fn lemma_parts_order_antisym(a: Seq<(nat, Seq<char>)>, b: Seq<(nat, Seq<char>)>)
    ensures
        parts_order(a, b) == -parts_order(b, a),
        -1 <= parts_order(a, b) <= 1,
    decreases a.len(),
{
    if a.len() > 0 && b.len() > 0 {
        lemma_part_order_antisym(a[0], b[0]);
        lemma_parts_order_antisym(a.drop_first(), b.drop_first());
    }
}

/// The order on component sequences is transitive, strictly where one step
/// is strict.
pub proof fn lemma_parts_order_trans(
    a: Seq<(nat, Seq<char>)>,
    b: Seq<(nat, Seq<char>)>,
    c: Seq<(nat, Seq<char>)>,
)
    requires
        parts_order(a, b) <= 0,
        parts_order(b, c) <= 0,
    ensures
        parts_order(a, c) <= 0,
        parts_order(a, b) < 0 || parts_order(b, c) < 0 ==> parts_order(a, c) < 0,
    decreases a.len(),
{
    if a.len() > 0 && b.len() > 0 && c.len() > 0 {
        lemma_part_order_antisym(a[0], b[0]);
        lemma_part_order_antisym(b[0], c[0]);
        lemma_part_order_antisym(a[0], c[0]);
        if part_order(a[0], b[0]) == 0 {
            lemma_part_order_zero(a[0], b[0]);
        }
        if part_order(b[0], c[0]) == 0 {
            lemma_part_order_zero(b[0], c[0]);
        }
        if part_order(a[0], b[0]) == 0 && part_order(b[0], c[0]) == 0 {
            lemma_part_order_refl(a[0]);
            lemma_parts_order_trans(a.drop_first(), b.drop_first(), c.drop_first());
        } else if part_order(a[0], b[0]) <= 0 && part_order(b[0], c[0]) <= 0 {
            lemma_part_order_trans(a[0], b[0], c[0]);
        }
    }
}

/// Component sequences that compare equal are the same sequence.
pub proof fn lemma_parts_order_zero(a: Seq<(nat, Seq<char>)>, b: Seq<(nat, Seq<char>)>)
    requires
        parts_order(a, b) == 0,
    ensures
        a == b,
    decreases a.len(),
{
    if a.len() > 0 && b.len() > 0 {
        lemma_part_order_zero(a[0], b[0]);
        lemma_parts_order_zero(a.drop_first(), b.drop_first());
        assert(a =~= seq![a[0]] + a.drop_first());
        assert(b =~= seq![b[0]] + b.drop_first());
    }
}

/// Two paths compare equal exactly when they have the same components, as
/// `Path`'s `==` has it.
pub proof fn lemma_path_order_same(a: Seq<char>, b: Seq<char>)
    ensures
        (path_order(a, b) == 0) == (comps(a) == comps(b)),
{
    lemma_parts_order_refl(comps(a));
    if path_order(a, b) == 0 {
        lemma_parts_order_zero(comps(a), comps(b));
    }
}

/// The order on paths is a total preorder that leaves no two different
/// component sequences equal: reflexive, antisymmetric and transitive.
pub proof fn lemma_path_order_total_order(a: Seq<char>, b: Seq<char>, c: Seq<char>)
    ensures
        path_order(a, a) == 0,
        path_order(a, b) == -path_order(b, a),
        -1 <= path_order(a, b) <= 1,
        path_order(a, b) <= 0 && path_order(b, c) <= 0 ==> path_order(a, c) <= 0,
{
    lemma_parts_order_refl(comps(a));
    lemma_parts_order_antisym(comps(a), comps(b));
    if path_order(a, b) <= 0 && path_order(b, c) <= 0 {
        lemma_parts_order_trans(comps(a), comps(b), comps(c));
    }
}

} // verus!
