//! Reading the positions given on the command line.
use vstd::prelude::*;
use crate::text::{
    all_digits, chars_of, decimal, lemma_decimal_parses, parse_usize, parse_usize_spec, push_str,
    slice_copy, string_of,
};

verus! {

/// A file position as `file:line:column` (1-based).
#[derive(Debug)]
pub struct PositionArgs {
    pub location: String,
}

/// A file.
#[derive(Debug)]
pub struct FileArgs {
    pub file: String,
}

/// A file and a 1-based position in it; the file as it was given, to be
/// resolved on disk.
#[derive(Debug)]
pub struct CommandInput {
    pub file: String,
    pub line: usize,
    pub column: usize,
}

/// The index of the last `:` among the first `k` characters of `s`.
pub open spec fn last_colon(s: Seq<char>, k: int) -> Option<int>
    decreases k,
{
    if k <= 0 {
        None
    } else if s[k - 1] == ':' {
        Some(k - 1)
    } else {
        last_colon(s, k - 1)
    }
}

/// The three pieces of `s` that splitting at its last two colons gives,
/// if it has two: what comes before them, between them and after them.
pub open spec fn colon_parts(s: Seq<char>) -> Option<(Seq<char>, Seq<char>, Seq<char>)> {
    match last_colon(s, s.len() as int) {
        None => None,
        Some(i) => match last_colon(s, i) {
            None => None,
            Some(j) => Some((s.take(j), s.subrange(j + 1, i), s.skip(i + 1))),
        },
    }
}

/// A `file:line:column` string read from the right, so that the file may
/// hold colons: the file must not be empty and the line and column must
/// be numbers.
pub open spec fn colon_location_spec(s: Seq<char>) -> Result<(Seq<char>, usize, usize), Seq<char>> {
    let err = "expected FILE:LINE:COLUMN format, got: "@ + s;
    match colon_parts(s) {
        None => Err(err),
        Some((f, l, c)) => if f.len() == 0 {
            Err(err)
        } else {
            match parse_usize_spec(l) {
                None => Err(err),
                Some(line) => match parse_usize_spec(c) {
                    None => Err(err),
                    Some(column) => Ok((f, line, column)),
                },
            }
        },
    }
}

proof fn lemma_last_colon_bounds(s: Seq<char>, k: int)
    requires
        k <= s.len(),
    ensures
        last_colon(s, k) matches Some(i) ==> 0 <= i < k && s[i] == ':',
    decreases k,
{
    if k > 0 && s[k - 1] != ':' {
        lemma_last_colon_bounds(s, k - 1);
    }
}

fn find_last_colon(s: &[char], k: usize) -> (r: Option<usize>)
    requires
        k <= s.len(),
    ensures
        match r {
            Some(i) => last_colon(s@, k as int) == Some(i as int),
            None => last_colon(s@, k as int) is None,
        },
{
    let mut j = k;
    while j > 0
        invariant
            j <= k <= s.len(),
            last_colon(s@, k as int) == last_colon(s@, j as int),
        decreases j,
    {
        if s[j - 1] == ':' {
            return Some(j - 1);
        }
        j -= 1;
    }
    None
}

/// Parses a `file:line:column` string, splitting from the right to keep
/// colons in paths.
pub fn parse_colon_location(input: &str) -> (r: Result<(String, usize, usize), String>)
    ensures
        match r {
            Ok((f, l, c)) => colon_location_spec(input@) == Ok::<
                (Seq<char>, usize, usize),
                Seq<char>,
            >((f@, l, c)),
            Err(e) => colon_location_spec(input@) == Err::<(Seq<char>, usize, usize), Seq<char>>(
                e@,
            ),
        },
{
    let s = chars_of(input);
    let mut err = chars_of("expected FILE:LINE:COLUMN format, got: ");
    push_str(&mut err, input);
    let i = match find_last_colon(s.as_slice(), s.len()) {
        Some(i) => i,
        None => return Err(string_of(err.as_slice())),
    };
    proof {
        lemma_last_colon_bounds(s@, s.len() as int);
    }
    let j = match find_last_colon(s.as_slice(), i) {
        Some(j) => j,
        None => return Err(string_of(err.as_slice())),
    };
    proof {
        lemma_last_colon_bounds(s@, i as int);
    }
    if j == 0 {
        return Err(string_of(err.as_slice()));
    }
    let file = slice_copy(s.as_slice(), 0, j);
    let line_text = slice_copy(s.as_slice(), j + 1, i);
    let column_text = slice_copy(s.as_slice(), i + 1, s.len());
    assert(file@ == s@.take(j as int));
    assert(column_text@ == s@.skip(i + 1));
    let line = match parse_usize(line_text.as_slice()) {
        Some(l) => l,
        None => return Err(string_of(err.as_slice())),
    };
    let column = match parse_usize(column_text.as_slice()) {
        Some(c) => c,
        None => return Err(string_of(err.as_slice())),
    };
    Ok((string_of(file.as_slice()), line, column))
}

/// What reading a position argument gives: its file, line and column, the
/// position 1-based.
pub open spec fn position_input_spec(location: Seq<char>) -> Result<(Seq<char>, usize, usize), Seq<
    char,
>> {
    match colon_location_spec(location) {
        Err(e) => Err(e),
        Ok((f, l, c)) => if l == 0 {
            Err("line must be a 1-based value"@)
        } else if c == 0 {
            Err("column must be a 1-based value"@)
        } else {
            Ok((f, l, c))
        },
    }
}

proof fn lemma_last_colon_at(s: Seq<char>, k: int, p: int)
    requires
        0 <= p < k <= s.len(),
        s[p] == ':',
        forall|q: int| p < q < k ==> s[q] != ':',
    ensures
        last_colon(s, k) == Some(p),
    decreases k,
{
    if k - 1 != p {
        lemma_last_colon_at(s, k - 1, p);
    }
}

/// Writing a file and a position as `file:line:column` and reading it back
/// gives them again, whatever colons the file's path holds.
pub proof fn lemma_colon_location_round_trip(file: Seq<char>, line: usize, column: usize)
    requires
        file.len() > 0,
    ensures
        colon_location_spec(
            file + seq![':'] + decimal(line as nat) + seq![':'] + decimal(column as nat),
        ) == Ok::<(Seq<char>, usize, usize), Seq<char>>((file, line, column)),
{
    let l = decimal(line as nat);
    let c = decimal(column as nat);
    lemma_decimal_parses(line);
    lemma_decimal_parses(column);
    let s = file + seq![':'] + l + seq![':'] + c;
    let i: int = (file.len() + 1 + l.len()) as int;
    let j = file.len() as int;
    assert(s[i] == ':');
    assert(s[j] == ':');
    assert forall|q: int| i < q < s.len() implies s[q] != ':' by {
        assert(s[q] == c[q - i - 1]);
        assert(crate::text::is_digit(c[q - i - 1]));
    }
    lemma_last_colon_at(s, s.len() as int, i);
    assert forall|q: int| j < q < i implies s[q] != ':' by {
        assert(s[q] == l[q - j - 1]);
        assert(crate::text::is_digit(l[q - j - 1]));
    }
    lemma_last_colon_at(s, i, j);
    assert(s.take(j) =~= file);
    assert(s.subrange(j + 1, i) =~= l);
    assert(s.skip(i + 1) =~= c);
}

impl CommandInput {
    /// Reads a `file:line:column` argument; the file is left to be
    /// resolved on disk.
    pub fn from_position_args(args: PositionArgs) -> (r: Result<CommandInput, String>)
        ensures
            match r {
                Ok(c) => position_input_spec(args.location@) == Ok::<
                    (Seq<char>, usize, usize),
                    Seq<char>,
                >((c.file@, c.line, c.column)),
                Err(e) => position_input_spec(args.location@) == Err::<
                    (Seq<char>, usize, usize),
                    Seq<char>,
                >(e@),
            },
    {
        let (file, line, column) = parse_colon_location(args.location.as_str())?;
        if line == 0 {
            return Err("line must be a 1-based value".to_owned());
        }
        if column == 0 {
            return Err("column must be a 1-based value".to_owned());
        }
        Ok(CommandInput { file, line, column })
    }

    /// A file argument, at its first position.
    pub fn from_file_args(args: FileArgs) -> (r: CommandInput)
        ensures
            r.file == args.file,
            r.line == 1,
            r.column == 1,
    {
        CommandInput { file: args.file, line: 1, column: 1 }
    }
}

} // verus!
