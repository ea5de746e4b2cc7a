//! Positions, identifiers and framing for talking to a language server.
use vstd::prelude::*;
use crate::json::{Json, Member};
use crate::model::SymbolAtRecord;
use crate::text::{
    alphanumeric, chars_of, decimal, decimal_chars, extend, is_alphanumeric, lines, lines_of,
    parse_usize, parse_usize_spec, push_str, slice_copy, string_of, trim, trimmed, utf16_len,
    utf16_size, views,
};

verus! {

// ---------------------------------------------------------------------------
// Columns
// ---------------------------------------------------------------------------

/// The UTF-16 offset of a 1-based column of characters: the number of UTF-16
/// code units before it, for columns up to one past the end of the line.
pub open spec fn utf16_offset_spec(line: Seq<char>, column: nat) -> Result<nat, Seq<char>> {
    if column == 0 {
        Err("column must be 1-based"@)
    } else if column > line.len() + 1 {
        Err(
            "column "@ + decimal(column) + " is out of range for line of length "@ + decimal(
                line.len(),
            ),
        )
    } else {
        Ok(utf16_size(line.take(column - 1)))
    }
}

/// A text takes at most two UTF-16 units per character.
pub proof fn lemma_utf16_size_bound(s: Seq<char>)
    ensures
        utf16_size(s) <= 2 * s.len(),
    decreases s.len(),
{
    if s.len() > 0 {
        lemma_utf16_size_bound(s.drop_last());
    }
}

/// Converts a 1-based character column to a UTF-16 offset.
pub fn column_to_utf16_offset(line_text: &str, column_number: usize) -> (r: Result<usize, String>)
    ensures
        match r {
            Ok(n) => utf16_offset_spec(line_text@, column_number as nat) == Ok::<nat, Seq<char>>(
                n as nat,
            ),
            Err(e) => utf16_offset_spec(line_text@, column_number as nat) == Err::<
                nat,
                Seq<char>,
            >(e@),
        },
{
    if column_number == 0 {
        return Err("column must be 1-based".to_owned());
    }
    let chars = chars_of(line_text);
    let count = chars.len();
    if column_number - 1 > count {
        let mut t = chars_of("column ");
        extend(&mut t, decimal_chars(column_number).as_slice());
        push_str(&mut t, " is out of range for line of length ");
        extend(&mut t, decimal_chars(count).as_slice());
        return Err(string_of(t.as_slice()));
    }
    let mut offset: usize = 0;
    let mut i: usize = 0;
    while i < column_number - 1
        invariant
            i <= column_number - 1 <= chars.len(),
            offset == utf16_size(chars@.take(i as int)),
            offset <= 2 * i,
            chars@.len() <= isize::MAX,
        decreases column_number - 1 - i,
    {
        assert(chars@.take(i + 1).drop_last() == chars@.take(i as int));
        assert(chars@.take(i + 1).last() == chars@[i as int]);
        offset = offset + crate::text::char_utf16_len(chars[i]);
        i += 1;
    }
    Ok(offset)
}

// ---------------------------------------------------------------------------
// Identifiers
// ---------------------------------------------------------------------------

/// Whether `c` can be part of an identifier: `_` or alphanumeric.
pub open spec fn is_symbol_char_spec(c: char) -> bool {
    c == '_' || alphanumeric(c)
}

pub fn is_symbol_char(value: char) -> (r: bool)
    ensures
        r == is_symbol_char_spec(value),
{
    value == '_' || is_alphanumeric(value)
}

/// Whether `[start, end)` is the maximal run of identifier characters of
/// `s` that contains index `i`.
pub open spec fn word_around(s: Seq<char>, i: int, start: int, end: int) -> bool {
    &&& 0 <= start <= i < end <= s.len()
    &&& forall|k: int| start <= k < end ==> is_symbol_char_spec(#[trigger] s[k])
    &&& (start == 0 || !is_symbol_char_spec(s[start - 1]))
    &&& (end == s.len() || !is_symbol_char_spec(s[end]))
}

/// The index that an identifier is looked for at: the column's character,
/// or the last one for a column past the end; moved one left when the
/// column is just after an identifier.
pub open spec fn anchor_index(s: Seq<char>, column: nat) -> int {
    let i = if column - 1 >= s.len() {
        s.len() - 1
    } else {
        column - 1
    };
    if !is_symbol_char_spec(s[i]) && i > 0 && is_symbol_char_spec(s[i - 1]) {
        i - 1
    } else {
        i
    }
}

/// What an identifier lookup at a column of a line gives: an error for a
/// column that is 0 or more than one past the end; nothing for an empty
/// line or a position on no identifier; else the identifier around it.
pub open spec fn symbol_at_ok(line: Seq<char>, column: nat, r: Option<SymbolAtRecord>) -> bool {
    if line.len() == 0 {
        r is None
    } else {
        let i = anchor_index(line, column);
        if !is_symbol_char_spec(line[i]) {
            r is None
        } else {
            r matches Some(sym) && {
                let start = sym.start_column - 1;
                let end = sym.end_column - 1;
                &&& sym.start_column >= 1
                &&& word_around(line, i, start, end)
                &&& sym.name@ == line.subrange(start, end)
                &&& sym.kind is None
                &&& sym.detail is None
            }
        }
    }
}

pub open spec fn symbol_at_error(line: Seq<char>, column: nat) -> Seq<char> {
    "column "@ + decimal(column) + " is out of range for line of length "@ + decimal(line.len())
}

/// The identifier at a 1-based column of a line of text.
pub fn extract_symbol_at(line: &str, column_number: usize) -> (r: Result<
    Option<SymbolAtRecord>,
    String,
>)
    ensures
        (column_number == 0 || column_number > line@.len() + 1) ==> (r matches Err(e) && e@
            == symbol_at_error(line@, column_number as nat)),
        !(column_number == 0 || column_number > line@.len() + 1) ==> (r matches Ok(s)
            && symbol_at_ok(line@, column_number as nat, s)),
{
    let characters = chars_of(line);
    if column_number == 0 || column_number - 1 > characters.len() {
        let mut t = chars_of("column ");
        extend(&mut t, decimal_chars(column_number).as_slice());
        push_str(&mut t, " is out of range for line of length ");
        extend(&mut t, decimal_chars(characters.len()).as_slice());
        return Err(string_of(t.as_slice()));
    }
    if characters.len() == 0 {
        return Ok(None);
    }
    let mut index = column_number - 1;
    if index >= characters.len() {
        index = characters.len() - 1;
    }
    if !is_symbol_char(characters[index]) && index > 0 && is_symbol_char(characters[index - 1]) {
        index -= 1;
    }
    assert(index == anchor_index(characters@, column_number as nat));
    if !is_symbol_char(characters[index]) {
        return Ok(None);
    }
    let mut start = index;
    while start > 0 && is_symbol_char(characters[start - 1])
        invariant
            start <= index < characters.len(),
            forall|k: int| start <= k <= index ==> is_symbol_char_spec(#[trigger] characters@[k]),
        decreases start,
    {
        start -= 1;
    }
    let mut end = index + 1;
    while end < characters.len() && is_symbol_char(characters[end])
        invariant
            index < end <= characters.len(),
            forall|k: int| start <= k < end ==> is_symbol_char_spec(#[trigger] characters@[k]),
        decreases characters.len() - end,
    {
        end += 1;
    }
    let name = slice_copy(characters.as_slice(), start, end);
    Ok(
        Some(
            SymbolAtRecord {
                name: string_of(name.as_slice()),
                start_column: start + 1,
                end_column: end + 1,
                kind: None,
                detail: None,
            },
        ),
    )
}

/// The text of a 1-based line (line 0 reads as line 1), or an error naming
/// the file when the text has fewer lines.
pub open spec fn line_text_spec(text: Seq<char>, line_number: nat, path: Seq<char>) -> Result<
    Seq<char>,
    Seq<char>,
> {
    let k = if line_number == 0 {
        0
    } else {
        line_number - 1
    };
    if k < lines(text).len() {
        Ok(lines(text)[k])
    } else {
        Err("line "@ + decimal(line_number) + " is out of range for "@ + path)
    }
}

/// A line of a file's text.
pub fn read_line_text(text: &str, line_number: usize, path: &str) -> (r: Result<String, String>)
    ensures
        match r {
            Ok(l) => line_text_spec(text@, line_number as nat, path@) == Ok::<
                Seq<char>,
                Seq<char>,
            >(l@),
            Err(e) => line_text_spec(text@, line_number as nat, path@) == Err::<
                Seq<char>,
                Seq<char>,
            >(e@),
        },
{
    let all = chars_of(text);
    let ls = lines_of(all.as_slice());
    let k = if line_number == 0 {
        0
    } else {
        line_number - 1
    };
    if k < ls.len() {
        assert(views(ls@)[k as int] == ls@[k as int]@);
        Ok(string_of(ls[k].as_slice()))
    } else {
        let mut t = chars_of("line ");
        extend(&mut t, decimal_chars(line_number).as_slice());
        push_str(&mut t, " is out of range for ");
        push_str(&mut t, path);
        Err(string_of(t.as_slice()))
    }
}

// ---------------------------------------------------------------------------
// Message framing
// ---------------------------------------------------------------------------

/// The length that a header line of a server message announces: the
/// number after `Content-Length:` in the trimmed line, if the line is such
/// a header. `Some(Err(..))` when the number does not parse.
pub open spec fn content_length_spec(line: Seq<char>) -> Option<Option<usize>> {
    let t = trim(line);
    let p = "Content-Length:"@;
    if p.is_prefix_of(t) {
        Some(parse_usize_spec(trim(t.skip(p.len() as int))))
    } else {
        None
    }
}

/// Reads a `Content-Length` header line: `None` for another line, `Some(None)`
/// for a length that does not parse, `Some(Some(n))` for a length.
pub fn content_length_header(line: &str) -> (r: Option<Option<usize>>)
    ensures
        r == content_length_spec(line@),
{
    let l = chars_of(line);
    let t = trimmed(l.as_slice());
    let p = chars_of("Content-Length:");
    if !crate::text::starts_with(t.as_slice(), p.as_slice()) {
        return None;
    }
    let rest = slice_copy(t.as_slice(), p.len(), t.len());
    assert(rest@ == t@.skip(p@.len() as int));
    let number = trimmed(rest.as_slice());
    Some(parse_usize(number.as_slice()))
}

/// Whether a header line ends the headers of a server message.
pub fn is_header_end(line: &str) -> (r: bool)
    ensures
        r == (line@ == "\r\n"@),
{
    let l = chars_of(line);
    let e = chars_of("\r\n");
    if l.len() != e.len() {
        return false;
    }
    let same = crate::text::starts_with(l.as_slice(), e.as_slice());
    assert(same ==> l@ =~= e@);
    same
}

/// What to do with a message read while waiting for the response to a
/// request.
#[derive(Debug, PartialEq, Eq)]
pub enum ResponseAction {
    /// A notification or another request's response: read on.
    Skip,
    /// The response, with its result.
    Accept,
    /// The response, with an error.
    Reject,
}

/// Decides on a message while waiting for the response to request `id`:
/// messages without an integer id, or with another id, are skipped; the
/// response is rejected when it carries an error.
pub fn classify_response(message_id: Option<i64>, id: i64, has_error: bool) -> (r: ResponseAction)
    ensures
        r == match message_id {
            Some(m) => if m != id {
                ResponseAction::Skip
            } else if has_error {
                ResponseAction::Reject
            } else {
                ResponseAction::Accept
            },
            None => ResponseAction::Skip,
        },
{
    match message_id {
        Some(m) => if m != id {
            ResponseAction::Skip
        } else if has_error {
            ResponseAction::Reject
        } else {
            ResponseAction::Accept
        },
        None => ResponseAction::Skip,
    }
}

/// What `usize::from_str` reports for text it does not read as a number.
pub uninterp spec fn parse_error_text(s: Seq<char>) -> Seq<char>;

/// The text of the error that `str::parse::<usize>` gives for `s`, which
/// does not read as a number. Claims only that the text is a function of
/// `s`.
#[verifier::external_body]
fn parse_error_message(s: &str) -> (r: String)
    requires
        parse_usize_spec(s@) is None,
    ensures
        r@ == parse_error_text(s@),
{
    match s.parse::<usize>() {
        Err(error) => error.to_string(),
        Ok(_) => String::new(),
    }
}

/// What reading the headers of a server message does with the next line.
#[derive(Debug)]
pub enum HeaderStep {
    /// Read the next header line, with the length known so far.
    Next(Option<usize>),
    /// The headers ended: read a body of this many bytes.
    Body(usize),
    /// The message cannot be read.
    Fail(String),
}

/// The step of reading message headers after a line: the stream ended; the
/// blank line ends the headers and needs a length; a `Content-Length`
/// header gives the length; other headers are skipped.
pub open spec fn header_step_spec(known: Option<usize>, line: Seq<char>, bytes_read: usize) -> Result<
    Result<Option<usize>, usize>,
    Seq<char>,
> {
    if bytes_read == 0 {
        Err("LSP server closed stdout unexpectedly"@)
    } else if line == "\r\n"@ {
        match known {
            Some(n) => Ok(Err(n)),
            None => Err("missing Content-Length header from LSP server"@),
        }
    } else {
        match content_length_spec(line) {
            None => Ok(Ok(known)),
            Some(Some(n)) => Ok(Ok(Some(n))),
            Some(None) => Err(
                parse_error_text(trim(trim(line).skip("Content-Length:"@.len() as int))),
            ),
        }
    }
}

/// Decides what reading message headers does after reading `line`
/// (`bytes_read` bytes long).
pub fn header_step(known: Option<usize>, line: &str, bytes_read: usize) -> (r: HeaderStep)
    ensures
        match (r, header_step_spec(known, line@, bytes_read)) {
            (HeaderStep::Next(a), Ok(Ok(b))) => a == b,
            (HeaderStep::Body(a), Ok(Err(b))) => a == b,
            (HeaderStep::Fail(a), Err(b)) => a@ == b,
            _ => false,
        },
{
    if bytes_read == 0 {
        return HeaderStep::Fail("LSP server closed stdout unexpectedly".to_owned());
    }
    if is_header_end(line) {
        return match known {
            Some(n) => HeaderStep::Body(n),
            None => HeaderStep::Fail("missing Content-Length header from LSP server".to_owned()),
        };
    }
    match content_length_header(line) {
        None => HeaderStep::Next(known),
        Some(Some(n)) => HeaderStep::Next(Some(n)),
        Some(None) => {
            let l = chars_of(line);
            let t = trimmed(l.as_slice());
            let p = chars_of("Content-Length:");
            proof {
                reveal_strlit("Content-Length:");
            }
            let rest = slice_copy(t.as_slice(), p.len(), t.len());
            assert(rest@ == t@.skip(p@.len() as int));
            let number = string_of(trimmed(rest.as_slice()).as_slice());
            HeaderStep::Fail(parse_error_message(number.as_str()))
        },
    }
}

/// The error of a request that the server answered with an error, given
/// the error's JSON text.
pub fn request_failed(method: &str, error: &str) -> (r: String)
    ensures
        r@ == "LSP request "@ + method@ + " failed: "@ + error@,
{
    let mut t = chars_of("LSP request ");
    push_str(&mut t, method);
    push_str(&mut t, " failed: ");
    push_str(&mut t, error);
    string_of(t.as_slice())
}

// ---------------------------------------------------------------------------
// Session parameters
// ---------------------------------------------------------------------------

/// Whether `j` is an object whose members have exactly these keys, in order.
pub open spec fn object_keys(j: Json, keys: Seq<Seq<char>>) -> bool {
    j matches Json::Object(m, _) && m@.len() == keys.len() && forall|i: int|
        0 <= i < keys.len() ==> (#[trigger] m@[i]).key@ == keys[i]
}

/// The value of the `i`th member of an object.
pub open spec fn member_at(j: Json, i: int) -> Json {
    j->Object_0@[i].value
}

/// Whether `j` is the string `s`.
pub open spec fn text_is(j: Json, s: Seq<char>) -> bool {
    j matches Json::Str(t) && t@ == s
}

/// The settings that carry ty's configuration:
/// `{"settings": {"ty": {"configuration": configuration}}}`.
pub open spec fn ty_settings_spec(j: Json, configuration: Json) -> bool {
    &&& object_keys(j, seq!["settings"@])
    &&& object_keys(member_at(j, 0), seq!["ty"@])
    &&& object_keys(member_at(member_at(j, 0), 0), seq!["configuration"@])
    &&& member_at(member_at(member_at(j, 0), 0), 0) == configuration
}

/// The parameters of `initialize`: no process id, the client `lspyx` at
/// `version`, the workspace as root URI and as the one workspace folder
/// named `folder_name`, no capabilities, ty's settings as initialization
/// options, and tracing off.
pub open spec fn initialize_params_spec(
    j: Json,
    workspace_uri: Seq<char>,
    version: Seq<char>,
    folder_name: Seq<char>,
    configuration: Json,
) -> bool {
    &&& object_keys(
        j,
        seq![
            "processId"@,
            "clientInfo"@,
            "rootUri"@,
            "capabilities"@,
            "initializationOptions"@,
            "workspaceFolders"@,
            "trace"@,
        ],
    )
    &&& member_at(j, 0) == Json::Null
    &&& object_keys(member_at(j, 1), seq!["name"@, "version"@])
    &&& text_is(member_at(member_at(j, 1), 0), "lspyx"@)
    &&& text_is(member_at(member_at(j, 1), 1), version)
    &&& text_is(member_at(j, 2), workspace_uri)
    &&& object_keys(member_at(j, 3), Seq::empty())
    &&& ty_settings_spec(member_at(j, 4), configuration)
    &&& member_at(j, 5) matches Json::Array(folders) && folders@.len() == 1 && object_keys(
        folders@[0],
        seq!["uri"@, "name"@],
    ) && text_is(member_at(folders@[0], 0), workspace_uri) && text_is(
        member_at(folders@[0], 1),
        folder_name,
    )
    &&& text_is(member_at(j, 6), "off"@)
}

fn text_value(s: &str) -> (r: Json)
    ensures
        text_is(r, s@),
{
    Json::Str(s.to_owned())
}

fn one_member(key: &str, value: Json) -> (r: Json)
    ensures
        object_keys(r, seq![key@]),
        member_at(r, 0) == value,
{
    let mut m: Vec<Member> = Vec::new();
    m.push(Member { key: key.to_owned(), value });
    Json::Object(m, String::new())
}

fn two_members(k0: &str, v0: Json, k1: &str, v1: Json) -> (r: Json)
    ensures
        object_keys(r, seq![k0@, k1@]),
        member_at(r, 0) == v0,
        member_at(r, 1) == v1,
{
    let mut m: Vec<Member> = Vec::new();
    m.push(Member { key: k0.to_owned(), value: v0 });
    m.push(Member { key: k1.to_owned(), value: v1 });
    Json::Object(m, String::new())
}

/// The settings that carry ty's configuration, as sent at initialization
/// and with `workspace/didChangeConfiguration`. An object built here
/// carries no printed text.
pub fn ty_settings(configuration: Json) -> (r: Json)
    ensures
        ty_settings_spec(r, configuration),
{
    one_member("settings", one_member("ty", one_member("configuration", configuration)))
}

/// The parameters of the `initialize` request. Objects built here carry no
/// printed text.
pub fn initialize_params(workspace_uri: &str, version: &str, folder_name: &str, configuration: Json) -> (r:
    Json)
    ensures
        initialize_params_spec(r, workspace_uri@, version@, folder_name@, configuration),
{
    let mut folders: Vec<Json> = Vec::new();
    folders.push(two_members("uri", text_value(workspace_uri), "name", text_value(folder_name)));
    let mut m: Vec<Member> = Vec::new();
    m.push(Member { key: "processId".to_owned(), value: Json::Null });
    m.push(
        Member {
            key: "clientInfo".to_owned(),
            value: two_members("name", text_value("lspyx"), "version", text_value(version)),
        },
    );
    m.push(Member { key: "rootUri".to_owned(), value: text_value(workspace_uri) });
    m.push(Member { key: "capabilities".to_owned(), value: Json::Object(Vec::new(), String::new()) });
    m.push(Member { key: "initializationOptions".to_owned(), value: ty_settings(configuration) });
    m.push(Member { key: "workspaceFolders".to_owned(), value: Json::Array(folders) });
    m.push(Member { key: "trace".to_owned(), value: text_value("off") });
    Json::Object(m, String::new())
}

/// Checks the answer to `initialize`: a server that answers `null` is
/// refused.
pub fn check_initialize_result(is_null: bool) -> (r: Result<(), String>)
    ensures
        match r {
            Ok(()) => !is_null,
            Err(e) => is_null && e@ == "initialize returned null"@,
        },
{
    if is_null {
        Err("initialize returned null".to_owned())
    } else {
        Ok(())
    }
}

} // verus!
