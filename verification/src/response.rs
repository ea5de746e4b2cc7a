//! Reading the responses of a language server: positions, ranges, file
//! URIs, locations, hover text and symbols.
use vstd::prelude::*;
use crate::json::{
    Json, Member, array_spec, get_spec, lemma_member_index_bounds, member_index, str_spec, u64_spec,
};
use crate::rename::RenameEditRecord;
use crate::model::{DocumentSymbolNode, LocationRecord, PositionRecord, RangeRecord, WorkspaceSymbolRecord};
use crate::text::{chars_of, extend, join, push_str, string_of};

verus! {

// ---------------------------------------------------------------------------
// Collecting results
// ---------------------------------------------------------------------------

/// The results of `f` on the items in order, or the first failure.
pub open spec fn collect_all<A, B>(items: Seq<A>, f: spec_fn(A) -> Result<B, Seq<char>>) -> Result<
    Seq<B>,
    Seq<char>,
>
    decreases items.len(),
{
    if items.len() == 0 {
        Ok(Seq::empty())
    } else {
        match collect_all(items.drop_last(), f) {
            Err(e) => Err(e),
            Ok(v) => match f(items.last()) {
                Err(e) => Err(e),
                Ok(x) => Ok(v.push(x)),
            },
        }
    }
}

/// A failure on a prefix is the failure of the whole.
pub proof fn lemma_collect_prefix_err<A, B>(
    items: Seq<A>,
    f: spec_fn(A) -> Result<B, Seq<char>>,
    i: int,
    e: Seq<char>,
)
    requires
        0 <= i <= items.len(),
        collect_all(items.take(i), f) == Err::<Seq<B>, Seq<char>>(e),
    ensures
        collect_all(items, f) == Err::<Seq<B>, Seq<char>>(e),
    decreases items.len() - i,
{
    if i < items.len() {
        assert(items.take(i + 1).drop_last() == items.take(i));
        lemma_collect_prefix_err(items, f, i + 1, e);
    } else {
        assert(items.take(i) == items);
    }
}

/// One more success extends the collected prefix.
pub proof fn lemma_collect_step<A, B>(
    items: Seq<A>,
    f: spec_fn(A) -> Result<B, Seq<char>>,
    i: int,
    v: Seq<B>,
)
    requires
        0 <= i < items.len(),
        collect_all(items.take(i), f) == Ok::<Seq<B>, Seq<char>>(v),
    ensures
        collect_all(items.take(i + 1), f) == match f(items[i]) {
            Err(e) => Err(e),
            Ok(x) => Ok::<Seq<B>, Seq<char>>(v.push(x)),
        },
{
    assert(items.take(i + 1).drop_last() == items.take(i));
    assert(items.take(i + 1).last() == items[i]);
}

// ---------------------------------------------------------------------------
// Positions and ranges
// ---------------------------------------------------------------------------

/// A 0-based LSP position read as a 1-based one; a number with no 1-based
/// `usize` after it is out of range.
pub open spec fn position_spec(v: Json) -> Result<PositionRecord, Seq<char>> {
    match u64_spec(get_spec(v, "line"@)) {
        None => Err("position missing line"@),
        Some(l) => if l >= usize::MAX {
            Err("position line out of range"@)
        } else {
            match u64_spec(get_spec(v, "character"@)) {
                None => Err("position missing character"@),
                Some(c) => if c >= usize::MAX {
                    Err("position character out of range"@)
                } else {
                    Ok(PositionRecord { line: (l + 1) as usize, column: (c + 1) as usize })
                },
            }
        },
    }
}

/// An LSP range read as a 1-based one.
pub open spec fn range_spec(v: Json) -> Result<RangeRecord, Seq<char>> {
    match get_spec(v, "start"@) {
        None => Err("range missing start"@),
        Some(s) => match get_spec(v, "end"@) {
            None => Err("range missing end"@),
            Some(e) => match position_spec(s) {
                Err(x) => Err(x),
                Ok(p) => match position_spec(e) {
                    Err(x) => Err(x),
                    Ok(q) => Ok(RangeRecord { start: p, end: q }),
                },
            },
        },
    }
}

/// Reads a 0-based LSP position as a 1-based one.
pub fn parse_position(value: &Json) -> (r: Result<PositionRecord, String>)
    ensures
        match r {
            Ok(p) => position_spec(*value) == Ok::<PositionRecord, Seq<char>>(p),
            Err(e) => position_spec(*value) == Err::<PositionRecord, Seq<char>>(e@),
        },
{
    let line = match value.get("line") {
        Some(v) => match v.as_u64() {
            Some(n) => n,
            None => return Err("position missing line".to_owned()),
        },
        None => return Err("position missing line".to_owned()),
    };
    if line as u128 >= usize::MAX as u128 {
        return Err("position line out of range".to_owned());
    }
    let column = match value.get("character") {
        Some(v) => match v.as_u64() {
            Some(n) => n,
            None => return Err("position missing character".to_owned()),
        },
        None => return Err("position missing character".to_owned()),
    };
    if column as u128 >= usize::MAX as u128 {
        return Err("position character out of range".to_owned());
    }
    Ok(PositionRecord { line: line as usize + 1, column: column as usize + 1 })
}

/// Reads an LSP range as a 1-based one.
pub fn parse_range(value: &Json) -> (r: Result<RangeRecord, String>)
    ensures
        match r {
            Ok(p) => range_spec(*value) == Ok::<RangeRecord, Seq<char>>(p),
            Err(e) => range_spec(*value) == Err::<RangeRecord, Seq<char>>(e@),
        },
{
    let start = match value.get("start") {
        Some(v) => v,
        None => return Err("range missing start".to_owned()),
    };
    let end = match value.get("end") {
        Some(v) => v,
        None => return Err("range missing end".to_owned()),
    };
    let start = parse_position(start)?;
    let end = parse_position(end)?;
    Ok(RangeRecord { start, end })
}

// ---------------------------------------------------------------------------
// File URIs
// ---------------------------------------------------------------------------

/// What the `url` crate makes of a `file:` URI: the path that
/// `Url::parse` followed by `Url::to_file_path` gives, as text (bytes that
/// are not UTF-8 shown as `Path::display` shows them); otherwise
/// `Err(Some(..))` with the parse error's text, or `Err(None)` where the URI
/// parsed but names no path.
pub uninterp spec fn url_file_path(uri: Seq<char>) -> Result<Seq<char>, Option<Seq<char>>>;

/// What the `url` crate makes of a path: the text of `Url::from_file_path`,
/// or `None` where it refuses the path.
pub uninterp spec fn file_url(path: Seq<char>) -> Option<Seq<char>>;

/// `url::Url::parse` and then `Url::to_file_path`, the path taken as text
/// with `Path::to_string_lossy`. Claims only that the outcome is a function
/// of the URI.
#[verifier::external_body]
fn file_path_of_uri(uri: &str) -> (r: Result<String, Option<String>>)
    ensures
        match r {
            Ok(p) => url_file_path(uri@) == Ok::<Seq<char>, Option<Seq<char>>>(p@),
            Err(Some(e)) => url_file_path(uri@) == Err::<Seq<char>, Option<Seq<char>>>(Some(e@)),
            Err(None) => url_file_path(uri@) == Err::<Seq<char>, Option<Seq<char>>>(None),
        },
{
    match url::Url::parse(uri) {
        Ok(url) => match url.to_file_path() {
            Ok(path) => Ok(path.to_string_lossy().into_owned()),
            Err(()) => Err(None),
        },
        Err(error) => Err(Some(error.to_string())),
    }
}

/// `url::Url::from_file_path` and the URL's text. Claims only that the
/// outcome is a function of the path.
#[verifier::external_body]
fn url_of_path(path: &str) -> (r: Option<String>)
    ensures
        match r {
            Some(u) => file_url(path@) == Some(u@),
            None => file_url(path@) is None,
        },
{
    url::Url::from_file_path(path).ok().map(|url| url.to_string())
}

/// The path of a `file:` URI, or why there is none.
pub open spec fn file_uri_spec(uri: Seq<char>) -> Result<Seq<char>, Seq<char>> {
    match url_file_path(uri) {
        Ok(p) => Ok(p),
        Err(Some(e)) => Err("failed to parse URI "@ + uri + ": "@ + e),
        Err(None) => Err("failed to convert URI "@ + uri + " to path"@),
    }
}

/// The path of a `file:` URI.
pub fn file_uri_to_path(uri: &str) -> (r: Result<String, String>)
    ensures
        match r {
            Ok(p) => file_uri_spec(uri@) == Ok::<Seq<char>, Seq<char>>(p@),
            Err(e) => file_uri_spec(uri@) == Err::<Seq<char>, Seq<char>>(e@),
        },
{
    match file_path_of_uri(uri) {
        Ok(path) => Ok(path),
        Err(Some(error)) => {
            let mut t = chars_of("failed to parse URI ");
            push_str(&mut t, uri);
            push_str(&mut t, ": ");
            push_str(&mut t, error.as_str());
            Err(string_of(t.as_slice()))
        },
        Err(None) => {
            let mut t = chars_of("failed to convert URI ");
            push_str(&mut t, uri);
            push_str(&mut t, " to path");
            Err(string_of(t.as_slice()))
        },
    }
}

/// The `file:` URI of a path, or why there is none.
pub open spec fn path_uri_spec(path: Seq<char>) -> Result<Seq<char>, Seq<char>> {
    match file_url(path) {
        Some(u) => Ok(u),
        None => Err("failed to convert "@ + path + " to file URI"@),
    }
}

/// The `file:` URI of a path.
pub fn path_to_file_uri(path: &str) -> (r: Result<String, String>)
    ensures
        match r {
            Ok(u) => path_uri_spec(path@) == Ok::<Seq<char>, Seq<char>>(u@),
            Err(e) => path_uri_spec(path@) == Err::<Seq<char>, Seq<char>>(e@),
        },
{
    match url_of_path(path) {
        Some(url) => Ok(url),
        None => {
            let mut t = chars_of("failed to convert ");
            push_str(&mut t, path);
            push_str(&mut t, " to file URI");
            Err(string_of(t.as_slice()))
        },
    }
}

// ---------------------------------------------------------------------------
// Locations
// ---------------------------------------------------------------------------

/// The URI and the range value of a `Location` or `LocationLink`: a link
/// names its target's selection range, or its target range.
pub open spec fn location_parts(e: Json) -> Result<(Seq<char>, Json), Seq<char>> {
    if get_spec(e, "targetUri"@) is Some {
        match str_spec(get_spec(e, "targetUri"@)) {
            None => Err("missing targetUri"@),
            Some(uri) => match get_spec(e, "targetSelectionRange"@) {
                Some(r) => Ok((uri, r)),
                None => match get_spec(e, "targetRange"@) {
                    Some(r) => Ok((uri, r)),
                    None => Err("missing target range"@),
                },
            },
        }
    } else {
        match str_spec(get_spec(e, "uri"@)) {
            None => Err("missing uri"@),
            Some(uri) => match get_spec(e, "range"@) {
                Some(r) => Ok((uri, r)),
                None => Err("missing range"@),
            },
        }
    }
}

/// A location entry read as a file path and a range.
pub open spec fn location_entry_spec(e: Json) -> Result<(Seq<char>, RangeRecord), Seq<char>> {
    match location_parts(e) {
        Err(x) => Err(x),
        Ok((uri, rv)) => match file_uri_spec(uri) {
            Err(x) => Err(x),
            Ok(file) => match range_spec(rv) {
                Err(x) => Err(x),
                Ok(range) => Ok((file, range)),
            },
        },
    }
}

/// The entries of a location response: the items of an array, or the
/// value alone.
pub open spec fn location_entries(v: Json) -> Seq<Json> {
    match v {
        Json::Array(items) => items@,
        _ => seq![v],
    }
}

/// `location_entry_spec` as a function value.
pub open spec fn location_entry_fn() -> spec_fn(Json) -> Result<(Seq<char>, RangeRecord), Seq<char>> {
    |e: Json| location_entry_spec(e)
}

/// A location response read as file paths and ranges.
pub open spec fn locations_spec(v: Json) -> Result<Seq<(Seq<char>, RangeRecord)>, Seq<char>> {
    if v is Null {
        Ok(Seq::empty())
    } else {
        collect_all(location_entries(v), location_entry_fn())
    }
}

/// The files and ranges of location records.
pub open spec fn locations_view(v: Seq<LocationRecord>) -> Seq<(Seq<char>, RangeRecord)> {
    v.map_values(|l: LocationRecord| location_view(l))
}

/// The file and range of a location record.
pub open spec fn location_view(l: LocationRecord) -> (Seq<char>, RangeRecord) {
    (l.file@, l.range)
}

fn parse_location_entry(entry: &Json) -> (r: Result<LocationRecord, String>)
    ensures
        match r {
            Ok(l) => location_entry_spec(*entry) == Ok::<(Seq<char>, RangeRecord), Seq<char>>(
                location_view(l),
            ) && l.snippet is None,
            Err(e) => location_entry_spec(*entry) == Err::<(Seq<char>, RangeRecord), Seq<char>>(
                e@,
            ),
        },
{
    let (uri, range) = if entry.get("targetUri").is_some() {
        let uri = match entry.get("targetUri") {
            Some(v) => match v.as_str() {
                Some(s) => s,
                None => return Err("missing targetUri".to_owned()),
            },
            None => return Err("missing targetUri".to_owned()),
        };
        let range = match entry.get("targetSelectionRange") {
            Some(r) => r,
            None => match entry.get("targetRange") {
                Some(r) => r,
                None => return Err("missing target range".to_owned()),
            },
        };
        (uri, range)
    } else {
        let uri = match entry.get("uri") {
            Some(v) => match v.as_str() {
                Some(s) => s,
                None => return Err("missing uri".to_owned()),
            },
            None => return Err("missing uri".to_owned()),
        };
        let range = match entry.get("range") {
            Some(r) => r,
            None => return Err("missing range".to_owned()),
        };
        (uri, range)
    };
    let file = file_uri_to_path(uri.as_str())?;
    let range = parse_range(range)?;
    Ok(LocationRecord { file, range, snippet: None })
}

/// Reads a definition, declaration, type definition or references
/// response: `null`, one `Location` or `LocationLink`, or an array of them.
pub fn parse_location_response(value: &Json) -> (r: Result<Vec<LocationRecord>, String>)
    ensures
        match r {
            Ok(v) => locations_spec(*value) == Ok::<Seq<(Seq<char>, RangeRecord)>, Seq<char>>(
                locations_view(v@),
            ) && forall|i: int| 0 <= i < v@.len() ==> (#[trigger] v@[i]).snippet is None,
            Err(e) => locations_spec(*value) == Err::<Seq<(Seq<char>, RangeRecord)>, Seq<char>>(
                e@,
            ),
        },
{
    if value.is_null() {
        let out: Vec<LocationRecord> = Vec::new();
        assert(locations_view(out@) =~= Seq::<
            (Seq<char>, RangeRecord),
        >::empty());
        return Ok(out);
    }
    let ghost f = location_entry_fn();
    match value {
        Json::Array(items) => {
            let mut out: Vec<LocationRecord> = Vec::new();
            let mut i: usize = 0;
            assert(items@.take(0) =~= Seq::<Json>::empty());
            assert(locations_view(out@) =~= Seq::<(Seq<char>, RangeRecord)>::empty());
            while i < items.len()
                invariant
                    i <= items.len(),
                    location_entries(*value) == items@,
                    f == location_entry_fn(),
                    !(*value is Null),
                    collect_all(items@.take(i as int), f) == Ok::<
                        Seq<(Seq<char>, RangeRecord)>,
                        Seq<char>,
                    >(locations_view(out@)),
                    forall|k: int| 0 <= k < out@.len() ==> (#[trigger] out@[k]).snippet is None,
                decreases items.len() - i,
            {
                proof {
                    lemma_collect_step(
                        items@,
                        f,
                        i as int,
                        locations_view(out@),
                    );
                }
                let ghost before = out@;
                match parse_location_entry(&items[i]) {
                    Ok(l) => {
                        out.push(l);
                        assert(locations_view(out@) =~= locations_view(before).push(location_view(l)));
                    },
                    Err(e) => {
                        proof {
                            lemma_collect_prefix_err(items@, f, i + 1, e@);
                        }
                        return Err(e);
                    },
                }
                i += 1;
            }
            assert(items@.take(items.len() as int) == items@);
            Ok(out)
        },
        _ => {
            assert(location_entries(*value) == seq![*value]);
            assert(seq![*value].drop_last() =~= Seq::<Json>::empty());
            assert(seq![*value].last() == *value);
            assert(collect_all(seq![*value].drop_last(), location_entry_fn()) == Ok::<
                Seq<(Seq<char>, RangeRecord)>,
                Seq<char>,
            >(Seq::empty()));
            let l = match parse_location_entry(value) {
                Ok(l) => l,
                Err(e) => return Err(e),
            };
            let mut out: Vec<LocationRecord> = Vec::new();
            out.push(l);
            assert(location_entries(*value) == seq![*value]);
            assert(seq![*value].drop_last() =~= Seq::<Json>::empty());
            assert(locations_view(out@) =~= seq![location_view(l)]);
            Ok(out)
        },
    }
}

// ---------------------------------------------------------------------------
// Hover text
// ---------------------------------------------------------------------------

/// The text of hover contents: a string as it is; the non-empty texts of
/// an array's items joined by blank lines; the text of an object's
/// `value`, or for an object with a `language` and no `value` an empty
/// fenced block in that language, or else the object pretty-printed; and
/// any other value as JSON.
pub open spec fn hover_text(j: Json) -> Seq<char>
    decreases j, 1nat,
{
    match j {
        Json::Str(t) => t@,
        Json::Array(items) => join(hover_texts(items@), "\n\n"@),
        Json::Object(m, pretty) => match member_index(m@, "value"@, 0) {
            Some(i) => if 0 <= i < m@.len() {
                hover_text(m@[i].value)
            } else {
                Seq::empty()
            },
            None => match str_spec(get_spec(j, "language"@)) {
                Some(language) => "```"@ + language + "\n"@ + "\n```"@,
                None => pretty@,
            },
        },
        Json::Null => "null"@,
        Json::Bool(b) => if b {
            "true"@
        } else {
            "false"@
        },
        Json::Number(_, t) => t@,
    }
}

/// The non-empty hover texts of the values, in order.
pub open spec fn hover_texts(s: Seq<Json>) -> Seq<Seq<char>>
    decreases s, 0nat,
{
    if s.len() == 0 {
        Seq::empty()
    } else {
        let rest = hover_texts(s.drop_last());
        let t = hover_text(s.last());
        if t.len() == 0 {
            rest
        } else {
            rest.push(t)
        }
    }
}

/// The text shown for hover contents.
pub fn stringify_hover_contents(value: &Json) -> (r: String)
    ensures
        r@ == hover_text(*value),
    decreases value,
{
    match value {
        Json::Str(text) => text.clone(),
        Json::Array(items) => {
            let mut texts: Vec<Vec<char>> = Vec::new();
            let mut i: usize = 0;
            assert(items@.take(0) =~= Seq::<Json>::empty());
            while i < items.len()
                invariant
                    i <= items.len(),
                    *value == Json::Array(*items),
                    crate::text::views(texts@) == hover_texts(items@.take(i as int)),
                decreases items.len() - i,
            {
                proof {
                    assert(decreases_to!(*value => value->Array_0));
                    assert(decreases_to!(value->Array_0 => value->Array_0@));
                    assert(decreases_to!(value->Array_0@ => value->Array_0@[i as int]));
                    assert(items@.take(i + 1).drop_last() == items@.take(i as int));
                    assert(items@.take(i + 1).last() == items@[i as int]);
                }
                let t = chars_of(stringify_hover_contents(&items[i]).as_str());
                let ghost before = texts@;
                if t.len() > 0 {
                    texts.push(t);
                    assert(crate::text::views(texts@) =~= crate::text::views(before).push(t@));
                }
                i += 1;
            }
            assert(items@.take(items.len() as int) == items@);
            let sep = chars_of("\n\n");
            string_of(crate::text::join_with(&texts, sep.as_slice()).as_slice())
        },
        Json::Object(m, pretty) => {
            proof {
                lemma_member_index_bounds(m@, "value"@, 0);
            }
            match value.get("value") {
                Some(v) => {
                    let ghost i = member_index(m@, "value"@, 0).unwrap();
                    proof {
                        assert(decreases_to!(*value => value->Object_0));
                        assert(decreases_to!(value->Object_0 => value->Object_0@));
                        assert(decreases_to!(value->Object_0@ => value->Object_0@[i]));
                        assert(decreases_to!(value->Object_0@[i] => value->Object_0@[i].value));
                    }
                    stringify_hover_contents(v)
                },
                None => match value.get("language") {
                    Some(Json::Str(language)) => {
                        let mut t = chars_of("```");
                        push_str(&mut t, language.as_str());
                        push_str(&mut t, "\n");
                        push_str(&mut t, "\n```");
                        string_of(t.as_slice())
                    },
                    _ => pretty.clone(),
                },
            }
        },
        Json::Null => "null".to_owned(),
        Json::Bool(b) => if *b {
            "true".to_owned()
        } else {
            "false".to_owned()
        },
        Json::Number(_, text) => text.clone(),
    }
}

/// The text of a hover response, or why it has none.
pub open spec fn hover_spec(v: Json) -> Result<Seq<char>, Seq<char>> {
    if v is Null {
        Ok(Seq::empty())
    } else {
        match get_spec(v, "contents"@) {
            None => Err("hover response missing contents"@),
            Some(c) => Ok(hover_text(c)),
        }
    }
}

/// Reads a hover response: empty for `null`, else the text of its contents.
pub fn parse_hover_contents(value: &Json) -> (r: Result<String, String>)
    ensures
        match r {
            Ok(t) => hover_spec(*value) == Ok::<Seq<char>, Seq<char>>(t@),
            Err(e) => hover_spec(*value) == Err::<Seq<char>, Seq<char>>(e@),
        },
{
    if value.is_null() {
        return Ok(String::new());
    }
    match value.get("contents") {
        Some(contents) => Ok(stringify_hover_contents(contents)),
        None => Err("hover response missing contents".to_owned()),
    }
}

// ---------------------------------------------------------------------------
// Document symbols
// ---------------------------------------------------------------------------

/// A document symbol as plain values.
pub struct NodeView {
    pub name: Seq<char>,
    pub detail: Option<Seq<char>>,
    pub kind: u64,
    pub range: RangeRecord,
    pub selection_range: RangeRecord,
    pub children: Seq<NodeView>,
}

/// The plain values of a document symbol tree.
pub open spec fn node_view(n: DocumentSymbolNode) -> NodeView
    decreases n, 1nat,
{
    NodeView {
        name: n.name@,
        detail: match n.detail {
            Some(d) => Some(d@),
            None => None,
        },
        kind: n.kind,
        range: n.range,
        selection_range: n.selection_range,
        children: nodes_view(n.children@),
    }
}

/// The plain values of document symbol trees.
pub open spec fn nodes_view(s: Seq<DocumentSymbolNode>) -> Seq<NodeView>
    decreases s, 0nat,
{
    if s.len() == 0 {
        Seq::empty()
    } else {
        nodes_view(s.drop_last()).push(node_view(s.last()))
    }
}

/// The `children` array of a `DocumentSymbol` read as symbols; none where
/// there is no such array.
pub open spec fn node_children_spec(j: Json) -> Result<Seq<NodeView>, Seq<char>>
    decreases j, 0nat,
{
    match j {
        Json::Object(m, _) => match member_index(m@, "children"@, 0) {
            Some(i) => if 0 <= i < m@.len() {
                match m@[i].value {
                    Json::Array(items) => nodes_spec(items@),
                    _ => Ok(Seq::empty()),
                }
            } else {
                Ok(Seq::empty())
            },
            None => Ok(Seq::empty()),
        },
        _ => Ok(Seq::empty()),
    }
}

/// A `DocumentSymbol` read as a symbol tree: its children first, then its
/// name, kind, range and selection range.
pub open spec fn node_spec(j: Json) -> Result<NodeView, Seq<char>>
    decreases j, 2nat,
{
    match node_children_spec(j) {
        Err(e) => Err(e),
        Ok(children) => match str_spec(get_spec(j, "name"@)) {
            None => Err("document symbol missing name"@),
            Some(name) => match u64_spec(get_spec(j, "kind"@)) {
                None => Err("document symbol missing kind"@),
                Some(kind) => match get_spec(j, "range"@) {
                    None => Err("document symbol missing range"@),
                    Some(rv) => match range_spec(rv) {
                        Err(e) => Err(e),
                        Ok(range) => match get_spec(j, "selectionRange"@) {
                            None => Err("document symbol missing selectionRange"@),
                            Some(sv) => match range_spec(sv) {
                                Err(e) => Err(e),
                                Ok(selection_range) => Ok(
                                    NodeView {
                                        name,
                                        detail: str_spec(get_spec(j, "detail"@)),
                                        kind,
                                        range,
                                        selection_range,
                                        children,
                                    },
                                ),
                            },
                        },
                    },
                },
            },
        },
    }
}

/// `DocumentSymbol` values read as symbol trees, or the first failure.
pub open spec fn nodes_spec(s: Seq<Json>) -> Result<Seq<NodeView>, Seq<char>>
    decreases s, 1nat,
{
    if s.len() == 0 {
        Ok(Seq::empty())
    } else {
        match nodes_spec(s.drop_last()) {
            Err(e) => Err(e),
            Ok(v) => match node_spec(s.last()) {
                Err(e) => Err(e),
                Ok(x) => Ok(v.push(x)),
            },
        }
    }
}

proof fn lemma_nodes_prefix_err(items: Seq<Json>, i: int, e: Seq<char>)
    requires
        0 <= i <= items.len(),
        nodes_spec(items.take(i)) == Err::<Seq<NodeView>, Seq<char>>(e),
    ensures
        nodes_spec(items) == Err::<Seq<NodeView>, Seq<char>>(e),
    decreases items.len() - i,
{
    if i < items.len() {
        assert(items.take(i + 1).drop_last() == items.take(i));
        lemma_nodes_prefix_err(items, i + 1, e);
    } else {
        assert(items.take(i) == items);
    }
}

/// Reads a `DocumentSymbol` and its children.
pub fn parse_document_symbol_node(value: &Json) -> (r: Result<DocumentSymbolNode, String>)
    ensures
        match r {
            Ok(n) => node_spec(*value) == Ok::<NodeView, Seq<char>>(node_view(n)),
            Err(e) => node_spec(*value) == Err::<NodeView, Seq<char>>(e@),
        },
    decreases value,
{
    let mut children: Vec<DocumentSymbolNode> = Vec::new();
    if let Json::Object(m, _) = value {
        proof {
            lemma_member_index_bounds(m@, "children"@, 0);
        }
        if let Some(Json::Array(items)) = value.get("children") {
            let ghost k = member_index(m@, "children"@, 0).unwrap();
            proof {
                assert(m@[k].value == Json::Array(*items));
            }
            let mut i: usize = 0;
            assert(items@.take(0) =~= Seq::<Json>::empty());
            assert(nodes_view(children@) =~= Seq::<NodeView>::empty());
            while i < items.len()
                invariant
                    i <= items.len(),
                    *value == Json::Object(*m, value->Object_1),
                    0 <= k < m@.len(),
                    member_index(m@, "children"@, 0) == Some(k),
                    m@[k].value == Json::Array(*items),
                    nodes_spec(items@.take(i as int)) == Ok::<Seq<NodeView>, Seq<char>>(
                        nodes_view(children@),
                    ),
                decreases items.len() - i,
            {
                proof {
                    assert(decreases_to!(*value => value->Object_0));
                    assert(decreases_to!(value->Object_0 => value->Object_0@));
                    assert(decreases_to!(value->Object_0@ => value->Object_0@[k]));
                    assert(decreases_to!(value->Object_0@[k] => value->Object_0@[k].value));
                    assert(decreases_to!(value->Object_0@[k].value => value->Object_0@[k].value->Array_0));
                    assert(decreases_to!(value->Object_0@[k].value->Array_0 => value->Object_0@[k].value->Array_0@));
                    assert(decreases_to!(value->Object_0@[k].value->Array_0@ => value->Object_0@[k].value->Array_0@[i as int]));
                    assert(items@.take(i + 1).drop_last() == items@.take(i as int));
                    assert(items@.take(i + 1).last() == items@[i as int]);
                }
                let ghost before = children@;
                match parse_document_symbol_node(&items[i]) {
                    Ok(node) => {
                        children.push(node);
                        assert(children@.drop_last() == before);
                        assert(nodes_view(children@) == nodes_view(before).push(node_view(node)));
                    },
                    Err(e) => {
                        proof {
                            lemma_nodes_prefix_err(items@, i + 1, e@);
                            assert(node_children_spec(*value) == Err::<Seq<NodeView>, Seq<char>>(e@));
                        }
                        return Err(e);
                    },
                }
                i += 1;
            }
            assert(items@.take(items.len() as int) == items@);
        }
    }
    let name = match value.get("name") {
        Some(Json::Str(s)) => s.clone(),
        _ => return Err("document symbol missing name".to_owned()),
    };
    let detail = match value.get("detail") {
        Some(Json::Str(s)) => Some(s.clone()),
        _ => None,
    };
    let kind = match value.get("kind") {
        Some(v) => match v.as_u64() {
            Some(k) => k,
            None => return Err("document symbol missing kind".to_owned()),
        },
        None => return Err("document symbol missing kind".to_owned()),
    };
    let range = match value.get("range") {
        Some(v) => parse_range(v)?,
        None => return Err("document symbol missing range".to_owned()),
    };
    let selection_range = match value.get("selectionRange") {
        Some(v) => parse_range(v)?,
        None => return Err("document symbol missing selectionRange".to_owned()),
    };
    Ok(DocumentSymbolNode { name, detail, kind, range, selection_range, children })
}

/// A `SymbolInformation` read as a symbol without children, whose
/// selection range is its range.
pub open spec fn symbol_information_spec(j: Json) -> Result<NodeView, Seq<char>> {
    match get_spec(j, "location"@) {
        None => Err("symbol information missing location"@),
        Some(location) => match get_spec(location, "range"@) {
            None => Err("symbol info missing range"@),
            Some(rv) => match range_spec(rv) {
                Err(e) => Err(e),
                Ok(range) => match str_spec(get_spec(j, "name"@)) {
                    None => Err("symbol information missing name"@),
                    Some(name) => match u64_spec(get_spec(j, "kind"@)) {
                        None => Err("symbol information missing kind"@),
                        Some(kind) => Ok(
                            NodeView {
                                name,
                                detail: None,
                                kind,
                                range,
                                selection_range: range,
                                children: Seq::empty(),
                            },
                        ),
                    },
                },
            },
        },
    }
}

/// Reads a `SymbolInformation` as a symbol without children.
pub fn symbol_information_to_document_symbol(value: &Json) -> (r: Result<DocumentSymbolNode, String>)
    ensures
        match r {
            Ok(n) => symbol_information_spec(*value) == Ok::<NodeView, Seq<char>>(node_view(n)),
            Err(e) => symbol_information_spec(*value) == Err::<NodeView, Seq<char>>(e@),
        },
{
    let location = match value.get("location") {
        Some(l) => l,
        None => return Err("symbol information missing location".to_owned()),
    };
    let range = match location.get("range") {
        Some(v) => parse_range(v)?,
        None => return Err("symbol info missing range".to_owned()),
    };
    let name = match value.get("name") {
        Some(Json::Str(s)) => s.clone(),
        _ => return Err("symbol information missing name".to_owned()),
    };
    let kind = match value.get("kind") {
        Some(v) => match v.as_u64() {
            Some(k) => k,
            None => return Err("symbol information missing kind".to_owned()),
        },
        None => return Err("symbol information missing kind".to_owned()),
    };
    let children: Vec<DocumentSymbolNode> = Vec::new();
    let node = DocumentSymbolNode { name, detail: None, kind, range, selection_range: range, children };
    assert(nodes_view(node.children@) =~= Seq::<NodeView>::empty());
    Ok(node)
}

/// An item of a document symbol response: a `DocumentSymbol` where it has
/// a selection range, else a `SymbolInformation`.
pub open spec fn document_item_spec(j: Json) -> Result<NodeView, Seq<char>> {
    if get_spec(j, "selectionRange"@) is Some {
        node_spec(j)
    } else {
        symbol_information_spec(j)
    }
}

/// `document_item_spec` as a function value.
pub open spec fn document_item_fn() -> spec_fn(Json) -> Result<NodeView, Seq<char>> {
    |j: Json| document_item_spec(j)
}

/// A document symbol response read as symbol trees.
pub open spec fn document_symbols_spec(v: Json) -> Result<Seq<NodeView>, Seq<char>> {
    if v is Null {
        Ok(Seq::empty())
    } else {
        match array_spec(Some(v)) {
            None => Err("documentSymbol response was not an array"@),
            Some(items) => collect_all(items, document_item_fn()),
        }
    }
}

/// Reads a document symbol response: `null`, or an array of
/// `DocumentSymbol` or `SymbolInformation` values.
pub fn parse_document_symbols(value: &Json) -> (r: Result<Vec<DocumentSymbolNode>, String>)
    ensures
        match r {
            Ok(v) => document_symbols_spec(*value) == Ok::<Seq<NodeView>, Seq<char>>(
                nodes_view(v@),
            ),
            Err(e) => document_symbols_spec(*value) == Err::<Seq<NodeView>, Seq<char>>(e@),
        },
{
    let mut out: Vec<DocumentSymbolNode> = Vec::new();
    if value.is_null() {
        assert(nodes_view(out@) =~= Seq::<NodeView>::empty());
        return Ok(out);
    }
    let items = match value.as_array() {
        Some(items) => items,
        None => return Err("documentSymbol response was not an array".to_owned()),
    };
    let ghost f = document_item_fn();
    let mut i: usize = 0;
    assert(items@.take(0) =~= Seq::<Json>::empty());
    assert(nodes_view(out@) =~= Seq::<NodeView>::empty());
    while i < items.len()
        invariant
            i <= items.len(),
            !(*value is Null),
            array_spec(Some(*value)) == Some(items@),
            f == document_item_fn(),
            collect_all(items@.take(i as int), f) == Ok::<Seq<NodeView>, Seq<char>>(nodes_view(out@)),
        decreases items.len() - i,
    {
        proof {
            lemma_collect_step(items@, f, i as int, nodes_view(out@));
        }
        let item = &items[i];
        let parsed = if item.get("selectionRange").is_some() {
            parse_document_symbol_node(item)
        } else {
            symbol_information_to_document_symbol(item)
        };
        let ghost before = out@;
        match parsed {
            Ok(node) => {
                out.push(node);
                assert(out@.drop_last() == before);
            },
            Err(e) => {
                proof {
                    lemma_collect_prefix_err(items@, f, i + 1, e@);
                }
                return Err(e);
            },
        }
        i += 1;
    }
    assert(items@.take(items.len() as int) == items@);
    Ok(out)
}

// ---------------------------------------------------------------------------
// Workspace symbols
// ---------------------------------------------------------------------------

/// A workspace symbol as plain values: name, kind, container, file and
/// range.
pub type SymbolView = (Seq<char>, u64, Option<Seq<char>>, Seq<char>, RangeRecord);

/// The plain values of a workspace symbol record.
pub open spec fn symbol_view(s: WorkspaceSymbolRecord) -> SymbolView {
    (
        s.name@,
        s.kind,
        match s.container_name {
            Some(c) => Some(c@),
            None => None,
        },
        s.file@,
        s.range,
    )
}

/// An item of a `workspace/symbol` response read as a symbol.
pub open spec fn workspace_item_spec(j: Json) -> Result<SymbolView, Seq<char>> {
    match str_spec(get_spec(j, "name"@)) {
        None => Err("workspace symbol missing name"@),
        Some(name) => match u64_spec(get_spec(j, "kind"@)) {
            None => Err("workspace symbol missing kind"@),
            Some(kind) => match get_spec(j, "location"@) {
                None => Err("workspace symbol missing location"@),
                Some(location) => match str_spec(get_spec(location, "uri"@)) {
                    None => Err("workspace symbol location missing uri"@),
                    Some(uri) => match get_spec(location, "range"@) {
                        None => Err("workspace symbol location missing range"@),
                        Some(rv) => match range_spec(rv) {
                            Err(e) => Err(e),
                            Ok(range) => match file_uri_spec(uri) {
                                Err(e) => Err(e),
                                Ok(file) => Ok(
                                    (name, kind, str_spec(get_spec(j, "containerName"@)), file, range),
                                ),
                            },
                        },
                    },
                },
            },
        },
    }
}

/// `workspace_item_spec` as a function value.
pub open spec fn workspace_item_fn() -> spec_fn(Json) -> Result<SymbolView, Seq<char>> {
    |j: Json| workspace_item_spec(j)
}

/// A `workspace/symbol` response read as symbols.
pub open spec fn workspace_symbols_spec(v: Json) -> Result<Seq<SymbolView>, Seq<char>> {
    if v is Null {
        Ok(Seq::empty())
    } else {
        match array_spec(Some(v)) {
            None => Err("workspace/symbol response was not an array"@),
            Some(items) => collect_all(items, workspace_item_fn()),
        }
    }
}

/// The plain values of workspace symbol records.
pub open spec fn symbols_view(v: Seq<WorkspaceSymbolRecord>) -> Seq<SymbolView> {
    v.map_values(|s: WorkspaceSymbolRecord| symbol_view(s))
}

fn parse_workspace_symbol(item: &Json) -> (r: Result<WorkspaceSymbolRecord, String>)
    ensures
        match r {
            Ok(s) => workspace_item_spec(*item) == Ok::<SymbolView, Seq<char>>(symbol_view(s))
                && s.snippet is None,
            Err(e) => workspace_item_spec(*item) == Err::<SymbolView, Seq<char>>(e@),
        },
{
    let name = match item.get("name") {
        Some(Json::Str(s)) => s.clone(),
        _ => return Err("workspace symbol missing name".to_owned()),
    };
    let kind = match item.get("kind") {
        Some(v) => match v.as_u64() {
            Some(k) => k,
            None => return Err("workspace symbol missing kind".to_owned()),
        },
        None => return Err("workspace symbol missing kind".to_owned()),
    };
    let container_name = match item.get("containerName") {
        Some(Json::Str(s)) => Some(s.clone()),
        _ => None,
    };
    let location = match item.get("location") {
        Some(l) => l,
        None => return Err("workspace symbol missing location".to_owned()),
    };
    let uri = match location.get("uri") {
        Some(Json::Str(s)) => s,
        _ => return Err("workspace symbol location missing uri".to_owned()),
    };
    let range = match location.get("range") {
        Some(v) => parse_range(v)?,
        None => return Err("workspace symbol location missing range".to_owned()),
    };
    let file = file_uri_to_path(uri.as_str())?;
    Ok(WorkspaceSymbolRecord { name, kind, container_name, file, range, snippet: None })
}

/// Reads a `workspace/symbol` response: `null`, or an array of
/// `SymbolInformation` values.
pub fn parse_workspace_symbols(value: &Json) -> (r: Result<Vec<WorkspaceSymbolRecord>, String>)
    ensures
        match r {
            Ok(v) => workspace_symbols_spec(*value) == Ok::<Seq<SymbolView>, Seq<char>>(
                symbols_view(v@),
            ) && forall|i: int| 0 <= i < v@.len() ==> (#[trigger] v@[i]).snippet is None,
            Err(e) => workspace_symbols_spec(*value) == Err::<Seq<SymbolView>, Seq<char>>(e@),
        },
{
    let mut out: Vec<WorkspaceSymbolRecord> = Vec::new();
    if value.is_null() {
        assert(symbols_view(out@) =~= Seq::<SymbolView>::empty());
        return Ok(out);
    }
    let items = match value.as_array() {
        Some(items) => items,
        None => return Err("workspace/symbol response was not an array".to_owned()),
    };
    let ghost f = workspace_item_fn();
    let mut i: usize = 0;
    assert(items@.take(0) =~= Seq::<Json>::empty());
    assert(symbols_view(out@) =~= Seq::<SymbolView>::empty());
    while i < items.len()
        invariant
            i <= items.len(),
            !(*value is Null),
            array_spec(Some(*value)) == Some(items@),
            f == workspace_item_fn(),
            collect_all(items@.take(i as int), f) == Ok::<Seq<SymbolView>, Seq<char>>(
                symbols_view(out@),
            ),
            forall|q: int| 0 <= q < out@.len() ==> (#[trigger] out@[q]).snippet is None,
        decreases items.len() - i,
    {
        proof {
            lemma_collect_step(items@, f, i as int, symbols_view(out@));
        }
        let ghost before = out@;
        match parse_workspace_symbol(&items[i]) {
            Ok(symbol) => {
                out.push(symbol);
                assert(symbols_view(out@) =~= symbols_view(before).push(symbol_view(symbol)));
            },
            Err(e) => {
                proof {
                    lemma_collect_prefix_err(items@, f, i + 1, e@);
                }
                return Err(e);
            },
        }
        i += 1;
    }
    assert(items@.take(items.len() as int) == items@);
    Ok(out)
}

// ---------------------------------------------------------------------------
// Workspace edits
// ---------------------------------------------------------------------------

/// A text edit as plain values: file, range and new text.
pub type EditView = (Seq<char>, RangeRecord, Seq<char>);

/// The plain values of a rename edit.
pub open spec fn edit_view(e: RenameEditRecord) -> EditView {
    (e.file@, e.range, e.new_text@)
}

/// The plain values of rename edits.
pub open spec fn edits_view(v: Seq<RenameEditRecord>) -> Seq<EditView> {
    v.map_values(|e: RenameEditRecord| edit_view(e))
}

/// A `TextEdit` of a file read as an edit.
pub open spec fn text_edit_spec(file: Seq<char>, e: Json) -> Result<EditView, Seq<char>> {
    match get_spec(e, "range"@) {
        None => Err("text edit missing range"@),
        Some(rv) => match range_spec(rv) {
            Err(x) => Err(x),
            Ok(range) => match str_spec(get_spec(e, "newText"@)) {
                None => Err("text edit missing newText"@),
                Some(t) => Ok((file, range, t)),
            },
        },
    }
}

/// The `TextEdit` values of one file read as edits, or the first failure.
pub open spec fn text_edits_spec(file: Seq<char>, edits: Seq<Json>) -> Result<Seq<EditView>, Seq<char>>
    decreases edits.len(),
{
    if edits.len() == 0 {
        Ok(Seq::empty())
    } else {
        match text_edits_spec(file, edits.drop_last()) {
            Err(x) => Err(x),
            Ok(v) => match text_edit_spec(file, edits.last()) {
                Err(x) => Err(x),
                Ok(y) => Ok(v.push(y)),
            },
        }
    }
}

/// The edits of one file: the file named by a `file:` URI and an array of
/// `TextEdit` values.
pub open spec fn file_edits_spec(uri: Seq<char>, edits: Option<Json>) -> Result<Seq<EditView>, Seq<char>> {
    match file_uri_spec(uri) {
        Err(x) => Err(x),
        Ok(file) => match array_spec(edits) {
            None => Err("text edits were not an array"@),
            Some(items) => text_edits_spec(file, items),
        },
    }
}

/// A `TextDocumentEdit` of `documentChanges` read as edits; other
/// operations on files are refused.
pub open spec fn document_change_spec(c: Json) -> Result<Seq<EditView>, Seq<char>> {
    match get_spec(c, "textDocument"@) {
        None => Err("workspace edit holds a file operation"@),
        Some(doc) => match str_spec(get_spec(doc, "uri"@)) {
            None => Err("text document edit missing uri"@),
            Some(uri) => file_edits_spec(uri, get_spec(c, "edits"@)),
        },
    }
}

/// The edits of a list of parts, in order, or the first failure.
pub open spec fn flatten_edits<A>(parts: Seq<A>, f: spec_fn(A) -> Result<Seq<EditView>, Seq<char>>) -> Result<
    Seq<EditView>,
    Seq<char>,
>
    decreases parts.len(),
{
    if parts.len() == 0 {
        Ok(Seq::empty())
    } else {
        match flatten_edits(parts.drop_last(), f) {
            Err(x) => Err(x),
            Ok(v) => match f(parts.last()) {
                Err(x) => Err(x),
                Ok(w) => Ok(v + w),
            },
        }
    }
}

/// `document_change_spec` as a function value.
pub open spec fn document_change_fn() -> spec_fn(Json) -> Result<Seq<EditView>, Seq<char>> {
    |c: Json| document_change_spec(c)
}

/// A member of `changes` (a URI and its edits) read as edits.
pub open spec fn change_member_fn() -> spec_fn(Member) -> Result<Seq<EditView>, Seq<char>> {
    |m: Member| file_edits_spec(m.key@, Some(m.value))
}

/// A rename's `WorkspaceEdit` read as edits: its `documentChanges` where
/// it has them, else its `changes`; none for `null`.
pub open spec fn workspace_edit_spec(v: Json) -> Result<Seq<EditView>, Seq<char>> {
    if v is Null {
        Ok(Seq::empty())
    } else {
        match get_spec(v, "documentChanges"@) {
            Some(dc) => match array_spec(Some(dc)) {
                None => Err("documentChanges was not an array"@),
                Some(items) => flatten_edits(items, document_change_fn()),
            },
            None => match get_spec(v, "changes"@) {
                Some(Json::Object(m, _)) => flatten_edits(m@, change_member_fn()),
                Some(_) => Err("changes was not an object"@),
                None => Ok(Seq::empty()),
            },
        }
    }
}

proof fn lemma_flatten_prefix_err<A>(
    parts: Seq<A>,
    f: spec_fn(A) -> Result<Seq<EditView>, Seq<char>>,
    i: int,
    e: Seq<char>,
)
    requires
        0 <= i <= parts.len(),
        flatten_edits(parts.take(i), f) == Err::<Seq<EditView>, Seq<char>>(e),
    ensures
        flatten_edits(parts, f) == Err::<Seq<EditView>, Seq<char>>(e),
    decreases parts.len() - i,
{
    if i < parts.len() {
        assert(parts.take(i + 1).drop_last() == parts.take(i));
        lemma_flatten_prefix_err(parts, f, i + 1, e);
    } else {
        assert(parts.take(i) == parts);
    }
}

proof fn lemma_text_edits_prefix_err(file: Seq<char>, edits: Seq<Json>, i: int, e: Seq<char>)
    requires
        0 <= i <= edits.len(),
        text_edits_spec(file, edits.take(i)) == Err::<Seq<EditView>, Seq<char>>(e),
    ensures
        text_edits_spec(file, edits) == Err::<Seq<EditView>, Seq<char>>(e),
    decreases edits.len() - i,
{
    if i < edits.len() {
        assert(edits.take(i + 1).drop_last() == edits.take(i));
        lemma_text_edits_prefix_err(file, edits, i + 1, e);
    } else {
        assert(edits.take(i) == edits);
    }
}

/// Reads the `TextEdit` values of one file and appends them to `out`.
fn push_file_edits(out: &mut Vec<RenameEditRecord>, uri: &str, edits: Option<&Json>) -> (r: Result<(), String>)
    ensures
        match r {
            Ok(()) => file_edits_spec(
                uri@,
                match edits {
                    Some(j) => Some(*j),
                    None => None,
                },
            ) == Ok::<Seq<EditView>, Seq<char>>(
                edits_view(final(out)@).skip(old(out)@.len() as int),
            ) && edits_view(final(out)@).take(old(out)@.len() as int) == edits_view(old(out)@)
                && old(out)@.len() <= final(out)@.len(),
            Err(e) => file_edits_spec(
                uri@,
                match edits {
                    Some(j) => Some(*j),
                    None => None,
                },
            ) == Err::<Seq<EditView>, Seq<char>>(e@),
        },
{
    let file = file_uri_to_path(uri)?;
    let items = match edits {
        Some(j) => match j.as_array() {
            Some(items) => items,
            None => return Err("text edits were not an array".to_owned()),
        },
        None => return Err("text edits were not an array".to_owned()),
    };
    let ghost start = out@.len();
    let ghost before = edits_view(out@);
    let mut i: usize = 0;
    assert(items@.take(0) =~= Seq::<Json>::empty());
    assert(edits_view(out@).skip(start as int) =~= Seq::<EditView>::empty());
    while i < items.len()
        invariant
            i <= items.len(),
            start <= out@.len(),
            file_uri_spec(uri@) == Ok::<Seq<char>, Seq<char>>(file@),
            array_spec(
                match edits {
                    Some(j) => Some(*j),
                    None => None,
                },
            ) == Some(items@),
            edits_view(out@).take(start as int) == before,
            text_edits_spec(file@, items@.take(i as int)) == Ok::<Seq<EditView>, Seq<char>>(
                edits_view(out@).skip(start as int),
            ),
        decreases items.len() - i,
    {
        let e = &items[i];
        assert(items@.take(i + 1).drop_last() == items@.take(i as int));
        assert(items@.take(i + 1).last() == items@[i as int]);
        let range = match e.get("range") {
            Some(rv) => match parse_range(rv) {
                Ok(r) => r,
                Err(x) => {
                    proof {
                        lemma_text_edits_prefix_err(file@, items@, i + 1, x@);
                    }
                    return Err(x);
                },
            },
            None => {
                proof {
                    lemma_text_edits_prefix_err(file@, items@, i + 1, "text edit missing range"@);
                }
                return Err("text edit missing range".to_owned());
            },
        };
        let new_text = match e.get("newText") {
            Some(Json::Str(t)) => t.clone(),
            _ => {
                proof {
                    lemma_text_edits_prefix_err(
                        file@,
                        items@,
                        i + 1,
                        "text edit missing newText"@,
                    );
                }
                return Err("text edit missing newText".to_owned());
            },
        };
        let ghost old_out = out@;
        let record = RenameEditRecord {
            file: string_of(chars_of(file.as_str()).as_slice()),
            range,
            new_text,
        };
        out.push(record);
        proof {
            assert(edits_view(out@) =~= edits_view(old_out).push(edit_view(record)));
            assert(edits_view(out@).skip(start as int) =~= edits_view(old_out).skip(start as int).push(
                edit_view(record),
            ));
            assert(edits_view(out@).take(start as int) =~= edits_view(old_out).take(start as int));
        }
        i += 1;
    }
    assert(items@.take(items.len() as int) == items@);
    Ok(())
}

/// Reads the `WorkspaceEdit` that answers a rename request: the edits of
/// its `documentChanges`, else of its `changes`, in order.
pub fn parse_workspace_edit(value: &Json) -> (r: Result<Vec<RenameEditRecord>, String>)
    ensures
        match r {
            Ok(v) => workspace_edit_spec(*value) == Ok::<Seq<EditView>, Seq<char>>(edits_view(v@)),
            Err(e) => workspace_edit_spec(*value) == Err::<Seq<EditView>, Seq<char>>(e@),
        },
{
    let mut out: Vec<RenameEditRecord> = Vec::new();
    assert(edits_view(out@) =~= Seq::<EditView>::empty());
    if value.is_null() {
        return Ok(out);
    }
    match value.get("documentChanges") {
        Some(dc) => {
            let items = match dc.as_array() {
                Some(items) => items,
                None => return Err("documentChanges was not an array".to_owned()),
            };
            let ghost f = document_change_fn();
            let mut i: usize = 0;
            assert(items@.take(0) =~= Seq::<Json>::empty());
            while i < items.len()
                invariant
                    i <= items.len(),
                    f == document_change_fn(),
                    !(*value is Null),
                    get_spec(*value, "documentChanges"@) == Some(*dc),
                    array_spec(Some(*dc)) == Some(items@),
                    flatten_edits(items@.take(i as int), f) == Ok::<Seq<EditView>, Seq<char>>(
                        edits_view(out@),
                    ),
                decreases items.len() - i,
            {
                let c = &items[i];
                assert(items@.take(i + 1).drop_last() == items@.take(i as int));
                assert(items@.take(i + 1).last() == items@[i as int]);
                let doc = match c.get("textDocument") {
                    Some(d) => d,
                    None => {
                        proof {
                            lemma_flatten_prefix_err(
                                items@,
                                f,
                                i + 1,
                                "workspace edit holds a file operation"@,
                            );
                        }
                        return Err("workspace edit holds a file operation".to_owned());
                    },
                };
                let uri = match doc.get("uri") {
                    Some(Json::Str(u)) => u,
                    _ => {
                        proof {
                            lemma_flatten_prefix_err(
                                items@,
                                f,
                                i + 1,
                                "text document edit missing uri"@,
                            );
                        }
                        return Err("text document edit missing uri".to_owned());
                    },
                };
                let ghost before = edits_view(out@);
                assert(before.len() == out@.len());
                match push_file_edits(&mut out, uri.as_str(), c.get("edits")) {
                    Ok(()) => {
                        let ghost now = edits_view(out@);
                        assert(now =~= now.take(before.len() as int) + now.skip(before.len() as int));
                        assert(now.take(before.len() as int) == before);
                    },
                    Err(e) => {
                        proof {
                            lemma_flatten_prefix_err(items@, f, i + 1, e@);
                        }
                        return Err(e);
                    },
                }
                i += 1;
            }
            assert(items@.take(items.len() as int) == items@);
            Ok(out)
        },
        None => match value.get("changes") {
            Some(Json::Object(members, _)) => {
                let ghost f = change_member_fn();
                let mut i: usize = 0;
                assert(members@.take(0) =~= Seq::<Member>::empty());
                while i < members.len()
                    invariant
                        i <= members.len(),
                        f == change_member_fn(),
                        !(*value is Null),
                        get_spec(*value, "documentChanges"@) is None,
                        get_spec(*value, "changes"@) matches Some(Json::Object(mm, _)) && mm == *members,
                        flatten_edits(members@.take(i as int), f) == Ok::<Seq<EditView>, Seq<char>>(
                            edits_view(out@),
                        ),
                    decreases members.len() - i,
                {
                    let m = &members[i];
                    assert(members@.take(i + 1).drop_last() == members@.take(i as int));
                    assert(members@.take(i + 1).last() == members@[i as int]);
                    let ghost before = edits_view(out@);
                    assert(before.len() == out@.len());
                    match push_file_edits(&mut out, m.key.as_str(), Some(&m.value)) {
                        Ok(()) => {
                            let ghost now = edits_view(out@);
                        assert(now =~= now.take(before.len() as int) + now.skip(before.len() as int));
                        assert(now.take(before.len() as int) == before);
                        },
                        Err(e) => {
                            proof {
                                lemma_flatten_prefix_err(members@, f, i + 1, e@);
                            }
                            return Err(e);
                        },
                    }
                    i += 1;
                }
                assert(members@.take(members.len() as int) == members@);
                Ok(out)
            },
            Some(_) => Err("changes was not an object".to_owned()),
            None => Ok(out),
        },
    }
}

} // verus!
