//! Reading a request: its head lines, its route and its body.

use crate::decimal::{
    decimal_text, lemma_decimal_round_trip, lemma_signed_round_trip, lemma_signed_text_bytes,
    lemma_unsigned_round_trip, parse_i32, parse_usize, signed_text, signed_value, unsigned_value,
};
use crate::text::{
    before_first, bytes_of, find, has_prefix, is_space, lemma_bytes_of_ascii,
    lemma_bytes_of_concat, lemma_first_match, occurs_at, starts_with, str_eq, trim_bounds,
    trimmed,
};
use vstd::prelude::*;
use vstd::slice::slice_subrange;
use vstd::string::*;
use vstd::utf8::{decode_utf8, encode_utf8_decode_utf8, encode_utf8_valid_utf8, valid_utf8};

verus! {

/// What a head line is to the handler.
#[derive(Clone, Copy, Debug, PartialEq, Eq, Structural)]
pub enum Line {
    /// The empty line that ends the head.
    End,
    /// A line that is not UTF-8 text, or a `Content-Length` header whose
    /// value is no length: it is passed over.
    Malformed,
    /// A `Content-Length` header with its value.
    Length(usize),
    /// Any other line.
    Plain,
}

/// The action that a request asks for.
#[derive(Clone, Copy, Debug, PartialEq, Eq, Structural)]
pub enum Route {
    Index,
    Stylesheet,
    CreateForm,
    CreateJob,
    Delete,
    Export,
    NotFound,
}

/// A line as it was read, without its line end: a final line feed is taken
/// off, and a carriage return before it.
pub open spec fn line_content(raw: Seq<u8>) -> Seq<u8> {
    if raw.len() > 0 && raw.last() == 10 {
        if raw.len() > 1 && raw[raw.len() - 2] == 13 {
            raw.subrange(0, raw.len() - 2)
        } else {
            raw.subrange(0, raw.len() - 1)
        }
    } else {
        raw
    }
}

/// The start of the header that gives the length of the body.
pub open spec fn length_header() -> Seq<u8> {
    bytes_of("Content-Length: "@)
}

/// What the head line `line`, without its line end, is to the handler.
pub open spec fn classify(line: Seq<u8>) -> Line {
    if line.len() == 0 {
        Line::End
    } else if !valid_utf8(line) {
        Line::Malformed
    } else if has_prefix(line, length_header()) {
        match unsigned_value(line.skip(length_header().len() as int)) {
            Some(n) => if n <= usize::MAX {
                Line::Length(n as usize)
            } else {
                Line::Malformed
            },
            None => Line::Malformed,
        }
    } else {
        Line::Plain
    }
}

/// The route of a request line: the first entry of the table that the line
/// begins with.
pub open spec fn route_of(line: Seq<u8>) -> Route {
    if has_prefix(line, bytes_of("GET / HTTP/1.1"@)) {
        Route::Index
    } else if has_prefix(line, bytes_of("GET /styles.css HTTP/1.1"@)) {
        Route::Stylesheet
    } else if has_prefix(line, bytes_of("GET /create HTTP/1.1"@)) {
        Route::CreateForm
    } else if has_prefix(line, bytes_of("POST /create_job HTTP/1.1"@)) {
        Route::CreateJob
    } else if has_prefix(line, bytes_of("POST /delete/"@)) {
        Route::Delete
    } else if has_prefix(line, bytes_of("POST /export HTTP/1.1"@)) {
        Route::Export
    } else {
        Route::NotFound
    }
}

/// The id in the request line of a delete: what stands between
/// `POST /delete/` and the first ` HTTP/1.1`, without the blanks around it,
/// read as a decimal that fits an `i32`.
pub open spec fn delete_id(line: Seq<u8>) -> Option<i32> {
    if !has_prefix(line, bytes_of("POST /delete/"@)) {
        None
    } else {
        delete_id_after_prefix(line)
    }
}

/// The id behind the prefix `POST /delete/` of `line`.
pub open spec fn delete_id_after_prefix(line: Seq<u8>) -> Option<i32> {
    match signed_value(
        trimmed(
            before_first(line.skip(bytes_of("POST /delete/"@).len() as int), bytes_of(" HTTP/1.1"@)),
        ),
    ) {
        Some(v) => if i32::MIN <= v <= i32::MAX {
            Some(v as i32)
        } else {
            None
        },
        None => None,
    }
}

/// The value of the first entry of `entries` whose key is `key`.
pub open spec fn entry_value(entries: Seq<(Seq<char>, Seq<char>)>, key: Seq<char>) -> Option<
    Seq<char>,
>
    decreases entries.len(),
{
    if entries.len() == 0 {
        None
    } else if entries[0].0 == key {
        Some(entries[0].1)
    } else {
        entry_value(entries.skip(1), key)
    }
}

/// What a list of entries is.
pub open spec fn entries_view(entries: Seq<(String, String)>) -> Seq<(Seq<char>, Seq<char>)> {
    entries.map_values(|e: (String, String)| (e.0@, e.1@))
}

/// What an optional list of entries is.
pub open spec fn parsed_view(parsed: Option<Vec<(String, String)>>) -> Option<
    Seq<(Seq<char>, Seq<char>)>,
> {
    match parsed {
        Some(entries) => Some(entries_view(entries@)),
        None => None,
    }
}

/// The entries of the JSON object that `body` holds, as serde_json reads it
/// into a map from text to text, in the order of their keys; `None` where
/// serde_json rejects the body as such a map.
pub uninterp spec fn json_entries(body: Seq<char>) -> Option<Seq<(Seq<char>, Seq<char>)>>;

/// The entries of the JSON object in a body of bytes; `None` where the body
/// is not UTF-8 text or not such an object.
pub open spec fn body_entries(body: Seq<u8>) -> Option<Seq<(Seq<char>, Seq<char>)>> {
    if valid_utf8(body) {
        json_entries(decode_utf8(body))
    } else {
        None
    }
}

/// Calls `serde_json::from_str` for a `BTreeMap<String, String>` and hands
/// out the map's entries in its own order, the order of the keys, which is
/// the same in every run. Nothing is claimed of which bodies serde_json
/// accepts: the result is only given its name.
#[verifier::external_body]
fn parse_json_entries(body: &str) -> (r: Option<Vec<(String, String)>>)
    ensures
        parsed_view(r) == json_entries(body@),
{
    match serde_json::from_str::<std::collections::BTreeMap<String, String>>(body) {
        Ok(map) => Some(map.into_iter().collect()),
        Err(_) => None,
    }
}

/// Calls `std::str::from_utf8`: the text whose bytes are `bytes`, where
/// they are valid UTF-8, and only there.
#[verifier::external_body]
pub(crate) fn utf8_text(bytes: &[u8]) -> (r: Option<&str>)
    ensures
        r is Some <==> valid_utf8(bytes@),
        r matches Some(s) ==> bytes_of(s@) == bytes@,
{
    std::str::from_utf8(bytes).ok()
}

/// A line as it was read, without its line end.
pub fn strip_line_end(raw: &[u8]) -> (r: &[u8])
    ensures
        r@ == line_content(raw@),
{
    let n = raw.len();
    if n > 0 && raw[n - 1] == 10 {
        if n > 1 && raw[n - 2] == 13 {
            slice_subrange(raw, 0, n - 2)
        } else {
            slice_subrange(raw, 0, n - 1)
        }
    } else {
        assert(raw@.subrange(0, n as int) =~= raw@);
        slice_subrange(raw, 0, n)
    }
}

/// What the head line `line`, without its line end, is to the handler.
pub fn classify_line(line: &[u8]) -> (r: Line)
    ensures
        r == classify(line@),
{
    if line.len() == 0 {
        return Line::End;
    }
    if utf8_text(line).is_none() {
        return Line::Malformed;
    }
    let header = "Content-Length: ".as_bytes();
    if starts_with(line, header) {
        let value = slice_subrange(line, header.len(), line.len());
        assert(value@ =~= line@.skip(length_header().len() as int));
        match parse_usize(value) {
            Some(n) => Line::Length(n),
            None => Line::Malformed,
        }
    } else {
        Line::Plain
    }
}

/// The route of a request line.
pub fn route(line: &[u8]) -> (r: Route)
    ensures
        r == route_of(line@),
{
    if starts_with(line, "GET / HTTP/1.1".as_bytes()) {
        Route::Index
    } else if starts_with(line, "GET /styles.css HTTP/1.1".as_bytes()) {
        Route::Stylesheet
    } else if starts_with(line, "GET /create HTTP/1.1".as_bytes()) {
        Route::CreateForm
    } else if starts_with(line, "POST /create_job HTTP/1.1".as_bytes()) {
        Route::CreateJob
    } else if starts_with(line, "POST /delete/".as_bytes()) {
        Route::Delete
    } else if starts_with(line, "POST /export HTTP/1.1".as_bytes()) {
        Route::Export
    } else {
        Route::NotFound
    }
}

/// The id in the request line of a delete.
pub fn parse_delete_id(line: &[u8]) -> (r: Option<i32>)
    ensures
        r == delete_id(line@),
{
    let prefix = "POST /delete/".as_bytes();
    if !starts_with(line, prefix) {
        return None;
    }
    let rest = slice_subrange(line, prefix.len(), line.len());
    assert(rest@ =~= line@.skip(prefix@.len() as int));
    let path = match find(rest, " HTTP/1.1".as_bytes()) {
        Some(i) => slice_subrange(rest, 0, i),
        None => {
            assert(rest@.subrange(0, rest.len() as int) =~= rest@);
            slice_subrange(rest, 0, rest.len())
        },
    };
    let bounds = trim_bounds(path);
    parse_i32(slice_subrange(path, bounds.0, bounds.1))
}

/// The value of the first entry whose key is `key`.
pub fn find_entry<'a>(entries: &'a Vec<(String, String)>, key: &str) -> (r: Option<&'a String>)
    ensures
        match r {
            Some(v) => entry_value(entries_view(entries@), key@) == Some(v@),
            None => entry_value(entries_view(entries@), key@) is None,
        },
{
    let ghost view = entries_view(entries@);
    let mut i: usize = 0;
    assert(view.skip(0) =~= view);
    while i < entries.len()
        invariant
            i <= entries.len(),
            view == entries_view(entries@),
            entry_value(view, key@) == entry_value(view.skip(i as int), key@),
        decreases entries.len() - i,
    {
        if str_eq(entries[i].0.as_str(), key) {
            return Some(&entries[i].1);
        }
        assert(view.skip(i as int).skip(1) =~= view.skip(i + 1));
        i += 1;
    }
    None
}

/// Reads the JSON object in a body of bytes.
pub fn parse_body(body: &[u8]) -> (r: Option<Vec<(String, String)>>)
    ensures
        parsed_view(r) == body_entries(body@),
{
    match utf8_text(body) {
        Some(s) => {
            proof {
                encode_utf8_decode_utf8(s@);
            }
            parse_json_entries(s)
        },
        None => None,
    }
}

/// The head line that announces a body of `n` bytes, without its line end.
pub open spec fn length_line(n: nat) -> Seq<u8> {
    length_header() + bytes_of(decimal_text(n))
}

/// The request line that asks to delete the record `id`.
pub open spec fn delete_line(id: i32) -> Seq<u8> {
    bytes_of("POST /delete/"@) + bytes_of(signed_text(id as int)) + bytes_of(" HTTP/1.1"@)
}

/// A length written into a `Content-Length` header as a response writes it
/// is read out of that header as the same length.
pub proof fn lemma_length_line_round_trip(n: usize)
    ensures
        classify(length_line(n as nat)) == Line::Length(n),
{
    let header = "Content-Length: "@;
    let digits = decimal_text(n as nat);
    let line = length_line(n as nat);
    lemma_bytes_of_concat(header, digits);
    encode_utf8_valid_utf8(header + digits);
    lemma_decimal_round_trip(n as nat);
    lemma_unsigned_round_trip(n as nat);
    assert(line.subrange(0, length_header().len() as int) =~= length_header());
    assert(line.skip(length_header().len() as int) =~= bytes_of(digits));
}

proof fn lemma_delete_prefix_bytes()
    ensures
        bytes_of("POST /delete/"@).len() == 13,
        bytes_of("POST /delete/"@)[0] == 80,
        bytes_of("POST /delete/"@)[6] == 100,
{
    reveal_strlit("POST /delete/");
    lemma_bytes_of_ascii("POST /delete/"@);
}

proof fn lemma_version_bytes()
    ensures
        bytes_of(" HTTP/1.1"@).len() == 9,
        bytes_of(" HTTP/1.1"@)[0] == 32,
{
    reveal_strlit(" HTTP/1.1");
    lemma_bytes_of_ascii(" HTTP/1.1"@);
}

proof fn lemma_get_routes_bytes()
    ensures
        bytes_of("GET / HTTP/1.1"@).len() > 0,
        bytes_of("GET / HTTP/1.1"@)[0] == 71,
        bytes_of("GET /styles.css HTTP/1.1"@).len() > 0,
        bytes_of("GET /styles.css HTTP/1.1"@)[0] == 71,
        bytes_of("GET /create HTTP/1.1"@).len() > 0,
        bytes_of("GET /create HTTP/1.1"@)[0] == 71,
{
    reveal_strlit("GET / HTTP/1.1");
    reveal_strlit("GET /styles.css HTTP/1.1");
    reveal_strlit("GET /create HTTP/1.1");
    lemma_bytes_of_ascii("GET / HTTP/1.1"@);
    lemma_bytes_of_ascii("GET /styles.css HTTP/1.1"@);
    lemma_bytes_of_ascii("GET /create HTTP/1.1"@);
}

proof fn lemma_create_route_bytes()
    ensures
        bytes_of("POST /create_job HTTP/1.1"@).len() > 6,
        bytes_of("POST /create_job HTTP/1.1"@)[6] == 99,
{
    reveal_strlit("POST /create_job HTTP/1.1");
    lemma_bytes_of_ascii("POST /create_job HTTP/1.1"@);
}

/// A line that begins with `POST /delete/` is routed to a delete.
pub proof fn lemma_delete_route(line: Seq<u8>)
    requires
        has_prefix(line, bytes_of("POST /delete/"@)),
    ensures
        route_of(line) == Route::Delete,
{
    lemma_delete_prefix_bytes();
    lemma_get_routes_bytes();
    lemma_create_route_bytes();
    let prefix = bytes_of("POST /delete/"@);
    assert(line[0] == 80 && line[6] == 100) by {
        assert(line.subrange(0, prefix.len() as int)[0] == prefix[0]);
        assert(line.subrange(0, prefix.len() as int)[6] == prefix[6]);
    }
    let a = bytes_of("GET / HTTP/1.1"@);
    let b = bytes_of("GET /styles.css HTTP/1.1"@);
    let c = bytes_of("GET /create HTTP/1.1"@);
    let d = bytes_of("POST /create_job HTTP/1.1"@);
    if has_prefix(line, a) {
        assert(line.subrange(0, a.len() as int)[0] == a[0]);
    }
    if has_prefix(line, b) {
        assert(line.subrange(0, b.len() as int)[0] == b[0]);
    }
    if has_prefix(line, c) {
        assert(line.subrange(0, c.len() as int)[0] == c[0]);
    }
    if has_prefix(line, d) {
        assert(line.subrange(0, d.len() as int)[6] == d[6]);
    }
}

/// What stands before ` HTTP/1.1` behind a signed numeral is the numeral.
proof fn lemma_numeral_before_version(i: int)
    ensures
        before_first(bytes_of(signed_text(i)) + bytes_of(" HTTP/1.1"@), bytes_of(" HTTP/1.1"@))
            == bytes_of(signed_text(i)),
        trimmed(bytes_of(signed_text(i))) == bytes_of(signed_text(i)),
{
    let digits = bytes_of(signed_text(i));
    let version = bytes_of(" HTTP/1.1"@);
    let rest = digits + version;
    lemma_version_bytes();
    lemma_signed_text_bytes(i);
    assert(occurs_at(rest, version, digits.len() as int)) by {
        assert(rest.subrange(digits.len() as int, (digits.len() + version.len()) as int)
            =~= version);
    }
    assert forall|j: int| 0 <= j < digits.len() implies !occurs_at(rest, version, j) by {
        if occurs_at(rest, version, j) {
            assert(rest.subrange(j, j + version.len())[0] == version[0]);
            assert(rest[j] == digits[j]);
        }
    }
    lemma_first_match(rest, version, digits.len() as int);
    assert(rest.subrange(0, digits.len() as int) =~= digits);
    assert(trimmed(digits) == digits) by {
        assert(!is_space(digits[0]));
        assert(!is_space(digits.last()));
    }
}

/// The request line for the delete of a record, with the id written as the
/// page writes it into the record's delete form, is routed to the delete of
/// that very record.
pub proof fn lemma_delete_line_round_trip(id: i32)
    ensures
        route_of(delete_line(id)) == Route::Delete,
        delete_id(delete_line(id)) == Some(id),
{
    let prefix = bytes_of("POST /delete/"@);
    let digits = bytes_of(signed_text(id as int));
    let version = bytes_of(" HTTP/1.1"@);
    let line = delete_line(id);
    assert(line.subrange(0, prefix.len() as int) =~= prefix);
    lemma_delete_route(line);
    assert(line.skip(prefix.len() as int) =~= digits + version);
    lemma_numeral_before_version(id as int);
    lemma_signed_round_trip(id as int);
}

} // verus!
