//! HTTP responses and their bytes on the wire.

use crate::decimal::{decimal_string, decimal_text, lemma_decimal_round_trip};
use crate::error::ErrorKind;
use crate::export::Format;
use crate::request::{length_header, length_line};
use crate::text::{
    bytes_of, first_match, has_prefix, lacks, lemma_bytes_of_ascii, lemma_first_match,
    lemma_lacks_concat, occurs_at, push_str,
};
use vstd::prelude::*;
use vstd::string::*;

verus! {

/// The status of a response.
#[derive(Clone, Copy, Debug, PartialEq, Eq, Structural)]
pub enum Status {
    Success,
    SeeOther,
    BadRequest,
    NotFound,
    InternalServerError,
}

/// The kind of content a response carries.
#[derive(Clone, Copy, Debug, PartialEq, Eq, Structural)]
pub enum ContentType {
    Html,
    Css,
    Plain,
    /// `text/text`, the label of the answer to an unknown route and to an
    /// unknown export format.
    Text,
    Json,
    Csv,
}

/// One response: a status, a content type, a redirect target if there is
/// one, and a body.
#[derive(Debug)]
pub struct Response {
    pub status: Status,
    pub content_type: ContentType,
    /// Where the client is sent next.
    pub location: Option<String>,
    pub body: Vec<u8>,
}

/// What a response is.
pub struct ResponseView {
    pub status: Status,
    pub content_type: ContentType,
    pub location: Option<Seq<char>>,
    pub body: Seq<u8>,
}

impl View for Response {
    type V = ResponseView;

    open spec fn view(&self) -> ResponseView {
        ResponseView {
            status: self.status,
            content_type: self.content_type,
            location: match self.location {
                Some(l) => Some(l@),
                None => None,
            },
            body: self.body@,
        }
    }
}

/// The status line, without its line end.
pub open spec fn status_line(status: Status) -> Seq<char> {
    match status {
        Status::Success => "HTTP/1.1 200 OK"@,
        Status::SeeOther => "HTTP/1.1 303 See Other"@,
        Status::BadRequest => "HTTP/1.1 400 Bad Request"@,
        Status::NotFound => "HTTP/1.1 404 Not Found"@,
        Status::InternalServerError => "HTTP/1.1 500 Internal Server Error"@,
    }
}

/// The value of the `Content-Type` header.
pub open spec fn content_type_text(content_type: ContentType) -> Seq<char> {
    match content_type {
        ContentType::Html => "text/html"@,
        ContentType::Css => "text/css"@,
        ContentType::Plain => "text/plain"@,
        ContentType::Text => "text/text"@,
        ContentType::Json => "application/json"@,
        ContentType::Csv => "text/csv"@,
    }
}

/// The content type of an export in the given format.
pub open spec fn export_content_type(format: Format) -> ContentType {
    match format {
        Format::Json => ContentType::Json,
        Format::Csv => ContentType::Csv,
    }
}

/// The status that answers a failure of the given kind.
pub open spec fn status_of(kind: ErrorKind) -> Status {
    match kind {
        ErrorKind::Persistence => Status::InternalServerError,
        ErrorKind::Parse => Status::BadRequest,
        ErrorKind::Protocol => Status::BadRequest,
        ErrorKind::NotFound => Status::NotFound,
    }
}

/// The end of a line on the wire: carriage return, line feed.
pub open spec fn crlf() -> Seq<u8> {
    seq![13u8, 10u8]
}

/// A line of the head with its line end.
pub open spec fn head_line(content: Seq<u8>) -> Seq<u8> {
    content + crlf()
}

/// The `Location` header, without its line end.
pub open spec fn location_line(target: Seq<char>) -> Seq<u8> {
    bytes_of("Location: "@) + bytes_of(target)
}

/// The `Content-Type` header, without its line end.
pub open spec fn content_type_line(content_type: ContentType) -> Seq<u8> {
    bytes_of("Content-Type: "@) + bytes_of(content_type_text(content_type))
}

/// The `Location` header with its line end, where the response has one.
pub open spec fn location_header(location: Option<Seq<char>>) -> Seq<u8> {
    match location {
        Some(target) => head_line(location_line(target)),
        None => Seq::empty(),
    }
}

/// The head of a response: the status line, the `Location` header if there
/// is one, `Content-Type`, `Content-Length` with the number of bytes of the
/// body, each ended by CRLF, and an empty line.
pub open spec fn response_head(r: ResponseView) -> Seq<u8> {
    head_line(bytes_of(status_line(r.status))) + location_header(r.location) + head_line(
        content_type_line(r.content_type),
    ) + head_line(length_line(r.body.len())) + crlf()
}

/// A response on the wire: its head, then its body.
pub open spec fn response_bytes(r: ResponseView) -> Seq<u8> {
    response_head(r) + r.body
}

/// A response with the given body and no redirect.
pub open spec fn plain_response(
    status: Status,
    content_type: ContentType,
    body: Seq<u8>,
) -> ResponseView {
    ResponseView { status, content_type, location: None, body }
}

/// The response that reports a failure: the status of its kind, and the
/// message as the body under the given label.
pub open spec fn failure_response(
    kind: ErrorKind,
    content_type: ContentType,
    message: Seq<char>,
) -> ResponseView {
    plain_response(status_of(kind), content_type, bytes_of(message))
}

/// The response that sends the client to `target`.
pub open spec fn redirect_response(target: Seq<char>) -> ResponseView {
    ResponseView {
        status: Status::SeeOther,
        content_type: ContentType::Plain,
        location: Some(target),
        body: Seq::empty(),
    }
}

impl Status {
    /// The status line, without its line end.
    pub fn line(&self) -> (r: &'static str)
        ensures
            r@ == status_line(*self),
    {
        match self {
            Status::Success => "HTTP/1.1 200 OK",
            Status::SeeOther => "HTTP/1.1 303 See Other",
            Status::BadRequest => "HTTP/1.1 400 Bad Request",
            Status::NotFound => "HTTP/1.1 404 Not Found",
            Status::InternalServerError => "HTTP/1.1 500 Internal Server Error",
        }
    }

    /// The status that answers a failure of the given kind.
    pub fn of(kind: ErrorKind) -> (r: Status)
        ensures
            r == status_of(kind),
    {
        match kind {
            ErrorKind::Persistence => Status::InternalServerError,
            ErrorKind::Parse => Status::BadRequest,
            ErrorKind::Protocol => Status::BadRequest,
            ErrorKind::NotFound => Status::NotFound,
        }
    }

    /// The number of the status.
    pub fn code(&self) -> (r: u16)
        ensures
            r == match *self {
                Status::Success => 200u16,
                Status::SeeOther => 303u16,
                Status::BadRequest => 400u16,
                Status::NotFound => 404u16,
                Status::InternalServerError => 500u16,
            },
    {
        match self {
            Status::Success => 200,
            Status::SeeOther => 303,
            Status::BadRequest => 400,
            Status::NotFound => 404,
            Status::InternalServerError => 500,
        }
    }
}

impl ContentType {
    /// The value of the `Content-Type` header.
    pub fn text(&self) -> (r: &'static str)
        ensures
            r@ == content_type_text(*self),
    {
        match self {
            ContentType::Html => "text/html",
            ContentType::Css => "text/css",
            ContentType::Plain => "text/plain",
            ContentType::Text => "text/text",
            ContentType::Json => "application/json",
            ContentType::Csv => "text/csv",
        }
    }

    /// The content type of an export in the given format.
    pub fn of_export(format: Format) -> (r: ContentType)
        ensures
            r == export_content_type(format),
    {
        match format {
            Format::Json => ContentType::Json,
            Format::Csv => ContentType::Csv,
        }
    }
}

impl Response {
    /// A response with the given body and no redirect.
    pub fn new(status: Status, content_type: ContentType, body: Vec<u8>) -> (r: Response)
        ensures
            r@ == plain_response(status, content_type, body@),
    {
        Response { status, content_type, location: None, body }
    }

    /// The response that reports a failure: the status of its kind, and
    /// the message as the body under the given label.
    pub fn failure(kind: ErrorKind, content_type: ContentType, message: &str) -> (r: Response)
        ensures
            r@ == failure_response(kind, content_type, message@),
    {
        let mut body: Vec<u8> = Vec::new();
        push_str(&mut body, message);
        assert(body@ =~= bytes_of(message@));
        Response { status: Status::of(kind), content_type, location: None, body }
    }

    /// The response that sends the client to `target`.
    pub fn redirect(target: &str) -> (r: Response)
        ensures
            r@ == redirect_response(target@),
    {
        Response {
            status: Status::SeeOther,
            content_type: ContentType::Plain,
            location: Some(target.to_owned()),
            body: Vec::new(),
        }
    }

    /// The response on the wire.
    pub fn to_bytes(&self) -> (r: Vec<u8>)
        ensures
            r@ == response_bytes(self@),
    {
        let mut out: Vec<u8> = Vec::new();
        push_str(&mut out, self.status.line());
        push_crlf(&mut out);
        match &self.location {
            Some(target) => {
                push_str(&mut out, "Location: ");
                push_str(&mut out, target.as_str());
                push_crlf(&mut out);
            },
            None => {},
        }
        assert(out@ =~= head_line(bytes_of(status_line(self.status))) + location_header(
            self@.location,
        ));
        let ghost start = out@;
        push_str(&mut out, "Content-Type: ");
        push_str(&mut out, self.content_type.text());
        push_crlf(&mut out);
        push_str(&mut out, "Content-Length: ");
        push_str(&mut out, decimal_string(self.body.len() as u64).as_str());
        push_crlf(&mut out);
        push_crlf(&mut out);
        assert(out@ =~= start + head_line(content_type_line(self.content_type)) + head_line(
            length_line(self.body@.len()),
        ) + crlf());
        out.extend_from_slice(self.body.as_slice());
        out
    }
}

/// Appends the end of a line to `out`.
pub fn push_crlf(out: &mut Vec<u8>)
    ensures
        final(out)@ == old(out)@ + crlf(),
{
    out.push(13);
    out.push(10);
    assert(final(out)@ =~= old(out)@ + crlf());
}

/// The line end of the last header and the empty line behind it.
pub open spec fn blank_line() -> Seq<u8> {
    crlf() + crlf()
}

/// A line of the head: it holds something, and no carriage return.
pub open spec fn is_head_content(line: Seq<u8>) -> bool {
    line.len() > 0 && lacks(line, 13)
}

proof fn lemma_status_line_content(status: Status)
    ensures
        is_head_content(bytes_of(status_line(status))),
{
    match status {
        Status::Success => {
            reveal_strlit("HTTP/1.1 200 OK");
        },
        Status::SeeOther => {
            reveal_strlit("HTTP/1.1 303 See Other");
        },
        Status::BadRequest => {
            reveal_strlit("HTTP/1.1 400 Bad Request");
        },
        Status::NotFound => {
            reveal_strlit("HTTP/1.1 404 Not Found");
        },
        Status::InternalServerError => {
            reveal_strlit("HTTP/1.1 500 Internal Server Error");
        },
    }
    lemma_bytes_of_ascii(status_line(status));
}

proof fn lemma_content_type_content(content_type: ContentType)
    ensures
        is_head_content(content_type_line(content_type)),
{
    reveal_strlit("Content-Type: ");
    lemma_bytes_of_ascii("Content-Type: "@);
    match content_type {
        ContentType::Html => {
            reveal_strlit("text/html");
        },
        ContentType::Css => {
            reveal_strlit("text/css");
        },
        ContentType::Plain => {
            reveal_strlit("text/plain");
        },
        ContentType::Text => {
            reveal_strlit("text/text");
        },
        ContentType::Json => {
            reveal_strlit("application/json");
        },
        ContentType::Csv => {
            reveal_strlit("text/csv");
        },
    }
    lemma_bytes_of_ascii(content_type_text(content_type));
    lemma_lacks_concat(
        bytes_of("Content-Type: "@),
        bytes_of(content_type_text(content_type)),
        13,
    );
}

proof fn lemma_length_line_content(n: nat)
    ensures
        is_head_content(length_line(n)),
{
    reveal_strlit("Content-Length: ");
    lemma_bytes_of_ascii("Content-Length: "@);
    lemma_decimal_round_trip(n);
    lemma_lacks_concat(length_header(), bytes_of(decimal_text(n)), 13);
}

proof fn lemma_location_line_content(target: Seq<char>)
    requires
        lacks(bytes_of(target), 13),
    ensures
        is_head_content(location_line(target)),
{
    reveal_strlit("Location: ");
    lemma_bytes_of_ascii("Location: "@);
    lemma_lacks_concat(bytes_of("Location: "@), bytes_of(target), 13);
}

/// A blank line in a text that begins with a head line stands either at the
/// end of that line, where another line end follows at once, or behind the
/// line.
proof fn lemma_blank_line_behind(line: Seq<u8>, rest: Seq<u8>, k: int)
    requires
        lacks(line, 13),
        occurs_at(head_line(line) + rest, blank_line(), k),
    ensures
        (k == line.len() && has_prefix(rest, crlf())) || (k >= line.len() + 2 && occurs_at(
            rest,
            blank_line(),
            k - line.len() - 2,
        )),
{
    let s = head_line(line) + rest;
    let found = s.subrange(k, k + 4);
    assert(found == blank_line());
    assert(s[k] == found[0] && s[k + 1] == found[1] && s[k + 2] == found[2] && s[k + 3]
        == found[3]);
    if k < line.len() {
        assert(s[k] == line[k]);
    } else if k == line.len() {
        assert(rest.subrange(0, 2) =~= crlf()) by {
            assert(s[k + 2] == rest[0]);
            assert(s[k + 3] == rest[1]);
        }
    } else if k == line.len() + 1 {
        assert(s[k] == 10);
    } else {
        assert(rest.subrange(k - line.len() - 2, k - line.len() - 2 + 4) =~= found);
    }
}

/// A text that begins with a line of the head does not begin with a line
/// end.
proof fn lemma_line_is_no_line_end(line: Seq<u8>, rest: Seq<u8>)
    requires
        is_head_content(line),
    ensures
        !has_prefix(head_line(line) + rest, crlf()),
{
    let s = head_line(line) + rest;
    if has_prefix(s, crlf()) {
        assert(s.subrange(0, 2)[0] == s[0]);
        assert(s[0] == line[0]);
    }
}

/// The head ends at the first empty line: a reader that takes the bytes up
/// to the first CRLF CRLF as the head takes the head that was written, and
/// what follows is the body, whatever the body holds. A redirect target
/// must hold no carriage return.
pub proof fn lemma_head_ends_at_first_blank_line(r: ResponseView)
    requires
        r.location matches Some(target) ==> lacks(bytes_of(target), 13),
    ensures
        first_match(response_bytes(r), blank_line()) == Some(response_head(r).len() - 4),
        response_bytes(r).skip(response_head(r).len() as int) == r.body,
{
    let s = response_bytes(r);
    let status = bytes_of(status_line(r.status));
    let kind = content_type_line(r.content_type);
    let length = length_line(r.body.len());
    let tail = crlf() + r.body;
    let after_kind = head_line(length) + tail;
    let after_location = head_line(kind) + after_kind;
    let after_status = location_header(r.location) + after_location;
    lemma_status_line_content(r.status);
    lemma_content_type_content(r.content_type);
    lemma_length_line_content(r.body.len());
    assert(s =~= head_line(status) + after_status);
    assert(s.skip(response_head(r).len() as int) =~= r.body);
    let end = response_head(r).len() - 4;
    assert(occurs_at(s, blank_line(), end)) by {
        assert(s.subrange(end, end + 4) =~= blank_line());
    }
    assert forall|j: int| 0 <= j < end implies !occurs_at(s, blank_line(), j) by {
        if occurs_at(s, blank_line(), j) {
            lemma_blank_line_behind(status, after_status, j);
            let j1 = j - status.len() - 2;
            match r.location {
                Some(target) => {
                    let location = location_line(target);
                    lemma_location_line_content(target);
                    assert(after_status =~= head_line(location) + after_location);
                    lemma_line_is_no_line_end(location, after_location);
                    lemma_blank_line_behind(location, after_location, j1);
                    let j2 = j1 - location.len() - 2;
                    lemma_line_is_no_line_end(kind, after_kind);
                    lemma_blank_line_behind(kind, after_kind, j2);
                    let j3 = j2 - kind.len() - 2;
                    lemma_line_is_no_line_end(length, tail);
                    lemma_blank_line_behind(length, tail, j3);
                },
                None => {
                    assert(after_status =~= after_location);
                    lemma_line_is_no_line_end(kind, after_kind);
                    lemma_blank_line_behind(kind, after_kind, j1);
                    let j2 = j1 - kind.len() - 2;
                    lemma_line_is_no_line_end(length, tail);
                    lemma_blank_line_behind(length, tail, j2);
                },
            }
        }
    }
    lemma_first_match(s, blank_line(), end);
}

} // verus!
