//! The life of one connection: one request read, one store operation at
//! most, one response written.
//!
//! The handler decides; its caller reads, writes and runs the store. Each
//! step takes what happened last and says what to do next.

use crate::error::ErrorKind;
use crate::export::{export_bytes, export_jobs_to_bytes, Format};
use crate::job::{fields_populated, is_populated, jobs_view, Job, JobView};
use crate::page::{index_page, render_index};
use crate::request::{
    body_entries, classify, classify_line, delete_id, entry_value, find_entry,
    line_content, parse_body, parse_delete_id, parsed_view, route, route_of, strip_line_end,
    utf8_text, Line, Route,
};
use crate::response::{
    export_content_type, failure_response, plain_response, redirect_response, ContentType,
    Response, ResponseView, Status,
};
use crate::text::{bytes_of, push_str, str_eq};
use vstd::prelude::*;
use vstd::slice::slice_to_vec;
use vstd::string::*;
use vstd::utf8::valid_utf8;

verus! {

/// What the handler waits for from the store.
#[derive(Clone, Copy, Debug, PartialEq, Eq, Structural)]
pub enum Pending {
    /// The records, for the page that lists them.
    Page,
    /// The records, for an export.
    Export(Format),
    /// The outcome of adding a record.
    Create,
    /// The outcome of deleting a record.
    Delete,
}

/// Where a connection stands.
#[derive(Clone, Copy, Debug, PartialEq, Eq, Structural)]
pub enum Phase {
    AwaitingRequestLine,
    ReadingHeaders,
    ReadingBody,
    Dispatching(Pending),
    WritingResponse,
    Closed,
}

/// The state of one connection.
#[derive(Debug)]
pub struct Handler {
    pub phase: Phase,
    /// The first head line that was taken in.
    pub request_line: Vec<u8>,
    /// The length of the body that the head announced; 0 if it announced
    /// none.
    pub content_length: usize,
}

/// What the state of a connection is.
pub struct HandlerView {
    pub phase: Phase,
    pub request_line: Seq<u8>,
    pub content_length: usize,
}

impl View for Handler {
    type V = HandlerView;

    open spec fn view(&self) -> HandlerView {
        HandlerView {
            phase: self.phase,
            request_line: self.request_line@,
            content_length: self.content_length,
        }
    }
}

/// The static pages that the handler serves.
#[derive(Debug)]
pub struct Pages {
    /// The page that lists the records; `{content}` marks the place of the
    /// table rows.
    pub index: String,
    pub stylesheet: String,
    pub create_form: String,
}

/// What the static pages are.
pub struct PagesView {
    pub index: Seq<char>,
    pub stylesheet: Seq<char>,
    pub create_form: Seq<char>,
}

impl View for Pages {
    type V = PagesView;

    open spec fn view(&self) -> PagesView {
        PagesView {
            index: self.index@,
            stylesheet: self.stylesheet@,
            create_form: self.create_form@,
        }
    }
}

/// What happened on the connection or in the store.
#[derive(Debug)]
pub enum Event {
    /// A line of the head was read; its line end is still on it.
    Line(Vec<u8>),
    /// The input ended.
    EndOfInput,
    /// The body was read.
    Body(Vec<u8>),
    /// The store listed its records.
    Jobs(Vec<Job>),
    /// The store carried out the operation.
    Stored,
    /// The store failed.
    StoreFailed,
    /// The response was written.
    Written,
}

/// What an event is.
pub enum EventView {
    Line(Seq<u8>),
    EndOfInput,
    Body(Seq<u8>),
    Jobs(Seq<JobView>),
    Stored,
    StoreFailed,
    Written,
}

impl View for Event {
    type V = EventView;

    open spec fn view(&self) -> EventView {
        match self {
            Event::Line(raw) => EventView::Line(raw@),
            Event::EndOfInput => EventView::EndOfInput,
            Event::Body(body) => EventView::Body(body@),
            Event::Jobs(jobs) => EventView::Jobs(jobs_view(jobs@)),
            Event::Stored => EventView::Stored,
            Event::StoreFailed => EventView::StoreFailed,
            Event::Written => EventView::Written,
        }
    }
}

/// What the caller is to do next.
#[derive(Debug)]
pub enum Action {
    /// Read the next line of the head.
    ReadLine,
    /// Read a body of this many bytes.
    ReadBody(usize),
    /// List the records of the store.
    ListJobs,
    /// Add a record with these fields, dated today.
    AddJob { title: String, description: String },
    /// Delete the record with this id.
    RemoveJob(i32),
    /// Write this response.
    Respond(Response),
    /// Close the connection.
    Close,
}

/// What an action is.
pub enum ActionView {
    ReadLine,
    ReadBody(usize),
    ListJobs,
    AddJob { title: Seq<char>, description: Seq<char> },
    RemoveJob(i32),
    Respond(ResponseView),
    Close,
}

impl View for Action {
    type V = ActionView;

    open spec fn view(&self) -> ActionView {
        match self {
            Action::ReadLine => ActionView::ReadLine,
            Action::ReadBody(n) => ActionView::ReadBody(*n),
            Action::ListJobs => ActionView::ListJobs,
            Action::AddJob { title, description } => ActionView::AddJob {
                title: title@,
                description: description@,
            },
            Action::RemoveJob(id) => ActionView::RemoveJob(*id),
            Action::Respond(r) => ActionView::Respond(r@),
            Action::Close => ActionView::Close,
        }
    }
}

/// The state `h` in another phase.
pub open spec fn in_phase(h: HandlerView, phase: Phase) -> HandlerView {
    HandlerView { phase, request_line: h.request_line, content_length: h.content_length }
}

/// The response is decided: it is to be written.
pub open spec fn respond(h: HandlerView, r: ResponseView) -> (HandlerView, ActionView) {
    (in_phase(h, Phase::WritingResponse), ActionView::Respond(r))
}

/// The store is asked, and the handler waits for it.
pub open spec fn ask(h: HandlerView, pending: Pending, action: ActionView) -> (
    HandlerView,
    ActionView,
) {
    (in_phase(h, Phase::Dispatching(pending)), action)
}

/// The connection is over.
pub open spec fn close(h: HandlerView) -> (HandlerView, ActionView) {
    (in_phase(h, Phase::Closed), ActionView::Close)
}

/// What a request to create a record leads to, given the entries of its
/// body: both fields have to be there and hold something.
pub open spec fn create_plan(h: HandlerView, entries: Option<Seq<(Seq<char>, Seq<char>)>>) -> (
    HandlerView,
    ActionView,
) {
    match entries {
        None => respond(
            h,
            failure_response(ErrorKind::Parse, ContentType::Plain, "Invalid request body"@),
        ),
        Some(e) => match (entry_value(e, "title"@), entry_value(e, "description"@)) {
            (Some(title), Some(description)) => if is_populated(title, description) {
                ask(h, Pending::Create, ActionView::AddJob { title, description })
            } else {
                respond(h, failure_response(ErrorKind::Parse, ContentType::Plain, "Empty field"@))
            },
            _ => respond(
                h,
                failure_response(ErrorKind::Parse, ContentType::Plain, "Missing field"@),
            ),
        },
    }
}

/// What a request for an export leads to, given the entries of its body:
/// the format has to be `json` or `csv`, in small letters.
pub open spec fn export_plan(h: HandlerView, entries: Option<Seq<(Seq<char>, Seq<char>)>>) -> (
    HandlerView,
    ActionView,
) {
    match entries {
        None => respond(
            h,
            failure_response(ErrorKind::Parse, ContentType::Plain, "Invalid request body"@),
        ),
        Some(e) => match entry_value(e, "format"@) {
            None => respond(
                h,
                failure_response(ErrorKind::Parse, ContentType::Plain, "Missing field"@),
            ),
            Some(format) => if format == "json"@ {
                ask(h, Pending::Export(Format::Json), ActionView::ListJobs)
            } else if format == "csv"@ {
                ask(h, Pending::Export(Format::Csv), ActionView::ListJobs)
            } else {
                respond(h, failure_response(ErrorKind::Parse, ContentType::Text, "Invalid format"@))
            },
        },
    }
}

/// What the request leads to once its head and body are read.
pub open spec fn dispatch(h: HandlerView, body: Seq<u8>, pages: PagesView) -> (
    HandlerView,
    ActionView,
) {
    match route_of(h.request_line) {
        Route::Index => ask(h, Pending::Page, ActionView::ListJobs),
        Route::Stylesheet => respond(
            h,
            plain_response(Status::Success, ContentType::Css, bytes_of(pages.stylesheet)),
        ),
        Route::CreateForm => respond(
            h,
            plain_response(Status::Success, ContentType::Html, bytes_of(pages.create_form)),
        ),
        Route::CreateJob => create_plan(h, body_entries(body)),
        Route::Delete => match delete_id(h.request_line) {
            Some(id) => ask(h, Pending::Delete, ActionView::RemoveJob(id)),
            None => respond(
                h,
                failure_response(ErrorKind::Parse, ContentType::Plain, "Invalid id"@),
            ),
        },
        Route::Export => export_plan(h, body_entries(body)),
        Route::NotFound => respond(
            h,
            failure_response(ErrorKind::NotFound, ContentType::Text, "404 Not Found"@),
        ),
    }
}

/// What the end of the head leads to: the body is read if one was
/// announced, else the request is dispatched without one.
pub open spec fn head_done(h: HandlerView, pages: PagesView) -> (HandlerView, ActionView) {
    if h.content_length > 0 {
        (in_phase(h, Phase::ReadingBody), ActionView::ReadBody(h.content_length))
    } else {
        dispatch(h, Seq::empty(), pages)
    }
}

/// The state after the head line `line` was taken in: the first such line
/// is the request line.
pub open spec fn with_line(h: HandlerView, line: Seq<u8>, content_length: usize) -> HandlerView {
    HandlerView {
        phase: Phase::ReadingHeaders,
        request_line: if h.phase == Phase::AwaitingRequestLine {
            line
        } else {
            h.request_line
        },
        content_length,
    }
}

/// What a line of the head leads to.
pub open spec fn on_line(h: HandlerView, raw: Seq<u8>, pages: PagesView) -> (
    HandlerView,
    ActionView,
) {
    match classify(line_content(raw)) {
        Line::End => head_done(h, pages),
        Line::Malformed => (h, ActionView::ReadLine),
        Line::Length(n) => (with_line(h, line_content(raw), n), ActionView::ReadLine),
        Line::Plain => (with_line(h, line_content(raw), h.content_length), ActionView::ReadLine),
    }
}

/// What the body leads to: it has to have the announced length and be UTF-8
/// text.
pub open spec fn on_body(h: HandlerView, body: Seq<u8>, pages: PagesView) -> (
    HandlerView,
    ActionView,
) {
    if body.len() != h.content_length {
        respond(
            h,
            failure_response(ErrorKind::Protocol, ContentType::Plain, "Incomplete request body"@),
        )
    } else if !valid_utf8(body) {
        respond(h, failure_response(ErrorKind::Parse, ContentType::Plain, "Invalid request body"@))
    } else {
        dispatch(h, body, pages)
    }
}

/// What the store's answer leads to.
pub open spec fn on_store(h: HandlerView, pending: Pending, e: EventView, pages: PagesView) -> (
    HandlerView,
    ActionView,
) {
    match (pending, e) {
        (_, EventView::StoreFailed) => respond(
            h,
            failure_response(ErrorKind::Persistence, ContentType::Plain, "Store failure"@),
        ),
        (Pending::Page, EventView::Jobs(jobs)) => respond(
            h,
            plain_response(Status::Success, ContentType::Html, index_page(pages.index, jobs)),
        ),
        (Pending::Export(format), EventView::Jobs(jobs)) => match export_bytes(jobs, format) {
            Some(bytes) => respond(
                h,
                plain_response(Status::Success, export_content_type(format), bytes),
            ),
            None => respond(
                h,
                failure_response(ErrorKind::Persistence, ContentType::Plain, "Export failure"@),
            ),
        },
        (Pending::Create, EventView::Stored) => respond(
            h,
            plain_response(
                Status::Success,
                ContentType::Plain,
                bytes_of("Job created successfully"@),
            ),
        ),
        (Pending::Delete, EventView::Stored) => respond(h, redirect_response("/"@)),
        _ => close(h),
    }
}

/// The transition of the connection: the next state and what to do, for
/// the state `h` and the event `e`. An event that the phase does not wait
/// for closes the connection.
pub open spec fn step(h: HandlerView, e: EventView, pages: PagesView) -> (HandlerView, ActionView) {
    match h.phase {
        Phase::AwaitingRequestLine | Phase::ReadingHeaders => match e {
            EventView::Line(raw) => on_line(h, raw, pages),
            EventView::EndOfInput => head_done(h, pages),
            _ => close(h),
        },
        Phase::ReadingBody => match e {
            EventView::Body(body) => on_body(h, body, pages),
            _ => close(h),
        },
        Phase::Dispatching(pending) => on_store(h, pending, e, pages),
        Phase::WritingResponse => close(h),
        Phase::Closed => close(h),
    }
}

impl Handler {
    /// The handler of a connection that was just accepted.
    pub fn new() -> (r: Handler)
        ensures
            r@.phase == Phase::AwaitingRequestLine,
            r@.request_line.len() == 0,
            r@.content_length == 0,
    {
        Handler { phase: Phase::AwaitingRequestLine, request_line: Vec::new(), content_length: 0 }
    }

    fn respond(&mut self, response: Response) -> (action: Action)
        ensures
            final(self)@ == respond(old(self)@, response@).0,
            action@ == respond(old(self)@, response@).1,
    {
        self.phase = Phase::WritingResponse;
        Action::Respond(response)
    }

    fn fail(&mut self, kind: ErrorKind, content_type: ContentType, message: &str) -> (action:
        Action)
        ensures
            final(self)@ == respond(
                old(self)@,
                failure_response(kind, content_type, message@),
            ).0,
            action@ == respond(old(self)@, failure_response(kind, content_type, message@)).1,
    {
        self.respond(Response::failure(kind, content_type, message))
    }

    fn close(&mut self) -> (action: Action)
        ensures
            final(self)@ == close(old(self)@).0,
            action@ == close(old(self)@).1,
    {
        self.phase = Phase::Closed;
        Action::Close
    }

    /// Decides on a request to create a record, given what its body was
    /// read as.
    pub fn plan_create(&mut self, parsed: Option<Vec<(String, String)>>) -> (action: Action)
        ensures
            final(self)@ == create_plan(old(self)@, parsed_view(parsed)).0,
            action@ == create_plan(old(self)@, parsed_view(parsed)).1,
    {
        match parsed {
            None => self.fail(ErrorKind::Parse, ContentType::Plain, "Invalid request body"),
            Some(entries) => {
                match (find_entry(&entries, "title"), find_entry(&entries, "description")) {
                    (Some(title), Some(description)) => {
                        if fields_populated(title.as_str(), description.as_str()) {
                            self.phase = Phase::Dispatching(Pending::Create);
                            Action::AddJob {
                                title: title.clone(),
                                description: description.clone(),
                            }
                        } else {
                            self.fail(ErrorKind::Parse, ContentType::Plain, "Empty field")
                        }
                    },
                    _ => self.fail(ErrorKind::Parse, ContentType::Plain, "Missing field"),
                }
            },
        }
    }

    /// Decides on a request for an export, given what its body was read as.
    pub fn plan_export(&mut self, parsed: Option<Vec<(String, String)>>) -> (action: Action)
        ensures
            final(self)@ == export_plan(old(self)@, parsed_view(parsed)).0,
            action@ == export_plan(old(self)@, parsed_view(parsed)).1,
    {
        match parsed {
            None => self.fail(ErrorKind::Parse, ContentType::Plain, "Invalid request body"),
            Some(entries) => {
                match find_entry(&entries, "format") {
                    None => self.fail(ErrorKind::Parse, ContentType::Plain, "Missing field"),
                    Some(format) => {
                        if str_eq(format.as_str(), "json") {
                            self.phase = Phase::Dispatching(Pending::Export(Format::Json));
                            Action::ListJobs
                        } else if str_eq(format.as_str(), "csv") {
                            self.phase = Phase::Dispatching(Pending::Export(Format::Csv));
                            Action::ListJobs
                        } else {
                            self.fail(ErrorKind::Parse, ContentType::Text, "Invalid format")
                        }
                    },
                }
            },
        }
    }

    /// Decides on the request once its head and body are read.
    pub fn dispatch(&mut self, body: &[u8], pages: &Pages) -> (action: Action)
        ensures
            final(self)@ == dispatch(old(self)@, body@, pages@).0,
            action@ == dispatch(old(self)@, body@, pages@).1,
    {
        match route(self.request_line.as_slice()) {
            Route::Index => {
                self.phase = Phase::Dispatching(Pending::Page);
                Action::ListJobs
            },
            Route::Stylesheet => {
                let mut body: Vec<u8> = Vec::new();
                push_str(&mut body, pages.stylesheet.as_str());
                assert(body@ =~= bytes_of(pages@.stylesheet));
                self.respond(Response::new(Status::Success, ContentType::Css, body))
            },
            Route::CreateForm => {
                let mut body: Vec<u8> = Vec::new();
                push_str(&mut body, pages.create_form.as_str());
                assert(body@ =~= bytes_of(pages@.create_form));
                self.respond(Response::new(Status::Success, ContentType::Html, body))
            },
            Route::CreateJob => {
                let parsed = parse_body(body);
                self.plan_create(parsed)
            },
            Route::Delete => {
                match parse_delete_id(self.request_line.as_slice()) {
                    Some(id) => {
                        self.phase = Phase::Dispatching(Pending::Delete);
                        Action::RemoveJob(id)
                    },
                    None => self.fail(ErrorKind::Parse, ContentType::Plain, "Invalid id"),
                }
            },
            Route::Export => {
                let parsed = parse_body(body);
                self.plan_export(parsed)
            },
            Route::NotFound => self.fail(ErrorKind::NotFound, ContentType::Text, "404 Not Found"),
        }
    }

    fn head_done(&mut self, pages: &Pages) -> (action: Action)
        ensures
            final(self)@ == head_done(old(self)@, pages@).0,
            action@ == head_done(old(self)@, pages@).1,
    {
        if self.content_length > 0 {
            self.phase = Phase::ReadingBody;
            Action::ReadBody(self.content_length)
        } else {
            let body: Vec<u8> = Vec::new();
            assert(body@ =~= Seq::<u8>::empty());
            self.dispatch(body.as_slice(), pages)
        }
    }

    fn take_line(&mut self, line: &[u8], content_length: usize)
        ensures
            final(self)@ == with_line(old(self)@, line@, content_length),
    {
        if self.phase == Phase::AwaitingRequestLine {
            self.request_line = slice_to_vec(line);
        }
        self.phase = Phase::ReadingHeaders;
        self.content_length = content_length;
    }

    fn on_line(&mut self, raw: &[u8], pages: &Pages) -> (action: Action)
        ensures
            final(self)@ == on_line(old(self)@, raw@, pages@).0,
            action@ == on_line(old(self)@, raw@, pages@).1,
    {
        let line = strip_line_end(raw);
        match classify_line(line) {
            Line::End => self.head_done(pages),
            Line::Malformed => Action::ReadLine,
            Line::Length(n) => {
                self.take_line(line, n);
                Action::ReadLine
            },
            Line::Plain => {
                let n = self.content_length;
                self.take_line(line, n);
                Action::ReadLine
            },
        }
    }

    fn on_body(&mut self, body: &[u8], pages: &Pages) -> (action: Action)
        ensures
            final(self)@ == on_body(old(self)@, body@, pages@).0,
            action@ == on_body(old(self)@, body@, pages@).1,
    {
        if body.len() != self.content_length {
            self.fail(ErrorKind::Protocol, ContentType::Plain, "Incomplete request body")
        } else if utf8_text(body).is_none() {
            self.fail(ErrorKind::Parse, ContentType::Plain, "Invalid request body")
        } else {
            self.dispatch(body, pages)
        }
    }

    fn on_store(&mut self, pending: Pending, event: Event, pages: &Pages) -> (action: Action)
        ensures
            final(self)@ == on_store(old(self)@, pending, event@, pages@).0,
            action@ == on_store(old(self)@, pending, event@, pages@).1,
    {
        match event {
            Event::StoreFailed => self.fail(
                ErrorKind::Persistence,
                ContentType::Plain,
                "Store failure",
            ),
            Event::Jobs(jobs) => {
                match pending {
                    Pending::Page => {
                        let body = render_index(pages.index.as_str(), &jobs);
                        self.respond(Response::new(Status::Success, ContentType::Html, body))
                    },
                    Pending::Export(format) => {
                        match export_jobs_to_bytes(&jobs, format) {
                            Some(bytes) => self.respond(
                                Response::new(
                                    Status::Success,
                                    ContentType::of_export(format),
                                    bytes,
                                ),
                            ),
                            None => self.fail(
                                ErrorKind::Persistence,
                                ContentType::Plain,
                                "Export failure",
                            ),
                        }
                    },
                    _ => self.close(),
                }
            },
            Event::Stored => {
                match pending {
                    Pending::Create => {
                        let mut body: Vec<u8> = Vec::new();
                        push_str(&mut body, "Job created successfully");
                        assert(body@ =~= bytes_of("Job created successfully"@));
                        self.respond(Response::new(Status::Success, ContentType::Plain, body))
                    },
                    Pending::Delete => self.respond(Response::redirect("/")),
                    _ => self.close(),
                }
            },
            _ => self.close(),
        }
    }

    /// Takes the connection one step on: `event` is what happened last,
    /// the result is what to do next.
    pub fn step(&mut self, event: Event, pages: &Pages) -> (action: Action)
        ensures
            final(self)@ == step(old(self)@, event@, pages@).0,
            action@ == step(old(self)@, event@, pages@).1,
    {
        match self.phase {
            Phase::AwaitingRequestLine | Phase::ReadingHeaders => {
                match event {
                    Event::Line(raw) => self.on_line(raw.as_slice(), pages),
                    Event::EndOfInput => self.head_done(pages),
                    _ => self.close(),
                }
            },
            Phase::ReadingBody => {
                match event {
                    Event::Body(body) => self.on_body(body.as_slice(), pages),
                    _ => self.close(),
                }
            },
            Phase::Dispatching(pending) => self.on_store(pending, event, pages),
            Phase::WritingResponse => self.close(),
            Phase::Closed => self.close(),
        }
    }
}

/// Whether the action asks the store for something.
pub open spec fn is_store_request(action: ActionView) -> bool {
    action is ListJobs || action is AddJob || action is RemoveJob
}

/// Whether a step's outcome is one of the three that its phases allow: a
/// response to write, a question to the store, or anything else with the
/// phase it belongs to.
pub open spec fn is_settled(outcome: (HandlerView, ActionView)) -> bool {
    &&& outcome.1 is Respond ==> outcome.0.phase == Phase::WritingResponse
    &&& is_store_request(outcome.1) ==> outcome.0.phase is Dispatching
}

proof fn lemma_plans_are_settled(h: HandlerView, entries: Option<Seq<(Seq<char>, Seq<char>)>>)
    ensures
        is_settled(create_plan(h, entries)),
        is_settled(export_plan(h, entries)),
{
    match entries {
        None => {},
        Some(e) => {
            match (entry_value(e, "title"@), entry_value(e, "description"@)) {
                (Some(title), Some(description)) => {},
                _ => {},
            }
            match entry_value(e, "format"@) {
                None => {},
                Some(format) => {},
            }
        },
    }
}

proof fn lemma_dispatch_is_settled(h: HandlerView, body: Seq<u8>, pages: PagesView)
    ensures
        is_settled(dispatch(h, body, pages)),
{
    lemma_plans_are_settled(h, body_entries(body));
    match route_of(h.request_line) {
        Route::Index => {},
        Route::Stylesheet => {},
        Route::CreateForm => {},
        Route::CreateJob => {},
        Route::Delete => {
            match delete_id(h.request_line) {
                Some(id) => {},
                None => {},
            }
        },
        Route::Export => {},
        Route::NotFound => {},
    }
}

proof fn lemma_store_answer_is_final(
    h: HandlerView,
    pending: Pending,
    e: EventView,
    pages: PagesView,
)
    ensures
        is_settled(on_store(h, pending, e, pages)),
        on_store(h, pending, e, pages).1 is Respond || on_store(h, pending, e, pages).1 is Close,
{
    match e {
        EventView::StoreFailed => {},
        EventView::Jobs(jobs) => {
            match pending {
                Pending::Page => {},
                Pending::Export(format) => {
                    match export_bytes(jobs, format) {
                        Some(bytes) => {},
                        None => {},
                    }
                },
                Pending::Create => {},
                Pending::Delete => {},
            }
        },
        EventView::Stored => {
            match pending {
                Pending::Page => {},
                Pending::Export(format) => {},
                Pending::Create => {},
                Pending::Delete => {},
            }
        },
        EventView::Line(raw) => {},
        EventView::EndOfInput => {},
        EventView::Body(body) => {},
        EventView::Written => {},
    }
}

proof fn lemma_step_is_settled(h: HandlerView, e: EventView, pages: PagesView)
    ensures
        is_settled(step(h, e, pages)),
{
    match h.phase {
        Phase::AwaitingRequestLine | Phase::ReadingHeaders => {
            lemma_dispatch_is_settled(h, Seq::empty(), pages);
            match e {
                EventView::Line(raw) => {
                    match classify(line_content(raw)) {
                        Line::End => {},
                        Line::Malformed => {},
                        Line::Length(n) => {},
                        Line::Plain => {},
                    }
                },
                EventView::EndOfInput => {},
                _ => {},
            }
        },
        Phase::ReadingBody => {
            match e {
                EventView::Body(body) => {
                    lemma_dispatch_is_settled(h, body, pages);
                },
                _ => {},
            }
        },
        Phase::Dispatching(pending) => {
            lemma_store_answer_is_final(h, pending, e, pages);
        },
        Phase::WritingResponse => {},
        Phase::Closed => {},
    }
}

/// One response per connection: once a step has said to write a response,
/// every later step, whatever happens, says to close, and the connection
/// stays closed.
pub proof fn lemma_one_response(h: HandlerView, e: EventView, later: EventView, pages: PagesView)
    requires
        step(h, e, pages).1 is Respond,
    ensures
        step(h, e, pages).0.phase == Phase::WritingResponse,
        step(step(h, e, pages).0, later, pages).1 == ActionView::Close,
        step(step(h, e, pages).0, later, pages).0.phase == Phase::Closed,
{
    lemma_step_is_settled(h, e, pages);
    let next = step(h, e, pages).0;
    assert(next.phase == Phase::WritingResponse);
    assert(step(next, later, pages) == close(next));
}

/// One store operation per connection at most: once a step has asked the
/// store, the next step answers the client or closes, and asks the store
/// for nothing more.
pub proof fn lemma_one_store_request(
    h: HandlerView,
    e: EventView,
    later: EventView,
    pages: PagesView,
)
    requires
        is_store_request(step(h, e, pages).1),
    ensures
        step(h, e, pages).0.phase is Dispatching,
        !is_store_request(step(step(h, e, pages).0, later, pages).1),
        step(step(h, e, pages).0, later, pages).1 is Respond || step(
            step(h, e, pages).0,
            later,
            pages,
        ).1 is Close,
{
    lemma_step_is_settled(h, e, pages);
    let next = step(h, e, pages).0;
    match next.phase {
        Phase::Dispatching(pending) => {
            lemma_store_answer_is_final(next, pending, later, pages);
            assert(step(next, later, pages) == on_store(next, pending, later, pages));
        },
        _ => {},
    }
}

/// The store's answer is passed on: when the store has listed its records
/// for the page, the response is the page of exactly those records; when it
/// has failed, the response has status 500.
pub proof fn lemma_store_answer_is_passed_on(
    h: HandlerView,
    jobs: Seq<JobView>,
    pages: PagesView,
)
    requires
        h.phase == Phase::Dispatching(Pending::Page),
    ensures
        step(h, EventView::Jobs(jobs), pages).1 == ActionView::Respond(
            plain_response(Status::Success, ContentType::Html, index_page(pages.index, jobs)),
        ),
        step(h, EventView::StoreFailed, pages).1->Respond_0.status
            == Status::InternalServerError,
{
}

/// A closed connection stays closed and asks for nothing more.
pub proof fn lemma_closed_is_final(h: HandlerView, e: EventView, pages: PagesView)
    requires
        h.phase == Phase::Closed,
    ensures
        step(h, e, pages) == (h, ActionView::Close),
{
}

/// The store is written to only on the routes that say so: a record is
/// added only for a request to create one, and deleted only for a request to
/// delete it, with the id of its request line.
pub proof fn lemma_writes_follow_routes(h: HandlerView, e: EventView, pages: PagesView)
    ensures
        step(h, e, pages).1 is AddJob ==> route_of(h.request_line) == Route::CreateJob,
        step(h, e, pages).1 matches ActionView::RemoveJob(id) ==> route_of(h.request_line)
            == Route::Delete && delete_id(h.request_line) == Some(id),
{
}

/// A request for an export leaves the store as it is: whatever its body
/// holds, no record is added or deleted for it.
pub proof fn lemma_export_writes_nothing(h: HandlerView, e: EventView, pages: PagesView)
    requires
        route_of(h.request_line) == Route::Export,
    ensures
        !(step(h, e, pages).1 is AddJob),
        !(step(h, e, pages).1 is RemoveJob),
{
    lemma_writes_follow_routes(h, e, pages);
}

/// A request for an export in a format other than `json` and `csv` is
/// answered with status 400 at once, without a word to the store.
pub proof fn lemma_unknown_format_is_rejected(
    h: HandlerView,
    body: Seq<u8>,
    pages: PagesView,
    format: Seq<char>,
)
    requires
        route_of(h.request_line) == Route::Export,
        body_entries(body) matches Some(entries) && entry_value(entries, "format"@) == Some(
            format,
        ),
        format != "json"@,
        format != "csv"@,
    ensures
        dispatch(h, body, pages) == respond(
            h,
            failure_response(ErrorKind::Parse, ContentType::Text, "Invalid format"@),
        ),
        dispatch(h, body, pages).1->Respond_0.status == Status::BadRequest,
{
}

/// A request to delete the record `id` has the store delete that record,
/// and once the store has done so the client is sent back to `/`.
pub proof fn lemma_delete_then_redirect(h: HandlerView, body: Seq<u8>, pages: PagesView, id: i32)
    requires
        route_of(h.request_line) == Route::Delete,
        delete_id(h.request_line) == Some(id),
    ensures
        dispatch(h, body, pages) == ask(h, Pending::Delete, ActionView::RemoveJob(id)),
        step(dispatch(h, body, pages).0, EventView::Stored, pages).1 == ActionView::Respond(
            redirect_response("/"@),
        ),
{
}

/// Whether a head line is taken in: it is neither the empty line nor
/// malformed.
pub open spec fn is_taken_in(raw: Seq<u8>) -> bool {
    classify(line_content(raw)) is Plain || classify(line_content(raw)) is Length
}

/// Whether one of the lines is taken in.
pub open spec fn any_taken_in(raws: Seq<Seq<u8>>) -> bool {
    exists|i: int| 0 <= i < raws.len() && is_taken_in(#[trigger] raws[i])
}

/// The first of the lines that is taken in, without its line end; nothing
/// when none is.
pub open spec fn first_taken_in(raws: Seq<Seq<u8>>) -> Seq<u8>
    decreases raws.len(),
{
    if raws.len() == 0 {
        Seq::empty()
    } else if any_taken_in(raws.drop_last()) {
        first_taken_in(raws.drop_last())
    } else if is_taken_in(raws.last()) {
        line_content(raws.last())
    } else {
        Seq::empty()
    }
}

/// The length that the last `Content-Length` header among the lines
/// announces; 0 when there is none.
pub open spec fn announced_length(raws: Seq<Seq<u8>>) -> usize
    decreases raws.len(),
{
    if raws.len() == 0 {
        0
    } else {
        match classify(line_content(raws.last())) {
            Line::Length(n) => n,
            _ => announced_length(raws.drop_last()),
        }
    }
}

/// The state after the lines were read one after the other.
pub open spec fn after_lines(h: HandlerView, raws: Seq<Seq<u8>>, pages: PagesView) -> HandlerView
    decreases raws.len(),
{
    if raws.len() == 0 {
        h
    } else {
        step(after_lines(h, raws.drop_last(), pages), EventView::Line(raws.last()), pages).0
    }
}

/// Reading the head: as long as no empty line has come, the handler reads
/// on; the request line is the first line that was taken in, the length of
/// the body is what the last `Content-Length` header announced, and
/// malformed lines leave no trace.
pub proof fn lemma_head_reading(h: HandlerView, raws: Seq<Seq<u8>>, pages: PagesView)
    requires
        h.phase == Phase::AwaitingRequestLine,
        h.request_line.len() == 0,
        h.content_length == 0,
        forall|i: int| 0 <= i < raws.len() ==> !(classify(line_content(#[trigger] raws[i])) is End),
    ensures
        after_lines(h, raws, pages).phase == (if any_taken_in(raws) {
            Phase::ReadingHeaders
        } else {
            Phase::AwaitingRequestLine
        }),
        after_lines(h, raws, pages).request_line == first_taken_in(raws),
        after_lines(h, raws, pages).content_length == announced_length(raws),
        raws.len() > 0 ==> step(
            after_lines(h, raws.drop_last(), pages),
            EventView::Line(raws.last()),
            pages,
        ).1 == ActionView::ReadLine,
    decreases raws.len(),
{
    if raws.len() > 0 {
        let before = raws.drop_last();
        lemma_head_reading(h, before, pages);
        assert(classify(line_content(raws.last())) == classify(line_content(raws[raws.len() - 1])));
        if any_taken_in(before) {
            let i = choose|i: int| 0 <= i < before.len() && is_taken_in(#[trigger] before[i]);
            assert(is_taken_in(raws[i]));
        } else if any_taken_in(raws) {
            let i = choose|i: int| 0 <= i < raws.len() && is_taken_in(#[trigger] raws[i]);
            if i < before.len() {
                assert(is_taken_in(before[i]));
            }
        } else {
            assert(!is_taken_in(raws[raws.len() - 1]));
        }
    } else {
        assert(!any_taken_in(raws));
    }
}

} // verus!
