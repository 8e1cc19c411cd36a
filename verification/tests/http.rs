use job_search::date::Date;
use job_search::error::ErrorKind;
use job_search::handler::{Action, Event, Handler, Pages, Pending, Phase};
use job_search::export::Format;
use job_search::job::Job;
use job_search::page::{push_html_row, render_index, render_rows};
use job_search::request::{
    classify_line, find_entry, parse_body, parse_delete_id, route, strip_line_end, Line, Route,
};
use job_search::response::{ContentType, Response, Status};

fn pages() -> Pages {
    Pages {
        index: "<html><table>{content}</table></html>".to_string(),
        stylesheet: "td { padding: 4px; }".to_string(),
        create_form: "<form action=\"/create_job\"></form>".to_string(),
    }
}

fn job(id: i32, title: &str, description: &str, date: (i32, u32, u32)) -> Job {
    Job {
        id,
        title: title.to_string(),
        description: description.to_string(),
        date: Date::from_parts(date.0, date.1, date.2).expect("a date"),
    }
}

fn line(text: &str) -> Event {
    Event::Line(text.as_bytes().to_vec())
}

fn after_head(lines: &[&str]) -> (Handler, Action) {
    let pages = pages();
    let mut handler = Handler::new();
    for l in lines {
        match handler.step(line(l), &pages) {
            Action::ReadLine => {}
            other => panic!("expected to read on, got {:?}", other),
        }
    }
    let action = handler.step(line("\r\n"), &pages);
    (handler, action)
}

fn response_of(action: Action) -> Response {
    match action {
        Action::Respond(r) => r,
        other => panic!("expected a response, got {:?}", other),
    }
}

fn with_body(request_line: &str, body: &[u8]) -> (Handler, Action) {
    let length = format!("Content-Length: {}\r\n", body.len());
    let (mut handler, action) = after_head(&[request_line, "Host: localhost:8080\r\n", &length]);
    match action {
        Action::ReadBody(n) => assert_eq!(n, body.len()),
        other => panic!("expected to read the body, got {:?}", other),
    }
    assert_eq!(handler.phase, Phase::ReadingBody);
    let action = handler.step(Event::Body(body.to_vec()), &pages());
    (handler, action)
}

#[test]
fn status_lines_and_codes() {
    assert_eq!(Status::Success.line(), "HTTP/1.1 200 OK");
    assert_eq!(Status::SeeOther.line(), "HTTP/1.1 303 See Other");
    assert_eq!(Status::BadRequest.line(), "HTTP/1.1 400 Bad Request");
    assert_eq!(Status::NotFound.line(), "HTTP/1.1 404 Not Found");
    assert_eq!(Status::InternalServerError.line(), "HTTP/1.1 500 Internal Server Error");
    assert_eq!(Status::Success.code(), 200);
    assert_eq!(Status::SeeOther.code(), 303);
    assert_eq!(Status::BadRequest.code(), 400);
    assert_eq!(Status::NotFound.code(), 404);
    assert_eq!(Status::InternalServerError.code(), 500);
    assert_eq!(Status::of(ErrorKind::Parse), Status::BadRequest);
    assert_eq!(Status::of(ErrorKind::Protocol), Status::BadRequest);
    assert_eq!(Status::of(ErrorKind::NotFound), Status::NotFound);
    assert_eq!(Status::of(ErrorKind::Persistence), Status::InternalServerError);
}

#[test]
fn content_type_texts() {
    assert_eq!(ContentType::Html.text(), "text/html");
    assert_eq!(ContentType::Css.text(), "text/css");
    assert_eq!(ContentType::Plain.text(), "text/plain");
    assert_eq!(ContentType::Text.text(), "text/text");
    assert_eq!(ContentType::Json.text(), "application/json");
    assert_eq!(ContentType::Csv.text(), "text/csv");
    assert_eq!(ContentType::of_export(Format::Json), ContentType::Json);
    assert_eq!(ContentType::of_export(Format::Csv), ContentType::Csv);
}

#[test]
fn response_on_the_wire() {
    let r = Response::new(Status::Success, ContentType::Html, b"<p>hi</p>".to_vec());
    assert_eq!(
        String::from_utf8(r.to_bytes()).unwrap(),
        "HTTP/1.1 200 OK\r\nContent-Type: text/html\r\nContent-Length: 9\r\n\r\n<p>hi</p>"
    );
}

#[test]
fn content_length_counts_bytes_not_characters() {
    let r = Response::new(Status::Success, ContentType::Plain, "héllo ✓".as_bytes().to_vec());
    let wire = String::from_utf8(r.to_bytes()).unwrap();
    assert!(wire.contains("\r\nContent-Length: 10\r\n\r\n"));
    assert!(wire.ends_with("héllo ✓"));
}

#[test]
fn failure_and_redirect_on_the_wire() {
    let r = Response::failure(ErrorKind::NotFound, ContentType::Text, "404 Not Found");
    assert_eq!(
        String::from_utf8(r.to_bytes()).unwrap(),
        "HTTP/1.1 404 Not Found\r\nContent-Type: text/text\r\nContent-Length: 13\r\n\r\n404 Not Found"
    );
    let r = Response::failure(ErrorKind::Parse, ContentType::Plain, "Invalid id");
    assert_eq!(
        String::from_utf8(r.to_bytes()).unwrap(),
        "HTTP/1.1 400 Bad Request\r\nContent-Type: text/plain\r\nContent-Length: 10\r\n\r\nInvalid id"
    );
    let r = Response::redirect("/");
    assert_eq!(
        String::from_utf8(r.to_bytes()).unwrap(),
        "HTTP/1.1 303 See Other\r\nLocation: /\r\nContent-Type: text/plain\r\nContent-Length: 0\r\n\r\n"
    );
}

#[test]
fn line_ends() {
    assert_eq!(strip_line_end(b"GET / HTTP/1.1\r\n"), b"GET / HTTP/1.1");
    assert_eq!(strip_line_end(b"GET / HTTP/1.1\n"), b"GET / HTTP/1.1");
    assert_eq!(strip_line_end(b"GET / HTTP/1.1"), b"GET / HTTP/1.1");
    assert_eq!(strip_line_end(b"a\r"), b"a\r");
    assert_eq!(strip_line_end(b"a\r\r\n"), b"a\r");
    assert_eq!(strip_line_end(b"\r\n"), b"");
    assert_eq!(strip_line_end(b"\n"), b"");
    assert_eq!(strip_line_end(b""), b"");
}

#[test]
fn head_lines() {
    assert_eq!(classify_line(b""), Line::End);
    assert_eq!(classify_line(b"Host: localhost"), Line::Plain);
    assert_eq!(classify_line(b"Content-Length: 42"), Line::Length(42));
    assert_eq!(classify_line(b"Content-Length: 0"), Line::Length(0));
    assert_eq!(classify_line(b"Content-Length: +7"), Line::Length(7));
    assert_eq!(classify_line(b"Content-Length: "), Line::Malformed);
    assert_eq!(classify_line(b"Content-Length: 4 2"), Line::Malformed);
    assert_eq!(classify_line(b"Content-Length: -1"), Line::Malformed);
    assert_eq!(classify_line(b"Content-Length: 99999999999999999999999999"), Line::Malformed);
    assert_eq!(classify_line(b"content-length: 42"), Line::Plain);
    assert_eq!(classify_line(b"Content-Length:42"), Line::Plain);
    assert_eq!(classify_line(b"X: \xff\xfe"), Line::Malformed);
    assert_eq!(classify_line(b"\xc3"), Line::Malformed);
}

#[test]
fn routes() {
    assert_eq!(route(b"GET / HTTP/1.1"), Route::Index);
    assert_eq!(route(b"GET /styles.css HTTP/1.1"), Route::Stylesheet);
    assert_eq!(route(b"GET /create HTTP/1.1"), Route::CreateForm);
    assert_eq!(route(b"POST /create_job HTTP/1.1"), Route::CreateJob);
    assert_eq!(route(b"POST /delete/12 HTTP/1.1"), Route::Delete);
    assert_eq!(route(b"POST /delete/"), Route::Delete);
    assert_eq!(route(b"POST /export HTTP/1.1"), Route::Export);
    assert_eq!(route(b""), Route::NotFound);
    assert_eq!(route(b"GET /"), Route::NotFound);
    assert_eq!(route(b"GET / HTTP/1.0"), Route::NotFound);
    assert_eq!(route(b"get / HTTP/1.1"), Route::NotFound);
    assert_eq!(route(b"GET /missing HTTP/1.1"), Route::NotFound);
    assert_eq!(route(b"GET /create_job HTTP/1.1"), Route::NotFound);
    assert_eq!(route(b"POST / HTTP/1.1"), Route::NotFound);
    assert_eq!(route(b"DELETE /delete/1 HTTP/1.1"), Route::NotFound);
    assert_eq!(route(b"GET / HTTP/1.1 and more"), Route::Index);
}

#[test]
fn delete_ids() {
    assert_eq!(parse_delete_id(b"POST /delete/12 HTTP/1.1"), Some(12));
    assert_eq!(parse_delete_id(b"POST /delete/ 12  HTTP/1.1"), Some(12));
    assert_eq!(parse_delete_id(b"POST /delete/-3 HTTP/1.1"), Some(-3));
    assert_eq!(parse_delete_id(b"POST /delete/+3 HTTP/1.1"), Some(3));
    assert_eq!(parse_delete_id(b"POST /delete/12"), Some(12));
    assert_eq!(parse_delete_id(b"POST /delete/2147483647 HTTP/1.1"), Some(2147483647));
    assert_eq!(parse_delete_id(b"POST /delete/2147483648 HTTP/1.1"), None);
    assert_eq!(parse_delete_id(b"POST /delete/ HTTP/1.1"), None);
    assert_eq!(parse_delete_id(b"POST /delete/abc HTTP/1.1"), None);
    assert_eq!(parse_delete_id(b"POST /delete/1/2 HTTP/1.1"), None);
    assert_eq!(parse_delete_id(b"POST /delete/1 HTTP/1.1 HTTP/1.1"), Some(1));
    assert_eq!(parse_delete_id(b"GET /delete/1 HTTP/1.1"), None);
}

#[test]
fn bodies() {
    let entries = parse_body(br#"{"title":"T","description":"D"}"#).expect("an object");
    assert_eq!(find_entry(&entries, "title"), Some(&"T".to_string()));
    assert_eq!(find_entry(&entries, "description"), Some(&"D".to_string()));
    assert_eq!(find_entry(&entries, "format"), None);
    let entries = parse_body(br#"{"format":"a","format":"b"}"#).expect("an object");
    assert_eq!(find_entry(&entries, "format"), Some(&"b".to_string()));
    assert_eq!(parse_body(b"{}"), Some(Vec::new()));
    assert_eq!(parse_body(b""), None);
    assert_eq!(parse_body(b"[]"), None);
    assert_eq!(parse_body(br#"{"title":1}"#), None);
    assert_eq!(parse_body(br#"{"title":{"nested":"x"}}"#), None);
    assert_eq!(parse_body(b"{\"title\":\"\xff\"}"), None);
    assert_eq!(parse_body(br#"{"title":"T"} trailing"#), None);
}

#[test]
fn rows_of_the_page() {
    let j = job(3, "Backend <b>Engineer</b>", "Write services", (2024, 3, 1));
    let mut out = Vec::new();
    push_html_row(&mut out, &j);
    assert_eq!(
        String::from_utf8(out).unwrap(),
        "<tr><td>3</td><td>Backend <b>Engineer</b></td><td>Write services</td><td>01/03/2024</td>\
         <td><form action=\"/delete/3\" method=\"POST\" class='delete-btn-form'>\n                    \
         <button type=\"submit\">Delete</button>\n                </form></td></tr>"
    );
    assert_eq!(render_rows(&Vec::new()), Vec::<u8>::new());
    let two = vec![job(1, "A", "a", (2024, 1, 1)), job(2, "B", "b", (2024, 1, 2))];
    let mut expected = Vec::new();
    push_html_row(&mut expected, &two[0]);
    push_html_row(&mut expected, &two[1]);
    assert_eq!(render_rows(&two), expected);
}

#[test]
fn page_puts_the_rows_into_the_template() {
    let jobs = vec![job(1, "A", "a", (2024, 1, 1))];
    let rows = String::from_utf8(render_rows(&jobs)).unwrap();
    assert_eq!(
        String::from_utf8(render_index("<table>{content}</table>", &jobs)).unwrap(),
        format!("<table>{}</table>", rows)
    );
    assert_eq!(render_index("no place", &jobs), b"no place".to_vec());
    assert_eq!(render_index("{content}", &Vec::new()), Vec::<u8>::new());
}

#[test]
fn index_request_lists_the_records() {
    let (mut handler, action) = after_head(&["GET / HTTP/1.1\r\n", "Host: localhost\r\n"]);
    assert!(matches!(action, Action::ListJobs));
    assert_eq!(handler.phase, Phase::Dispatching(Pending::Page));
    let jobs = vec![job(1, "Backend Engineer", "Write services", (2024, 3, 1))];
    let expected = render_index(&pages().index, &jobs);
    let r = response_of(handler.step(Event::Jobs(jobs), &pages()));
    assert_eq!(r.status, Status::Success);
    assert_eq!(r.content_type, ContentType::Html);
    assert_eq!(r.location, None);
    assert_eq!(r.body, expected);
    assert_eq!(handler.phase, Phase::WritingResponse);
    assert!(matches!(handler.step(Event::Written, &pages()), Action::Close));
    assert_eq!(handler.phase, Phase::Closed);
    assert!(matches!(handler.step(line("GET / HTTP/1.1\r\n"), &pages()), Action::Close));
    assert_eq!(handler.phase, Phase::Closed);
}

#[test]
fn static_pages_are_served_without_the_store() {
    let (handler, action) = after_head(&["GET /styles.css HTTP/1.1\r\n"]);
    let r = response_of(action);
    assert_eq!(handler.phase, Phase::WritingResponse);
    assert_eq!((r.status, r.content_type), (Status::Success, ContentType::Css));
    assert_eq!(r.body, pages().stylesheet.into_bytes());
    let (_, action) = after_head(&["GET /create HTTP/1.1\r\n"]);
    let r = response_of(action);
    assert_eq!((r.status, r.content_type), (Status::Success, ContentType::Html));
    assert_eq!(r.body, pages().create_form.into_bytes());
}

#[test]
fn unknown_route_is_not_found() {
    let (_, action) = after_head(&["GET /missing HTTP/1.1\r\n"]);
    let r = response_of(action);
    assert_eq!((r.status, r.content_type), (Status::NotFound, ContentType::Text));
    assert_eq!(r.body, b"404 Not Found".to_vec());
    let (_, action) = after_head(&[]);
    assert_eq!(response_of(action).status, Status::NotFound);
}

#[test]
fn end_of_input_ends_the_head() {
    let pages = pages();
    let mut handler = Handler::new();
    assert!(matches!(handler.step(line("GET /create HTTP/1.1"), &pages), Action::ReadLine));
    let r = response_of(handler.step(Event::EndOfInput, &pages));
    assert_eq!(r.status, Status::Success);
}

#[test]
fn malformed_lines_are_passed_over() {
    let pages = pages();
    let mut handler = Handler::new();
    assert!(matches!(handler.step(Event::Line(b"\xff\xfe\r\n".to_vec()), &pages), Action::ReadLine));
    assert_eq!(handler.phase, Phase::AwaitingRequestLine);
    assert!(matches!(handler.step(line("GET /create HTTP/1.1\r\n"), &pages), Action::ReadLine));
    assert_eq!(handler.phase, Phase::ReadingHeaders);
    assert_eq!(handler.request_line, b"GET /create HTTP/1.1".to_vec());
    assert!(matches!(handler.step(line("Content-Length: many\r\n"), &pages), Action::ReadLine));
    assert_eq!(handler.content_length, 0);
    assert!(matches!(handler.step(Event::Line(b"X-Bad: \xc3\x28\r\n".to_vec()), &pages), Action::ReadLine));
    assert!(matches!(handler.step(line("GET / HTTP/1.1\r\n"), &pages), Action::ReadLine));
    assert_eq!(handler.request_line, b"GET /create HTTP/1.1".to_vec());
    let r = response_of(handler.step(line("\n"), &pages));
    assert_eq!(r.body, pages.create_form.clone().into_bytes());
}

#[test]
fn later_content_length_replaces_an_earlier_one() {
    let (handler, action) = after_head(&[
        "POST /export HTTP/1.1\r\n",
        "Content-Length: 5\r\n",
        "Content-Length: 17\r\n",
    ]);
    assert!(matches!(action, Action::ReadBody(17)));
    assert_eq!(handler.content_length, 17);
}

#[test]
fn create_request_asks_for_the_record() {
    let (handler, action) =
        with_body("POST /create_job HTTP/1.1\r\n", br#"{"title":"Data Analyst","description":"Build dashboards"}"#);
    match action {
        Action::AddJob { title, description } => {
            assert_eq!(title, "Data Analyst");
            assert_eq!(description, "Build dashboards");
        }
        other => panic!("expected a record to add, got {:?}", other),
    }
    assert_eq!(handler.phase, Phase::Dispatching(Pending::Create));
}

#[test]
fn create_request_answers_once_the_record_is_stored() {
    let (mut handler, _) =
        with_body("POST /create_job HTTP/1.1\r\n", br#"{"title":"T","description":"D"}"#);
    let r = response_of(handler.step(Event::Stored, &pages()));
    assert_eq!((r.status, r.content_type), (Status::Success, ContentType::Plain));
    assert_eq!(r.body, b"Job created successfully".to_vec());
}

#[test]
fn create_request_needs_both_fields() {
    for (body, message) in [
        (&br#"{"title":"T"}"#[..], "Missing field"),
        (&br#"{"description":"D"}"#[..], "Missing field"),
        (&br#"{"Title":"T","Description":"D"}"#[..], "Missing field"),
        (&br#"{"title":"","description":"D"}"#[..], "Empty field"),
        (&br#"{"title":"T","description":""}"#[..], "Empty field"),
        (&br#"{"title":"T","description":7}"#[..], "Invalid request body"),
        (&br#"not json"#[..], "Invalid request body"),
    ] {
        let (handler, action) = with_body("POST /create_job HTTP/1.1\r\n", body);
        let r = response_of(action);
        assert_eq!(r.status, Status::BadRequest, "{:?}", body);
        assert_eq!(r.body, message.as_bytes().to_vec());
        assert_eq!(handler.phase, Phase::WritingResponse);
    }
}

#[test]
fn create_request_without_a_body_is_refused() {
    let (_, action) = after_head(&["POST /create_job HTTP/1.1\r\n"]);
    let r = response_of(action);
    assert_eq!(r.status, Status::BadRequest);
    assert_eq!(r.body, b"Invalid request body".to_vec());
}

#[test]
fn body_has_to_be_utf8_and_of_the_announced_length() {
    let (_, action) = with_body("POST /create_job HTTP/1.1\r\n", b"{\"title\":\"\xff\"}");
    let r = response_of(action);
    assert_eq!(r.status, Status::BadRequest);
    assert_eq!(r.body, b"Invalid request body".to_vec());

    let (mut handler, action) = after_head(&["GET / HTTP/1.1\r\n", "Content-Length: 10\r\n"]);
    assert!(matches!(action, Action::ReadBody(10)));
    let r = response_of(handler.step(Event::Body(b"short".to_vec()), &pages()));
    assert_eq!(r.status, Status::BadRequest);
    assert_eq!(r.body, b"Incomplete request body".to_vec());
}

#[test]
fn delete_request_asks_for_the_delete_and_redirects() {
    let (mut handler, action) = after_head(&["POST /delete/12 HTTP/1.1\r\n"]);
    assert!(matches!(action, Action::RemoveJob(12)));
    assert_eq!(handler.phase, Phase::Dispatching(Pending::Delete));
    let r = response_of(handler.step(Event::Stored, &pages()));
    assert_eq!(r.status, Status::SeeOther);
    assert_eq!(r.location, Some("/".to_string()));
    assert!(r.body.is_empty());
}

#[test]
fn delete_request_with_a_malformed_id_is_refused() {
    let (_, action) = after_head(&["POST /delete/twelve HTTP/1.1\r\n"]);
    let r = response_of(action);
    assert_eq!(r.status, Status::BadRequest);
    assert_eq!(r.body, b"Invalid id".to_vec());
}

#[test]
fn export_request_answers_in_the_format() {
    let jobs = || vec![job(1, "Backend, Engineer", "Write \"services\"", (2024, 3, 1))];
    let (mut handler, action) = with_body("POST /export HTTP/1.1\r\n", br#"{"format":"json"}"#);
    assert!(matches!(action, Action::ListJobs));
    assert_eq!(handler.phase, Phase::Dispatching(Pending::Export(Format::Json)));
    let r = response_of(handler.step(Event::Jobs(jobs()), &pages()));
    assert_eq!((r.status, r.content_type), (Status::Success, ContentType::Json));
    assert_eq!(
        String::from_utf8(r.body).unwrap(),
        "[\n{\"id\": 1, \"title\": \"Backend, Engineer\", \"description\": \"Write \\\"services\\\"\", \"date\": \"01-03-2024\"}\n]\n"
    );

    let (mut handler, action) = with_body("POST /export HTTP/1.1\r\n", br#"{"format":"csv"}"#);
    assert!(matches!(action, Action::ListJobs));
    let r = response_of(handler.step(Event::Jobs(jobs()), &pages()));
    assert_eq!((r.status, r.content_type), (Status::Success, ContentType::Csv));
    assert_eq!(
        String::from_utf8(r.body).unwrap(),
        "id,title,description,date\n1,\"Backend, Engineer\",\"Write \"\"services\"\"\",01-03-2024\n"
    );
}

#[test]
fn unknown_route_on_the_wire() {
    let pages = pages();
    let mut handler = Handler::new();
    assert!(matches!(handler.step(line("GET /nope HTTP/1.1\r\n"), &pages), Action::ReadLine));
    let r = response_of(handler.step(line("\r\n"), &pages));
    assert_eq!(
        String::from_utf8(r.to_bytes()).unwrap(),
        "HTTP/1.1 404 Not Found\r\nContent-Type: text/text\r\nContent-Length: 13\r\n\r\n404 Not Found"
    );
}

#[test]
fn unknown_export_format_on_the_wire() {
    let (_, action) = with_body("POST /export HTTP/1.1\r\n", br#"{"format":"xml"}"#);
    assert_eq!(
        String::from_utf8(response_of(action).to_bytes()).unwrap(),
        "HTTP/1.1 400 Bad Request\r\nContent-Type: text/text\r\nContent-Length: 14\r\n\r\nInvalid format"
    );
}

#[test]
fn export_request_for_an_unknown_format_is_refused() {
    for (body, message, label) in [
        (&br#"{"format":"xml"}"#[..], "Invalid format", ContentType::Text),
        (&br#"{"format":"JSON"}"#[..], "Invalid format", ContentType::Text),
        (&br#"{"format":""}"#[..], "Invalid format", ContentType::Text),
        (&br#"{"fmt":"json"}"#[..], "Missing field", ContentType::Plain),
        (&br#"{"format":["json"]}"#[..], "Invalid request body", ContentType::Plain),
    ] {
        let (handler, action) = with_body("POST /export HTTP/1.1\r\n", body);
        let r = response_of(action);
        assert_eq!(r.status, Status::BadRequest, "{:?}", body);
        assert_eq!(r.content_type, label, "{:?}", body);
        assert_eq!(r.body, message.as_bytes().to_vec());
        assert_eq!(handler.phase, Phase::WritingResponse);
    }
}

#[test]
fn store_failure_is_answered_with_500() {
    for head in ["GET / HTTP/1.1\r\n", "POST /delete/1 HTTP/1.1\r\n"] {
        let (mut handler, _) = after_head(&[head]);
        let r = response_of(handler.step(Event::StoreFailed, &pages()));
        assert_eq!(r.status, Status::InternalServerError);
        assert_eq!(r.body, b"Store failure".to_vec());
    }
}

#[test]
fn events_out_of_turn_close_the_connection() {
    let pages = pages();
    let mut handler = Handler::new();
    assert!(matches!(handler.step(Event::Stored, &pages), Action::Close));
    assert_eq!(handler.phase, Phase::Closed);

    let (mut handler, _) = after_head(&["GET / HTTP/1.1\r\n"]);
    assert!(matches!(handler.step(Event::Stored, &pages), Action::Close));
    assert_eq!(handler.phase, Phase::Closed);

    let (mut handler, _) = after_head(&["POST /delete/1 HTTP/1.1\r\n"]);
    assert!(matches!(handler.step(Event::Jobs(Vec::new()), &pages), Action::Close));

    let (mut handler, _) = after_head(&["GET / HTTP/1.1\r\n", "Content-Length: 3\r\n"]);
    assert!(matches!(handler.step(Event::EndOfInput, &pages), Action::Close));
}

#[test]
fn plans_take_the_parsed_body_as_it_is() {
    let mut handler = Handler::new();
    let parsed = Some(vec![
        ("description".to_string(), "D".to_string()),
        ("title".to_string(), "T".to_string()),
    ]);
    match handler.plan_create(parsed) {
        Action::AddJob { title, description } => {
            assert_eq!((title.as_str(), description.as_str()), ("T", "D"));
        }
        other => panic!("expected a record to add, got {:?}", other),
    }
    let mut handler = Handler::new();
    assert_eq!(response_of(handler.plan_create(None)).status, Status::BadRequest);
    let mut handler = Handler::new();
    let parsed = Some(vec![("format".to_string(), "csv".to_string())]);
    assert!(matches!(handler.plan_export(parsed), Action::ListJobs));
    assert_eq!(handler.phase, Phase::Dispatching(Pending::Export(Format::Csv)));
    let mut handler = Handler::new();
    assert_eq!(response_of(handler.plan_export(Some(Vec::new()))).status, Status::BadRequest);
}

#[test]
fn dispatch_decides_on_the_request_line() {
    let mut handler = Handler::new();
    handler.request_line = b"POST /export HTTP/1.1".to_vec();
    assert!(matches!(handler.dispatch(br#"{"format":"json"}"#, &pages()), Action::ListJobs));
}
