use job_search::db::{Queries, Statement, Value, DB};
use job_search::handler::{Action, Event, Handler, Pages, Phase};
use job_search::job::{read_rows, Job, Row};
use job_search::response::Status;
use rusqlite::Connection;

fn bound(s: &Statement) -> Vec<rusqlite::types::Value> {
    s.params
        .iter()
        .map(|p| match p {
            Value::Integer(i) => rusqlite::types::Value::Integer(*i),
            Value::Text(t) => rusqlite::types::Value::Text(t.clone()),
        })
        .collect()
}

fn run(conn: &Connection, s: &Statement) -> usize {
    conn.execute(&s.text, rusqlite::params_from_iter(bound(s)))
        .expect("the statement runs")
}

fn rows(conn: &Connection, s: &Statement) -> Vec<Job> {
    let mut prepared = conn.prepare(&s.text).expect("the statement is prepared");
    let found = prepared
        .query_map(rusqlite::params_from_iter(bound(s)), |row| {
            Ok(Row {
                id: row.get(0)?,
                title: row.get(1)?,
                description: row.get(2)?,
                date: row.get(3)?,
            })
        })
        .expect("the query runs");
    let rows: Vec<Row> = found.map(|r| r.expect("a row")).collect();
    let listing = read_rows(&rows);
    assert!(listing.skipped.is_empty());
    listing.jobs
}

fn fresh() -> Connection {
    let conn = Connection::open_in_memory().expect("a store in memory");
    run(&conn, &DB::migrate_db());
    conn
}

fn add(conn: &Connection, title: &str, description: &str, date: &str) {
    let s = Queries::new().add_job(title.to_string(), description.to_string(), date.to_string());
    assert_eq!(run(conn, &s), 1);
}

fn list(conn: &Connection) -> Vec<Job> {
    rows(conn, &Queries::new().list_jobs())
}

fn search(conn: &Connection, title: &str, description: &str, date: &str) -> Vec<Job> {
    let s = Queries::new().seach_jobs(
        Some(title.to_string()),
        Some(description.to_string()),
        Some(date.to_string()),
    );
    rows(conn, &s.statement)
}

fn fields(jobs: &[Job]) -> Vec<(i32, String, String, String)> {
    jobs.iter()
        .map(|j| (j.id, j.title.clone(), j.description.clone(), j.date.to_text()))
        .collect()
}

fn pages() -> Pages {
    Pages {
        index: "<table>{content}</table>".to_string(),
        stylesheet: "td { padding: 4px; }".to_string(),
        create_form: "<form></form>".to_string(),
    }
}

fn serve(conn: &Connection, head: &[&str], body: &[u8]) -> job_search::response::Response {
    let pages = pages();
    let mut handler = Handler::new();
    let mut lines = head.iter();
    let mut action = Action::ReadLine;
    loop {
        action = match action {
            Action::ReadLine => match lines.next() {
                Some(l) => handler.step(Event::Line(l.as_bytes().to_vec()), &pages),
                None => handler.step(Event::EndOfInput, &pages),
            },
            Action::ReadBody(n) => {
                assert_eq!(n, body.len());
                handler.step(Event::Body(body.to_vec()), &pages)
            }
            Action::ListJobs => handler.step(Event::Jobs(list(conn)), &pages),
            Action::AddJob { title, description } => {
                add(conn, &title, &description, "01-01-2024");
                handler.step(Event::Stored, &pages)
            }
            Action::RemoveJob(id) => {
                run(conn, &Queries::new().remove_job(id));
                handler.step(Event::Stored, &pages)
            }
            Action::Respond(response) => {
                assert_eq!(handler.phase, Phase::WritingResponse);
                match handler.step(Event::Written, &pages) {
                    Action::Close => {}
                    other => panic!("expected the connection to close, got {:?}", other),
                }
                assert_eq!(handler.phase, Phase::Closed);
                return response;
            }
            Action::Close => panic!("closed without a response"),
        };
    }
}

#[test]
fn add_then_list_holds_the_record_with_a_fresh_id() {
    let conn = fresh();
    add(&conn, "Backend Engineer", "Write services", "01-03-2024");
    add(&conn, "Backend Engineer", "Write services", "01-03-2024");
    add(&conn, "Ünïcödé 'quoted' \"title\"", "50% remote; DROP TABLE jobs", "29-02-2024");
    let jobs = fields(&list(&conn));
    assert_eq!(
        jobs,
        vec![
            (1, "Backend Engineer".to_string(), "Write services".to_string(), "01-03-2024".to_string()),
            (2, "Backend Engineer".to_string(), "Write services".to_string(), "01-03-2024".to_string()),
            (
                3,
                "Ünïcödé 'quoted' \"title\"".to_string(),
                "50% remote; DROP TABLE jobs".to_string(),
                "29-02-2024".to_string()
            ),
        ]
    );
}

#[test]
fn remove_takes_the_record_away_and_nothing_else() {
    let conn = fresh();
    add(&conn, "A", "a", "01-01-2024");
    add(&conn, "B", "b", "02-01-2024");
    add(&conn, "C", "c", "03-01-2024");
    assert_eq!(run(&conn, &Queries::new().remove_job(2)), 1);
    let ids: Vec<i32> = list(&conn).iter().map(|j| j.id).collect();
    assert_eq!(ids, vec![1, 3]);
}

#[test]
fn removing_an_id_that_is_not_there_changes_nothing() {
    let conn = fresh();
    add(&conn, "A", "a", "01-01-2024");
    let before = fields(&list(&conn));
    assert_eq!(run(&conn, &Queries::new().remove_job(99)), 0);
    assert_eq!(fields(&list(&conn)), before);
}

#[test]
fn ids_are_not_used_again_after_a_delete() {
    let conn = fresh();
    add(&conn, "A", "a", "01-01-2024");
    add(&conn, "B", "b", "02-01-2024");
    run(&conn, &Queries::new().remove_job(2));
    add(&conn, "C", "c", "03-01-2024");
    let ids: Vec<i32> = list(&conn).iter().map(|j| j.id).collect();
    assert_eq!(ids, vec![1, 3]);
}

#[test]
fn search_without_filters_finds_what_list_finds() {
    let conn = fresh();
    add(&conn, "A", "a", "03-01-2024");
    add(&conn, "B", "b", "01-01-2024");
    add(&conn, "C", "c", "02-01-2024");
    let mut listed = fields(&list(&conn));
    let mut found = fields(&search(&conn, "", "", ""));
    assert_eq!(found.iter().map(|j| j.0).collect::<Vec<i32>>(), vec![2, 3, 1]);
    listed.sort();
    found.sort();
    assert_eq!(listed, found);
    let none = Queries::new().seach_jobs(None, None, None);
    assert_eq!(rows(&conn, &none.statement).len(), 3);
}

#[test]
fn search_by_title_finds_the_titles_that_contain_the_text() {
    let conn = fresh();
    add(&conn, "Backend Engineer", "Write services", "01-03-2024");
    add(&conn, "Data Analyst", "Build dashboards for Engineering", "15-02-2024");
    add(&conn, "engineering manager", "Lead", "20-02-2024");
    add(&conn, "En gineer", "Typo", "21-02-2024");
    let found: Vec<i32> = search(&conn, "Eng", "", "").iter().map(|j| j.id).collect();
    assert_eq!(found, vec![3, 1]);
}

#[test]
fn search_reads_no_wildcards_in_a_filter() {
    let conn = fresh();
    add(&conn, "100% remote", "x", "01-03-2024");
    add(&conn, "100 days", "x", "02-03-2024");
    add(&conn, "a_b", "x", "03-03-2024");
    add(&conn, "acb", "x", "04-03-2024");
    add(&conn, "back\\slash", "x", "05-03-2024");
    let ids = |t: &str| search(&conn, t, "", "").iter().map(|j| j.id).collect::<Vec<i32>>();
    assert_eq!(ids("100%"), vec![1]);
    assert_eq!(ids("a_b"), vec![3]);
    assert_eq!(ids("\\"), vec![5]);
    assert_eq!(ids("%"), vec![1]);
    assert_eq!(ids("_"), vec![3]);
}

#[test]
fn search_combines_its_filters_with_and() {
    let conn = fresh();
    add(&conn, "Backend Engineer", "Write services", "01-03-2024");
    add(&conn, "Frontend Engineer", "Write pages", "01-03-2024");
    add(&conn, "Backend Engineer", "Write services", "02-03-2024");
    let found: Vec<i32> =
        search(&conn, "Engineer", "services", "1-3-2024").iter().map(|j| j.id).collect();
    assert_eq!(found, vec![1]);
}

#[test]
fn search_by_date_finds_exactly_the_record_of_that_day() {
    let conn = fresh();
    add(&conn, "Backend Engineer", "Write services", "01-03-2024");
    add(&conn, "Data Analyst", "Build dashboards", "15-02-2024");
    let found = fields(&search(&conn, "", "", "15-02-2024"));
    assert_eq!(
        found,
        vec![(2, "Data Analyst".to_string(), "Build dashboards".to_string(), "15-02-2024".to_string())]
    );
}

#[test]
fn search_orders_by_the_calendar_and_then_by_id() {
    let conn = fresh();
    add(&conn, "A", "a", "02-01-2025");
    add(&conn, "B", "b", "15-12-2024");
    add(&conn, "C", "c", "01-03-2024");
    add(&conn, "D", "d", "15-12-2024");
    add(&conn, "E", "e", "31-01-2024");
    let found: Vec<i32> = search(&conn, "", "", "").iter().map(|j| j.id).collect();
    assert_eq!(found, vec![5, 3, 2, 4, 1]);
}

#[test]
fn search_with_a_malformed_date_ignores_the_date() {
    let conn = fresh();
    add(&conn, "A", "a", "02-01-2025");
    add(&conn, "B", "b", "15-12-2024");
    let s = Queries::new().seach_jobs(None, None, Some("yesterday".to_string()));
    assert!(s.date_dropped);
    assert_eq!(rows(&conn, &s.statement).len(), 2);
}

#[test]
fn clear_empties_the_store_and_restarts_the_ids() {
    let conn = fresh();
    add(&conn, "A", "a", "01-01-2024");
    add(&conn, "B", "b", "02-01-2024");
    for s in DB::new("/home/ann").drop_db() {
        run(&conn, &s);
    }
    assert!(list(&conn).is_empty());
    add(&conn, "C", "c", "03-01-2024");
    assert_eq!(
        fields(&list(&conn)),
        vec![(1, "C".to_string(), "c".to_string(), "03-01-2024".to_string())]
    );
}

#[test]
fn delete_request_redirects_and_the_record_is_gone_from_the_page() {
    let conn = fresh();
    add(&conn, "Backend Engineer", "Write services", "01-03-2024");
    add(&conn, "Data Analyst", "Build dashboards", "15-02-2024");
    let before = serve(&conn, &["GET / HTTP/1.1\r\n", "\r\n"], b"");
    assert!(String::from_utf8(before.body).unwrap().contains("Backend Engineer"));

    let response = serve(&conn, &["POST /delete/1 HTTP/1.1\r\n", "Host: localhost\r\n", "\r\n"], b"");
    assert_eq!(response.status, Status::SeeOther);
    assert_eq!(response.location.as_deref(), Some("/"));

    let after = serve(&conn, &["GET / HTTP/1.1\r\n", "\r\n"], b"");
    assert_eq!(after.status, Status::Success);
    let page = String::from_utf8(after.body).unwrap();
    assert!(!page.contains("Backend Engineer"));
    assert!(!page.contains("/delete/1\""));
    assert!(page.contains("Data Analyst"));
    assert!(page.contains("/delete/2\""));
}

#[test]
fn export_request_for_xml_is_refused_and_the_store_is_unchanged() {
    let conn = fresh();
    add(&conn, "Backend Engineer", "Write services", "01-03-2024");
    let before = fields(&list(&conn));
    let body = br#"{"format":"xml"}"#;
    let response = serve(
        &conn,
        &["POST /export HTTP/1.1\r\n", "Content-Length: 16\r\n", "\r\n"],
        body,
    );
    assert_eq!(response.status, Status::BadRequest);
    assert_eq!(response.status.code(), 400);
    assert_eq!(response.body, b"Invalid format".to_vec());
    assert_eq!(fields(&list(&conn)), before);
}

#[test]
fn create_request_adds_the_record() {
    let conn = fresh();
    let body = br#"{"title":"Data Analyst","description":"Build dashboards"}"#;
    let length = format!("Content-Length: {}\r\n", body.len());
    let response = serve(&conn, &["POST /create_job HTTP/1.1\r\n", &length, "\r\n"], body);
    assert_eq!(response.status, Status::Success);
    assert_eq!(response.body, b"Job created successfully".to_vec());
    assert_eq!(
        fields(&list(&conn)),
        vec![(1, "Data Analyst".to_string(), "Build dashboards".to_string(), "01-01-2024".to_string())]
    );
}
