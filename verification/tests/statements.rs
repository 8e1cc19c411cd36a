use job_search::date::Date;
use job_search::db::{contains_pattern_of, Filters, Queries, Value, DB};
use job_search::job::{fields_populated, read_rows, Job, Row};

fn texts(params: &[Value]) -> Vec<String> {
    params
        .iter()
        .map(|p| match p {
            Value::Text(t) => t.clone(),
            Value::Integer(i) => format!("#{}", i),
        })
        .collect()
}

const SELECT: &str = "SELECT id, title, description, date FROM jobs";
const ORDER: &str = " ORDER BY substr(date, 7, 4), substr(date, 4, 2), substr(date, 1, 2), id";

#[test]
fn store_path_lies_under_the_home_directory() {
    let db = DB::new("/home/ann");
    assert_eq!(db.path, "/home/ann/.local/share/job_search/job_search.db");
}

#[test]
fn clearing_drops_and_recreates_the_table() {
    let db = DB::new("/home/ann");
    let statements = db.drop_db();
    assert_eq!(statements.len(), 2);
    assert_eq!(statements[0].text, "DROP TABLE jobs");
    assert!(statements[0].params.is_empty());
    assert_eq!(statements[1].text, DB::migrate_db().text);
    assert!(statements[1].text.starts_with("CREATE TABLE jobs ("));
    assert!(statements[1].params.is_empty());
}

#[test]
fn add_binds_the_fields_as_they_are() {
    let s = Queries::new().add_job(
        "x'); DROP TABLE jobs; --".to_string(),
        "Robert".to_string(),
        "01-03-2024".to_string(),
    );
    assert_eq!(s.text, "INSERT INTO jobs (title, description, date) VALUES (?, ?, ?)");
    assert_eq!(texts(&s.params), vec!["x'); DROP TABLE jobs; --", "Robert", "01-03-2024"]);
}

#[test]
fn remove_binds_the_id() {
    let s = Queries::new().remove_job(-7);
    assert_eq!(s.text, "DELETE FROM jobs WHERE id = ?");
    assert_eq!(texts(&s.params), vec!["#-7"]);
}

#[test]
fn list_reads_every_record() {
    let s = Queries::new().list_jobs();
    assert_eq!(s.text, SELECT);
    assert!(s.params.is_empty());
}

#[test]
fn search_without_filters_is_the_listing_in_date_order() {
    let q = Queries::new();
    for (t, d, w) in [
        (None, None, None),
        (Some(String::new()), None, None),
        (Some(String::new()), Some(String::new()), Some(String::new())),
        (None, Some(String::new()), None),
    ] {
        let s = q.seach_jobs(t, d, w);
        assert_eq!(s.statement.text, format!("{}{}", SELECT, ORDER));
        assert!(s.statement.params.is_empty());
        assert!(!s.date_dropped);
    }
}

#[test]
fn search_by_title_binds_a_pattern() {
    let s = Queries::new().seach_jobs(Some("Eng".to_string()), None, None);
    assert_eq!(
        s.statement.text,
        format!("{} WHERE title LIKE ? ESCAPE '\\'{}", SELECT, ORDER)
    );
    assert_eq!(texts(&s.statement.params), vec!["%Eng%"]);
}

#[test]
fn search_by_every_filter_joins_the_conditions() {
    let s = Queries::new().seach_jobs(
        Some("Eng".to_string()),
        Some("serv".to_string()),
        Some("1-3-2024".to_string()),
    );
    assert_eq!(
        s.statement.text,
        format!(
            "{} WHERE title LIKE ? ESCAPE '\\' AND description LIKE ? ESCAPE '\\' AND date = ?{}",
            SELECT, ORDER
        )
    );
    assert_eq!(texts(&s.statement.params), vec!["%Eng%", "%serv%", "01-03-2024"]);
    assert!(!s.date_dropped);
}

#[test]
fn search_by_description_and_date_only() {
    let s = Queries::new().seach_jobs(
        None,
        Some("dash".to_string()),
        Some("15-02-2024".to_string()),
    );
    assert_eq!(
        s.statement.text,
        format!("{} WHERE description LIKE ? ESCAPE '\\' AND date = ?{}", SELECT, ORDER)
    );
    assert_eq!(texts(&s.statement.params), vec!["%dash%", "15-02-2024"]);
}

#[test]
fn search_drops_a_date_that_is_none() {
    let s = Queries::new().seach_jobs(Some("Eng".to_string()), None, Some("2024-03-01".to_string()));
    assert_eq!(
        s.statement.text,
        format!("{} WHERE title LIKE ? ESCAPE '\\'{}", SELECT, ORDER)
    );
    assert_eq!(texts(&s.statement.params), vec!["%Eng%"]);
    assert!(s.date_dropped);
}

#[test]
fn search_statement_takes_a_date_as_it_is() {
    let filters = Filters {
        title: None,
        description: None,
        date: Date::from_parts(2024, 2, 15),
    };
    let s = Queries::new().search_statement(&filters);
    assert_eq!(s.text, format!("{} WHERE date = ?{}", SELECT, ORDER));
    assert_eq!(texts(&s.params), vec!["15-02-2024"]);
}

#[test]
fn patterns_escape_what_like_reads_specially() {
    assert_eq!(contains_pattern_of("Eng"), "%Eng%");
    assert_eq!(contains_pattern_of(""), "%%");
    assert_eq!(contains_pattern_of("100%"), "%100\\%%");
    assert_eq!(contains_pattern_of("a_b"), "%a\\_b%");
    assert_eq!(contains_pattern_of("a\\b"), "%a\\\\b%");
    assert_eq!(contains_pattern_of("naïve ✓"), "%naïve ✓%");
}

fn row(id: i64, title: &str, description: &str, date: &str) -> Row {
    Row {
        id,
        title: title.to_string(),
        description: description.to_string(),
        date: date.to_string(),
    }
}

#[test]
fn a_row_holds_a_record_when_its_id_and_date_are_in_range() {
    let job = Job::from_row(7, "T".to_string(), "D".to_string(), "1-3-2024").expect("a record");
    assert_eq!((job.id, job.title.as_str(), job.description.as_str()), (7, "T", "D"));
    assert_eq!(job.date.to_text(), "01-03-2024");
    assert!(Job::from_row(2147483647, "T".to_string(), "D".to_string(), "01-03-2024").is_some());
    assert!(Job::from_row(2147483648, "T".to_string(), "D".to_string(), "01-03-2024").is_none());
    assert!(Job::from_row(-2147483648, "T".to_string(), "D".to_string(), "01-03-2024").is_some());
    assert!(Job::from_row(-2147483649, "T".to_string(), "D".to_string(), "01-03-2024").is_none());
    assert!(Job::from_row(1, "T".to_string(), "D".to_string(), "2024-03-01").is_none());
    assert!(Job::from_row(1, String::new(), String::new(), "01-03-2024").is_some());
}

#[test]
fn rows_are_read_in_order_and_the_bad_ones_noted() {
    let rows = vec![
        row(1, "A", "a", "01-03-2024"),
        row(2, "B", "b", "not a date"),
        row(5_000_000_000, "C", "c", "02-03-2024"),
        row(4, "D", "d", "03-03-2024"),
        row(5, "E", "e", ""),
    ];
    let listing = read_rows(&rows);
    let found: Vec<(i32, String, String)> =
        listing.jobs.iter().map(|j| (j.id, j.title.clone(), j.date.to_text())).collect();
    assert_eq!(
        found,
        vec![
            (1, "A".to_string(), "01-03-2024".to_string()),
            (4, "D".to_string(), "03-03-2024".to_string()),
        ]
    );
    assert_eq!(listing.skipped, vec![1, 2, 4]);
    let empty = read_rows(&Vec::new());
    assert!(empty.jobs.is_empty() && empty.skipped.is_empty());
}

#[test]
fn add_today_dates_the_record_by_the_clock() {
    let s = Queries::new()
        .add_job_today("T".to_string(), "D".to_string())
        .expect("the clock gives a date");
    assert_eq!(s.text, "INSERT INTO jobs (title, description, date) VALUES (?, ?, ?)");
    let bound = texts(&s.params);
    assert_eq!(bound.len(), 3);
    assert_eq!((bound[0].as_str(), bound[1].as_str()), ("T", "D"));
    let date = Date::parse(&bound[2]).expect("a canonical date");
    assert_eq!(date.to_text(), bound[2]);
}

#[test]
fn a_record_needs_a_title_and_a_description() {
    assert!(fields_populated("T", "D"));
    assert!(fields_populated(" ", " "));
    assert!(!fields_populated("", "D"));
    assert!(!fields_populated("T", ""));
    assert!(!fields_populated("", ""));
}
