//! The store's location, its schema and the statements sent to it.
//!
//! Every value that comes from a caller travels as a bound parameter: the
//! statement texts are fixed and hold only `?` placeholders.

use crate::date::{date_text, is_calendar_date, parsed_date, Date, DateView};
use crate::error::ErrorKind;
use vstd::prelude::*;
use vstd::string::*;

verus! {

/// A value bound to a `?` placeholder.
#[derive(Debug)]
pub enum Value {
    Integer(i64),
    Text(String),
}

/// What a bound value is.
pub enum ValueView {
    Integer(int),
    Text(Seq<char>),
}

impl View for Value {
    type V = ValueView;

    open spec fn view(&self) -> ValueView {
        match self {
            Value::Integer(i) => ValueView::Integer(*i as int),
            Value::Text(s) => ValueView::Text(s@),
        }
    }
}

/// A statement for the store: its text and the values for its placeholders,
/// in the order of the placeholders.
#[derive(Debug)]
pub struct Statement {
    pub text: String,
    pub params: Vec<Value>,
}

/// What a statement is.
pub struct StatementView {
    pub text: Seq<char>,
    pub params: Seq<ValueView>,
}

impl View for Statement {
    type V = StatementView;

    open spec fn view(&self) -> StatementView {
        StatementView { text: self.text@, params: self.params@.map_values(|v: Value| v@) }
    }
}

/// The constraints of a search that are in force.
#[derive(Debug)]
pub struct Filters {
    /// The title has to contain this text.
    pub title: Option<String>,
    /// The description has to contain this text.
    pub description: Option<String>,
    /// The date has to be this one.
    pub date: Option<Date>,
}

/// What a set of search constraints is.
pub struct FiltersView {
    pub title: Option<Seq<char>>,
    pub description: Option<Seq<char>>,
    pub date: Option<DateView>,
}

/// What an optional text is.
pub open spec fn text_view(text: Option<String>) -> Option<Seq<char>> {
    match text {
        Some(s) => Some(s@),
        None => None,
    }
}

impl View for Filters {
    type V = FiltersView;

    open spec fn view(&self) -> FiltersView {
        FiltersView {
            title: text_view(self.title),
            description: text_view(self.description),
            date: match self.date {
                Some(d) => Some(d@),
                None => None,
            },
        }
    }
}

/// A search statement, and whether a date filter had to be left out of it.
#[derive(Debug)]
pub struct Search {
    pub statement: Statement,
    /// A date filter was given, was not empty, and denoted no date.
    pub date_dropped: bool,
}

/// Creates the table of job records. `AUTOINCREMENT` keeps the id of a
/// deleted record from being given out again.
pub open spec fn create_table_text() -> Seq<char> {
    "CREATE TABLE jobs (id INTEGER PRIMARY KEY AUTOINCREMENT, title TEXT NOT NULL, description TEXT NOT NULL, date DATE NOT NULL)"@
}

/// Drops the table, and with it the records and the id sequence.
pub open spec fn drop_table_text() -> Seq<char> {
    "DROP TABLE jobs"@
}

/// Inserts a record; the store assigns the id.
pub open spec fn insert_text() -> Seq<char> {
    "INSERT INTO jobs (title, description, date) VALUES (?, ?, ?)"@
}

/// Reads every record.
pub open spec fn select_text() -> Seq<char> {
    "SELECT id, title, description, date FROM jobs"@
}

/// Deletes the record with the bound id.
pub open spec fn delete_text() -> Seq<char> {
    "DELETE FROM jobs WHERE id = ?"@
}

/// The title has to match the bound pattern; `\` takes the special meaning
/// from the character after it. SQLite's `LIKE` makes no difference between
/// an ASCII capital and its small letter, and tells all other characters
/// apart.
pub open spec fn title_clause() -> Seq<char> {
    "title LIKE ? ESCAPE '\\'"@
}

/// The description has to match the bound pattern, as the title does.
pub open spec fn description_clause() -> Seq<char> {
    "description LIKE ? ESCAPE '\\'"@
}

/// The stored date has to be the bound date.
pub open spec fn date_clause() -> Seq<char> {
    "date = ?"@
}

/// Ascending by calendar date, read out of the stored `dd-mm-yyyy`, and by
/// id among equal dates.
pub open spec fn order_text() -> Seq<char> {
    " ORDER BY substr(date, 7, 4), substr(date, 4, 2), substr(date, 1, 2), id"@
}

/// A character of a filter as it stands in a `LIKE` pattern: `\`, `%` and
/// `_` get a `\` in front, so that they match only themselves.
pub open spec fn like_escaped_char(c: char) -> Seq<char> {
    if c == '\\' || c == '%' || c == '_' {
        seq!['\\', c]
    } else {
        seq![c]
    }
}

/// A filter text as it stands in a `LIKE` pattern.
pub open spec fn like_escaped(s: Seq<char>) -> Seq<char>
    decreases s.len(),
{
    if s.len() == 0 {
        Seq::empty()
    } else {
        like_escaped(s.drop_last()) + like_escaped_char(s.last())
    }
}

/// The `LIKE` pattern that matches the texts that contain `s`.
pub open spec fn contains_pattern(s: Seq<char>) -> Seq<char> {
    seq!['%'] + like_escaped(s) + seq!['%']
}

/// A text filter that is in force: one that was given and is not empty.
pub open spec fn text_filter(raw: Option<Seq<char>>) -> Option<Seq<char>> {
    match raw {
        Some(t) => if t.len() > 0 {
            Some(t)
        } else {
            None
        },
        None => None,
    }
}

/// A date filter that is in force: one that was given, is not empty and
/// denotes a date.
pub open spec fn date_filter(raw: Option<Seq<char>>) -> Option<DateView> {
    match raw {
        Some(t) => if t.len() > 0 {
            parsed_date(t)
        } else {
            None
        },
        None => None,
    }
}

/// Whether a date filter was given, is not empty, and denotes no date.
pub open spec fn date_filter_dropped(raw: Option<Seq<char>>) -> bool {
    raw matches Some(t) && t.len() > 0 && parsed_date(t) is None
}

/// The conditions of a search, one for each constraint in force, in the
/// order title, description, date.
pub open spec fn search_clauses(f: FiltersView) -> Seq<Seq<char>> {
    (if text_filter(f.title) is Some {
        seq![title_clause()]
    } else {
        Seq::empty()
    }) + (if text_filter(f.description) is Some {
        seq![description_clause()]
    } else {
        Seq::empty()
    }) + (if f.date is Some {
        seq![date_clause()]
    } else {
        Seq::empty()
    })
}

/// The values bound to the conditions of a search, in the same order.
pub open spec fn search_params(f: FiltersView) -> Seq<ValueView> {
    (match text_filter(f.title) {
        Some(t) => seq![ValueView::Text(contains_pattern(t))],
        None => Seq::empty(),
    }) + (match text_filter(f.description) {
        Some(t) => seq![ValueView::Text(contains_pattern(t))],
        None => Seq::empty(),
    }) + (match f.date {
        Some(d) => seq![ValueView::Text(date_text(d, '-'))],
        None => Seq::empty(),
    })
}

/// The conditions joined by `AND` behind `WHERE`; nothing when there is none.
pub open spec fn where_text(clauses: Seq<Seq<char>>) -> Seq<char>
    decreases clauses.len(),
{
    if clauses.len() == 0 {
        Seq::empty()
    } else if clauses.len() == 1 {
        " WHERE "@ + clauses[0]
    } else {
        where_text(clauses.drop_last()) + " AND "@ + clauses.last()
    }
}

/// The statement that finds the records that meet every constraint in force.
pub open spec fn search_statement(f: FiltersView) -> StatementView {
    StatementView {
        text: select_text() + where_text(search_clauses(f)) + order_text(),
        params: search_params(f),
    }
}

/// Where the store of the user whose home directory is `home` lies.
pub open spec fn store_path(home: Seq<char>) -> Seq<char> {
    home + "/.local/share/job_search/job_search.db"@
}

/// Builds the `LIKE` pattern that matches the texts that contain `s`.
pub fn contains_pattern_of(s: &str) -> (r: String)
    ensures
        r@ == contains_pattern(s@),
{
    let mut out = String::new();
    out.push('%');
    for c in it: s.chars()
        invariant
            it.seq() == s@,
            out@ == seq!['%'] + like_escaped(s@.take(it.index() as int)),
    {
        assert(s@.take(it.index() + 1).drop_last() =~= s@.take(it.index() as int));
        if c == '\\' || c == '%' || c == '_' {
            out.push('\\');
        }
        out.push(c);
        assert(out@ =~= seq!['%'] + like_escaped(s@.take(it.index() + 1)));
    }
    assert(s@.take(s@.len() as int) =~= s@);
    out.push('%');
    out
}

/// The store of one user: where it lies on disk.
#[derive(Debug)]
pub struct DB {
    pub path: String,
}

impl DB {
    /// The store of the user whose home directory is `home`.
    pub fn new(home: &str) -> (r: DB)
        ensures
            r.path@ == store_path(home@),
    {
        let mut path = String::new();
        path.append(home);
        path.append("/.local/share/job_search/job_search.db");
        assert(path@ =~= store_path(home@));
        DB { path }
    }

    /// The statement that creates the table of job records.
    pub fn migrate_db() -> (r: Statement)
        ensures
            r@.text == create_table_text(),
            r@.params.len() == 0,
    {
        Statement {
            text: "CREATE TABLE jobs (id INTEGER PRIMARY KEY AUTOINCREMENT, title TEXT NOT NULL, description TEXT NOT NULL, date DATE NOT NULL)".to_owned(),
            params: Vec::new(),
        }
    }

    /// The statements that clear the store, in the order to run them: the
    /// table is dropped, with its records and its id sequence, and created
    /// again.
    pub fn drop_db(&self) -> (r: Vec<Statement>)
        ensures
            r.len() == 2,
            r[0]@.text == drop_table_text(),
            r[0]@.params.len() == 0,
            r[1]@.text == create_table_text(),
            r[1]@.params.len() == 0,
    {
        let mut out: Vec<Statement> = Vec::new();
        out.push(Statement { text: "DROP TABLE jobs".to_owned(), params: Vec::new() });
        out.push(DB::migrate_db());
        out
    }
}

/// The statements of the tracker's operations on the table of job records.
#[derive(Debug)]
pub struct Queries {}

impl Queries {
    /// The statements hold no state of their own.
    pub fn new() -> (r: Queries) {
        Queries {  }
    }

    /// The statement that inserts a record with the given fields; the store
    /// assigns the id. The fields are taken as they are.
    pub fn add_job(&self, title: String, description: String, date: String) -> (r: Statement)
        ensures
            r@.text == insert_text(),
            r@.params == seq![
                ValueView::Text(title@),
                ValueView::Text(description@),
                ValueView::Text(date@),
            ],
    {
        let mut params: Vec<Value> = Vec::new();
        params.push(Value::Text(title));
        params.push(Value::Text(description));
        params.push(Value::Text(date));
        let r = Statement {
            text: "INSERT INTO jobs (title, description, date) VALUES (?, ?, ?)".to_owned(),
            params,
        };
        assert(r@.params =~= seq![
            ValueView::Text(title@),
            ValueView::Text(description@),
            ValueView::Text(date@),
        ]);
        r
    }

    /// The statement that inserts a record with the given title and
    /// description, dated today by the clock. Fails with `Parse` where the
    /// clock gives no date of the years 0 to 9999.
    pub fn add_job_today(&self, title: String, description: String) -> (r: Result<
        Statement,
        ErrorKind,
    >)
        ensures
            match r {
                Ok(s) => s@.text == insert_text() && exists|today: DateView|
                    is_calendar_date(today.year, today.month, today.day) && s@.params == seq![
                        ValueView::Text(title@),
                        ValueView::Text(description@),
                        ValueView::Text(date_text(today, '-')),
                    ],
                Err(e) => e == ErrorKind::Parse,
            },
    {
        match Date::today() {
            Some(today) => {
                let s = self.add_job(title, description, today.to_text());
                assert(is_calendar_date(today@.year, today@.month, today@.day) && s@.params
                    == seq![
                    ValueView::Text(title@),
                    ValueView::Text(description@),
                    ValueView::Text(date_text(today@, '-')),
                ]);
                Ok(s)
            },
            None => Err(ErrorKind::Parse),
        }
    }

    /// The statement that reads every record, in the store's row order.
    pub fn list_jobs(&self) -> (r: Statement)
        ensures
            r@.text == select_text(),
            r@.params.len() == 0,
    {
        Statement {
            text: "SELECT id, title, description, date FROM jobs".to_owned(),
            params: Vec::new(),
        }
    }

    /// The statement that deletes the record with the given id, if there is
    /// one.
    pub fn remove_job(&self, id: i32) -> (r: Statement)
        ensures
            r@.text == delete_text(),
            r@.params == seq![ValueView::Integer(id as int)],
    {
        let mut params: Vec<Value> = Vec::new();
        params.push(Value::Integer(id as i64));
        let r = Statement { text: "DELETE FROM jobs WHERE id = ?".to_owned(), params };
        assert(r@.params =~= seq![ValueView::Integer(id as int)]);
        r
    }

    /// The statement that finds the records that meet every constraint in
    /// force, ascending by date. A text constraint that is empty is not in
    /// force.
    pub fn search_statement(&self, filters: &Filters) -> (r: Statement)
        ensures
            r@ == search_statement(filters@),
    {
        let mut text = "SELECT id, title, description, date FROM jobs".to_owned();
        let mut params: Vec<Value> = Vec::new();
        let ghost mut clauses: Seq<Seq<char>> = Seq::empty();
        let mut any = false;
        if let Some(t) = &filters.title {
            if !t.as_str().is_empty() {
                text.append(" WHERE ");
                text.append("title LIKE ? ESCAPE '\\'");
                params.push(Value::Text(contains_pattern_of(t.as_str())));
                any = true;
                proof {
                    clauses = clauses.push(title_clause());
                }
            }
        }
        assert(text@ =~= select_text() + where_text(clauses));
        assert(params@.map_values(|v: Value| v@) =~= (match text_filter(filters@.title) {
            Some(t) => seq![ValueView::Text(contains_pattern(t))],
            None => Seq::empty(),
        }));
        let ghost params1 = params@.map_values(|v: Value| v@);
        let ghost clauses1 = clauses;
        if let Some(t) = &filters.description {
            if !t.as_str().is_empty() {
                if any {
                    text.append(" AND ");
                } else {
                    text.append(" WHERE ");
                }
                text.append("description LIKE ? ESCAPE '\\'");
                params.push(Value::Text(contains_pattern_of(t.as_str())));
                any = true;
                proof {
                    clauses = clauses.push(description_clause());
                    assert(clauses.drop_last() =~= clauses1);
                }
            }
        }
        assert(any == (clauses.len() > 0));
        assert(text@ =~= select_text() + where_text(clauses));
        let ghost params2 = params@.map_values(|v: Value| v@);
        assert(params2 =~= params1 + (match text_filter(filters@.description) {
            Some(t) => seq![ValueView::Text(contains_pattern(t))],
            None => Seq::empty(),
        }));
        let ghost clauses2 = clauses;
        if let Some(d) = &filters.date {
            if any {
                text.append(" AND ");
            } else {
                text.append(" WHERE ");
            }
            text.append("date = ?");
            params.push(Value::Text(d.to_text()));
            proof {
                clauses = clauses.push(date_clause());
                assert(clauses.drop_last() =~= clauses2);
            }
        }
        assert(text@ =~= select_text() + where_text(clauses));
        assert(clauses =~= search_clauses(filters@));
        assert(params@.map_values(|v: Value| v@) =~= params2 + (match filters@.date {
            Some(d) => seq![ValueView::Text(date_text(d, '-'))],
            None => Seq::empty(),
        }));
        text.append(" ORDER BY substr(date, 7, 4), substr(date, 4, 2), substr(date, 1, 2), id");
        let r = Statement { text, params };
        assert(r@.text =~= search_statement(filters@).text);
        assert(r@.params =~= search_statement(filters@).params);
        r
    }

    /// The search for the given filters. A filter that is absent or empty
    /// imposes nothing. A date filter is read as a day-month-year date; one
    /// that denotes no date is left out, and `date_dropped` says so.
    pub fn seach_jobs(
        &self,
        title: Option<String>,
        description: Option<String>,
        date: Option<String>,
    ) -> (r: Search)
        ensures
            r.statement@ == search_statement(
                FiltersView {
                    title: text_view(title),
                    description: text_view(description),
                    date: date_filter(text_view(date)),
                },
            ),
            r.date_dropped == date_filter_dropped(text_view(date)),
    {
        let mut date_dropped = false;
        let parsed: Option<Date> = match &date {
            Some(t) => {
                if t.as_str().is_empty() {
                    None
                } else {
                    let d = Date::parse(t.as_str());
                    date_dropped = d.is_none();
                    d
                }
            },
            None => None,
        };
        let filters = Filters { title, description, date: parsed };
        let statement = self.search_statement(&filters);
        Search { statement, date_dropped }
    }
}

/// A search on which every filter is absent or empty asks for the records
/// that a listing asks for: its statement is the listing's with the ordering
/// behind it, and binds no value.
pub proof fn lemma_search_without_filters(
    title: Option<Seq<char>>,
    description: Option<Seq<char>>,
    date: Option<Seq<char>>,
)
    requires
        title matches Some(t) ==> t.len() == 0,
        description matches Some(t) ==> t.len() == 0,
        date matches Some(t) ==> t.len() == 0,
    ensures
        search_statement(FiltersView { title, description, date: date_filter(date) }).text
            == select_text() + order_text(),
        search_statement(FiltersView { title, description, date: date_filter(date) }).params.len()
            == 0,
        !date_filter_dropped(date),
{
    let f = FiltersView { title, description, date: date_filter(date) };
    assert(search_clauses(f) =~= Seq::empty());
    assert(select_text() + where_text(search_clauses(f)) + order_text() =~= select_text()
        + order_text());
}

/// No filter value reaches the text of a search: two searches with the same
/// constraints in force have the same text, whatever the constraints hold.
pub proof fn lemma_search_text_ignores_values(f: FiltersView, g: FiltersView)
    requires
        text_filter(f.title) is Some <==> text_filter(g.title) is Some,
        text_filter(f.description) is Some <==> text_filter(g.description) is Some,
        f.date is Some <==> g.date is Some,
    ensures
        search_statement(f).text == search_statement(g).text,
        search_statement(f).params.len() == search_statement(g).params.len(),
        search_statement(f).params.len() == search_clauses(f).len(),
{
    assert(search_clauses(f) =~= search_clauses(g));
}

/// Whether `c` has a special meaning in a `LIKE` pattern.
pub open spec fn is_like_special(c: char) -> bool {
    c == '\\' || c == '%' || c == '_'
}

/// A filter without special characters stands in its pattern as it is,
/// between two `%`.
pub proof fn lemma_pattern_of_plain_text(s: Seq<char>)
    requires
        forall|i: int| 0 <= i < s.len() ==> !is_like_special(#[trigger] s[i]),
    ensures
        contains_pattern(s) == seq!['%'] + s + seq!['%'],
{
    lemma_plain_text_unchanged(s);
}

/// Escaping changes nothing in a text without special characters.
pub proof fn lemma_plain_text_unchanged(s: Seq<char>)
    requires
        forall|i: int| 0 <= i < s.len() ==> !is_like_special(#[trigger] s[i]),
    ensures
        like_escaped(s) == s,
    decreases s.len(),
{
    if s.len() > 0 {
        lemma_plain_text_unchanged(s.drop_last());
        assert(like_escaped(s) =~= s);
    } else {
        assert(like_escaped(s) =~= s);
    }
}

/// In an escaped filter every `%` and `_` has a `\` before it that no other
/// `\` escapes: read from the left, taking a `\` together with the
/// character behind it, no `%` or `_` is met on its own.
pub open spec fn fully_escaped(p: Seq<char>) -> bool
    decreases p.len(),
{
    if p.len() == 0 {
        true
    } else if p[0] == '\\' {
        p.len() >= 2 && fully_escaped(p.skip(2))
    } else {
        p[0] != '%' && p[0] != '_' && fully_escaped(p.skip(1))
    }
}

/// Two escaped texts of which the first is read to its end stay escaped when
/// joined.
pub proof fn lemma_fully_escaped_concat(a: Seq<char>, b: Seq<char>)
    requires
        fully_escaped(a),
        fully_escaped(b),
    ensures
        fully_escaped(a + b),
    decreases a.len(),
{
    if a.len() == 0 {
        assert(a + b =~= b);
    } else if a[0] == '\\' {
        assert((a + b).skip(2) =~= a.skip(2) + b);
        lemma_fully_escaped_concat(a.skip(2), b);
    } else {
        assert((a + b).skip(1) =~= a.skip(1) + b);
        lemma_fully_escaped_concat(a.skip(1), b);
    }
}

/// No character of a filter keeps a special meaning in its pattern: whatever
/// the filter holds, every `%`, `_` and `\` of it is escaped.
pub proof fn lemma_like_escaped_is_literal(s: Seq<char>)
    ensures
        fully_escaped(like_escaped(s)),
    decreases s.len(),
{
    if s.len() > 0 {
        lemma_like_escaped_is_literal(s.drop_last());
        let c = s.last();
        let e = like_escaped_char(c);
        assert(fully_escaped(e)) by {
            reveal_with_fuel(fully_escaped, 2);
            if is_like_special(c) {
                assert(e.skip(2) =~= Seq::<char>::empty());
            } else {
                assert(e.skip(1) =~= Seq::<char>::empty());
            }
        }
        lemma_fully_escaped_concat(like_escaped(s.drop_last()), e);
    }
}

/// The text that an escaped filter stands for: each `\\` is taken off and
/// the character behind it kept.
pub open spec fn like_literal(p: Seq<char>) -> Seq<char>
    decreases p.len(),
{
    if p.len() == 0 {
        Seq::empty()
    } else if p[0] == '\\' && p.len() >= 2 {
        seq![p[1]] + like_literal(p.skip(2))
    } else {
        seq![p[0]] + like_literal(p.skip(1))
    }
}

/// A filter in two parts is escaped part by part.
pub proof fn lemma_like_escaped_concat(a: Seq<char>, b: Seq<char>)
    ensures
        like_escaped(a + b) == like_escaped(a) + like_escaped(b),
    decreases b.len(),
{
    if b.len() == 0 {
        assert(a + b =~= a);
        assert(like_escaped(a) + like_escaped(b) =~= like_escaped(a));
    } else {
        assert((a + b).drop_last() =~= a + b.drop_last());
        lemma_like_escaped_concat(a, b.drop_last());
        assert(like_escaped(a + b) =~= like_escaped(a) + like_escaped(b));
    }
}

/// The pattern of a filter stands for the filter and nothing else: taking
/// the escapes off gives the filter back.
pub proof fn lemma_like_escaped_stands_for(s: Seq<char>)
    ensures
        like_literal(like_escaped(s)) == s,
    decreases s.len(),
{
    if s.len() > 0 {
        let head = seq![s[0]];
        let tail = s.skip(1);
        assert(s =~= head + tail);
        lemma_like_escaped_concat(head, tail);
        assert(like_escaped(head) =~= like_escaped_char(s[0])) by {
            reveal_with_fuel(like_escaped, 2);
            assert(head.drop_last() =~= Seq::<char>::empty());
        }
        lemma_like_escaped_stands_for(tail);
        let e = like_escaped_char(s[0]) + like_escaped(tail);
        if is_like_special(s[0]) {
            assert(e[0] == '\\' && e[1] == s[0]);
            assert(e.skip(2) =~= like_escaped(tail));
        } else {
            assert(e[0] == s[0]);
            assert(e.skip(1) =~= like_escaped(tail));
        }
        assert(seq![s[0]] + tail =~= s);
    }
}

} // verus!
