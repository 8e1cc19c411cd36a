//! The job record.

use crate::date::{parsed_date, Date, DateView};
use vstd::prelude::*;
use vstd::string::*;

verus! {

/// One job application: what was applied for, and when.
#[derive(Debug)]
pub struct Job {
    /// Assigned by the store when the record is created.
    pub id: i32,
    pub title: String,
    pub description: String,
    pub date: Date,
}

/// What a job record is.
pub struct JobView {
    pub id: int,
    pub title: Seq<char>,
    pub description: Seq<char>,
    pub date: DateView,
}

impl View for Job {
    type V = JobView;

    open spec fn view(&self) -> JobView {
        JobView {
            id: self.id as int,
            title: self.title@,
            description: self.description@,
            date: self.date@,
        }
    }
}

/// Whether a title and a description may go into a record: each has to
/// hold something.
pub open spec fn is_populated(title: Seq<char>, description: Seq<char>) -> bool {
    title.len() > 0 && description.len() > 0
}

/// Tests whether a title and a description may go into a record. The
/// store takes the fields as they are given, so whoever adds a record asks
/// here first.
pub fn fields_populated(title: &str, description: &str) -> (r: bool)
    ensures
        r == is_populated(title@, description@),
{
    !title.is_empty() && !description.is_empty()
}

/// What a list of job records is.
pub open spec fn jobs_view(jobs: Seq<Job>) -> Seq<JobView> {
    jobs.map_values(|j: Job| j@)
}

/// A row of the table of job records, as the store hands it out.
#[derive(Debug)]
pub struct Row {
    pub id: i64,
    pub title: String,
    pub description: String,
    /// The date column: a date written `dd-mm-yyyy`.
    pub date: String,
}

/// What a row is.
pub struct RowView {
    pub id: int,
    pub title: Seq<char>,
    pub description: Seq<char>,
    pub date: Seq<char>,
}

impl View for Row {
    type V = RowView;

    open spec fn view(&self) -> RowView {
        RowView {
            id: self.id as int,
            title: self.title@,
            description: self.description@,
            date: self.date@,
        }
    }
}

/// What a list of rows is.
pub open spec fn rows_view(rows: Seq<Row>) -> Seq<RowView> {
    rows.map_values(|r: Row| r@)
}

/// The record that a row holds: its id has to fit an `i32` and its date
/// column has to denote a date.
pub open spec fn row_job(row: RowView) -> Option<JobView> {
    if i32::MIN <= row.id <= i32::MAX {
        match parsed_date(row.date) {
            Some(date) => Some(
                JobView { id: row.id, title: row.title, description: row.description, date },
            ),
            None => None,
        }
    } else {
        None
    }
}

/// The records that the rows hold, in the order of the rows; a row that
/// holds none is left out.
pub open spec fn rows_jobs(rows: Seq<RowView>) -> Seq<JobView>
    decreases rows.len(),
{
    if rows.len() == 0 {
        Seq::empty()
    } else {
        rows_jobs(rows.drop_last()) + (match row_job(rows.last()) {
            Some(job) => seq![job],
            None => Seq::empty(),
        })
    }
}

/// The records of a listing, and the rows that held none.
#[derive(Debug)]
pub struct Listing {
    pub jobs: Vec<Job>,
    /// The indices of the rows that were left out, ascending.
    pub skipped: Vec<usize>,
}

impl Job {
    /// The record that a row of the store holds: its id has to fit an `i32`
    /// and its date column has to denote a date.
    pub fn from_row(id: i64, title: String, description: String, date: &str) -> (r: Option<Job>)
        ensures
            match r {
                Some(job) => row_job(
                    RowView {
                        id: id as int,
                        title: title@,
                        description: description@,
                        date: date@,
                    },
                ) == Some(job@),
                None => row_job(
                    RowView {
                        id: id as int,
                        title: title@,
                        description: description@,
                        date: date@,
                    },
                ) is None,
            },
    {
        if id < -2147483648 || id > 2147483647 {
            return None;
        }
        match Date::parse(date) {
            Some(d) => Some(Job { id: id as i32, title, description, date: d }),
            None => None,
        }
    }
}

/// Reads the records out of the rows of a listing, in the order of the
/// rows. A row that holds no record is left out and its index noted, so
/// that the caller can report it.
pub fn read_rows(rows: &Vec<Row>) -> (r: Listing)
    ensures
        jobs_view(r.jobs@) == rows_jobs(rows_view(rows@)),
        forall|i: int|
            0 <= i < rows.len() ==> (r.skipped@.contains(i as usize) <==> row_job(
                #[trigger] rows[i]@,
            ) is None),
        forall|k: int| 0 <= k < r.skipped.len() ==> #[trigger] r.skipped[k] < rows.len(),
        forall|k: int, l: int| 0 <= k < l < r.skipped.len() ==> r.skipped[k] < r.skipped[l],
{
    let ghost view = rows_view(rows@);
    let mut jobs: Vec<Job> = Vec::new();
    let mut skipped: Vec<usize> = Vec::new();
    let mut i: usize = 0;
    while i < rows.len()
        invariant
            i <= rows.len(),
            view == rows_view(rows@),
            jobs_view(jobs@) == rows_jobs(view.take(i as int)),
            forall|j: int|
                0 <= j < i ==> (skipped@.contains(j as usize) <==> row_job(#[trigger] rows[j]@)
                    is None),
            forall|k: int| 0 <= k < skipped.len() ==> #[trigger] skipped[k] < i,
            forall|k: int, l: int| 0 <= k < l < skipped.len() ==> skipped[k] < skipped[l],
        decreases rows.len() - i,
    {
        let row = &rows[i];
        let ghost before = jobs@;
        let ghost skipped_before = skipped@;
        assert(view.take(i + 1).drop_last() =~= view.take(i as int));
        assert(view.take(i + 1).last() == rows[i as int]@);
        match Job::from_row(row.id, row.title.clone(), row.description.clone(), row.date.as_str()) {
            Some(job) => {
                jobs.push(job);
                assert(jobs_view(jobs@) =~= jobs_view(before) + seq![job@]);
            },
            None => {
                skipped.push(i);
                assert(skipped@.last() == i);
                assert(jobs_view(jobs@) =~= jobs_view(before) + Seq::<JobView>::empty());
            },
        }
        assert forall|j: int| 0 <= j < i + 1 implies (skipped@.contains(j as usize) <==> row_job(
            #[trigger] rows[j]@,
        ) is None) by {
            if skipped@.len() > skipped_before.len() {
                assert(skipped@ =~= skipped_before.push(i));
                if skipped_before.contains(j as usize) {
                    let k = choose|k: int|
                        0 <= k < skipped_before.len() && skipped_before[k] == j as usize;
                    assert(skipped@[k] == j as usize);
                }
                if skipped@.contains(j as usize) && j < i {
                    let k = choose|k: int| 0 <= k < skipped@.len() && skipped@[k] == j as usize;
                    assert(k < skipped_before.len());
                    assert(skipped_before[k] == j as usize);
                }
            } else {
                assert(skipped@ =~= skipped_before);
                if j == i && skipped@.contains(j as usize) {
                    let k = choose|k: int| 0 <= k < skipped@.len() && skipped@[k] == j as usize;
                    assert(skipped@[k] < i);
                }
            }
        }
        i += 1;
    }
    assert(view.take(rows.len() as int) =~= view);
    Listing { jobs, skipped }
}

} // verus!
