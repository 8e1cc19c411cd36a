//! The page that lists the records.

use crate::date::date_text;
use crate::decimal::{signed_string, signed_text};
use crate::job::{jobs_view, Job, JobView};
use crate::text::{bytes_of, has_prefix, matches_at, push_str};
use vstd::prelude::*;
use vstd::string::*;

verus! {

/// `text` with every occurrence of `pat` replaced by `with`, found from the
/// left, an occurrence never overlapping the one before it. An empty `pat`
/// occurs nowhere.
pub open spec fn replaced(text: Seq<u8>, pat: Seq<u8>, with: Seq<u8>) -> Seq<u8>
    decreases text.len(),
{
    if pat.len() == 0 || text.len() < pat.len() {
        text
    } else if has_prefix(text, pat) {
        with + replaced(text.skip(pat.len() as int), pat, with)
    } else {
        seq![text[0]] + replaced(text.skip(1), pat, with)
    }
}

/// The form whose button deletes the record `id`.
pub open spec fn delete_form(id: int) -> Seq<u8> {
    bytes_of("<form action=\"/delete/"@) + bytes_of(signed_text(id)) + bytes_of(
        "\" method=\"POST\" class='delete-btn-form'>\n                    <button type=\"submit\">Delete</button>\n                </form>"@,
    )
}

/// The table row of a record: id, title, description, the date written
/// `dd/mm/yyyy`, and the delete form.
pub open spec fn html_row(j: JobView) -> Seq<u8> {
    bytes_of("<tr><td>"@) + bytes_of(signed_text(j.id)) + bytes_of("</td><td>"@) + bytes_of(j.title)
        + bytes_of("</td><td>"@) + bytes_of(j.description) + bytes_of("</td><td>"@) + bytes_of(
        date_text(j.date, '/'),
    ) + bytes_of("</td><td>"@) + delete_form(j.id) + bytes_of("</td></tr>"@)
}

/// The table rows of the records, in list order.
pub open spec fn html_rows(jobs: Seq<JobView>) -> Seq<u8>
    decreases jobs.len(),
{
    if jobs.len() == 0 {
        Seq::empty()
    } else {
        html_rows(jobs.drop_last()) + html_row(jobs.last())
    }
}

/// The page: the template with the table rows in place of `{content}`.
pub open spec fn index_page(template: Seq<char>, jobs: Seq<JobView>) -> Seq<u8> {
    replaced(bytes_of(template), bytes_of("{content}"@), html_rows(jobs))
}

/// Replaces every occurrence of `pat` in `text` by `with`.
pub fn replace_all(text: &[u8], pat: &[u8], with: &[u8]) -> (r: Vec<u8>)
    ensures
        r@ == replaced(text@, pat@, with@),
{
    let mut out: Vec<u8> = Vec::new();
    if pat.len() == 0 {
        out.extend_from_slice(text);
        return out;
    }
    let mut i: usize = 0;
    assert(text@.skip(0) =~= text@);
    while i < text.len() && text.len() - i >= pat.len()
        invariant
            i <= text.len(),
            pat.len() > 0,
            out@ + replaced(text@.skip(i as int), pat@, with@) == replaced(text@, pat@, with@),
        decreases text.len() - i,
    {
        let ghost rest = text@.skip(i as int);
        let ghost before = out@;
        if matches_at(text, pat, i) {
            assert(rest.subrange(0, pat.len() as int) =~= text@.subrange(
                i as int,
                i + pat.len(),
            ));
            out.extend_from_slice(with);
            assert(rest.skip(pat.len() as int) =~= text@.skip(i + pat.len()));
            i += pat.len();
            assert(out@ + replaced(text@.skip(i as int), pat@, with@) =~= before + (with@
                + replaced(rest.skip(pat.len() as int), pat@, with@)));
        } else {
            assert(rest.subrange(0, pat.len() as int) =~= text@.subrange(
                i as int,
                i + pat.len(),
            ));
            out.push(text[i]);
            assert(rest.skip(1) =~= text@.skip(i + 1));
            i += 1;
            assert(out@ + replaced(text@.skip(i as int), pat@, with@) =~= before + (seq![rest[0]]
                + replaced(rest.skip(1), pat@, with@)));
        }
    }
    let tail = vstd::slice::slice_subrange(text, i, text.len());
    assert(tail@ =~= text@.skip(i as int));
    out.extend_from_slice(tail);
    out
}

/// Appends the table row of a record to `out`.
pub fn push_html_row(out: &mut Vec<u8>, job: &Job)
    ensures
        final(out)@ == old(out)@ + html_row(job@),
{
    let id = signed_string(job.id as i64);
    push_str(out, "<tr><td>");
    push_str(out, id.as_str());
    push_str(out, "</td><td>");
    push_str(out, job.title.as_str());
    push_str(out, "</td><td>");
    push_str(out, job.description.as_str());
    push_str(out, "</td><td>");
    push_str(out, job.date.format('/').as_str());
    push_str(out, "</td><td>");
    let ghost before = out@;
    push_str(out, "<form action=\"/delete/");
    push_str(out, id.as_str());
    push_str(
        out,
        "\" method=\"POST\" class='delete-btn-form'>\n                    <button type=\"submit\">Delete</button>\n                </form>",
    );
    assert(out@ =~= before + delete_form(job@.id));
    push_str(out, "</td></tr>");
    assert(final(out)@ =~= old(out)@ + html_row(job@));
}

/// The table rows of the records, in list order.
pub fn render_rows(jobs: &Vec<Job>) -> (r: Vec<u8>)
    ensures
        r@ == html_rows(jobs_view(jobs@)),
{
    let ghost view = jobs_view(jobs@);
    let mut out: Vec<u8> = Vec::new();
    let mut i: usize = 0;
    while i < jobs.len()
        invariant
            i <= jobs.len(),
            view == jobs_view(jobs@),
            out@ == html_rows(view.take(i as int)),
        decreases jobs.len() - i,
    {
        push_html_row(&mut out, &jobs[i]);
        assert(view.take(i + 1).drop_last() =~= view.take(i as int));
        i += 1;
    }
    assert(view.take(jobs.len() as int) =~= view);
    out
}

/// The page that lists the records: `template` with the table rows in place
/// of every `{content}`.
pub fn render_index(template: &str, jobs: &Vec<Job>) -> (r: Vec<u8>)
    ensures
        r@ == index_page(template@, jobs_view(jobs@)),
{
    let rows = render_rows(jobs);
    replace_all(template.as_bytes(), "{content}".as_bytes(), rows.as_slice())
}

} // verus!
