//! The export formats: a JSON array with one record per line, and CSV.

use crate::date::{date_text, is_calendar_date, lemma_date_text_bytes};
use crate::decimal::{lemma_signed_text_bytes, signed_string, signed_text};
use crate::job::{jobs_view, Job, JobView};
use crate::text::{bytes_eq, bytes_of, lacks, lemma_bytes_of_ascii, lemma_lacks_concat, push_str};
use vstd::prelude::*;
use vstd::string::*;

verus! {

/// The two export formats.
#[derive(Clone, Copy, Debug, PartialEq, Eq, Structural)]
pub enum Format {
    Json,
    Csv,
}

/// An ASCII capital as its small letter; any other byte as it is.
pub open spec fn lower_byte(b: u8) -> u8 {
    if 65 <= b && b <= 90 {
        (b + 32) as u8
    } else {
        b
    }
}

/// `s` with its ASCII capitals as small letters.
pub open spec fn ascii_lowered(s: Seq<u8>) -> Seq<u8> {
    s.map_values(|b: u8| lower_byte(b))
}

/// The format that `name` names, whatever the case of its ASCII letters.
pub open spec fn format_named(name: Seq<char>) -> Option<Format> {
    if ascii_lowered(bytes_of(name)) == bytes_of("json"@) {
        Some(Format::Json)
    } else if ascii_lowered(bytes_of(name)) == bytes_of("csv"@) {
        Some(Format::Csv)
    } else {
        None
    }
}

/// What is said of a name that names no format.
pub open spec fn invalid_format_message(name: Seq<char>) -> Seq<char> {
    "\nInvalid format: "@ + name + ". Valid formats: json, csv"@
}

/// The digit of `n` in base sixteen, for `0 <= n <= 15`.
pub open spec fn hex_digit(n: int) -> u8 {
    if n < 10 {
        (48 + n) as u8
    } else {
        (87 + n) as u8
    }
}

/// A byte of a text as it stands inside a JSON string: the quote, the
/// backslash and the control characters are escaped.
pub open spec fn json_escaped_byte(b: u8) -> Seq<u8> {
    if b == 34 {
        seq![92u8, 34u8]
    } else if b == 92 {
        seq![92u8, 92u8]
    } else if b == 10 {
        seq![92u8, 110u8]
    } else if b == 13 {
        seq![92u8, 114u8]
    } else if b == 9 {
        seq![92u8, 116u8]
    } else if b < 32 {
        seq![92u8, 117u8, 48u8, 48u8, hex_digit(b as int / 16), hex_digit(b as int % 16)]
    } else {
        seq![b]
    }
}

/// A text as it stands inside a JSON string.
pub open spec fn json_escaped(s: Seq<u8>) -> Seq<u8>
    decreases s.len(),
{
    if s.len() == 0 {
        Seq::empty()
    } else {
        json_escaped(s.drop_last()) + json_escaped_byte(s.last())
    }
}

/// A record as a JSON object.
pub open spec fn json_object(j: JobView) -> Seq<u8> {
    bytes_of("{\"id\": "@) + bytes_of(signed_text(j.id)) + bytes_of(", \"title\": \""@)
        + json_escaped(bytes_of(j.title)) + bytes_of("\", \"description\": \""@) + json_escaped(
        bytes_of(j.description),
    ) + bytes_of("\", \"date\": \""@) + bytes_of(date_text(j.date, '-')) + bytes_of("\"}"@)
}

/// The line of record `i`: its object, and a comma unless it is the last.
pub open spec fn json_line(jobs: Seq<JobView>, i: int) -> Seq<u8> {
    json_object(jobs[i]) + (if i + 1 < jobs.len() {
        bytes_of(",\n"@)
    } else {
        bytes_of("\n"@)
    })
}

/// The lines of the first `k` records.
pub open spec fn json_lines(jobs: Seq<JobView>, k: int) -> Seq<u8>
    decreases k,
{
    if k <= 0 {
        Seq::empty()
    } else {
        json_lines(jobs, k - 1) + json_line(jobs, k - 1)
    }
}

/// The records as a JSON array, in list order, one object per line.
pub open spec fn json_export(jobs: Seq<JobView>) -> Seq<u8> {
    bytes_of("[\n"@) + json_lines(jobs, jobs.len() as int) + bytes_of("]\n"@)
}

/// The header row of the CSV export.
pub open spec fn csv_header() -> Seq<Seq<char>> {
    seq!["id"@, "title"@, "description"@, "date"@]
}

/// The fields of a record's CSV row.
pub open spec fn csv_fields(j: JobView) -> Seq<Seq<char>> {
    seq![signed_text(j.id), j.title, j.description, date_text(j.date, '-')]
}

/// Whether a byte forces quotes round the field that holds it: the comma,
/// the quote, the carriage return and the line feed.
pub open spec fn csv_special(b: u8) -> bool {
    b == 44 || b == 34 || b == 13 || b == 10
}

/// Whether a field has to stand in quotes.
pub open spec fn csv_needs_quotes(field: Seq<u8>) -> bool {
    exists|i: int| 0 <= i < field.len() && csv_special(#[trigger] field[i])
}

/// A field with each of its quotes written twice.
pub open spec fn csv_doubled(field: Seq<u8>) -> Seq<u8>
    decreases field.len(),
{
    if field.len() == 0 {
        Seq::empty()
    } else {
        csv_doubled(field.drop_last()) + (if field.last() == 34 {
            seq![34u8, 34u8]
        } else {
            seq![field.last()]
        })
    }
}

/// A field as it stands in a row: as it is, or, where it has to, in quotes
/// with its own quotes doubled.
pub open spec fn csv_field(field: Seq<u8>) -> Seq<u8> {
    if csv_needs_quotes(field) {
        seq![34u8] + csv_doubled(field) + seq![34u8]
    } else {
        field
    }
}

/// The fields of a row with commas between them.
pub open spec fn csv_joined(fields: Seq<Seq<char>>) -> Seq<u8>
    decreases fields.len(),
{
    if fields.len() == 0 {
        Seq::empty()
    } else if fields.len() == 1 {
        csv_field(bytes_of(fields[0]))
    } else {
        csv_joined(fields.drop_last()) + seq![44u8] + csv_field(bytes_of(fields.last()))
    }
}

/// A row: its fields with commas between them, then a line feed. A row
/// that would hold no byte is written as a pair of quotes.
pub open spec fn csv_line(fields: Seq<Seq<char>>) -> Seq<u8> {
    (if csv_joined(fields).len() == 0 {
        seq![34u8, 34u8]
    } else {
        csv_joined(fields)
    }) + seq![10u8]
}

/// The rows of the first `k` records.
pub open spec fn csv_lines(jobs: Seq<JobView>, k: int) -> Seq<u8>
    decreases k,
{
    if k <= 0 {
        Seq::empty()
    } else {
        csv_lines(jobs, k - 1) + csv_line(csv_fields(jobs[k - 1]))
    }
}

/// The records as CSV: the header row, then one row per record in list
/// order.
pub open spec fn csv_text(jobs: Seq<JobView>) -> Seq<u8> {
    csv_line(csv_header()) + csv_lines(jobs, jobs.len() as int)
}

/// Whether the csv writer writes the header row and the rows of the first
/// `k` records without reporting an error.
pub open spec fn csv_written(jobs: Seq<JobView>, k: int) -> bool
    decreases k,
{
    if k <= 0 {
        csv_record(csv_header()) is Some
    } else {
        csv_written(jobs, k - 1) && csv_record(csv_fields(jobs[k - 1])) is Some
    }
}

/// The records as CSV; `None` where the csv writer reports an error.
pub open spec fn csv_export(jobs: Seq<JobView>) -> Option<Seq<u8>> {
    if csv_written(jobs, jobs.len() as int) {
        Some(csv_text(jobs))
    } else {
        None
    }
}

/// The records in the given format.
pub open spec fn export_bytes(jobs: Seq<JobView>, format: Format) -> Option<Seq<u8>> {
    match format {
        Format::Json => Some(json_export(jobs)),
        Format::Csv => csv_export(jobs),
    }
}

/// The bytes that the csv crate writes for one record with the given
/// fields, terminator included; `None` where it reports an error.
pub uninterp spec fn csv_record(fields: Seq<Seq<char>>) -> Option<Seq<u8>>;

/// What a list of texts is.
pub open spec fn texts_view(texts: Seq<String>) -> Seq<Seq<char>> {
    texts.map_values(|s: String| s@)
}

/// Writes one record with `csv::Writer::write_record`, on a writer of the
/// crate's defaults over an empty buffer, and takes the buffer back with
/// `into_inner`. Where the writer reports no error, the bytes are the row
/// as the crate documents it for its defaults: fields parted by commas, a
/// field quoted only where it holds a comma, a quote or a line end, quotes
/// doubled, a record without a byte written as a pair of quotes, and a line
/// feed at the end. Whether it reports an error is only given its name.
#[verifier::external_body]
fn write_csv_record(fields: &Vec<String>) -> (r: Option<Vec<u8>>)
    ensures
        match r {
            Some(bytes) => csv_record(texts_view(fields@)) == Some(bytes@) && bytes@ == csv_line(
                texts_view(fields@),
            ),
            None => csv_record(texts_view(fields@)) is None,
        },
{
    let mut writer = prettytable::csv::Writer::from_writer(Vec::new());
    match writer.write_record(fields.iter()) {
        Ok(()) => writer.into_inner().ok(),
        Err(_) => None,
    }
}

/// Once a row cannot be written, no longer run of rows can.
proof fn lemma_csv_not_written(jobs: Seq<JobView>, k: int, n: int)
    requires
        0 <= k <= n,
        !csv_written(jobs, k),
    ensures
        !csv_written(jobs, n),
    decreases n - k,
{
    if k < n {
        lemma_csv_not_written(jobs, k, n - 1);
    }
}

impl Format {
    /// The format that `name` names, whatever the case of its ASCII letters;
    /// else a message that says which names are valid.
    pub fn parse(name: &str) -> (r: Result<Format, String>)
        ensures
            match r {
                Ok(f) => format_named(name@) == Some(f),
                Err(message) => format_named(name@) is None && message@
                    == invalid_format_message(name@),
            },
    {
        let lowered = lower_ascii(name.as_bytes());
        if bytes_eq(lowered.as_slice(), "json".as_bytes()) {
            Ok(Format::Json)
        } else if bytes_eq(lowered.as_slice(), "csv".as_bytes()) {
            Ok(Format::Csv)
        } else {
            let mut message = "\nInvalid format: ".to_owned();
            message.append(name);
            message.append(". Valid formats: json, csv");
            Err(message)
        }
    }
}

impl std::str::FromStr for Format {
    type Err = String;

    /// The format that `s` names, as `Format::parse` reads it.
    fn from_str(s: &str) -> (r: Result<Format, String>)
        ensures
            match r {
                Ok(f) => format_named(s@) == Some(f),
                Err(message) => format_named(s@) is None && message@ == invalid_format_message(
                    s@,
                ),
            },
    {
        Format::parse(s)
    }
}

/// `s` with its ASCII capitals as small letters.
pub fn lower_ascii(s: &[u8]) -> (r: Vec<u8>)
    ensures
        r@ == ascii_lowered(s@),
{
    let mut out: Vec<u8> = Vec::new();
    let mut i: usize = 0;
    while i < s.len()
        invariant
            i <= s.len(),
            out@ == ascii_lowered(s@.take(i as int)),
        decreases s.len() - i,
    {
        let b = s[i];
        out.push(if 65 <= b && b <= 90 {
            b + 32
        } else {
            b
        });
        i += 1;
        assert(out@ =~= ascii_lowered(s@.take(i as int)));
    }
    assert(s@.take(s.len() as int) =~= s@);
    out
}

fn hex_byte(n: u8) -> (r: u8)
    requires
        n <= 15,
    ensures
        r == hex_digit(n as int),
{
    if n < 10 {
        48 + n
    } else {
        87 + n
    }
}

/// Appends `s` to `out` as it stands inside a JSON string.
pub fn push_json_escaped(out: &mut Vec<u8>, s: &[u8])
    ensures
        final(out)@ == old(out)@ + json_escaped(s@),
{
    let mut i: usize = 0;
    while i < s.len()
        invariant
            i <= s.len(),
            out@ == old(out)@ + json_escaped(s@.take(i as int)),
        decreases s.len() - i,
    {
        let b = s[i];
        let ghost before = out@;
        if b == 34 {
            out.push(92);
            out.push(34);
        } else if b == 92 {
            out.push(92);
            out.push(92);
        } else if b == 10 {
            out.push(92);
            out.push(110);
        } else if b == 13 {
            out.push(92);
            out.push(114);
        } else if b == 9 {
            out.push(92);
            out.push(116);
        } else if b < 32 {
            out.push(92);
            out.push(117);
            out.push(48);
            out.push(48);
            out.push(hex_byte(b / 16));
            out.push(hex_byte(b % 16));
        } else {
            out.push(b);
        }
        assert(out@ =~= before + json_escaped_byte(b));
        assert(s@.take(i + 1).drop_last() =~= s@.take(i as int));
        i += 1;
        assert(out@ =~= old(out)@ + json_escaped(s@.take(i as int)));
    }
    assert(s@.take(s.len() as int) =~= s@);
}

/// Appends a record as a JSON object to `out`.
pub fn push_json_object(out: &mut Vec<u8>, job: &Job)
    ensures
        final(out)@ == old(out)@ + json_object(job@),
{
    push_str(out, "{\"id\": ");
    push_str(out, signed_string(job.id as i64).as_str());
    push_str(out, ", \"title\": \"");
    push_json_escaped(out, job.title.as_str().as_bytes());
    push_str(out, "\", \"description\": \"");
    push_json_escaped(out, job.description.as_str().as_bytes());
    push_str(out, "\", \"date\": \"");
    push_str(out, job.date.to_text().as_str());
    push_str(out, "\"}");
    assert(final(out)@ =~= old(out)@ + json_object(job@));
}

/// The records as a JSON array, in list order, one object per line.
pub fn export_json(jobs: &Vec<Job>) -> (r: Vec<u8>)
    ensures
        r@ == json_export(jobs_view(jobs@)),
{
    let ghost view = jobs_view(jobs@);
    let mut out: Vec<u8> = Vec::new();
    push_str(&mut out, "[\n");
    let mut i: usize = 0;
    while i < jobs.len()
        invariant
            i <= jobs.len(),
            view == jobs_view(jobs@),
            out@ == bytes_of("[\n"@) + json_lines(view, i as int),
        decreases jobs.len() - i,
    {
        let ghost before = out@;
        push_json_object(&mut out, &jobs[i]);
        if i + 1 < jobs.len() {
            push_str(&mut out, ",\n");
        } else {
            push_str(&mut out, "\n");
        }
        assert(out@ =~= before + json_line(view, i as int));
        i += 1;
        assert(out@ =~= bytes_of("[\n"@) + json_lines(view, i as int));
    }
    push_str(&mut out, "]\n");
    out
}

/// The fields of a record's CSV row.
pub fn csv_fields_of(job: &Job) -> (r: Vec<String>)
    ensures
        texts_view(r@) == csv_fields(job@),
{
    let mut fields: Vec<String> = Vec::new();
    fields.push(signed_string(job.id as i64));
    fields.push(job.title.clone());
    fields.push(job.description.clone());
    fields.push(job.date.to_text());
    assert(texts_view(fields@) =~= csv_fields(job@));
    fields
}

/// The records as CSV: the header row, then one row per record in list
/// order. `None` where the csv writer reports an error.
pub fn export_csv(jobs: &Vec<Job>) -> (r: Option<Vec<u8>>)
    ensures
        match r {
            Some(bytes) => csv_export(jobs_view(jobs@)) == Some(bytes@),
            None => csv_export(jobs_view(jobs@)) is None,
        },
{
    let ghost view = jobs_view(jobs@);
    let mut header: Vec<String> = Vec::new();
    header.push("id".to_owned());
    header.push("title".to_owned());
    header.push("description".to_owned());
    header.push("date".to_owned());
    assert(texts_view(header@) =~= csv_header());
    let mut out: Vec<u8> = match write_csv_record(&header) {
        Some(bytes) => bytes,
        None => {
            proof {
                lemma_csv_not_written(view, 0, jobs.len() as int);
            }
            return None;
        },
    };
    let mut i: usize = 0;
    while i < jobs.len()
        invariant
            i <= jobs.len(),
            view == jobs_view(jobs@),
            csv_written(view, i as int),
            out@ == csv_line(csv_header()) + csv_lines(view, i as int),
        decreases jobs.len() - i,
    {
        let fields = csv_fields_of(&jobs[i]);
        match write_csv_record(&fields) {
            Some(row) => {
                out.extend_from_slice(row.as_slice());
            },
            None => {
                proof {
                    assert(!csv_written(view, i + 1));
                    lemma_csv_not_written(view, i + 1, jobs.len() as int);
                }
                return None;
            },
        }
        i += 1;
        assert(out@ =~= csv_line(csv_header()) + csv_lines(view, i as int));
    }
    Some(out)
}

/// The records in the given format. `None` where the csv writer reports an
/// error.
pub fn export_jobs_to_bytes(jobs: &Vec<Job>, format: Format) -> (r: Option<Vec<u8>>)
    ensures
        match r {
            Some(bytes) => export_bytes(jobs_view(jobs@), format) == Some(bytes@),
            None => export_bytes(jobs_view(jobs@), format) is None,
        },
{
    match format {
        Format::Json => Some(export_json(jobs)),
        Format::Csv => export_csv(jobs),
    }
}

/// The value of a digit of base sixteen.
pub open spec fn hex_value(b: u8) -> int {
    if b <= 57 {
        b - 48
    } else {
        b - 87
    }
}

/// The byte that the character behind a backslash stands for.
pub open spec fn json_short_escape(b: u8) -> u8 {
    if b == 110 {
        10
    } else if b == 114 {
        13
    } else if b == 116 {
        9
    } else {
        b
    }
}

/// The text that stands inside a JSON string as `e`, for an `e` that
/// `json_escaped` wrote.
pub open spec fn json_unescaped(e: Seq<u8>) -> Seq<u8>
    decreases e.len(),
{
    if e.len() == 0 {
        Seq::empty()
    } else if e[0] == 92 && e.len() >= 2 {
        if e[1] == 117 && e.len() >= 6 {
            seq![(hex_value(e[4]) * 16 + hex_value(e[5])) as u8] + json_unescaped(e.skip(6))
        } else {
            seq![json_short_escape(e[1])] + json_unescaped(e.skip(2))
        }
    } else {
        seq![e[0]] + json_unescaped(e.skip(1))
    }
}

/// A text in two parts is escaped part by part.
pub proof fn lemma_json_escaped_concat(a: Seq<u8>, b: Seq<u8>)
    ensures
        json_escaped(a + b) == json_escaped(a) + json_escaped(b),
    decreases b.len(),
{
    if b.len() == 0 {
        assert(a + b =~= a);
        assert(json_escaped(a) + json_escaped(b) =~= json_escaped(a));
    } else {
        assert((a + b).drop_last() =~= a + b.drop_last());
        lemma_json_escaped_concat(a, b.drop_last());
        assert(json_escaped(a + b) =~= json_escaped(a) + json_escaped(b));
    }
}

/// Reading an escaped byte gives the byte back, whatever follows it.
proof fn lemma_json_unescape_byte(b: u8, rest: Seq<u8>)
    ensures
        json_unescaped(json_escaped_byte(b) + rest) == seq![b] + json_unescaped(rest),
{
    let e = json_escaped_byte(b) + rest;
    if b == 34 || b == 92 || b == 10 || b == 13 || b == 9 {
        assert(e[0] == 92 && e[1] != 117);
        assert(e.skip(2) =~= rest);
    } else if b < 32 {
        assert(e[0] == 92 && e[1] == 117 && e.len() >= 6);
        assert(e[4] == hex_digit(b as int / 16) && e[5] == hex_digit(b as int % 16));
        assert(e.skip(6) =~= rest);
    } else {
        assert(e[0] == b);
        assert(e.skip(1) =~= rest);
    }
}

/// Escaping loses nothing: the text can be read back out of its escaped
/// form.
pub proof fn lemma_json_unescape(s: Seq<u8>)
    ensures
        json_unescaped(json_escaped(s)) == s,
    decreases s.len(),
{
    if s.len() > 0 {
        let head = seq![s[0]];
        let tail = s.skip(1);
        assert(s =~= head + tail);
        lemma_json_escaped_concat(head, tail);
        assert(json_escaped(head) =~= json_escaped_byte(s[0])) by {
            reveal_with_fuel(json_escaped, 2);
            assert(head.drop_last() =~= Seq::<u8>::empty());
        }
        lemma_json_unescape_byte(s[0], json_escaped(tail));
        lemma_json_unescape(tail);
        assert(seq![s[0]] + tail =~= s);
    }
}

/// Two texts with the same escaped form are the same text.
pub proof fn lemma_json_escape_injective(a: Seq<u8>, b: Seq<u8>)
    requires
        json_escaped(a) == json_escaped(b),
    ensures
        a == b,
{
    lemma_json_unescape(a);
    lemma_json_unescape(b);
}

/// An escaped text holds no control character, so no line end, and no quote
/// but behind a backslash.
pub proof fn lemma_json_escaped_is_clean(s: Seq<u8>)
    ensures
        forall|i: int| 0 <= i < json_escaped(s).len() ==> #[trigger] json_escaped(s)[i] >= 32,
        forall|i: int|
            0 <= i < json_escaped(s).len() && #[trigger] json_escaped(s)[i] == 34 ==> i > 0
                && json_escaped(s)[i - 1] == 92,
    decreases s.len(),
{
    if s.len() > 0 {
        lemma_json_escaped_is_clean(s.drop_last());
        let before = json_escaped(s.drop_last());
        let last = json_escaped_byte(s.last());
        assert forall|i: int| 0 <= i < json_escaped(s).len() implies #[trigger] json_escaped(
            s,
        )[i] >= 32 by {
            if i >= before.len() {
                assert(json_escaped(s)[i] == last[i - before.len()]);
            } else {
                assert(json_escaped(s)[i] == before[i]);
            }
        }
        assert forall|i: int|
            0 <= i < json_escaped(s).len() && #[trigger] json_escaped(s)[i] == 34 implies i > 0
            && json_escaped(s)[i - 1] == 92 by {
            if i >= before.len() {
                assert(json_escaped(s)[i] == last[i - before.len()]);
                assert(i - before.len() == 1);
                assert(json_escaped(s)[i - 1] == last[0]);
            } else {
                assert(json_escaped(s)[i] == before[i]);
                assert(json_escaped(s)[i - 1] == before[i - 1]);
            }
        }
    }
}

proof fn lemma_json_object_frame()
    ensures
        lacks(bytes_of("{\"id\": "@), 10),
        lacks(bytes_of(", \"title\": \""@), 10),
        lacks(bytes_of("\", \"description\": \""@), 10),
        lacks(bytes_of("\", \"date\": \""@), 10),
        lacks(bytes_of("\"}"@), 10),
{
    reveal_strlit("{\"id\": ");
    reveal_strlit(", \"title\": \"");
    reveal_strlit("\", \"description\": \"");
    reveal_strlit("\", \"date\": \"");
    reveal_strlit("\"}");
    lemma_bytes_of_ascii("{\"id\": "@);
    lemma_bytes_of_ascii(", \"title\": \""@);
    lemma_bytes_of_ascii("\", \"description\": \""@);
    lemma_bytes_of_ascii("\", \"date\": \""@);
    lemma_bytes_of_ascii("\"}"@);
}

/// One object per line: the JSON object of a record holds no line feed,
/// whatever its title and description hold.
pub proof fn lemma_json_object_is_one_line(j: JobView)
    requires
        is_calendar_date(j.date.year, j.date.month, j.date.day),
    ensures
        lacks(json_object(j), 10),
{
    lemma_json_object_frame();
    lemma_signed_text_bytes(j.id);
    lemma_date_text_bytes(j.date, '-');
    lemma_json_escaped_is_clean(bytes_of(j.title));
    lemma_json_escaped_is_clean(bytes_of(j.description));
    let open = bytes_of("{\"id\": "@);
    let id = bytes_of(signed_text(j.id));
    let title_key = bytes_of(", \"title\": \""@);
    let title = json_escaped(bytes_of(j.title));
    let description_key = bytes_of("\", \"description\": \""@);
    let description = json_escaped(bytes_of(j.description));
    let date_key = bytes_of("\", \"date\": \""@);
    let date = bytes_of(date_text(j.date, '-'));
    let shut = bytes_of("\"}"@);
    assert(lacks(id, 10));
    assert(lacks(title, 10));
    assert(lacks(description, 10));
    lemma_lacks_concat(open, id, 10);
    lemma_lacks_concat(open + id, title_key, 10);
    lemma_lacks_concat(open + id + title_key, title, 10);
    lemma_lacks_concat(open + id + title_key + title, description_key, 10);
    lemma_lacks_concat(open + id + title_key + title + description_key, description, 10);
    let fields = open + id + title_key + title + description_key + description;
    lemma_lacks_concat(fields, date_key, 10);
    lemma_lacks_concat(fields + date_key, date, 10);
    lemma_lacks_concat(fields + date_key + date, shut, 10);
}

/// A field that holds no comma, no quote and no line end stands in its row
/// as it is; any other field stands in quotes.
pub proof fn lemma_csv_field_quoting(field: Seq<u8>)
    ensures
        (forall|i: int| 0 <= i < field.len() ==> !csv_special(#[trigger] field[i])) ==> csv_field(
            field,
        ) == field,
        (exists|i: int| 0 <= i < field.len() && csv_special(#[trigger] field[i])) ==> csv_field(
            field,
        ) == seq![34u8] + csv_doubled(field) + seq![34u8],
{
}

proof fn lemma_csv_header_fields()
    ensures
        csv_field(bytes_of("id"@)) == seq![105u8, 100u8],
        csv_field(bytes_of("title"@)) == seq![116u8, 105u8, 116u8, 108u8, 101u8],
        csv_field(bytes_of("description"@)) == seq![
            100u8,
            101u8,
            115u8,
            99u8,
            114u8,
            105u8,
            112u8,
            116u8,
            105u8,
            111u8,
            110u8,
        ],
        csv_field(bytes_of("date"@)) == seq![100u8, 97u8, 116u8, 101u8],
{
    reveal_strlit("id");
    reveal_strlit("title");
    reveal_strlit("description");
    reveal_strlit("date");
    lemma_bytes_of_ascii("id"@);
    lemma_bytes_of_ascii("title"@);
    lemma_bytes_of_ascii("description"@);
    lemma_bytes_of_ascii("date"@);
    assert(bytes_of("id"@) =~= seq![105u8, 100u8]);
    assert(bytes_of("title"@) =~= seq![116u8, 105u8, 116u8, 108u8, 101u8]);
    assert(bytes_of("description"@) =~= seq![
        100u8,
        101u8,
        115u8,
        99u8,
        114u8,
        105u8,
        112u8,
        116u8,
        105u8,
        111u8,
        110u8,
    ]);
    assert(bytes_of("date"@) =~= seq![100u8, 97u8, 116u8, 101u8]);
}

/// The header row of the CSV export is the line `id,title,description,date`.
pub proof fn lemma_csv_header_line()
    ensures
        csv_line(csv_header()) == bytes_of("id,title,description,date\n"@),
{
    lemma_csv_header_fields();
    let h = csv_header();
    assert(h.drop_last() =~= seq!["id"@, "title"@, "description"@]);
    assert(h.drop_last().drop_last() =~= seq!["id"@, "title"@]);
    assert(h.drop_last().drop_last().drop_last() =~= seq!["id"@]);
    reveal_with_fuel(csv_joined, 4);
    reveal_strlit("id,title,description,date\n");
    lemma_bytes_of_ascii("id,title,description,date\n"@);
    assert(csv_line(h) =~= bytes_of("id,title,description,date\n"@));
}

/// The text of which `e` is the doubled form: of each pair of quotes one
/// is kept.
pub open spec fn csv_undoubled(e: Seq<u8>) -> Seq<u8>
    decreases e.len(),
{
    if e.len() == 0 {
        Seq::empty()
    } else if e[0] == 34 && e.len() >= 2 {
        seq![34u8] + csv_undoubled(e.skip(2))
    } else {
        seq![e[0]] + csv_undoubled(e.skip(1))
    }
}

/// The field that stands in a row as `e`: what is between the quotes, with
/// the doubled quotes single again, or `e` itself where it has no quotes
/// round it.
pub open spec fn csv_unquoted(e: Seq<u8>) -> Seq<u8> {
    if e.len() >= 2 && e[0] == 34 {
        csv_undoubled(e.subrange(1, e.len() - 1))
    } else {
        e
    }
}

/// A field in two parts has its quotes doubled part by part.
pub proof fn lemma_csv_doubled_concat(a: Seq<u8>, b: Seq<u8>)
    ensures
        csv_doubled(a + b) == csv_doubled(a) + csv_doubled(b),
    decreases b.len(),
{
    if b.len() == 0 {
        assert(a + b =~= a);
        assert(csv_doubled(a) + csv_doubled(b) =~= csv_doubled(a));
    } else {
        assert((a + b).drop_last() =~= a + b.drop_last());
        lemma_csv_doubled_concat(a, b.drop_last());
        assert(csv_doubled(a + b) =~= csv_doubled(a) + csv_doubled(b));
    }
}

/// Doubling the quotes loses nothing.
pub proof fn lemma_csv_undouble(field: Seq<u8>)
    ensures
        csv_undoubled(csv_doubled(field)) == field,
    decreases field.len(),
{
    if field.len() > 0 {
        let head = seq![field[0]];
        let tail = field.skip(1);
        assert(field =~= head + tail);
        lemma_csv_doubled_concat(head, tail);
        assert(csv_doubled(head) =~= (if field[0] == 34 {
            seq![34u8, 34u8]
        } else {
            seq![field[0]]
        })) by {
            reveal_with_fuel(csv_doubled, 2);
            assert(head.drop_last() =~= Seq::<u8>::empty());
        }
        lemma_csv_undouble(tail);
        let e = csv_doubled(head) + csv_doubled(tail);
        if field[0] == 34 {
            assert(e[0] == 34 && e.len() >= 2);
            assert(e.skip(2) =~= csv_doubled(tail));
        } else {
            assert(e[0] == field[0]);
            assert(e.skip(1) =~= csv_doubled(tail));
        }
        assert(seq![field[0]] + tail =~= field);
    }
}

/// Quoting loses nothing: a field can be read back out of the form in
/// which it stands in its row.
pub proof fn lemma_csv_unquote(field: Seq<u8>)
    ensures
        csv_unquoted(csv_field(field)) == field,
{
    let e = csv_field(field);
    if csv_needs_quotes(field) {
        lemma_csv_undouble(field);
        assert(e.subrange(1, e.len() - 1) =~= csv_doubled(field));
    } else {
        if field.len() >= 2 {
            assert(!csv_special(field[0]));
        }
    }
}

} // verus!
