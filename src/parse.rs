use vstd::prelude::*;
use vstd::string::StringExecFns;

use crate::record::{Record, RecordModel};
use crate::timestamp::{is_timestamp, is_timestamp_str};

verus! {

/// Why a row was rejected.
#[derive(Debug, Clone, PartialEq, Eq)]
pub enum ParseCause {
    /// The header row does not name each of the five fields exactly once.
    BadHeader,
    /// A data row has fewer fields than the header.
    MissingField,
    /// A data row has more fields than the header.
    ExtraField,
    /// The `source_id` field is empty.
    EmptySourceId,
    /// `published_at` or `actual_start_at` is not a date-time.
    BadTimestamp,
    /// The text could not be read as delimited rows; holds the reader's message.
    ReadFailure(String),
}

/// The first rejected row of an input, counted from 1 with the header as row 1.
#[derive(Debug, Clone, PartialEq, Eq)]
pub struct ParseError {
    pub row: usize,
    pub cause: ParseCause,
}

/// What the delimited-text reader makes of `data`: the records it read, header
/// included, up to the first one it could not read, and whether it met such a record.
pub uninterp spec fn csv_records_of(data: Seq<u8>) -> (Seq<Seq<Seq<char>>>, bool);

/// Relies on `csv::ReaderBuilder::from_reader` (headers off, rows of any length)
/// and `csv::Reader::into_records`: they split `data` into records of fields as a
/// function of the bytes alone. Reading stops at the first record that yields a
/// `csv::Error`, whose message is kept.
#[verifier::external_body]
fn read_csv_records(data: &[u8]) -> (r: (Vec<Vec<String>>, Option<String>))
    ensures
        r.0.deep_view() == csv_records_of(data@).0,
        r.1.is_some() == csv_records_of(data@).1,
{
    let mut rows = Vec::new();
    let reader = csv::ReaderBuilder::new().has_headers(false).flexible(true).from_reader(data);
    for rec in reader.into_records() {
        match rec {
            Ok(rec) => rows.push(rec.iter().map(|f| f.to_string()).collect()),
            Err(e) => return (rows, Some(e.to_string())),
        }
    }
    (rows, None)
}

/// Index of the first field of `header` equal to `name`, or -1.
pub open spec fn column(header: Seq<Seq<char>>, name: Seq<char>) -> int
    decreases header.len(),
{
    if header.len() == 0 {
        -1
    } else if header[0] == name {
        0
    } else {
        let c = column(header.drop_first(), name);
        if c < 0 {
            -1
        } else {
            c + 1
        }
    }
}

/// Five fields, naming each field of a record.
pub open spec fn header_ok(header: Seq<Seq<char>>) -> bool {
    &&& header.len() == 5
    &&& header.contains("source_id"@)
    &&& header.contains("title"@)
    &&& header.contains("description"@)
    &&& header.contains("published_at"@)
    &&& header.contains("actual_start_at"@)
}

/// The record that a data row holds, each field taken from the column that the header names.
pub open spec fn record_of(header: Seq<Seq<char>>, row: Seq<Seq<char>>) -> RecordModel {
    RecordModel {
        source_id: row[column(header, "source_id"@)],
        title: row[column(header, "title"@)],
        description: row[column(header, "description"@)],
        published_at: row[column(header, "published_at"@)],
        actual_start_at: row[column(header, "actual_start_at"@)],
    }
}

/// What is wrong with a data row under a valid header, if anything.
pub open spec fn row_fault(header: Seq<Seq<char>>, row: Seq<Seq<char>>) -> Option<ParseCause> {
    if row.len() < header.len() {
        Some(ParseCause::MissingField)
    } else if row.len() > header.len() {
        Some(ParseCause::ExtraField)
    } else if record_of(header, row).source_id.len() == 0 {
        Some(ParseCause::EmptySourceId)
    } else if !is_timestamp(record_of(header, row).published_at) || !is_timestamp(
        record_of(header, row).actual_start_at,
    ) {
        Some(ParseCause::BadTimestamp)
    } else {
        None
    }
}

/// Row `i` (0-based, header at 0) is the first faulty data row.
pub open spec fn is_first_fault(rows: Seq<Seq<Seq<char>>>, i: int) -> bool {
    &&& 1 <= i < rows.len()
    &&& row_fault(rows[0], rows[i]) is Some
    &&& forall|j: int| 1 <= j < i ==> row_fault(rows[0], rows[j]) is None
}

pub open spec fn records_view(v: Seq<Record>) -> Seq<RecordModel> {
    v.map_values(|r: Record| r@)
}

/// The outcome of parsing the records `rows` that a reader produced, where
/// `read_failure` is the reader's message if it stopped on a record it could not read.
pub open spec fn parse_outcome(rows: Seq<Seq<Seq<char>>>, read_failure: Option<String>) -> Result<
    Seq<RecordModel>,
    ParseError,
> {
    if rows.len() == 0 {
        match read_failure {
            Some(m) => Err(ParseError { row: 1, cause: ParseCause::ReadFailure(m) }),
            None => Err(ParseError { row: 1, cause: ParseCause::BadHeader }),
        }
    } else if !header_ok(rows[0]) {
        Err(ParseError { row: 1, cause: ParseCause::BadHeader })
    } else if exists|i: int| is_first_fault(rows, i) {
        let i = choose|i: int| is_first_fault(rows, i);
        Err(ParseError { row: (i + 1) as usize, cause: row_fault(rows[0], rows[i])->Some_0 })
    } else {
        match read_failure {
            Some(m) => Err(
                ParseError { row: (rows.len() + 1) as usize, cause: ParseCause::ReadFailure(m) },
            ),
            None => Ok(rows.drop_first().map_values(|r: Seq<Seq<char>>| record_of(rows[0], r))),
        }
    }
}

/// An executable parse result carries exactly the outcome `o`.
pub open spec fn agrees(r: Result<Vec<Record>, ParseError>, o: Result<Seq<RecordModel>, ParseError>) -> bool {
    match r {
        Ok(v) => o == Ok::<Seq<RecordModel>, ParseError>(records_view(v@)),
        Err(e) => o == Err::<Seq<RecordModel>, ParseError>(e),
    }
}

proof fn lemma_column(header: Seq<Seq<char>>, name: Seq<char>, j: int)
    requires
        0 <= j <= header.len(),
        forall|i: int| 0 <= i < j ==> header[i] != name,
        j < header.len() ==> header[j] == name,
    ensures
        j < header.len() ==> column(header, name) == j,
        j == header.len() ==> column(header, name) == -1,
    decreases j,
{
    if j > 0 {
        assert(header[0] != name);
        lemma_column(header.drop_first(), name, j - 1);
    }
}

/// The column of each field in a valid header.
struct Columns {
    source_id: usize,
    title: usize,
    description: usize,
    published_at: usize,
    actual_start_at: usize,
}

fn find_column(header: &Vec<String>, name: &String) -> (r: Option<usize>)
    ensures
        match r {
            Some(j) => {
                &&& j as int == column(header.deep_view(), name@)
                &&& j < header@.len()
                &&& header.deep_view()[j as int] == name@
            },
            None => !header.deep_view().contains(name@) && column(header.deep_view(), name@)
                == -1,
        },
{
    let ghost h = header.deep_view();
    let mut i: usize = 0;
    while i < header.len()
        invariant
            i <= header@.len(),
            h == header.deep_view(),
            forall|k: int| 0 <= k < i ==> h[k] != name@,
        decreases header@.len() - i,
    {
        if header[i] == *name {
            proof {
                lemma_column(h, name@, i as int);
            }
            return Some(i);
        }
        i = i + 1;
    }
    proof {
        lemma_column(h, name@, i as int);
    }
    None
}

fn header_columns(header: &Vec<String>) -> (r: Option<Columns>)
    ensures
        match r {
            Some(c) => {
                &&& header_ok(header.deep_view())
                &&& c.source_id as int == column(header.deep_view(), "source_id"@)
                &&& c.title as int == column(header.deep_view(), "title"@)
                &&& c.description as int == column(header.deep_view(), "description"@)
                &&& c.published_at as int == column(header.deep_view(), "published_at"@)
                &&& c.actual_start_at as int == column(header.deep_view(), "actual_start_at"@)
            },
            None => !header_ok(header.deep_view()),
        },
{
    if header.len() != 5 {
        return None;
    }
    let source_id = match find_column(header, &String::from_str("source_id")) {
        Some(j) => j,
        None => return None,
    };
    let title = match find_column(header, &String::from_str("title")) {
        Some(j) => j,
        None => return None,
    };
    let description = match find_column(header, &String::from_str("description")) {
        Some(j) => j,
        None => return None,
    };
    let published_at = match find_column(header, &String::from_str("published_at")) {
        Some(j) => j,
        None => return None,
    };
    let actual_start_at = match find_column(header, &String::from_str("actual_start_at")) {
        Some(j) => j,
        None => return None,
    };
    proof {
        let h = header.deep_view();
        assert(h.contains("source_id"@) && h.contains("title"@) && h.contains("description"@)
            && h.contains("published_at"@) && h.contains("actual_start_at"@)) by {
            assert(h[source_id as int] == "source_id"@);
            assert(h[title as int] == "title"@);
            assert(h[description as int] == "description"@);
            assert(h[published_at as int] == "published_at"@);
            assert(h[actual_start_at as int] == "actual_start_at"@);
        }
    }
    Some(Columns { source_id, title, description, published_at, actual_start_at })
}

fn check_row(cols: &Columns, row: &Vec<String>, Ghost(header): Ghost<Seq<Seq<char>>>) -> (r: Result<
    Record,
    ParseCause,
>)
    requires
        header_ok(header),
        cols.source_id as int == column(header, "source_id"@),
        cols.title as int == column(header, "title"@),
        cols.description as int == column(header, "description"@),
        cols.published_at as int == column(header, "published_at"@),
        cols.actual_start_at as int == column(header, "actual_start_at"@),
    ensures
        match r {
            Ok(rec) => row_fault(header, row.deep_view()) is None && rec@ == record_of(
                header,
                row.deep_view(),
            ),
            Err(c) => row_fault(header, row.deep_view()) == Some(c),
        },
{
    proof {
        lemma_column_in_range(header, "source_id"@);
        lemma_column_in_range(header, "title"@);
        lemma_column_in_range(header, "description"@);
        lemma_column_in_range(header, "published_at"@);
        lemma_column_in_range(header, "actual_start_at"@);
    }
    if row.len() < 5 {
        return Err(ParseCause::MissingField);
    }
    if row.len() > 5 {
        return Err(ParseCause::ExtraField);
    }
    let rec = Record {
        source_id: row[cols.source_id].clone(),
        title: row[cols.title].clone(),
        description: row[cols.description].clone(),
        published_at: row[cols.published_at].clone(),
        actual_start_at: row[cols.actual_start_at].clone(),
    };
    assert(rec@ == record_of(header, row.deep_view()));
    if rec.source_id.as_str().unicode_len() == 0 {
        return Err(ParseCause::EmptySourceId);
    }
    if !is_timestamp_str(rec.published_at.as_str()) || !is_timestamp_str(
        rec.actual_start_at.as_str(),
    ) {
        return Err(ParseCause::BadTimestamp);
    }
    Ok(rec)
}

proof fn lemma_column_in_range(header: Seq<Seq<char>>, name: Seq<char>)
    requires
        header.contains(name),
    ensures
        0 <= column(header, name) < header.len(),
        header[column(header, name)] == name,
    decreases header.len(),
{
    if header[0] != name {
        let k = choose|k: int| 0 <= k < header.len() && header[k] == name;
        assert(header.drop_first()[k - 1] == name);
        lemma_column_in_range(header.drop_first(), name);
    }
}

/// Turns the records that a reader produced (header first) into validated
/// records. `read_failure` is the reader's message where it stopped on a record
/// that it could not read. The result is exactly [`parse_outcome`]: the first
/// fault in row order wins, and nothing is returned beside an error.
pub fn parse_rows(rows: &Vec<Vec<String>>, read_failure: Option<String>) -> (r: Result<
    Vec<Record>,
    ParseError,
>)
    requires
        rows@.len() < usize::MAX,
    ensures
        agrees(r, parse_outcome(rows.deep_view(), read_failure)),
{
    let ghost all = rows.deep_view();
    if rows.len() == 0 {
        return match read_failure {
            Some(m) => Err(ParseError { row: 1, cause: ParseCause::ReadFailure(m) }),
            None => Err(ParseError { row: 1, cause: ParseCause::BadHeader }),
        };
    }
    let ghost header = all[0];
    assert(rows[0].deep_view() == header);
    let cols = match header_columns(&rows[0]) {
        Some(c) => c,
        None => return Err(ParseError { row: 1, cause: ParseCause::BadHeader }),
    };
    let mut out: Vec<Record> = Vec::new();
    let mut i: usize = 1;
    while i < rows.len()
        invariant
            1 <= i <= rows@.len() < usize::MAX,
            all == rows.deep_view(),
            header == all[0],
            header_ok(header),
            cols.source_id as int == column(header, "source_id"@),
            cols.title as int == column(header, "title"@),
            cols.description as int == column(header, "description"@),
            cols.published_at as int == column(header, "published_at"@),
            cols.actual_start_at as int == column(header, "actual_start_at"@),
            forall|j: int| 1 <= j < i ==> row_fault(header, all[j]) is None,
            out@.len() == i - 1,
            records_view(out@) == all.subrange(1, i as int).map_values(
                |r: Seq<Seq<char>>| record_of(header, r),
            ),
        decreases rows@.len() - i,
    {
        assert(rows[i as int].deep_view() == all[i as int]);
        match check_row(&cols, &rows[i], Ghost(header)) {
            Ok(rec) => {
                let ghost prev = out@;
                out.push(rec);
                proof {
                    let f = |r: Seq<Seq<char>>| record_of(header, r);
                    let want = all.subrange(1, i + 1).map_values(f);
                    assert(records_view(prev) == all.subrange(1, i as int).map_values(f));
                    assert(out@ == prev.push(rec));
                    assert forall|k: int| 0 <= k < i implies records_view(out@)[k] == want[k] by {
                        if k < i - 1 {
                            assert(out@[k] == prev[k]);
                            assert(records_view(prev)[k] == want[k]);
                        } else {
                            assert(out@[k] == rec);
                        }
                    }
                    assert(records_view(out@) =~= want);
                }
            },
            Err(cause) => {
                proof {
                    assert(is_first_fault(all, i as int));
                    let k = choose|k: int| is_first_fault(all, k);
                    assert(k == i);
                }
                return Err(ParseError { row: i + 1, cause });
            },
        }
        i = i + 1;
    }
    assert(!exists|k: int| is_first_fault(all, k));
    match read_failure {
        Some(m) => Err(ParseError { row: rows.len() + 1, cause: ParseCause::ReadFailure(m) }),
        None => {
            assert(all.subrange(1, i as int) =~= all.drop_first());
            Ok(out)
        },
    }
}

/// Parses delimited text whose first record is a header naming the five fields
/// in any order. All or nothing: either every data row is valid and all records
/// come back in file order, or the first rejected row is reported.
/// Only the reader's message in a [`ParseCause::ReadFailure`] is left open.
pub fn csv_parse(data: &[u8]) -> (r: Result<Vec<Record>, ParseError>)
    ensures
        csv_records_of(data@).0.len() < usize::MAX ==> exists|f: Option<String>|
            f.is_some() == csv_records_of(data@).1 && #[trigger] agrees(
                r,
                parse_outcome(csv_records_of(data@).0, f),
            ),
        csv_records_of(data@).0.len() >= usize::MAX ==> r is Err,
{
    let (rows, failure) = read_csv_records(data);
    if rows.len() == usize::MAX {
        return Err(
            ParseError {
                row: usize::MAX,
                cause: ParseCause::ReadFailure(String::from_str("too many records")),
            },
        );
    }
    let r = parse_rows(&rows, failure);
    assert(failure.is_some() == csv_records_of(data@).1);
    r
}

} // verus!
