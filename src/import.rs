//! Reading attendance rows out of CSV text and reloading the store with them.
use crate::decode::{decode, decoded};
use crate::matrix::texts;
use crate::store::{loaded, views, AttendanceStore, Enrollment, EnrollmentRecord, StoreView};
use crate::text::{integer_value, parse_integer, trim_text, trimmed};
use vstd::prelude::*;

verus! {

/// The rows that the CSV reader yields for a text, the header line skipped: the
/// fields of each, or none where the reader reported an error for that row.
pub uninterp spec fn csv_rows(text: Seq<char>) -> Seq<Option<Seq<Seq<char>>>>;

/// The views of rows as the reader hands them out.
pub open spec fn rows_view(rows: Seq<Option<Vec<String>>>) -> Seq<Option<Seq<Seq<char>>>> {
    rows.map_values(
        |r: Option<Vec<String>>|
            match r {
                Some(f) => Some(texts(f@)),
                None => None,
            },
    )
}

/// Relies on csv::ReaderBuilder with has_headers(true) and flexible(true): the
/// records after the header, each as its fields, or an error for that record.
#[verifier::external_body]
fn read_csv_rows(text: &str) -> (r: Vec<Option<Vec<String>>>)
    ensures
        rows_view(r@) == csv_rows(text@),
{
    let mut reader = csv::ReaderBuilder::new().has_headers(true).flexible(true).from_reader(
        text.as_bytes(),
    );
    reader.records().map(|rec| rec.ok().map(|fields| fields.iter().map(String::from).collect())).collect()
}

/// Why a row was left out of an import.
#[derive(Debug)]
pub enum SkipReason {
    /// The reader could not parse the row.
    Unparsable,
    /// The row has fewer than three fields.
    Incomplete,
    /// The name, the date or the grade is empty.
    Empty,
    /// The grade is not a base-10 integer; the trimmed token.
    InvalidGrade(String),
}

/// Whether a row has three fields and none of the first three is blank.
pub open spec fn complete(f: Seq<Seq<char>>) -> bool {
    f.len() >= 3 && trimmed(f[0]).len() > 0 && trimmed(f[1]).len() > 0 && trimmed(f[2]).len() > 0
}

/// The record that a row yields: name, date and grade taken by position and
/// trimmed, the grade read as an integer.
pub open spec fn row_record(row: Option<Seq<Seq<char>>>) -> Option<Enrollment> {
    match row {
        None => None,
        Some(f) => if !complete(f) {
            None
        } else {
            match integer_value(trimmed(f[2])) {
                None => None,
                Some(g) => Some(Enrollment { name: trimmed(f[0]), date: trimmed(f[1]), grade: g }),
            }
        },
    }
}

/// The records that rows yield, in order, the others skipped.
pub open spec fn accepted(rows: Seq<Option<Seq<Seq<char>>>>) -> Seq<Enrollment>
    decreases rows.len(),
{
    if rows.len() == 0 {
        Seq::empty()
    } else {
        match row_record(rows.last()) {
            Some(e) => accepted(rows.drop_last()).push(e),
            None => accepted(rows.drop_last()),
        }
    }
}

/// An import fails when it has rows and none of them yields a record.
pub open spec fn import_fails(rows: Seq<Option<Seq<Seq<char>>>>) -> bool {
    rows.len() > 0 && accepted(rows).len() == 0
}

/// The store after importing rows: unchanged when the import fails, else
/// reloaded with the accepted records.
pub open spec fn after_import(s: StoreView, rows: Seq<Option<Seq<Seq<char>>>>) -> StoreView {
    if import_fails(rows) {
        s
    } else {
        loaded(accepted(rows))
    }
}

/// Checks one row's fields and builds its record.
pub fn validate_fields(fields: &Vec<String>) -> (r: Result<EnrollmentRecord, SkipReason>)
    ensures
        r is Ok <==> row_record(Some(texts(fields@))) is Some,
        r is Ok ==> row_record(Some(texts(fields@))) == Some(r->Ok_0@),
        r matches Err(SkipReason::Incomplete) <==> fields@.len() < 3,
        r matches Err(SkipReason::Empty) <==> fields@.len() >= 3 && !complete(texts(fields@)),
        r matches Err(SkipReason::InvalidGrade(t)) ==> t@ == trimmed(fields@[2]@) && integer_value(
            t@,
        ) is None,
        !(r matches Err(SkipReason::Unparsable)),
{
    let ghost f = texts(fields@);
    if fields.len() < 3 {
        return Err(SkipReason::Incomplete);
    }
    let name = trim_text(fields[0].as_str());
    let date = trim_text(fields[1].as_str());
    let token = trim_text(fields[2].as_str());
    assert(f[0] == fields@[0]@ && f[1] == fields@[1]@ && f[2] == fields@[2]@);
    if name.unicode_len() == 0 || date.unicode_len() == 0 || token.unicode_len() == 0 {
        return Err(SkipReason::Empty);
    }
    match parse_integer(token.as_str()) {
        Some(grade) => Ok(EnrollmentRecord { name, date, grade }),
        None => Err(SkipReason::InvalidGrade(token)),
    }
}

/// A row left out of an import: its position among the data rows (0 for the row
/// after the header, which stands on line 2 of a file without blank lines) and why.
#[derive(Debug)]
pub struct RowSkip {
    pub row: usize,
    pub reason: SkipReason,
}

/// Counts of an import that went through.
#[derive(Debug)]
pub struct ImportSummary {
    /// Rows loaded into the store.
    pub imported: usize,
    /// Rows left out.
    pub skipped: usize,
    /// The rows left out, in order.
    pub skips: Vec<RowSkip>,
}

/// Skips in ascending row order, each naming a row that yields no record, with
/// `Unparsable` exactly for the rows the reader could not parse.
pub open spec fn skips_listed(skips: Seq<RowSkip>, rows: Seq<Option<Vec<String>>>) -> bool {
    (forall|k: int|
        0 <= k < skips.len() ==> (#[trigger] skips[k]).row < rows.len() && row_record(
            rows_view(rows)[skips[k].row as int],
        ) is None && (skips[k].reason is Unparsable <==> rows[skips[k].row as int] is None)) && (
    forall|k: int, l: int| 0 <= k < l < skips.len() ==> #[trigger] skips[k].row < #[trigger] skips[l].row)
}

/// Why an import was refused as a whole.
#[derive(Debug)]
pub enum ImportError {
    /// No row yielded a record, though some were read: the file is likely not
    /// attendance CSV at all.
    Unreadable,
}

impl AttendanceStore {
    /// Imports parsed rows: each row is validated on its own; when some rows were
    /// read and none yielded a record the import fails and the store is untouched,
    /// otherwise the store is reloaded with the records.
    pub fn import_rows(&mut self, rows: Vec<Option<Vec<String>>>) -> (r: Result<
        ImportSummary,
        ImportError,
    >)
        requires
            old(self).wf(),
        ensures
            final(self).wf(),
            final(self)@ == after_import(old(self)@, rows_view(rows@)),
            r is Err <==> import_fails(rows_view(rows@)),
            r matches Ok(s) ==> s.imported == accepted(rows_view(rows@)).len() && s.imported
                + s.skipped == rows@.len() && s.skips@.len() == s.skipped && skips_listed(
                s.skips@,
                rows@,
            ),
    {
        let ghost rv = rows_view(rows@);
        let n = rows.len();
        let mut records: Vec<EnrollmentRecord> = Vec::new();
        let mut skips: Vec<RowSkip> = Vec::new();
        let mut i: usize = 0;
        assert(rv.take(0) =~= Seq::<Option<Seq<Seq<char>>>>::empty());
        assert(views(records@) =~= Seq::<Enrollment>::empty());
        while i < n
            invariant
                n == rows@.len(),
                rv == rows_view(rows@),
                i <= n,
                views(records@) == accepted(rv.take(i as int)),
                records@.len() + skips@.len() == i,
                skips_listed(skips@, rows@),
                forall|k: int| 0 <= k < skips@.len() ==> (#[trigger] skips@[k]).row < i,
            decreases n - i,
        {
            assert(rv.take(i + 1).drop_last() =~= rv.take(i as int));
            assert(rv.take(i + 1).last() == rv[i as int]);
            match &rows[i] {
                Some(fields) => {
                    assert(rv[i as int] == Some(texts(fields@)));
                    match validate_fields(fields) {
                        Ok(rec) => {
                            records.push(rec);
                            assert(views(records@) =~= accepted(rv.take(i + 1)));
                        },
                        Err(reason) => {
                            skips.push(RowSkip { row: i, reason });
                        },
                    }
                },
                None => {
                    skips.push(RowSkip { row: i, reason: SkipReason::Unparsable });
                },
            }
            i = i + 1;
        }
        assert(rv.take(n as int) =~= rv);
        if records.len() == 0 && skips.len() > 0 {
            return Err(ImportError::Unreadable);
        }
        let imported = records.len();
        let skipped = skips.len();
        self.reset_and_bulk_load(records);
        Ok(ImportSummary { imported, skipped, skips })
    }

    /// Imports an uploaded blob: decodes it, reads its CSV rows and imports them.
    pub fn import_csv(&mut self, blob: &[u8]) -> (r: Result<ImportSummary, ImportError>)
        requires
            old(self).wf(),
            blob@.len() <= usize::MAX / 4,
        ensures
            final(self).wf(),
            final(self)@ == after_import(old(self)@, csv_rows(decoded(blob@).0)),
            r is Err <==> import_fails(csv_rows(decoded(blob@).0)),
            r matches Ok(s) ==> s.imported == accepted(csv_rows(decoded(blob@).0)).len(),
    {
        let (text, _) = decode(blob);
        let rows = read_csv_rows(text.as_str());
        self.import_rows(rows)
    }
}

} // verus!
