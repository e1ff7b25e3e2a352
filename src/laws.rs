//! Properties that relate several operations of the library.
use crate::export::{decimal, digit_char, digits_of};
use crate::import::{accepted, after_import, complete, import_fails, row_record};
use crate::store::{loaded, present_at, seeded, Enrollment, Presence, StoreView};
use crate::text::{
    digit_value, digits_value, integer_value, is_digit, is_space, lead_spaces, sign_len, trail_spaces, trimmed,
};
use vstd::prelude::*;

verus! {

/// Rows that all yield a record are all imported, in order: the import succeeds
/// and the store then holds exactly one enrollment row per CSV row.
pub proof fn lemma_clean_rows_all_imported(s: StoreView, rows: Seq<Option<Seq<Seq<char>>>>)
    requires
        forall|i: int| 0 <= i < rows.len() ==> (#[trigger] row_record(rows[i])) is Some,
    ensures
        accepted(rows).len() == rows.len(),
        forall|i: int| 0 <= i < rows.len() ==> Some(#[trigger] accepted(rows)[i]) == row_record(rows[i]),
        rows.len() > 0 ==> !import_fails(rows),
        after_import(s, rows).enrollment == accepted(rows),
    decreases rows.len(),
{
    if rows.len() > 0 {
        let rest = rows.drop_last();
        assert forall|i: int| 0 <= i < rest.len() implies (#[trigger] row_record(rest[i])) is Some by {
            assert(rest[i] == rows[i]);
        }
        lemma_clean_rows_all_imported(s, rest);
        assert(row_record(rows[rows.len() - 1]) is Some);
        assert forall|i: int| 0 <= i < rows.len() implies Some(#[trigger] accepted(rows)[i])
            == row_record(rows[i]) by {
            if i < rows.len() - 1 {
                assert(rest[i] == rows[i]);
            }
        }
    }
}

/// Importing the same rows twice leaves what importing them once leaves: a reload
/// replaces, it does not accumulate.
pub proof fn lemma_import_idempotent(s: StoreView, rows: Seq<Option<Seq<Seq<char>>>>)
    ensures
        after_import(after_import(s, rows), rows) == after_import(s, rows),
{
}

/// When rows were read and none yields a record, the import fails and the store is
/// left as it was.
pub proof fn lemma_unreadable_rows_fail(s: StoreView, rows: Seq<Option<Seq<Seq<char>>>>)
    requires
        rows.len() > 0,
        forall|i: int| 0 <= i < rows.len() ==> (#[trigger] row_record(rows[i])) is None,
    ensures
        import_fails(rows),
        after_import(s, rows) == s,
{
    lemma_none_accepted(rows);
}

proof fn lemma_none_accepted(rows: Seq<Option<Seq<Seq<char>>>>)
    requires
        forall|i: int| 0 <= i < rows.len() ==> (#[trigger] row_record(rows[i])) is None,
    ensures
        accepted(rows).len() == 0,
    decreases rows.len(),
{
    if rows.len() > 0 {
        let rest = rows.drop_last();
        assert forall|i: int| 0 <= i < rest.len() implies (#[trigger] row_record(rest[i])) is None by {
            assert(rest[i] == rows[i]);
        }
        lemma_none_accepted(rest);
        assert(row_record(rows[rows.len() - 1]) is None);
    }
}

/// After a reload, and before any explicit decision, every key shows present.
pub proof fn lemma_loaded_all_present(rows: Seq<Enrollment>, name: Seq<char>, date: Seq<char>)
    ensures
        present_at(loaded(rows), name, date),
    decreases rows.len(),
{
    if rows.len() > 0 {
        lemma_loaded_all_present(rows.drop_last(), name, date);
    }
}

/// An explicit decision shows at its own key, and no other key changes.
pub proof fn lemma_override_precedence(
    v: StoreView,
    name: Seq<char>,
    date: Seq<char>,
    grade: i64,
    present: bool,
    other_name: Seq<char>,
    other_date: Seq<char>,
)
    ensures
        ({
            let w = StoreView {
                enrollment: v.enrollment,
                presence: v.presence.insert((name, date), Presence { grade, present }),
            };
            present_at(w, name, date) == present && ((other_name, other_date) != (name, date)
                ==> present_at(w, other_name, other_date) == present_at(v, other_name, other_date))
        }),
{
}

proof fn lemma_digit_char(d: int)
    requires
        0 <= d < 10,
    ensures
        is_digit(digit_char(d)),
        digit_value(digit_char(d)) == d,
{
}

proof fn lemma_digits_of(n: nat)
    ensures
        digits_of(n).len() > 0,
        forall|i: int| 0 <= i < digits_of(n).len() ==> is_digit(#[trigger] digits_of(n)[i]),
        digits_value(digits_of(n)) == n,
    decreases n,
{
    lemma_digit_char((n % 10) as int);
    if n >= 10 {
        lemma_digits_of(n / 10);
        let s = digits_of(n);
        assert(s.drop_last() =~= digits_of(n / 10));
        assert(n == (n / 10) * 10 + n % 10) by (nonlinear_arith);
    } else {
        assert(digits_of(n).drop_last() =~= Seq::<char>::empty());
        assert(n % 10 == n);
        assert(digits_value(Seq::<char>::empty()) == 0);
        assert(digits_of(n).last() == digit_char(n as int));
    }
}

/// The decimal text of an integer reads back as that integer.
pub proof fn lemma_decimal_round_trip(v: i64)
    ensures
        integer_value(decimal(v as int)) == Some(v),
{
    let t = decimal(v as int);
    if v < 0 {
        let m = (-v) as nat;
        lemma_digits_of(m);
        assert(t.skip(1) =~= digits_of(m));
    } else {
        lemma_digits_of(v as nat);
        assert(t.skip(0) =~= t);
    }
}

/// A text that does not start or end with white space is its own trim.
pub proof fn lemma_trimmed_fixed(s: Seq<char>)
    requires
        s.len() > 0,
        !is_space(s[0]),
        !is_space(s.last()),
    ensures
        trimmed(s) == s,
{
    assert(lead_spaces(s) == 0);
    assert(s.skip(0) =~= s);
    assert(trail_spaces(s) == 0);
    assert(s.take(s.len() as int) =~= s);
}

/// Whether a row is as an import leaves it: name and date non-empty and without
/// surrounding white space.
pub open spec fn canonical(e: Enrollment) -> bool {
    e.name.len() > 0 && e.date.len() > 0 && !is_space(e.name[0]) && !is_space(e.name.last())
        && !is_space(e.date[0]) && !is_space(e.date.last())
}

/// The fields that an exported line holds, once the CSV quoting is undone.
pub open spec fn exported_fields(e: Enrollment) -> Option<Seq<Seq<char>>> {
    Some(seq![e.name, e.date, decimal(e.grade as int)])
}

/// The fields that export writes for a canonical row validate back to that row.
pub proof fn lemma_exported_row_reads_back(e: Enrollment)
    requires
        canonical(e),
    ensures
        row_record(exported_fields(e)) == Some(e),
{
    let f = seq![e.name, e.date, decimal(e.grade as int)];
    lemma_trimmed_fixed(e.name);
    lemma_trimmed_fixed(e.date);
    let t = decimal(e.grade as int);
    lemma_decimal_round_trip(e.grade);
    if e.grade < 0 {
        lemma_digits_of((-e.grade) as nat);
        assert(t[0] == '-');
        assert(t.last() == digits_of((-e.grade) as nat).last());
    } else {
        lemma_digits_of(e.grade as nat);
    }
    assert(is_digit(t.last()));
    lemma_trimmed_fixed(t);
    assert(f[0] == e.name && f[1] == e.date && f[2] == t);
    assert(complete(f));
}

/// Export composed with import is a fixed point on canonical rows: the fields
/// that export writes for each row import back to exactly those rows.
pub proof fn lemma_export_import_fixed_point(rows: Seq<Enrollment>)
    requires
        forall|i: int| 0 <= i < rows.len() ==> canonical(#[trigger] rows[i]),
    ensures
        accepted(rows.map_values(|e: Enrollment| exported_fields(e))) == rows,
    decreases rows.len(),
{
    let f = rows.map_values(|e: Enrollment| exported_fields(e));
    if rows.len() == 0 {
        assert(accepted(f) =~= rows);
    } else {
        let rest = rows.drop_last();
        assert forall|i: int| 0 <= i < rest.len() implies canonical(#[trigger] rest[i]) by {
            assert(rest[i] == rows[i]);
        }
        lemma_export_import_fixed_point(rest);
        assert(f.drop_last() =~= rest.map_values(|e: Enrollment| exported_fields(e)));
        lemma_exported_row_reads_back(rows.last());
        assert(accepted(f) =~= rows);
    }
}

} // verus!
