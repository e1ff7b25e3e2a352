//! Ordered scans of the enrollment rows.
use crate::store::{views, AttendanceStore, Enrollment, EnrollmentRecord};
use crate::text::{lemma_text_lt_asymmetric, lemma_text_lt_transitive, text_less, text_lt};
use vstd::prelude::*;
use vstd::seq_lib::to_multiset_insert;

verus! {

/// Strict order of rows: by name, then by date.
pub open spec fn row_lt(a: Enrollment, b: Enrollment) -> bool {
    text_lt(a.name, b.name) || (a.name == b.name && text_lt(a.date, b.date))
}

/// Rows in ascending (name, date) order.
pub open spec fn sorted_rows(s: Seq<Enrollment>) -> bool {
    forall|i: int, j: int| 0 <= i < j < s.len() ==> !row_lt(#[trigger] s[j], #[trigger] s[i])
}

/// The rows of one grade, in storage order.
pub open spec fn of_grade(s: Seq<Enrollment>, grade: i64) -> Seq<Enrollment>
    decreases s.len(),
{
    if s.len() == 0 {
        s
    } else if s.last().grade == grade {
        of_grade(s.drop_last(), grade).push(s.last())
    } else {
        of_grade(s.drop_last(), grade)
    }
}

/// The row order is asymmetric.
pub proof fn lemma_row_lt_asymmetric(a: Enrollment, b: Enrollment)
    requires
        row_lt(a, b),
    ensures
        !row_lt(b, a),
{
    if text_lt(a.name, b.name) {
        lemma_text_lt_asymmetric(a.name, b.name);
    } else {
        lemma_text_lt_asymmetric(a.date, b.date);
        crate::text::lemma_text_lt_irreflexive(a.name);
    }
}

/// The row order is transitive.
pub proof fn lemma_row_lt_transitive(a: Enrollment, b: Enrollment, c: Enrollment)
    requires
        row_lt(a, b),
        row_lt(b, c),
    ensures
        row_lt(a, c),
{
    if text_lt(a.name, b.name) && text_lt(b.name, c.name) {
        lemma_text_lt_transitive(a.name, b.name, c.name);
    } else if a.name == b.name && b.name == c.name {
        lemma_text_lt_transitive(a.date, b.date, c.date);
    }
}

/// A copy of a row.
pub fn copy_record(r: &EnrollmentRecord) -> (c: EnrollmentRecord)
    ensures
        c@ == r@,
{
    EnrollmentRecord { name: r.name.clone(), date: r.date.clone(), grade: r.grade }
}

/// Whether `a` comes strictly before `b` in (name, date) order.
pub fn row_less(a: &EnrollmentRecord, b: &EnrollmentRecord) -> (r: bool)
    ensures
        r == row_lt(a@, b@),
{
    if text_less(a.name.as_str(), b.name.as_str()) {
        true
    } else if a.name.eq(&b.name) {
        text_less(a.date.as_str(), b.date.as_str())
    } else {
        false
    }
}

/// Inserts a row after every row that does not come after it.
fn insert_sorted(out: &mut Vec<EnrollmentRecord>, rec: EnrollmentRecord)
    requires
        sorted_rows(views(old(out)@)),
    ensures
        sorted_rows(views(final(out)@)),
        views(final(out)@).to_multiset() == views(old(out)@).to_multiset().insert(rec@),
{
    let ghost s = views(out@);
    let n = out.len();
    let mut p: usize = 0;
    while p < n && !row_less(&rec, &out[p])
        invariant
            n == out@.len(),
            s == views(out@),
            p <= n,
            forall|j: int| 0 <= j < p ==> !row_lt(rec@, #[trigger] s[j]),
        decreases n - p,
    {
        p = p + 1;
    }
    out.insert(p, rec);
    proof {
        let t = views(out@);
        assert(t =~= s.insert(p as int, rec@));
        to_multiset_insert(s, p as int, rec@);
        assert forall|i: int, j: int| 0 <= i < j < t.len() implies !row_lt(
            #[trigger] t[j],
            #[trigger] t[i],
        ) by {
            if j < p {
                assert(t[i] == s[i] && t[j] == s[j]);
            } else if j == p {
                assert(t[i] == s[i]);
            } else if i > p {
                assert(t[i] == s[i - 1] && t[j] == s[j - 1]);
            } else if i == p {
                assert(t[j] == s[j - 1]);
                assert(row_lt(rec@, s[p as int]));
                if row_lt(s[j - 1], rec@) {
                    if j - 1 == p {
                        lemma_row_lt_asymmetric(rec@, s[p as int]);
                    } else {
                        lemma_row_lt_transitive(s[j - 1], rec@, s[p as int]);
                    }
                }
            } else {
                assert(t[i] == s[i] && t[j] == s[j - 1]);
            }
        }
    }
}

impl AttendanceStore {
    /// The rows of one grade, ordered by name, then date.
    pub fn query_by_grade(&self, grade: i64) -> (r: Vec<EnrollmentRecord>)
        ensures
            sorted_rows(views(r@)),
            views(r@).to_multiset() == of_grade(self@.enrollment, grade).to_multiset(),
    {
        let rows = self.enrollment();
        let ghost s = self@.enrollment;
        let mut out: Vec<EnrollmentRecord> = Vec::new();
        let n = rows.len();
        let mut i: usize = 0;
        assert(s.take(0) =~= Seq::<Enrollment>::empty());
        assert(views(out@) =~= Seq::<Enrollment>::empty());
        while i < n
            invariant
                n == rows@.len(),
                s == views(rows@),
                i <= n,
                sorted_rows(views(out@)),
                views(out@).to_multiset() == of_grade(s.take(i as int), grade).to_multiset(),
            decreases n - i,
        {
            assert(s.take(i + 1).drop_last() =~= s.take(i as int));
            assert(s.take(i + 1).last() == rows@[i as int]@);
            if rows[i].grade == grade {
                insert_sorted(&mut out, copy_record(&rows[i]));
                proof {
                    let g = of_grade(s.take(i as int), grade);
                    assert(g.push(rows@[i as int]@) =~= g.insert(g.len() as int, rows@[i as int]@));
                    to_multiset_insert(g, g.len() as int, rows@[i as int]@);
                }
            }
            i = i + 1;
        }
        assert(s.take(n as int) =~= s);
        out
    }

    /// Every row, ordered by name, then date.
    pub fn query_all(&self) -> (r: Vec<EnrollmentRecord>)
        ensures
            sorted_rows(views(r@)),
            views(r@).to_multiset() == self@.enrollment.to_multiset(),
    {
        let rows = self.enrollment();
        let ghost s = self@.enrollment;
        let mut out: Vec<EnrollmentRecord> = Vec::new();
        let n = rows.len();
        let mut i: usize = 0;
        assert(s.take(0) =~= Seq::<Enrollment>::empty());
        assert(views(out@) =~= Seq::<Enrollment>::empty());
        while i < n
            invariant
                n == rows@.len(),
                s == views(rows@),
                i <= n,
                sorted_rows(views(out@)),
                views(out@).to_multiset() == s.take(i as int).to_multiset(),
            decreases n - i,
        {
            proof {
                let t = s.take(i as int);
                assert(s.take(i + 1) =~= t.insert(t.len() as int, rows@[i as int]@));
                to_multiset_insert(t, t.len() as int, rows@[i as int]@);
            }
            insert_sorted(&mut out, copy_record(&rows[i]));
            i = i + 1;
        }
        assert(s.take(n as int) =~= s);
        out
    }
}

} // verus!
