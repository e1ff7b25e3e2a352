//! The presence matrix of one grade: its students, its dates, and a cell for each
//! enrollment row, joined with the overrides.
use crate::query::{of_grade, sorted_rows};
use crate::store::{present_at, views, AttendanceStore, Enrollment};
use crate::text::{lemma_text_lt_total, lemma_text_lt_transitive, text_less, text_lt};
use vstd::prelude::*;

verus! {

/// One cell: an enrollment row and the presence shown for it.
#[derive(Debug)]
pub struct AttendanceCell {
    pub name: String,
    pub date: String,
    pub grade: i64,
    pub present: bool,
}

/// Students and dates of a grade, sorted and distinct, and one cell per
/// enrollment row of the grade. A (name, date) pair without a cell is not enrolled.
#[derive(Debug)]
pub struct AttendanceMatrix {
    pub students: Vec<String>,
    pub dates: Vec<String>,
    pub cells: Vec<AttendanceCell>,
}

/// The views of some strings.
pub open spec fn texts(s: Seq<String>) -> Seq<Seq<char>> {
    s.map_values(|x: String| x@)
}

/// Strictly ascending, hence distinct.
pub open spec fn strictly_sorted(s: Seq<Seq<char>>) -> bool {
    forall|i: int, j: int| 0 <= i < j < s.len() ==> text_lt(#[trigger] s[i], #[trigger] s[j])
}

/// The names of the rows of a grade.
pub open spec fn names_of(rows: Seq<Enrollment>, grade: i64) -> Set<Seq<char>> {
    Set::new(
        |t: Seq<char>|
            exists|i: int| 0 <= i < rows.len() && (#[trigger] rows[i]).grade == grade && rows[i].name == t,
    )
}

/// The dates of the rows of a grade.
pub open spec fn dates_of(rows: Seq<Enrollment>, grade: i64) -> Set<Seq<char>> {
    Set::new(
        |t: Seq<char>|
            exists|i: int| 0 <= i < rows.len() && (#[trigger] rows[i]).grade == grade && rows[i].date == t,
    )
}

/// The enrollment rows that some cells stand for.
pub open spec fn cell_rows(s: Seq<AttendanceCell>) -> Seq<Enrollment> {
    s.map_values(|c: AttendanceCell| Enrollment { name: c.name@, date: c.date@, grade: c.grade })
}

/// Adds a text to a strictly ascending list unless it is there already.
fn insert_distinct(out: &mut Vec<String>, x: &String)
    requires
        strictly_sorted(texts(old(out)@)),
    ensures
        strictly_sorted(texts(final(out)@)),
        forall|t: Seq<char>| #[trigger]
            texts(final(out)@).contains(t) <==> texts(old(out)@).contains(t) || t == x@,
{
    let ghost s = texts(out@);
    let n = out.len();
    let mut p: usize = 0;
    while p < n && text_less(out[p].as_str(), x.as_str())
        invariant
            n == out@.len(),
            s == texts(out@),
            p <= n,
            forall|j: int| 0 <= j < p ==> text_lt(#[trigger] s[j], x@),
        decreases n - p,
    {
        p = p + 1;
    }
    if p < n && out[p].eq(x) {
        assert(s[p as int] == x@);
        return;
    }
    out.insert(p, x.clone());
    proof {
        let t = texts(out@);
        assert(t =~= s.insert(p as int, x@));
        if p < n {
            assert(!text_lt(s[p as int], x@));
            lemma_text_lt_total(s[p as int], x@);
            assert(text_lt(x@, s[p as int]));
        }
        assert forall|i: int, j: int| 0 <= i < j < t.len() implies text_lt(
            #[trigger] t[i],
            #[trigger] t[j],
        ) by {
            if j < p {
                assert(t[i] == s[i] && t[j] == s[j]);
            } else if j == p {
                assert(t[i] == s[i]);
            } else if i > p {
                assert(t[i] == s[i - 1] && t[j] == s[j - 1]);
            } else if i == p {
                assert(t[j] == s[j - 1]);
                if j - 1 > p {
                    lemma_text_lt_transitive(x@, s[p as int], s[j - 1]);
                }
            } else {
                assert(t[i] == s[i] && t[j] == s[j - 1]);
            }
        }
        assert forall|q: Seq<char>| #[trigger]
            t.contains(q) <==> s.contains(q) || q == x@ by {
            if s.contains(q) {
                let j = choose|j: int| 0 <= j < s.len() && s[j] == q;
                if j < p {
                    assert(t[j] == q);
                } else {
                    assert(t[j + 1] == q);
                }
            }
            if q == x@ {
                assert(t[p as int] == q);
            }
            if t.contains(q) {
                let j = choose|j: int| 0 <= j < t.len() && t[j] == q;
                if j < p {
                    assert(s[j] == q);
                } else if j > p {
                    assert(s[j - 1] == q);
                }
            }
        }
    }
}

impl AttendanceStore {
    /// The presence matrix of one grade.
    pub fn project(&self, grade: i64) -> (m: AttendanceMatrix)
        requires
            self.wf(),
        ensures
            strictly_sorted(texts(m.students@)),
            forall|t: Seq<char>| #[trigger]
                texts(m.students@).contains(t) <==> names_of(self@.enrollment, grade).contains(t),
            strictly_sorted(texts(m.dates@)),
            forall|t: Seq<char>| #[trigger]
                texts(m.dates@).contains(t) <==> dates_of(self@.enrollment, grade).contains(t),
            sorted_rows(cell_rows(m.cells@)),
            cell_rows(m.cells@).to_multiset() == of_grade(self@.enrollment, grade).to_multiset(),
            forall|i: int|
                0 <= i < m.cells@.len() ==> (#[trigger] m.cells@[i]).present == present_at(
                    self@,
                    m.cells@[i].name@,
                    m.cells@[i].date@,
                ),
    {
        let rows = self.enrollment();
        let ghost s = self@.enrollment;
        let n = rows.len();
        let mut students: Vec<String> = Vec::new();
        let mut dates: Vec<String> = Vec::new();
        let mut i: usize = 0;
        assert(texts(students@) =~= Seq::<Seq<char>>::empty());
        assert(texts(dates@) =~= Seq::<Seq<char>>::empty());
        while i < n
            invariant
                n == rows@.len(),
                s == views(rows@),
                i <= n,
                strictly_sorted(texts(students@)),
                strictly_sorted(texts(dates@)),
                forall|t: Seq<char>| #[trigger]
                    texts(students@).contains(t) <==> names_of(s.take(i as int), grade).contains(t),
                forall|t: Seq<char>| #[trigger]
                    texts(dates@).contains(t) <==> dates_of(s.take(i as int), grade).contains(t),
            decreases n - i,
        {
            let ghost before = s.take(i as int);
            let ghost after = s.take(i + 1);
            if rows[i].grade == grade {
                insert_distinct(&mut students, &rows[i].name);
                insert_distinct(&mut dates, &rows[i].date);
            }
            proof {
                assert forall|t: Seq<char>| #[trigger] names_of(after, grade).contains(t) <==> (
                names_of(before, grade).contains(t) || (s[i as int].grade == grade && s[i as int].name
                    == t)) by {
                    if names_of(after, grade).contains(t) {
                        let j = choose|j: int| 0 <= j < after.len() && (#[trigger] after[j]).grade == grade && after[j].name == t;
                        if j < i {
                            assert(before[j] == after[j]);
                        }
                    }
                    if names_of(before, grade).contains(t) {
                        let j = choose|j: int| 0 <= j < before.len() && (#[trigger] before[j]).grade == grade && before[j].name == t;
                        assert(before[j] == after[j]);
                    }
                    if s[i as int].grade == grade && s[i as int].name == t {
                        assert(after[i as int] == s[i as int]);
                    }
                }
                assert forall|t: Seq<char>| #[trigger] dates_of(after, grade).contains(t) <==> (
                dates_of(before, grade).contains(t) || (s[i as int].grade == grade && s[i as int].date
                    == t)) by {
                    if dates_of(after, grade).contains(t) {
                        let j = choose|j: int| 0 <= j < after.len() && (#[trigger] after[j]).grade == grade && after[j].date == t;
                        if j < i {
                            assert(before[j] == after[j]);
                        }
                    }
                    if dates_of(before, grade).contains(t) {
                        let j = choose|j: int| 0 <= j < before.len() && (#[trigger] before[j]).grade == grade && before[j].date == t;
                        assert(before[j] == after[j]);
                    }
                    if s[i as int].grade == grade && s[i as int].date == t {
                        assert(after[i as int] == s[i as int]);
                    }
                }
            }
            i = i + 1;
        }
        assert(s.take(n as int) =~= s);
        let ordered = self.query_by_grade(grade);
        let mut cells: Vec<AttendanceCell> = Vec::new();
        let m = ordered.len();
        let mut k: usize = 0;
        while k < m
            invariant
                m == ordered@.len(),
                self.wf(),
                k <= m,
                cells@.len() == k,
                forall|j: int| 0 <= j < k ==> cell_rows(cells@)[j] == (#[trigger] ordered@[j])@,
                forall|j: int|
                    0 <= j < k ==> (#[trigger] cells@[j]).present == present_at(
                        self@,
                        cells@[j].name@,
                        cells@[j].date@,
                    ),
            decreases m - k,
        {
            let r = &ordered[k];
            let present = self.presence_of(&r.name, &r.date);
            cells.push(
                AttendanceCell {
                    name: r.name.clone(),
                    date: r.date.clone(),
                    grade: r.grade,
                    present,
                },
            );
            k = k + 1;
        }
        assert(cell_rows(cells@) =~= views(ordered@));
        AttendanceMatrix { students, dates, cells }
    }
}

} // verus!
