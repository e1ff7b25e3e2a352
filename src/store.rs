//! The attendance store: enrollment rows, and presence overrides keyed by
//! (name, date) with last-write-wins updates.
use vstd::prelude::*;

verus! {

/// One enrollment row: this student was counted on this date in this grade.
#[derive(Debug)]
pub struct EnrollmentRecord {
    pub name: String,
    pub date: String,
    pub grade: i64,
}

/// An explicit attendance decision for a (name, date) pair.
#[derive(Debug)]
pub struct PresenceOverride {
    pub name: String,
    pub date: String,
    pub grade: i64,
    pub present: bool,
}

/// Mathematical form of an enrollment row.
pub struct Enrollment {
    pub name: Seq<char>,
    pub date: Seq<char>,
    pub grade: i64,
}

/// What an override records for its key.
pub struct Presence {
    pub grade: i64,
    pub present: bool,
}

/// Mathematical form of the store: the enrollment rows in storage order, and the
/// override of each (name, date) key that has one.
pub struct StoreView {
    pub enrollment: Seq<Enrollment>,
    pub presence: Map<(Seq<char>, Seq<char>), Presence>,
}

impl View for EnrollmentRecord {
    type V = Enrollment;

    open spec fn view(&self) -> Enrollment {
        Enrollment { name: self.name@, date: self.date@, grade: self.grade }
    }
}

impl PresenceOverride {
    pub open spec fn key(&self) -> (Seq<char>, Seq<char>) {
        (self.name@, self.date@)
    }

    pub open spec fn value(&self) -> Presence {
        Presence { grade: self.grade, present: self.present }
    }
}

impl Enrollment {
    pub open spec fn key(self) -> (Seq<char>, Seq<char>) {
        (self.name, self.date)
    }
}

/// The views of a sequence of enrollment rows.
pub open spec fn views(s: Seq<EnrollmentRecord>) -> Seq<Enrollment> {
    s.map_values(|r: EnrollmentRecord| r@)
}

/// No two overrides share a key.
pub open spec fn keys_unique(s: Seq<PresenceOverride>) -> bool {
    forall|i: int, j: int|
        0 <= i < s.len() && 0 <= j < s.len() && i != j ==> #[trigger] s[i].key() != #[trigger] s[j].key()
}

/// The override table as a map from key to presence.
pub open spec fn presence_map(s: Seq<PresenceOverride>) -> Map<(Seq<char>, Seq<char>), Presence> {
    Map::new(
        |k: (Seq<char>, Seq<char>)| exists|i: int| 0 <= i < s.len() && #[trigger] s[i].key() == k,
        |k: (Seq<char>, Seq<char>)|
            {
                let i = choose|i: int| 0 <= i < s.len() && #[trigger] s[i].key() == k;
                s[i].value()
            },
    )
}

/// The overrides that loading these rows seeds: each row in turn marks its key
/// present, a later row replacing an earlier one with the same key.
pub open spec fn seeded(rows: Seq<Enrollment>) -> Map<(Seq<char>, Seq<char>), Presence>
    decreases rows.len(),
{
    if rows.len() == 0 {
        Map::empty()
    } else {
        seeded(rows.drop_last()).insert(
            rows.last().key(),
            Presence { grade: rows.last().grade, present: true },
        )
    }
}

/// The store that a full reload with these rows leaves.
pub open spec fn loaded(rows: Seq<Enrollment>) -> StoreView {
    StoreView { enrollment: rows, presence: seeded(rows) }
}

/// Whether some enrollment row has this key.
pub open spec fn enrolled(rows: Seq<Enrollment>, name: Seq<char>, date: Seq<char>) -> bool {
    exists|i: int| 0 <= i < rows.len() && (#[trigger] rows[i]).name == name && rows[i].date == date
}

/// The overrides that writing these in turn leaves, later ones replacing earlier
/// ones with the same key.
pub open spec fn written(s: Seq<PresenceOverride>) -> Map<(Seq<char>, Seq<char>), Presence>
    decreases s.len(),
{
    if s.len() == 0 {
        Map::empty()
    } else {
        written(s.drop_last()).insert(s.last().key(), s.last().value())
    }
}

/// Why a presence update was refused.
#[derive(Debug)]
pub enum StoreError {
    /// No enrollment row has the (name, date) key.
    RecordNotFound,
}

/// The presence shown for a key: its override if it has one, else present.
pub open spec fn present_at(v: StoreView, name: Seq<char>, date: Seq<char>) -> bool {
    if v.presence.contains_key((name, date)) {
        v.presence[(name, date)].present
    } else {
        true
    }
}

/// The store's record of attendance.
pub struct AttendanceStore {
    enrollment: Vec<EnrollmentRecord>,
    overrides: Vec<PresenceOverride>,
}

impl View for AttendanceStore {
    type V = StoreView;

    closed spec fn view(&self) -> StoreView {
        StoreView { enrollment: views(self.enrollment@), presence: presence_map(self.overrides@) }
    }
}

/// Whether two texts are equal.
fn same_text(a: &String, b: &String) -> (r: bool)
    ensures
        r == (a@ == b@),
{
    a.eq(b)
}

impl AttendanceStore {
    /// The store's internal invariant: override keys are unique.
    pub closed spec fn wf(&self) -> bool {
        keys_unique(self.overrides@)
    }

    /// An empty store.
    pub fn new() -> (r: Self)
        ensures
            r.wf(),
            r@.enrollment.len() == 0,
            r@.presence.is_empty(),
    {
        let r = AttendanceStore { enrollment: Vec::new(), overrides: Vec::new() };
        assert(r@.presence =~= Map::empty());
        r
    }

    /// The enrollment rows, in storage order.
    pub fn enrollment(&self) -> (r: &Vec<EnrollmentRecord>)
        ensures
            views(r@) == self@.enrollment,
    {
        &self.enrollment
    }

    /// The overrides, one per key.
    pub fn overrides(&self) -> (r: &Vec<PresenceOverride>)
        requires
            self.wf(),
        ensures
            keys_unique(r@),
            presence_map(r@) == self@.presence,
    {
        &self.overrides
    }

    /// Writes the override of a key, replacing any earlier one.
    fn upsert(&mut self, name: String, date: String, grade: i64, present: bool)
        requires
            old(self).wf(),
        ensures
            final(self).wf(),
            final(self)@.enrollment == old(self)@.enrollment,
            final(self)@.presence == old(self)@.presence.insert(
                (name@, date@),
                Presence { grade, present },
            ),
    {
        let ghost old_s = self.overrides@;
        let ghost k = (name@, date@);
        let n = self.overrides.len();
        let mut i: usize = 0;
        while i < n
            invariant
                n == self.overrides@.len(),
                self.overrides@ == old_s,
                old_s == old(self).overrides@,
                self.enrollment == old(self).enrollment,
                keys_unique(old_s),
                k == (name@, date@),
                i <= n,
                forall|j: int| 0 <= j < i ==> (#[trigger] old_s[j]).key() != k,
            decreases n - i,
        {
            let same_name = same_text(&self.overrides[i].name, &name);
            let same_date = same_text(&self.overrides[i].date, &date);
            assert(same_name == (old_s[i as int].name@ == name@));
            assert(same_date == (old_s[i as int].date@ == date@));
            if same_name && same_date {
                let x = PresenceOverride { name, date, grade, present };
                self.overrides[i] = x;
                proof {
                    let s = self.overrides@;
                    assert(s == old_s.update(i as int, x));
                    assert(old_s[i as int].key() == k);
                    assert forall|a: int, b: int|
                        0 <= a < s.len() && 0 <= b < s.len() && a != b implies #[trigger] s[a].key()
                        != #[trigger] s[b].key() by {
                        assert(old_s[a].key() != old_s[b].key());
                    }
                    let m = old(self)@.presence.insert(k, x.value());
                    assert forall|q: (Seq<char>, Seq<char>)| #[trigger]
                        presence_map(s).contains_key(q) == m.contains_key(q) by {
                        if q != k && m.contains_key(q) {
                            let j = choose|j: int| 0 <= j < old_s.len() && #[trigger] old_s[j].key() == q;
                            assert(s[j].key() == q);
                        }
                        if presence_map(s).contains_key(q) && q != k {
                            let j = choose|j: int| 0 <= j < s.len() && #[trigger] s[j].key() == q;
                            assert(old_s[j].key() == q);
                        }
                        if q == k {
                            assert(s[i as int].key() == q);
                        }
                    }
                    assert forall|q: (Seq<char>, Seq<char>)| #[trigger]
                        presence_map(s).contains_key(q) implies presence_map(s)[q] == m[q] by {
                        let j = choose|j: int| 0 <= j < s.len() && #[trigger] s[j].key() == q;
                        if q == k {
                            assert(j == i);
                        } else {
                            assert(old_s[j].key() == q);
                            let j2 = choose|j2: int| 0 <= j2 < old_s.len() && #[trigger] old_s[j2].key() == q;
                            assert(j2 == j);
                        }
                    }
                    assert(presence_map(s) =~= m);
                }
                return;
            }
            assert(old_s[i as int].key() != k);
            i = i + 1;
        }
        let x = PresenceOverride { name, date, grade, present };
        self.overrides.push(x);
        proof {
            let s = self.overrides@;
            assert(s == old_s.push(x));
            assert(keys_unique(s));
            let m = old(self)@.presence.insert(k, x.value());
            assert forall|q: (Seq<char>, Seq<char>)| #[trigger]
                presence_map(s).contains_key(q) == m.contains_key(q) by {
                if q != k && m.contains_key(q) {
                    let j = choose|j: int| 0 <= j < old_s.len() && #[trigger] old_s[j].key() == q;
                    assert(s[j].key() == q);
                }
                if presence_map(s).contains_key(q) && q != k {
                    let j = choose|j: int| 0 <= j < s.len() && #[trigger] s[j].key() == q;
                    assert(old_s[j].key() == q);
                }
                if q == k {
                    assert(s[n as int].key() == q);
                }
            }
            assert forall|q: (Seq<char>, Seq<char>)| #[trigger]
                presence_map(s).contains_key(q) implies presence_map(s)[q] == m[q] by {
                let j = choose|j: int| 0 <= j < s.len() && #[trigger] s[j].key() == q;
                if q == k {
                    assert(j == n);
                } else {
                    assert(old_s[j].key() == q);
                    let j2 = choose|j2: int| 0 <= j2 < old_s.len() && #[trigger] old_s[j2].key() == q;
                    assert(j2 == j);
                }
            }
            assert(presence_map(s) =~= m);
        }
    }

    /// A store holding these rows, with these overrides written in turn.
    pub fn from_parts(enrollment: Vec<EnrollmentRecord>, overrides: Vec<PresenceOverride>) -> (r:
        Self)
        ensures
            r.wf(),
            r@.enrollment == views(enrollment@),
            r@.presence == written(overrides@),
    {
        let mut r = AttendanceStore::new();
        let n = overrides.len();
        let mut i: usize = 0;
        assert(r@.presence =~= written(overrides@.take(0)));
        while i < n
            invariant
                n == overrides@.len(),
                i <= n,
                r.wf(),
                r@.enrollment.len() == 0,
                r@.presence == written(overrides@.take(i as int)),
            decreases n - i,
        {
            let o = &overrides[i];
            r.upsert(o.name.clone(), o.date.clone(), o.grade, o.present);
            assert(overrides@.take(i + 1).drop_last() =~= overrides@.take(i as int));
            assert(overrides@.take(i + 1).last() == overrides@[i as int]);
            i = i + 1;
        }
        assert(overrides@.take(n as int) =~= overrides@);
        r.enrollment = enrollment;
        r
    }

    /// Discards every row and override, then loads these rows, each seeding its
    /// key as present.
    pub fn reset_and_bulk_load(&mut self, records: Vec<EnrollmentRecord>)
        ensures
            final(self).wf(),
            final(self)@ == loaded(views(records@)),
    {
        let mut fresh = AttendanceStore::new();
        let ghost rows = views(records@);
        let n = records.len();
        let mut i: usize = 0;
        assert(fresh@.presence =~= seeded(rows.take(0)));
        while i < n
            invariant
                n == records@.len(),
                rows == views(records@),
                i <= n,
                fresh.wf(),
                fresh@.enrollment.len() == 0,
                fresh@.presence == seeded(rows.take(i as int)),
            decreases n - i,
        {
            let r = &records[i];
            fresh.upsert(r.name.clone(), r.date.clone(), r.grade, true);
            assert(rows.take(i + 1).drop_last() =~= rows.take(i as int));
            assert(rows.take(i + 1).last() == records@[i as int]@);
            i = i + 1;
        }
        assert(rows.take(n as int) =~= rows);
        fresh.enrollment = records;
        *self = fresh;
    }

    /// Appends one enrollment row and marks its key present.
    pub fn add_one(&mut self, record: EnrollmentRecord)
        requires
            old(self).wf(),
        ensures
            final(self).wf(),
            final(self)@.enrollment == old(self)@.enrollment.push(record@),
            final(self)@.presence == old(self)@.presence.insert(
                record@.key(),
                Presence { grade: record.grade, present: true },
            ),
    {
        self.upsert(record.name.clone(), record.date.clone(), record.grade, true);
        self.enrollment.push(record);
        assert(views(self.enrollment@) =~= views(old(self).enrollment@).push(record@));
    }

    /// Records an explicit decision for a key that some enrollment row has, with
    /// the grade of such a row; refused when no row has the key.
    pub fn set_presence(&mut self, name: String, date: String, present: bool) -> (r: Result<
        (),
        StoreError,
    >)
        requires
            old(self).wf(),
        ensures
            final(self).wf(),
            r is Err <==> !enrolled(old(self)@.enrollment, name@, date@),
            r is Err ==> final(self)@ == old(self)@,
            r is Ok ==> final(self)@.enrollment == old(self)@.enrollment && exists|j: int|
                0 <= j < old(self)@.enrollment.len() && (#[trigger] old(self)@.enrollment[j]).key()
                    == (name@, date@) && final(self)@.presence == old(self)@.presence.insert(
                    (name@, date@),
                    Presence { grade: old(self)@.enrollment[j].grade, present },
                ),
    {
        let ghost rows = self@.enrollment;
        let n = self.enrollment.len();
        let mut i: usize = 0;
        while i < n
            invariant
                n == self.enrollment@.len(),
                rows == views(self.enrollment@),
                *self == *old(self),
                self.wf(),
                i <= n,
                forall|j: int| 0 <= j < i ==> (#[trigger] rows[j]).key() != (name@, date@),
            decreases n - i,
        {
            let same_name = same_text(&self.enrollment[i].name, &name);
            let same_date = same_text(&self.enrollment[i].date, &date);
            if same_name && same_date {
                let grade = self.enrollment[i].grade;
                let ghost k = (name@, date@);
                assert(rows[i as int].key() == k);
                self.upsert(name, date, grade, present);
                assert(rows[i as int].grade == grade);
                return Ok(());
            }
            assert(rows[i as int].key() != (name@, date@));
            i = i + 1;
        }
        assert(!enrolled(rows, name@, date@)) by {
            if enrolled(rows, name@, date@) {
                let j = choose|j: int| 0 <= j < rows.len() && (#[trigger] rows[j]).name == name@ && rows[j].date == date@;
                assert(rows[j].key() == (name@, date@));
            }
        }
        Err(StoreError::RecordNotFound)
    }

    /// The presence shown for a key: its override, else present.
    pub fn presence_of(&self, name: &String, date: &String) -> (r: bool)
        requires
            self.wf(),
        ensures
            r == present_at(self@, name@, date@),
    {
        let ghost s = self.overrides@;
        let ghost k = (name@, date@);
        let n = self.overrides.len();
        let mut i: usize = 0;
        while i < n
            invariant
                n == s.len(),
                s == self.overrides@,
                keys_unique(s),
                k == (name@, date@),
                i <= n,
                forall|j: int| 0 <= j < i ==> (#[trigger] s[j]).key() != k,
            decreases n - i,
        {
            let same_name = same_text(&self.overrides[i].name, name);
            let same_date = same_text(&self.overrides[i].date, date);
            if same_name && same_date {
                proof {
                    assert(s[i as int].key() == k);
                    let j = choose|j: int| 0 <= j < s.len() && #[trigger] s[j].key() == k;
                    assert(j == i);
                }
                return self.overrides[i].present;
            }
            assert(s[i as int].key() != k);
            i = i + 1;
        }
        true
    }
}

} // verus!
