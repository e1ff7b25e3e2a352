//! Rendering the store back to CSV text.
use crate::query::sorted_rows;
use crate::store::{views, AttendanceStore, Enrollment, EnrollmentRecord};
use vstd::prelude::*;
use vstd::string::*;

verus! {

/// The decimal digit character of a value below ten.
pub open spec fn digit_char(d: int) -> char {
    if d == 0 {
        '0'
    } else if d == 1 {
        '1'
    } else if d == 2 {
        '2'
    } else if d == 3 {
        '3'
    } else if d == 4 {
        '4'
    } else if d == 5 {
        '5'
    } else if d == 6 {
        '6'
    } else if d == 7 {
        '7'
    } else if d == 8 {
        '8'
    } else {
        '9'
    }
}

/// The decimal digits of a natural number, without leading zeros.
pub open spec fn digits_of(n: nat) -> Seq<char>
    decreases n,
{
    if n < 10 {
        seq![digit_char(n as int)]
    } else {
        digits_of(n / 10).push(digit_char((n % 10) as int))
    }
}

/// The decimal text of an integer, with a minus sign when negative.
pub open spec fn decimal(v: int) -> Seq<char> {
    if v < 0 {
        seq!['-'] + digits_of((-v) as nat)
    } else {
        digits_of(v as nat)
    }
}

/// Whether a field must be quoted: it holds a comma, a double quote or a newline.
pub open spec fn needs_quoting(s: Seq<char>) -> bool {
    exists|i: int| 0 <= i < s.len() && (s[i] == ',' || s[i] == '"' || s[i] == '\n')
}

/// The text with each double quote doubled.
pub open spec fn doubled_quotes(s: Seq<char>) -> Seq<char>
    decreases s.len(),
{
    if s.len() == 0 {
        Seq::empty()
    } else if s.last() == '"' {
        doubled_quotes(s.drop_last()) + seq!['"', '"']
    } else {
        doubled_quotes(s.drop_last()).push(s.last())
    }
}

/// A field as written to CSV: quoted, inner quotes doubled, only where needed.
pub open spec fn escaped(s: Seq<char>) -> Seq<char> {
    if needs_quoting(s) {
        seq!['"'] + doubled_quotes(s) + seq!['"']
    } else {
        s
    }
}

/// One row as a CSV line.
pub open spec fn csv_line(e: Enrollment) -> Seq<char> {
    escaped(e.name) + seq![','] + escaped(e.date) + seq![','] + decimal(e.grade as int) + seq!['\n']
}

/// The lines of some rows, in order.
pub open spec fn csv_lines(rows: Seq<Enrollment>) -> Seq<char>
    decreases rows.len(),
{
    if rows.len() == 0 {
        Seq::empty()
    } else {
        csv_lines(rows.drop_last()) + csv_line(rows.last())
    }
}

/// The header line of exported CSV.
pub open spec fn csv_header() -> Seq<char> {
    seq!['n', 'a', 'm', 'e', ',', 'd', 'a', 't', 'e', ',', 'g', 'r', 'a', 'd', 'e', '\n']
}

/// Appends the decimal digits of a number.
fn append_digits(out: &mut String, n: u64)
    ensures
        final(out)@ == old(out)@ + digits_of(n as nat),
    decreases n,
{
    if n >= 10 {
        append_digits(out, n / 10);
    }
    let d = (n % 10) as usize;
    let all = "0123456789";
    proof {
        reveal_strlit("0123456789");
    }
    let one = all.substring_char(d, d + 1);
    assert(one@ =~= seq![digit_char(d as int)]);
    let ghost mid = out@;
    out.append(one);
    if n >= 10 {
        assert(out@ =~= old(out)@ + digits_of(n as nat));
    } else {
        assert(out@ =~= old(out)@ + digits_of(n as nat));
    }
}

/// The decimal text of an integer.
pub fn integer_text(v: i64) -> (r: String)
    ensures
        r@ == decimal(v as int),
{
    let mut out = String::new();
    if v < 0 {
        let minus = "-";
        proof {
            reveal_strlit("-");
        }
        out.append(minus);
        let mag = (0 - (v as i128)) as u64;
        append_digits(&mut out, mag);
        assert(out@ =~= decimal(v as int));
    } else {
        append_digits(&mut out, v as u64);
        assert(out@ =~= decimal(v as int));
    }
    out
}

/// Writes a field for CSV, quoting it only where needed.
pub fn escape_field(s: &str) -> (r: String)
    ensures
        r@ == escaped(s@),
{
    let n = s.unicode_len();
    let mut needs = false;
    let mut i: usize = 0;
    while i < n
        invariant
            n == s@.len(),
            i <= n,
            needs == exists|j: int| 0 <= j < i && (s@[j] == ',' || s@[j] == '"' || s@[j] == '\n'),
        decreases n - i,
    {
        let c = s.get_char(i);
        if c == ',' || c == '"' || c == '\n' {
            needs = true;
        }
        i = i + 1;
    }
    if !needs {
        return String::from_str(s);
    }
    let quote = "\"";
    let pair = "\"\"";
    proof {
        reveal_strlit("\"");
        reveal_strlit("\"\"");
    }
    let mut out = String::from_str(quote);
    let mut k: usize = 0;
    assert(s@.take(0) =~= Seq::<char>::empty());
    assert(out@ =~= seq!['"'] + doubled_quotes(s@.take(0)));
    while k < n
        invariant
            n == s@.len(),
            k <= n,
            quote@ == seq!['"'],
            pair@ == seq!['"', '"'],
            out@ == seq!['"'] + doubled_quotes(s@.take(k as int)),
        decreases n - k,
    {
        let c = s.get_char(k);
        assert(s@.take(k + 1).drop_last() =~= s@.take(k as int));
        assert(s@.take(k + 1).last() == c);
        if c == '"' {
            out.append(pair);
        } else {
            let one = s.substring_char(k, k + 1);
            assert(one@ =~= seq![c]);
            out.append(one);
        }
        assert(out@ =~= seq!['"'] + doubled_quotes(s@.take(k + 1)));
        k = k + 1;
    }
    assert(s@.take(n as int) =~= s@);
    out.append(quote);
    out
}

/// Renders rows as CSV: the header, then one line per row in order.
pub fn render_csv(rows: &Vec<EnrollmentRecord>) -> (r: String)
    ensures
        r@ == csv_header() + csv_lines(views(rows@)),
{
    let header = "name,date,grade\n";
    let comma = ",";
    let newline = "\n";
    proof {
        reveal_strlit("name,date,grade\n");
        reveal_strlit(",");
        reveal_strlit("\n");
    }
    let mut out = String::from_str(header);
    assert(out@ =~= csv_header());
    let ghost s = views(rows@);
    let n = rows.len();
    let mut i: usize = 0;
    assert(s.take(0) =~= Seq::<Enrollment>::empty());
    assert(out@ =~= csv_header() + csv_lines(s.take(0)));
    while i < n
        invariant
            n == rows@.len(),
            s == views(rows@),
            i <= n,
            comma@ == seq![','],
            newline@ == seq!['\n'],
            out@ == csv_header() + csv_lines(s.take(i as int)),
        decreases n - i,
    {
        let r = &rows[i];
        let ghost before = out@;
        out.append(escape_field(r.name.as_str()).as_str());
        out.append(comma);
        out.append(escape_field(r.date.as_str()).as_str());
        out.append(comma);
        out.append(integer_text(r.grade).as_str());
        out.append(newline);
        assert(s.take(i + 1).drop_last() =~= s.take(i as int));
        assert(s.take(i + 1).last() == r@);
        assert(out@ =~= before + csv_line(r@));
        assert(out@ =~= csv_header() + csv_lines(s.take(i + 1)));
        i = i + 1;
    }
    assert(s.take(n as int) =~= s);
    out
}

impl AttendanceStore {
    /// Every row as CSV text, ordered by name, then date.
    pub fn export_csv(&self) -> (r: String)
        ensures
            exists|rows: Seq<Enrollment>|
                sorted_rows(rows) && rows.to_multiset() == self@.enrollment.to_multiset() && r@
                    == csv_header() + csv_lines(rows),
    {
        let rows = self.query_all();
        render_csv(&rows)
    }
}

} // verus!
