//! The presenter: render records as an aligned text table with columns
//! `id`, `title` and `done`, where the done column prints `yes` or `no`,
//! never a raw boolean. Zero records render as the header line alone. The
//! presenter neither filters nor reorders: it renders the rows as given.

use vstd::prelude::*;
use crate::store::TodoRecord;

verus! {

/// The text of the done column: `yes` or `no`.
pub open spec fn spec_done_text(done: bool) -> Seq<char> {
    if done {
        "yes"@
    } else {
        "no"@
    }
}

/// Render a done flag for the table, as the literal `yes` or `no`.
pub fn format_done(done: &bool) -> (r: String)
    ensures
        r@ == spec_done_text(*done),
{
    match done {
        false => String::from_str("no"),
        true => String::from_str("yes"),
    }
}

/// The character of one decimal digit.
pub open spec fn spec_digit_char(d: int) -> char
    recommends
        0 <= d <= 9,
{
    ((48 + d) as u8) as char
}

/// Decimal digits of a non-negative number, most significant first; empty
/// for zero.
pub open spec fn spec_u64_digits(n: int) -> Seq<char>
    recommends
        n >= 0,
    decreases n,
{
    if n <= 0 {
        Seq::empty()
    } else {
        spec_u64_digits(n / 10).push(spec_digit_char(n % 10))
    }
}

/// Decimal text of a non-negative number.
pub open spec fn spec_u64_string(n: int) -> Seq<char> {
    if n == 0 {
        seq!['0']
    } else {
        spec_u64_digits(n)
    }
}

/// Decimal text of a signed number, with a leading minus when negative.
pub open spec fn spec_i64_string(v: int) -> Seq<char> {
    if v < 0 {
        seq!['-'] + spec_u64_string(-v)
    } else {
        spec_u64_string(v)
    }
}

/// Digit values collected least significant first, read back as the text
/// most significant first.
spec fn rev_chars(ds: Seq<u64>) -> Seq<char>
    decreases ds.len(),
{
    if ds.len() == 0 {
        Seq::empty()
    } else {
        seq![spec_digit_char(ds.last() as int)] + rev_chars(ds.drop_last())
    }
}

/// The one-character text of a digit.
fn digit_str(d: u64) -> (r: &'static str)
    requires
        d < 10,
    ensures
        r@ == seq![spec_digit_char(d as int)],
{
    if d == 0 {
        proof {
            reveal_strlit("0");
        }
        "0"
    } else if d == 1 {
        proof {
            reveal_strlit("1");
        }
        "1"
    } else if d == 2 {
        proof {
            reveal_strlit("2");
        }
        "2"
    } else if d == 3 {
        proof {
            reveal_strlit("3");
        }
        "3"
    } else if d == 4 {
        proof {
            reveal_strlit("4");
        }
        "4"
    } else if d == 5 {
        proof {
            reveal_strlit("5");
        }
        "5"
    } else if d == 6 {
        proof {
            reveal_strlit("6");
        }
        "6"
    } else if d == 7 {
        proof {
            reveal_strlit("7");
        }
        "7"
    } else if d == 8 {
        proof {
            reveal_strlit("8");
        }
        "8"
    } else {
        proof {
            reveal_strlit("9");
        }
        "9"
    }
}

/// Decimal text of an unsigned number.
pub fn u64_to_string(n: u64) -> (r: String)
    ensures
        r@ == spec_u64_string(n as int),
{
    if n == 0 {
        let r = String::from_str("0");
        proof {
            reveal_strlit("0");
            assert(r@ =~= seq!['0']);
        }
        return r;
    }
    let mut digs: Vec<u64> = Vec::new();
    let mut m: u64 = n;
    while m > 0
        invariant
            0 <= m <= n,
            forall|k: int| 0 <= k < digs@.len() ==> #[trigger] digs@[k] < 10,
            spec_u64_digits(n as int) == spec_u64_digits(m as int) + rev_chars(digs@),
        decreases m,
    {
        let d = m % 10;
        let ghost prev = digs@;
        digs.push(d);
        proof {
            assert(digs@.drop_last() =~= prev);
            assert(rev_chars(digs@) =~= seq![spec_digit_char(d as int)] + rev_chars(prev));
            assert(spec_u64_digits(m as int) == spec_u64_digits(m as int / 10).push(
                spec_digit_char(m as int % 10),
            ));
            assert(spec_u64_digits(m as int / 10).push(spec_digit_char(m as int % 10)) =~=
                spec_u64_digits(m as int / 10) + seq![spec_digit_char(d as int)]);
            assert(spec_u64_digits(n as int) =~= spec_u64_digits(m as int / 10) + rev_chars(
                digs@,
            ));
        }
        m = m / 10;
    }
    let mut out = String::new();
    let mut i: usize = digs.len();
    proof {
        assert(digs@.take(digs@.len() as int) =~= digs@);
        assert(out@ + rev_chars(digs@) =~= rev_chars(digs@));
    }
    while i > 0
        invariant
            0 <= i <= digs@.len(),
            forall|k: int| 0 <= k < digs@.len() ==> #[trigger] digs@[k] < 10,
            out@ + rev_chars(digs@.take(i as int)) == rev_chars(digs@),
        decreases i,
    {
        i = i - 1;
        let ghost pre = out@;
        let d = digs[i];
        out.append(digit_str(d));
        proof {
            let tk = digs@.take(i as int + 1);
            assert(tk.last() == digs@[i as int]);
            assert(tk.drop_last() =~= digs@.take(i as int));
            assert(rev_chars(tk) =~= seq![spec_digit_char(d as int)] + rev_chars(
                digs@.take(i as int),
            ));
            assert(out@ + rev_chars(digs@.take(i as int)) =~= pre + rev_chars(tk));
        }
    }
    proof {
        assert(digs@.take(0) =~= Seq::<u64>::empty());
        assert(out@ + rev_chars(digs@.take(0)) =~= out@);
        assert(out@ == spec_u64_digits(n as int));
    }
    out
}

/// Decimal text of a signed id.
pub fn i64_to_string(v: i64) -> (r: String)
    ensures
        r@ == spec_i64_string(v as int),
{
    if v >= 0 {
        u64_to_string(v as u64)
    } else {
        let mag: u64 = if v == i64::MIN {
            9223372036854775808
        } else {
            (-v) as u64
        };
        let mut out = String::from_str("-");
        proof {
            reveal_strlit("-");
            assert(out@ =~= seq!['-']);
        }
        let digits = u64_to_string(mag);
        out.append(digits.as_str());
        proof {
            assert(mag as int == -(v as int));
        }
        out
    }
}

pub open spec fn spec_max(a: int, b: int) -> int {
    if a >= b {
        a
    } else {
        b
    }
}

/// A run of spaces.
pub open spec fn spec_spaces(n: int) -> Seq<char>
    decreases n,
{
    if n <= 0 {
        Seq::empty()
    } else {
        spec_spaces(n - 1).push(' ')
    }
}

/// A cell padded with spaces to the column width.
pub open spec fn spec_pad(s: Seq<char>, w: int) -> Seq<char> {
    s + spec_spaces(w - s.len())
}

/// Width of the id column: the widest id text, at least the header's.
pub open spec fn spec_id_width(s: Seq<TodoRecord>) -> int
    decreases s.len(),
{
    if s.len() == 0 {
        "id"@.len() as int
    } else {
        spec_max(spec_id_width(s.drop_last()), spec_i64_string(s.last().id as int).len() as int)
    }
}

/// Width of the title column: the widest title, at least the header's.
pub open spec fn spec_title_width(s: Seq<TodoRecord>) -> int
    decreases s.len(),
{
    if s.len() == 0 {
        "title"@.len() as int
    } else {
        spec_max(spec_title_width(s.drop_last()), s.last().title@.len() as int)
    }
}

/// Width of the done column: the widest done text, at least the header's.
pub open spec fn spec_done_width(s: Seq<TodoRecord>) -> int
    decreases s.len(),
{
    if s.len() == 0 {
        "done"@.len() as int
    } else {
        spec_max(spec_done_width(s.drop_last()), spec_done_text(s.last().done).len() as int)
    }
}

/// One data row: the three cells padded to their widths, space-separated.
pub open spec fn spec_row_line(r: TodoRecord, wi: int, wt: int, wd: int) -> Seq<char> {
    spec_pad(spec_i64_string(r.id as int), wi) + seq![' '] + spec_pad(r.title@, wt) + seq![' ']
        + spec_pad(spec_done_text(r.done), wd)
}

/// The header row with the three column names.
pub open spec fn spec_header_line(wi: int, wt: int, wd: int) -> Seq<char> {
    spec_pad("id"@, wi) + seq![' '] + spec_pad("title"@, wt) + seq![' '] + spec_pad("done"@, wd)
}

/// The data rows, each on its own line, in the order given.
pub open spec fn spec_body_lines(s: Seq<TodoRecord>, wi: int, wt: int, wd: int) -> Seq<char>
    decreases s.len(),
{
    if s.len() == 0 {
        Seq::empty()
    } else {
        spec_body_lines(s.drop_last(), wi, wt, wd) + seq!['\n'] + spec_row_line(s.last(), wi, wt, wd)
    }
}

/// The whole table: header line, then one line per record, aligned.
pub open spec fn spec_render_table(s: Seq<TodoRecord>) -> Seq<char> {
    spec_header_line(spec_id_width(s), spec_title_width(s), spec_done_width(s)) + spec_body_lines(
        s,
        spec_id_width(s),
        spec_title_width(s),
        spec_done_width(s),
    )
}

/// A run of `n` spaces.
fn spaces(n: usize) -> (r: String)
    ensures
        r@ == spec_spaces(n as int),
{
    let mut out = String::new();
    let mut i: usize = 0;
    proof {
        reveal_strlit(" ");
    }
    while i < n
        invariant
            0 <= i <= n,
            out@ == spec_spaces(i as int),
            " "@ == seq![' '],
        decreases n - i,
    {
        out.append(" ");
        proof {
            assert(out@ =~= spec_spaces(i as int + 1));
        }
        i = i + 1;
    }
    out
}

/// Pad a cell with spaces to the column width.
fn pad(s: &str, w: usize) -> (r: String)
    ensures
        r@ == spec_pad(s@, w as int),
{
    let mut out = String::from_str(s);
    let n = s.unicode_len();
    if n < w {
        let sp = spaces(w - n);
        out.append(sp.as_str());
        proof {
            assert(out@ =~= spec_pad(s@, w as int));
        }
    } else {
        proof {
            assert(spec_spaces(w - s@.len()) =~= Seq::<char>::empty());
            assert(out@ =~= spec_pad(s@, w as int));
        }
    }
    out
}

/// Compute the three column widths for the given rows.
fn column_widths(rows: &Vec<TodoRecord>) -> (w: (usize, usize, usize))
    ensures
        w.0 == spec_id_width(rows@),
        w.1 == spec_title_width(rows@),
        w.2 == spec_done_width(rows@),
{
    proof {
        reveal_strlit("id");
        reveal_strlit("title");
        reveal_strlit("done");
    }
    let mut wi: usize = 2;
    let mut wt: usize = 5;
    let mut wd: usize = 4;
    proof {
        assert(rows@.subrange(0, 0) =~= Seq::<TodoRecord>::empty());
    }
    let mut i: usize = 0;
    while i < rows.len()
        invariant
            0 <= i <= rows@.len(),
            wi == spec_id_width(rows@.subrange(0, i as int)),
            wt == spec_title_width(rows@.subrange(0, i as int)),
            wd == spec_done_width(rows@.subrange(0, i as int)),
        decreases rows@.len() - i,
    {
        let r = &rows[i];
        let idt = i64_to_string(r.id);
        let a = idt.unicode_len();
        let b = r.title.unicode_len();
        let dt = format_done(&r.done);
        let c = dt.unicode_len();
        proof {
            assert(rows@.subrange(0, i as int + 1).drop_last() =~= rows@.subrange(0, i as int));
            assert(rows@.subrange(0, i as int + 1).last() == rows@[i as int]);
        }
        if a > wi {
            wi = a;
        }
        if b > wt {
            wt = b;
        }
        if c > wd {
            wd = c;
        }
        i = i + 1;
    }
    proof {
        assert(rows@.subrange(0, rows@.len() as int) =~= rows@);
    }
    (wi, wt, wd)
}

/// One rendered data row.
fn row_line(r: &TodoRecord, wi: usize, wt: usize, wd: usize) -> (out: String)
    ensures
        out@ == spec_row_line(*r, wi as int, wt as int, wd as int),
{
    proof {
        reveal_strlit(" ");
    }
    let idt = i64_to_string(r.id);
    let mut out = pad(idt.as_str(), wi);
    out.append(" ");
    let tp = pad(r.title.as_str(), wt);
    out.append(tp.as_str());
    out.append(" ");
    let dt = format_done(&r.done);
    let dp = pad(dt.as_str(), wd);
    out.append(dp.as_str());
    proof {
        assert(" "@ =~= seq![' ']);
        assert(out@ =~= spec_row_line(*r, wi as int, wt as int, wd as int));
    }
    out
}

/// Render the rows as an aligned table: a header line, then one line per
/// record in the order given, cells padded to the widest entry of each
/// column. Zero rows yield the header line alone.
pub fn render_table(rows: &Vec<TodoRecord>) -> (out: String)
    ensures
        out@ == spec_render_table(rows@),
{
    proof {
        reveal_strlit(" ");
        reveal_strlit("id");
        reveal_strlit("title");
        reveal_strlit("done");
        reveal_strlit("\n");
    }
    let (wi, wt, wd) = column_widths(rows);
    let mut out = pad("id", wi);
    out.append(" ");
    let tp = pad("title", wt);
    out.append(tp.as_str());
    out.append(" ");
    let dp = pad("done", wd);
    out.append(dp.as_str());
    proof {
        assert(" "@ =~= seq![' ']);
        assert(out@ =~= spec_header_line(wi as int, wt as int, wd as int));
        assert(rows@.subrange(0, 0) =~= Seq::<TodoRecord>::empty());
    }
    let ghost header = out@;
    let mut i: usize = 0;
    while i < rows.len()
        invariant
            0 <= i <= rows@.len(),
            "\n"@ == seq!['\n'],
            wi == spec_id_width(rows@),
            wt == spec_title_width(rows@),
            wd == spec_done_width(rows@),
            header == spec_header_line(wi as int, wt as int, wd as int),
            out@ == header + spec_body_lines(
                rows@.subrange(0, i as int),
                wi as int,
                wt as int,
                wd as int,
            ),
        decreases rows@.len() - i,
    {
        out.append("\n");
        let r = &rows[i];
        let line = row_line(r, wi, wt, wd);
        out.append(line.as_str());
        proof {
            assert(rows@.subrange(0, i as int + 1).drop_last() =~= rows@.subrange(0, i as int));
            assert(rows@.subrange(0, i as int + 1).last() == rows@[i as int]);
            assert(out@ =~= header + spec_body_lines(
                rows@.subrange(0, i as int + 1),
                wi as int,
                wt as int,
                wd as int,
            ));
        }
        i = i + 1;
    }
    proof {
        assert(rows@.subrange(0, rows@.len() as int) =~= rows@);
    }
    out
}

} // verus!
