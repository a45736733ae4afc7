//! The rotated-file naming grammar.
//!
//! A rotated file is named `{stem}-{YYYY}-{MM}-{DD}-{HH}-{MM}-{SS}-{mmm}{ext}`:
//! the active file's stem, a fixed-width timestamp block, and the active
//! file's extension (including its dot, or empty if it has none). All
//! fields are zero-padded and ordered from the most significant down, so
//! the lexicographic order of the names of two rotations equals their
//! chronological order.

use vstd::prelude::*;
use vstd::string::{StrSliceExecFns, StringExecFns};

verus! {

/// The character for a single decimal digit.
pub open spec fn digit_char(d: int) -> char {
    (48 + d) as char
}

pub open spec fn is_digit(c: char) -> bool {
    48 <= c as int <= 57
}

/// A number below 100 as two zero-padded digits.
pub open spec fn pad2(n: int) -> Seq<char> {
    seq![digit_char(n / 10), digit_char(n % 10)]
}

/// A number below 1000 as three zero-padded digits.
pub open spec fn pad3(n: int) -> Seq<char> {
    seq![digit_char(n / 100), digit_char((n / 10) % 10), digit_char(n % 10)]
}

/// A number below 10000 as four zero-padded digits.
pub open spec fn pad4(n: int) -> Seq<char> {
    seq![digit_char(n / 1000), digit_char((n / 100) % 10), digit_char((n / 10) % 10), digit_char(n % 10)]
}

/// A rotation instant, millisecond resolution, as plain calendar fields.
#[derive(Debug, Clone, Copy, PartialEq, Eq, Structural)]
pub struct Timestamp {
    pub year: u32,
    pub month: u32,
    pub day: u32,
    pub hour: u32,
    pub minute: u32,
    pub second: u32,
    pub millisecond: u32,
}

impl Timestamp {
    /// The field ranges that keep every rotated name fixed-width and
    /// recoverable by the directory scan (a four-digit year whose first
    /// digit is 1 or 2, and two-digit fields at most 59).
    pub open spec fn valid(self) -> bool {
        &&& 1000 <= self.year <= 2999
        &&& 1 <= self.month <= 12
        &&& 1 <= self.day <= 31
        &&& self.hour <= 23
        &&& self.minute <= 59
        &&& self.second <= 59
        &&& self.millisecond <= 999
    }

    /// Chronological order of two instants: the calendar fields compare
    /// lexicographically, most significant first.
    pub open spec fn before(self, other: Timestamp) -> bool {
        if self.year != other.year {
            self.year < other.year
        } else if self.month != other.month {
            self.month < other.month
        } else if self.day != other.day {
            self.day < other.day
        } else if self.hour != other.hour {
            self.hour < other.hour
        } else if self.minute != other.minute {
            self.minute < other.minute
        } else if self.second != other.second {
            self.second < other.second
        } else {
            self.millisecond < other.millisecond
        }
    }
}

/// The 24-character timestamp block of a rotated name, dashes included.
pub open spec fn timestamp_block(ts: Timestamp) -> Seq<char> {
    seq!['-'] + pad4(ts.year as int) + seq!['-'] + pad2(ts.month as int) + seq!['-'] + pad2(
        ts.day as int,
    ) + seq!['-'] + pad2(ts.hour as int) + seq!['-'] + pad2(ts.minute as int) + seq!['-'] + pad2(
        ts.second as int,
    ) + seq!['-'] + pad3(ts.millisecond as int)
}

/// The full rotated-file base name for a rotation at `ts` of an active
/// file with the given stem and extension.
pub open spec fn spec_rotated_name(stem: Seq<char>, ts: Timestamp, ext: Seq<char>) -> Seq<char> {
    stem + timestamp_block(ts) + ext
}

fn digit_str(d: u32) -> (r: &'static str)
    requires
        d <= 9,
    ensures
        r@ == seq![digit_char(d as int)],
{
    let r = match d {
        0 => "0",
        1 => "1",
        2 => "2",
        3 => "3",
        4 => "4",
        5 => "5",
        6 => "6",
        7 => "7",
        8 => "8",
        _ => "9",
    };
    proof {
        reveal_strlit("0");
        reveal_strlit("1");
        reveal_strlit("2");
        reveal_strlit("3");
        reveal_strlit("4");
        reveal_strlit("5");
        reveal_strlit("6");
        reveal_strlit("7");
        reveal_strlit("8");
        reveal_strlit("9");
        assert(r@ =~= seq![digit_char(d as int)]);
    }
    r
}

fn append_pad2(s: &mut String, n: u32)
    requires
        n <= 99,
    ensures
        final(s)@ == old(s)@ + pad2(n as int),
{
    s.append(digit_str(n / 10));
    s.append(digit_str(n % 10));
    proof {
        assert(final(s)@ =~= old(s)@ + pad2(n as int));
    }
}

fn append_pad3(s: &mut String, n: u32)
    requires
        n <= 999,
    ensures
        final(s)@ == old(s)@ + pad3(n as int),
{
    s.append(digit_str(n / 100));
    s.append(digit_str((n / 10) % 10));
    s.append(digit_str(n % 10));
    proof {
        assert(final(s)@ =~= old(s)@ + pad3(n as int));
    }
}

fn append_pad4(s: &mut String, n: u32)
    requires
        n <= 9999,
    ensures
        final(s)@ == old(s)@ + pad4(n as int),
{
    s.append(digit_str(n / 1000));
    s.append(digit_str((n / 100) % 10));
    s.append(digit_str((n / 10) % 10));
    s.append(digit_str(n % 10));
    proof {
        assert(final(s)@ =~= old(s)@ + pad4(n as int));
    }
}

/// Builds the rotated-file base name for a rotation at `ts`.
pub fn format_rotated_name(stem: &str, ts: &Timestamp, ext: &str) -> (r: String)
    requires
        ts.valid(),
    ensures
        r@ == spec_rotated_name(stem@, *ts, ext@),
{
    let mut s = String::from_str(stem);
    s.append("-");
    append_pad4(&mut s, ts.year);
    s.append("-");
    append_pad2(&mut s, ts.month);
    s.append("-");
    append_pad2(&mut s, ts.day);
    s.append("-");
    append_pad2(&mut s, ts.hour);
    s.append("-");
    append_pad2(&mut s, ts.minute);
    s.append("-");
    append_pad2(&mut s, ts.second);
    s.append("-");
    append_pad3(&mut s, ts.millisecond);
    s.append(ext);
    proof {
        reveal_strlit("-");
        assert(s@ =~= spec_rotated_name(stem@, *ts, ext@));
    }
    s
}

/// Strict lexicographic order on character sequences, by code point; a
/// proper prefix sorts before its extensions.
pub open spec fn lex_lt(a: Seq<char>, b: Seq<char>) -> bool
    decreases a.len(),
{
    if b.len() == 0 {
        false
    } else if a.len() == 0 {
        true
    } else if (a[0] as int) < (b[0] as int) {
        true
    } else {
        a[0] == b[0] && lex_lt(a.skip(1), b.skip(1))
    }
}

pub open spec fn lex_leq(a: Seq<char>, b: Seq<char>) -> bool {
    lex_lt(a, b) || a == b
}

/// Prepending a common prefix does not change how two sequences compare.
pub proof fn lemma_lex_common_prefix(p: Seq<char>, a: Seq<char>, b: Seq<char>)
    ensures
        lex_lt(p + a, p + b) == lex_lt(a, b),
    decreases p.len(),
{
    if p.len() == 0 {
        assert(p + a =~= a);
        assert(p + b =~= b);
    } else {
        assert((p + a).skip(1) =~= p.skip(1) + a);
        assert((p + b).skip(1) =~= p.skip(1) + b);
        lemma_lex_common_prefix(p.skip(1), a, b);
    }
}

/// Appending anything to two equal-length ordered sequences keeps them ordered.
pub proof fn lemma_lex_append(a: Seq<char>, b: Seq<char>, x: Seq<char>, y: Seq<char>)
    requires
        a.len() == b.len(),
        lex_lt(a, b),
    ensures
        lex_lt(a + x, b + y),
    decreases a.len(),
{
    if (a[0] as int) < (b[0] as int) {
        assert((a + x)[0] == a[0]);
        assert((b + y)[0] == b[0]);
    } else {
        assert((a + x).skip(1) =~= a.skip(1) + x);
        assert((b + y).skip(1) =~= b.skip(1) + y);
        lemma_lex_append(a.skip(1), b.skip(1), x, y);
    }
}

proof fn lemma_pad2_lt(m: int, n: int)
    requires
        0 <= m < n <= 99,
    ensures
        lex_lt(pad2(m), pad2(n)),
{
    if m / 10 < n / 10 {
        assert(lex_lt(pad2(m), pad2(n)));
    } else {
        assert(m / 10 == n / 10);
        assert(m % 10 < n % 10);
        assert(pad2(m).skip(1) =~= seq![digit_char(m % 10)]);
        assert(pad2(n).skip(1) =~= seq![digit_char(n % 10)]);
        assert(lex_lt(pad2(m).skip(1), pad2(n).skip(1)));
        assert(lex_lt(pad2(m), pad2(n)));
    }
}

proof fn lemma_pad3_lt(m: int, n: int)
    requires
        0 <= m < n <= 999,
    ensures
        lex_lt(pad3(m), pad3(n)),
{
    if m / 100 < n / 100 {
        assert(lex_lt(pad3(m), pad3(n)));
    } else {
        assert(m / 100 == n / 100);
        assert(m % 100 < n % 100) by {
            assert(m == 100 * (m / 100) + m % 100) by (nonlinear_arith);
            assert(n == 100 * (n / 100) + n % 100) by (nonlinear_arith);
        }
        assert((m / 10) % 10 == (m % 100) / 10 && m % 10 == (m % 100) % 10) by (nonlinear_arith)
            requires 0 <= m <= 999;
        assert((n / 10) % 10 == (n % 100) / 10 && n % 10 == (n % 100) % 10) by (nonlinear_arith)
            requires 0 <= n <= 999;
        lemma_pad2_lt(m % 100, n % 100);
        assert(pad3(m).skip(1) =~= pad2(m % 100));
        assert(pad3(n).skip(1) =~= pad2(n % 100));
    }
}

proof fn lemma_pad4_lt(m: int, n: int)
    requires
        0 <= m < n <= 9999,
    ensures
        lex_lt(pad4(m), pad4(n)),
{
    if m / 1000 < n / 1000 {
        assert(lex_lt(pad4(m), pad4(n)));
    } else {
        assert(m / 1000 == n / 1000);
        assert(m % 1000 < n % 1000) by {
            assert(m == 1000 * (m / 1000) + m % 1000) by (nonlinear_arith);
            assert(n == 1000 * (n / 1000) + n % 1000) by (nonlinear_arith);
        }
        assert((m / 100) % 10 == (m % 1000) / 100 && (m / 10) % 10 == ((m % 1000) / 10) % 10
            && m % 10 == (m % 1000) % 10) by (nonlinear_arith)
            requires 0 <= m <= 9999;
        assert((n / 100) % 10 == (n % 1000) / 100 && (n / 10) % 10 == ((n % 1000) / 10) % 10
            && n % 10 == (n % 1000) % 10) by (nonlinear_arith)
            requires 0 <= n <= 9999;
        lemma_pad3_lt(m % 1000, n % 1000);
        assert(pad4(m).skip(1) =~= pad3(m % 1000));
        assert(pad4(n).skip(1) =~= pad3(n % 1000));
    }
}

/// Any two character sequences compare one way or the other, or are equal.
pub proof fn lemma_lex_trichotomy(a: Seq<char>, b: Seq<char>)
    ensures
        lex_lt(a, b) || lex_lt(b, a) || a == b,
    decreases a.len(),
{
    if a.len() == 0 && b.len() == 0 {
        assert(a =~= b);
    } else if a.len() != 0 && b.len() != 0 {
        if a[0] == b[0] {
            lemma_lex_trichotomy(a.skip(1), b.skip(1));
            if a.skip(1) == b.skip(1) {
                assert(a.skip(1).len() == b.skip(1).len());
                assert(a.len() == b.len());
                assert forall|i: int| 0 <= i < a.len() implies a[i] == b[i] by {
                    if i >= 1 {
                        assert(a[i] == a.skip(1)[i - 1]);
                        assert(b[i] == b.skip(1)[i - 1]);
                    }
                }
                assert(a =~= b);
            }
        }
    }
}

pub proof fn lemma_lex_transitive(a: Seq<char>, b: Seq<char>, c: Seq<char>)
    requires
        lex_lt(a, b),
        lex_lt(b, c),
    ensures
        lex_lt(a, c),
    decreases a.len(),
{
    if a.len() != 0 {
        if a[0] == b[0] && b[0] == c[0] {
            lemma_lex_transitive(a.skip(1), b.skip(1), c.skip(1));
        }
    }
}

pub proof fn lemma_lex_irreflexive(a: Seq<char>)
    ensures
        !lex_lt(a, a),
    decreases a.len(),
{
    if a.len() > 0 {
        lemma_lex_irreflexive(a.skip(1));
    }
}

pub proof fn lemma_lex_leq_transitive(a: Seq<char>, b: Seq<char>, c: Seq<char>)
    requires
        lex_leq(a, b),
        lex_leq(b, c),
    ensures
        lex_leq(a, c),
{
    if a != b && b != c {
        lemma_lex_transitive(a, b, c);
    }
}

/// Decides the lexicographic order of two strings, character by character.
pub fn lex_lt_exec(a: &str, b: &str) -> (r: bool)
    ensures
        r == lex_lt(a@, b@),
{
    let alen = a.unicode_len();
    let blen = b.unicode_len();
    let mut i: usize = 0;
    proof {
        assert(a@.skip(0) =~= a@);
        assert(b@.skip(0) =~= b@);
    }
    loop
        invariant
            i <= alen,
            i <= blen,
            alen == a@.len(),
            blen == b@.len(),
            lex_lt(a@, b@) == lex_lt(a@.skip(i as int), b@.skip(i as int)),
        decreases alen - i,
    {
        if i == blen {
            return false;
        }
        if i == alen {
            return true;
        }
        let ca = a.get_char(i);
        let cb = b.get_char(i);
        let va = ca as u32;
        let vb = cb as u32;
        if va < vb {
            return true;
        }
        if vb < va {
            return false;
        }
        proof {
            assert(a@.skip(i as int).skip(1) =~= a@.skip(i as int + 1));
            assert(b@.skip(i as int).skip(1) =~= b@.skip(i as int + 1));
        }
        i = i + 1;
    }
}

/// The block and extension of a rotated name, re-associated so that each
/// calendar field heads its own suffix.
spec fn tail_ms(ts: Timestamp, ext: Seq<char>) -> Seq<char> {
    pad3(ts.millisecond as int) + ext
}

spec fn tail_sec(ts: Timestamp, ext: Seq<char>) -> Seq<char> {
    pad2(ts.second as int) + (seq!['-'] + tail_ms(ts, ext))
}

spec fn tail_min(ts: Timestamp, ext: Seq<char>) -> Seq<char> {
    pad2(ts.minute as int) + (seq!['-'] + tail_sec(ts, ext))
}

spec fn tail_hour(ts: Timestamp, ext: Seq<char>) -> Seq<char> {
    pad2(ts.hour as int) + (seq!['-'] + tail_min(ts, ext))
}

spec fn tail_day(ts: Timestamp, ext: Seq<char>) -> Seq<char> {
    pad2(ts.day as int) + (seq!['-'] + tail_hour(ts, ext))
}

spec fn tail_month(ts: Timestamp, ext: Seq<char>) -> Seq<char> {
    pad2(ts.month as int) + (seq!['-'] + tail_day(ts, ext))
}

spec fn tail_year(ts: Timestamp, ext: Seq<char>) -> Seq<char> {
    pad4(ts.year as int) + (seq!['-'] + tail_month(ts, ext))
}

proof fn lemma_block_nested(ts: Timestamp, ext: Seq<char>)
    ensures
        timestamp_block(ts) + ext =~= seq!['-'] + tail_year(ts, ext),
{
}

/// A two-digit field decides the comparison, whatever follows it.
proof fn lemma_field2_base(fa: int, fb: int, ra: Seq<char>, rb: Seq<char>)
    requires
        0 <= fa < fb <= 99,
    ensures
        lex_lt(pad2(fa) + ra, pad2(fb) + rb),
{
    lemma_pad2_lt(fa, fb);
    lemma_lex_append(pad2(fa), pad2(fb), ra, rb);
}

/// An equal two-digit field passes the comparison to its suffix.
proof fn lemma_field2_lift(f: int, ra: Seq<char>, rb: Seq<char>)
    requires
        lex_lt(ra, rb),
    ensures
        lex_lt(pad2(f) + (seq!['-'] + ra), pad2(f) + (seq!['-'] + rb)),
{
    lemma_lex_common_prefix(seq!['-'], ra, rb);
    lemma_lex_common_prefix(pad2(f), seq!['-'] + ra, seq!['-'] + rb);
}

/// The naming invariant: for one active file, the lexicographic order of
/// two rotated names equals the chronological order of their rotations.
pub proof fn lemma_rotated_name_order(stem: Seq<char>, a: Timestamp, b: Timestamp, ext: Seq<char>)
    requires
        a.valid(),
        b.valid(),
        a.before(b),
    ensures
        lex_lt(spec_rotated_name(stem, a, ext), spec_rotated_name(stem, b, ext)),
{
    lemma_block_nested(a, ext);
    lemma_block_nested(b, ext);
    assert(spec_rotated_name(stem, a, ext) =~= stem + (seq!['-'] + tail_year(a, ext)));
    assert(spec_rotated_name(stem, b, ext) =~= stem + (seq!['-'] + tail_year(b, ext)));
    lemma_tail_year_order(a, b, ext);
    lemma_lex_common_prefix(seq!['-'], tail_year(a, ext), tail_year(b, ext));
    lemma_lex_common_prefix(stem, seq!['-'] + tail_year(a, ext), seq!['-'] + tail_year(b, ext));
}

proof fn lemma_tail_year_order(a: Timestamp, b: Timestamp, ext: Seq<char>)
    requires
        a.valid(),
        b.valid(),
        a.before(b),
    ensures
        lex_lt(tail_year(a, ext), tail_year(b, ext)),
{
    if a.year != b.year {
        lemma_pad4_lt(a.year as int, b.year as int);
        lemma_lex_append(
            pad4(a.year as int),
            pad4(b.year as int),
            seq!['-'] + tail_month(a, ext),
            seq!['-'] + tail_month(b, ext),
        );
    } else {
        lemma_tail_month_order(a, b, ext);
        lemma_lex_common_prefix(seq!['-'], tail_month(a, ext), tail_month(b, ext));
        lemma_lex_common_prefix(
            pad4(a.year as int),
            seq!['-'] + tail_month(a, ext),
            seq!['-'] + tail_month(b, ext),
        );
    }
}

proof fn lemma_tail_month_order(a: Timestamp, b: Timestamp, ext: Seq<char>)
    requires
        a.valid(),
        b.valid(),
        a.before(b),
        a.year == b.year,
    ensures
        lex_lt(tail_month(a, ext), tail_month(b, ext)),
{
    if a.month != b.month {
        lemma_field2_base(
            a.month as int,
            b.month as int,
            seq!['-'] + tail_day(a, ext),
            seq!['-'] + tail_day(b, ext),
        );
    } else {
        lemma_tail_day_order(a, b, ext);
        lemma_field2_lift(a.month as int, tail_day(a, ext), tail_day(b, ext));
    }
}

proof fn lemma_tail_day_order(a: Timestamp, b: Timestamp, ext: Seq<char>)
    requires
        a.valid(),
        b.valid(),
        a.before(b),
        a.year == b.year,
        a.month == b.month,
    ensures
        lex_lt(tail_day(a, ext), tail_day(b, ext)),
{
    if a.day != b.day {
        lemma_field2_base(
            a.day as int,
            b.day as int,
            seq!['-'] + tail_hour(a, ext),
            seq!['-'] + tail_hour(b, ext),
        );
    } else {
        lemma_tail_hour_order(a, b, ext);
        lemma_field2_lift(a.day as int, tail_hour(a, ext), tail_hour(b, ext));
    }
}

proof fn lemma_tail_hour_order(a: Timestamp, b: Timestamp, ext: Seq<char>)
    requires
        a.valid(),
        b.valid(),
        a.before(b),
        a.year == b.year,
        a.month == b.month,
        a.day == b.day,
    ensures
        lex_lt(tail_hour(a, ext), tail_hour(b, ext)),
{
    if a.hour != b.hour {
        lemma_field2_base(
            a.hour as int,
            b.hour as int,
            seq!['-'] + tail_min(a, ext),
            seq!['-'] + tail_min(b, ext),
        );
    } else {
        lemma_tail_min_order(a, b, ext);
        lemma_field2_lift(a.hour as int, tail_min(a, ext), tail_min(b, ext));
    }
}

proof fn lemma_tail_min_order(a: Timestamp, b: Timestamp, ext: Seq<char>)
    requires
        a.valid(),
        b.valid(),
        a.before(b),
        a.year == b.year,
        a.month == b.month,
        a.day == b.day,
        a.hour == b.hour,
    ensures
        lex_lt(tail_min(a, ext), tail_min(b, ext)),
{
    if a.minute != b.minute {
        lemma_field2_base(
            a.minute as int,
            b.minute as int,
            seq!['-'] + tail_sec(a, ext),
            seq!['-'] + tail_sec(b, ext),
        );
    } else {
        lemma_tail_sec_order(a, b, ext);
        lemma_field2_lift(a.minute as int, tail_sec(a, ext), tail_sec(b, ext));
    }
}

proof fn lemma_tail_sec_order(a: Timestamp, b: Timestamp, ext: Seq<char>)
    requires
        a.valid(),
        b.valid(),
        a.before(b),
        a.year == b.year,
        a.month == b.month,
        a.day == b.day,
        a.hour == b.hour,
        a.minute == b.minute,
    ensures
        lex_lt(tail_sec(a, ext), tail_sec(b, ext)),
{
    if a.second != b.second {
        lemma_field2_base(
            a.second as int,
            b.second as int,
            seq!['-'] + tail_ms(a, ext),
            seq!['-'] + tail_ms(b, ext),
        );
    } else {
        assert(a.millisecond < b.millisecond);
        lemma_pad3_lt(a.millisecond as int, b.millisecond as int);
        lemma_lex_append(pad3(a.millisecond as int), pad3(b.millisecond as int), ext, ext);
        lemma_field2_lift(a.second as int, tail_ms(a, ext), tail_ms(b, ext));
    }
}

/// Collision-free naming: rotations at two different instants never
/// produce the same rotated name.
pub proof fn lemma_rotated_name_unique(stem: Seq<char>, a: Timestamp, b: Timestamp, ext: Seq<char>)
    requires
        a.valid(),
        b.valid(),
        a != b,
    ensures
        spec_rotated_name(stem, a, ext) != spec_rotated_name(stem, b, ext),
{
    if a.before(b) {
        lemma_rotated_name_order(stem, a, b, ext);
    } else {
        assert(b.before(a));
        lemma_rotated_name_order(stem, b, a, ext);
    }
    lemma_lex_irreflexive(spec_rotated_name(stem, a, ext));
    lemma_lex_irreflexive(spec_rotated_name(stem, b, ext));
}

} // verus!
