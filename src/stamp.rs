use vstd::prelude::*;
use vstd::arithmetic::div_mod::{
    lemma_div_denominator, lemma_fundamental_div_mod, lemma_fundamental_div_mod_converse,
};

verus! {

/// Pattern that names events and their outputs: `2019-07-20_12-34-56`.
pub const FOLDER_STAMP: &'static str = "%Y-%m-%d_%H-%M-%S";

/// Pattern that makes playlist names unique: `20190720_123456789`.
pub const COMPACT_STAMP: &'static str = "%Y%m%d_%H%M%S%3f";

/// A moment on the proleptic Gregorian calendar, to the millisecond, with no
/// time zone attached (the recorder writes local wall-clock times).
#[derive(Clone, Copy, Debug, PartialEq, Eq, Structural)]
pub struct Timestamp {
    pub year: i32,
    pub month: u32,
    pub day: u32,
    pub hour: u32,
    pub minute: u32,
    pub second: u32,
    pub milli: u32,
}

pub open spec fn is_leap_year(y: int) -> bool {
    (y % 4 == 0 && y % 100 != 0) || y % 400 == 0
}

pub open spec fn days_in_month(y: int, m: int) -> int {
    if m == 2 {
        if is_leap_year(y) { 29 } else { 28 }
    } else if m == 4 || m == 6 || m == 9 || m == 11 {
        30
    } else {
        31
    }
}

/// Days from 1970-01-01 to the given civil date (negative before it).
pub open spec fn days_from_civil(y: int, m: int, d: int) -> int {
    let y1 = if m <= 2 { y - 1 } else { y };
    let era = y1 / 400;
    let yoe = y1 - era * 400;
    let mp = if m > 2 { m - 3 } else { m + 9 };
    let doy = (153 * mp + 2) / 5 + d - 1;
    let doe = yoe * 365 + yoe / 4 - yoe / 100 + doy;
    era * 146097 + doe - 719468
}

/// Seconds from 1970-01-01T00:00:00 to `t`, reading `t` as UTC; the
/// milliseconds are dropped.
pub open spec fn epoch_seconds_of(t: Timestamp) -> int {
    days_from_civil(t.year as int, t.month as int, t.day as int) * 86400 + t.hour * 3600
        + t.minute * 60 + t.second
}

pub open spec fn digit(d: int) -> char {
    if d == 0 {
        '0'
    } else if d == 1 {
        '1'
    } else if d == 2 {
        '2'
    } else if d == 3 {
        '3'
    } else if d == 4 {
        '4'
    } else if d == 5 {
        '5'
    } else if d == 6 {
        '6'
    } else if d == 7 {
        '7'
    } else if d == 8 {
        '8'
    } else {
        '9'
    }
}

pub open spec fn pad2(n: int) -> Seq<char> {
    seq![digit(n / 10 % 10), digit(n % 10)]
}

pub open spec fn pad3(n: int) -> Seq<char> {
    seq![digit(n / 100 % 10), digit(n / 10 % 10), digit(n % 10)]
}

pub open spec fn pad4(n: int) -> Seq<char> {
    seq![digit(n / 1000 % 10), digit(n / 100 % 10), digit(n / 10 % 10), digit(n % 10)]
}

/// `t` written as `YYYY-MM-DD_HH-MM-SS`.
pub open spec fn folder_stamp(t: Timestamp) -> Seq<char> {
    pad4(t.year as int) + seq!['-'] + pad2(t.month as int) + seq!['-'] + pad2(t.day as int)
        + seq!['_'] + pad2(t.hour as int) + seq!['-'] + pad2(t.minute as int) + seq!['-']
        + pad2(t.second as int)
}

/// `t` written as `YYYYMMDD_HHMMSSmmm`.
pub open spec fn compact_stamp(t: Timestamp) -> Seq<char> {
    pad4(t.year as int) + pad2(t.month as int) + pad2(t.day as int) + seq!['_'] + pad2(
        t.hour as int,
    ) + pad2(t.minute as int) + pad2(t.second as int) + pad3(t.milli as int)
}

/// Decimal digits of a natural number, most significant first.
pub open spec fn nat_decimal(n: nat) -> Seq<char>
    decreases n,
{
    if n < 10 {
        seq![digit(n as int)]
    } else {
        nat_decimal(n / 10) + seq![digit((n % 10) as int)]
    }
}

/// Decimal text of an integer, with a leading `-` when it is negative.
pub open spec fn decimal(n: int) -> Seq<char> {
    if n < 0 {
        seq!['-'] + nat_decimal((-n) as nat)
    } else {
        nat_decimal(n as nat)
    }
}

impl Timestamp {
    /// A real calendar moment with a four-digit year.
    pub open spec fn wf(self) -> bool {
        &&& 0 <= self.year <= 9999
        &&& 1 <= self.month <= 12
        &&& 1 <= self.day <= days_in_month(self.year as int, self.month as int)
        &&& self.hour < 24
        &&& self.minute < 60
        &&& self.second < 60
        &&& self.milli < 1000
    }

    /// Position of the moment on the time line, in milliseconds from an
    /// origin; on well-formed values it orders as the calendar does.
    pub open spec fn key(self) -> int {
        ((((((self.year as int) * 12 + self.month - 1) * 31 + self.day - 1) * 24 + self.hour)
            * 60 + self.minute) * 60 + self.second) * 1000 + self.milli
    }

    pub fn is_valid(&self) -> (r: bool)
        ensures
            r == self.wf(),
    {
        if self.year < 0 || self.year > 9999 || self.month < 1 || self.month > 12 {
            return false;
        }
        let leap = (self.year % 4 == 0 && self.year % 100 != 0) || self.year % 400 == 0;
        let month_days: u32 = if self.month == 2 {
            if leap { 29 } else { 28 }
        } else if self.month == 4 || self.month == 6 || self.month == 9 || self.month == 11 {
            30
        } else {
            31
        };
        1 <= self.day && self.day <= month_days && self.hour < 24 && self.minute < 60
            && self.second < 60 && self.milli < 1000
    }

    pub fn sort_key(&self) -> (r: u64)
        requires
            self.wf(),
        ensures
            r == self.key(),
    {
        let y = self.year as u64;
        let m = self.month as u64;
        let d = self.day as u64;
        let h = self.hour as u64;
        let mi = self.minute as u64;
        let s = self.second as u64;
        let ms = self.milli as u64;
        assert(d <= 31);
        let k1 = y * 12 + m - 1;
        assert(k1 < 120000);
        let k2 = k1 * 31 + d - 1;
        assert(k2 < 120000 * 31) by (nonlinear_arith)
            requires
                k2 == k1 * 31 + d - 1,
                k1 < 120000,
                d <= 31,
        ;
        let k3 = k2 * 24 + h;
        assert(k3 < 120000 * 31 * 24) by (nonlinear_arith)
            requires
                k3 == k2 * 24 + h,
                k2 < 120000 * 31,
                h < 24,
        ;
        let k4 = k3 * 60 + mi;
        assert(k4 < 120000 * 31 * 24 * 60) by (nonlinear_arith)
            requires
                k4 == k3 * 60 + mi,
                k3 < 120000 * 31 * 24,
                mi < 60,
        ;
        let k5 = k4 * 60 + s;
        assert(k5 < 120000 * 31 * 24 * 60 * 60) by (nonlinear_arith)
            requires
                k5 == k4 * 60 + s,
                k4 < 120000 * 31 * 24 * 60,
                s < 60,
        ;
        k5 * 1000 + ms
    }
}

/// Relies on chrono's `NaiveDate::from_ymd_opt`, `NaiveDate::and_hms_milli_opt`
/// and `NaiveDateTime::format`: a well-formed value is a valid chrono date and
/// time, and with either pattern each field is written in decimal, zero-padded
/// (four digits for `%Y` on years 0 to 9999, three for `%3f`, two otherwise).
#[verifier::external_body]
pub(crate) fn format_stamp(t: &Timestamp, pattern: &str) -> (r: String)
    requires
        t.wf(),
        pattern@ == FOLDER_STAMP@ || pattern@ == COMPACT_STAMP@,
    ensures
        pattern@ == FOLDER_STAMP@ ==> r@ == folder_stamp(*t),
        pattern@ == COMPACT_STAMP@ ==> r@ == compact_stamp(*t),
{
    let date = chrono::NaiveDate::from_ymd_opt(t.year, t.month, t.day).unwrap();
    let moment = date.and_hms_milli_opt(t.hour, t.minute, t.second, t.milli).unwrap();
    moment.format(pattern).to_string()
}

/// Relies on chrono's `NaiveDateTime::and_utc` and `DateTime::timestamp`: the
/// number of non-leap seconds since 1970-01-01T00:00:00 UTC.
#[verifier::external_body]
pub(crate) fn epoch_seconds(t: &Timestamp) -> (r: i64)
    requires
        t.wf(),
    ensures
        r == epoch_seconds_of(*t),
{
    let date = chrono::NaiveDate::from_ymd_opt(t.year, t.month, t.day).unwrap();
    let moment = date.and_hms_milli_opt(t.hour, t.minute, t.second, t.milli).unwrap();
    moment.and_utc().timestamp()
}


/// The one-character text of a decimal digit.
fn digit_text(d: u64) -> (r: &'static str)
    requires
        d < 10,
    ensures
        r@ == seq![digit(d as int)],
{
    proof {
        reveal_strlit("0");
        reveal_strlit("1");
        reveal_strlit("2");
        reveal_strlit("3");
        reveal_strlit("4");
        reveal_strlit("5");
        reveal_strlit("6");
        reveal_strlit("7");
        reveal_strlit("8");
        reveal_strlit("9");
    }
    if d == 0 {
        "0"
    } else if d == 1 {
        "1"
    } else if d == 2 {
        "2"
    } else if d == 3 {
        "3"
    } else if d == 4 {
        "4"
    } else if d == 5 {
        "5"
    } else if d == 6 {
        "6"
    } else if d == 7 {
        "7"
    } else if d == 8 {
        "8"
    } else {
        "9"
    }
}

fn append_nat_decimal(out: &mut String, n: u64)
    ensures
        final(out)@ == old(out)@ + nat_decimal(n as nat),
    decreases n,
{
    if n >= 10 {
        append_nat_decimal(out, n / 10);
    }
    out.append(digit_text(n % 10));
    assert(final(out)@ =~= old(out)@ + nat_decimal(n as nat));
}

/// Decimal text of `n`.
pub fn decimal_text(n: i64) -> (r: String)
    ensures
        r@ == decimal(n as int),
{
    let mut out = String::new();
    if n < 0 {
        out.append("-");
        let magnitude: u64 = (-(n as i128)) as u64;
        append_nat_decimal(&mut out, magnitude);
        proof {
            reveal_strlit("-");
            assert(out@ =~= decimal(n as int));
        }
    } else {
        append_nat_decimal(&mut out, n as u64);
        assert(out@ =~= decimal(n as int));
    }
    out
}


/// The value of a decimal digit.
fn digit_value(c: char) -> (r: Option<u32>)
    ensures
        r matches Some(v) ==> v < 10 && c == digit(v as int),
        r is None ==> forall|d: int| 0 <= d < 10 ==> c != #[trigger] digit(d),
{
    if c == '0' {
        Some(0)
    } else if c == '1' {
        Some(1)
    } else if c == '2' {
        Some(2)
    } else if c == '3' {
        Some(3)
    } else if c == '4' {
        Some(4)
    } else if c == '5' {
        Some(5)
    } else if c == '6' {
        Some(6)
    } else if c == '7' {
        Some(7)
    } else if c == '8' {
        Some(8)
    } else if c == '9' {
        Some(9)
    } else {
        None
    }
}

proof fn lemma_digit_injective(a: int, b: int)
    requires
        0 <= a < 10,
        0 <= b < 10,
        digit(a) == digit(b),
    ensures
        a == b,
{
}

/// The two-digit number at `at` in `s`.
fn read2(s: &str, at: usize) -> (r: Option<u32>)
    requires
        at + 2 <= s@.len() < usize::MAX,
    ensures
        r matches Some(v) ==> v < 100 && s@.subrange(at as int, at + 2) == pad2(v as int),
        r matches Some(v) ==> forall|n: int|
            0 <= n < 100 && s@.subrange(at as int, at + 2) == #[trigger] pad2(n) ==> n == v,
        r is None ==> forall|n: int|
            0 <= n < 100 ==> s@.subrange(at as int, at + 2) != #[trigger] pad2(n),
{
    let hi = digit_value(s.get_char(at));
    let lo = digit_value(s.get_char(at + 1));
    match (hi, lo) {
        (Some(a), Some(b)) => {
            let v = a * 10 + b;
            assert(s@.subrange(at as int, at + 2) =~= pad2(v as int));
            assert forall|n: int|
                0 <= n < 100 && s@.subrange(at as int, at + 2) == #[trigger] pad2(n) implies n
                == v by {
                assert(pad2(n)[0] == digit(n / 10 % 10));
                assert(pad2(n)[1] == digit(n % 10));
                lemma_digit_injective(n / 10 % 10, a as int);
                lemma_digit_injective(n % 10, b as int);
            }
            Some(v)
        },
        _ => {
            assert forall|n: int|
                0 <= n < 100 implies s@.subrange(at as int, at + 2) != #[trigger] pad2(n) by {
                if s@.subrange(at as int, at + 2) == pad2(n) {
                    assert(s@[at as int] == pad2(n)[0]);
                    assert(s@[at + 1] == pad2(n)[1]);
                }
            }
            None
        },
    }
}

proof fn lemma_four_digits(a: int, b: int, c: int, d: int)
    requires
        0 <= a < 10,
        0 <= b < 10,
        0 <= c < 10,
        0 <= d < 10,
    ensures
        (a * 1000 + b * 100 + c * 10 + d) / 1000 % 10 == a,
        (a * 1000 + b * 100 + c * 10 + d) / 100 % 10 == b,
        (a * 1000 + b * 100 + c * 10 + d) / 10 % 10 == c,
        (a * 1000 + b * 100 + c * 10 + d) % 10 == d,
{
    let v = a * 1000 + b * 100 + c * 10 + d;
    lemma_fundamental_div_mod_converse(v, 1000, a, b * 100 + c * 10 + d);
    lemma_fundamental_div_mod_converse(a, 10, 0, a);
    lemma_fundamental_div_mod_converse(v, 100, a * 10 + b, c * 10 + d);
    lemma_fundamental_div_mod_converse(a * 10 + b, 10, a, b);
    lemma_fundamental_div_mod_converse(v, 10, a * 100 + b * 10 + c, d);
    lemma_fundamental_div_mod_converse(a * 100 + b * 10 + c, 10, a * 10 + b, c);
}

proof fn lemma_recompose(n: int)
    requires
        0 <= n < 10000,
    ensures
        n == (n / 1000 % 10) * 1000 + (n / 100 % 10) * 100 + (n / 10 % 10) * 10 + n % 10,
{
    lemma_fundamental_div_mod(n, 10);
    lemma_fundamental_div_mod(n / 10, 10);
    lemma_fundamental_div_mod(n / 100, 10);
    lemma_div_denominator(n, 10, 10);
    lemma_div_denominator(n, 100, 10);
    lemma_fundamental_div_mod_converse(n / 1000, 10, 0, n / 1000);
}

/// The four-digit number at `at` in `s`.
fn read4(s: &str, at: usize) -> (r: Option<u32>)
    requires
        at + 4 <= s@.len() < usize::MAX,
    ensures
        r matches Some(v) ==> v < 10000 && s@.subrange(at as int, at + 4) == pad4(v as int),
        r matches Some(v) ==> forall|n: int|
            0 <= n < 10000 && s@.subrange(at as int, at + 4) == #[trigger] pad4(n) ==> n == v,
        r is None ==> forall|n: int|
            0 <= n < 10000 ==> s@.subrange(at as int, at + 4) != #[trigger] pad4(n),
{
    let d0 = digit_value(s.get_char(at));
    let d1 = digit_value(s.get_char(at + 1));
    let d2 = digit_value(s.get_char(at + 2));
    let d3 = digit_value(s.get_char(at + 3));
    match (d0, d1, d2, d3) {
        (Some(a), Some(b), Some(c), Some(d)) => {
            let v = a * 1000 + b * 100 + c * 10 + d;
            proof {
                lemma_four_digits(a as int, b as int, c as int, d as int);
            }
            assert(s@.subrange(at as int, at + 4) =~= pad4(v as int));
            assert forall|n: int|
                0 <= n < 10000 && s@.subrange(at as int, at + 4) == #[trigger] pad4(n) implies n
                == v by {
                assert(pad4(n)[0] == digit(n / 1000 % 10));
                assert(pad4(n)[1] == digit(n / 100 % 10));
                assert(pad4(n)[2] == digit(n / 10 % 10));
                assert(pad4(n)[3] == digit(n % 10));
                lemma_digit_injective(n / 1000 % 10, a as int);
                lemma_digit_injective(n / 100 % 10, b as int);
                lemma_digit_injective(n / 10 % 10, c as int);
                lemma_digit_injective(n % 10, d as int);
                lemma_recompose(n);
            }
            Some(v)
        },
        _ => {
            assert forall|n: int|
                0 <= n < 10000 implies s@.subrange(at as int, at + 4) != #[trigger] pad4(n) by {
                if s@.subrange(at as int, at + 4) == pad4(n) {
                    assert(s@[at as int] == pad4(n)[0]);
                    assert(s@[at + 1] == pad4(n)[1]);
                    assert(s@[at + 2] == pad4(n)[2]);
                    assert(s@[at + 3] == pad4(n)[3]);
                }
            }
            None
        },
    }
}

proof fn lemma_folder_stamp_parts(t: Timestamp)
    ensures
        folder_stamp(t).len() == 19,
        folder_stamp(t)[4] == '-',
        folder_stamp(t)[7] == '-',
        folder_stamp(t)[10] == '_',
        folder_stamp(t)[13] == '-',
        folder_stamp(t)[16] == '-',
        folder_stamp(t).subrange(0, 4) == pad4(t.year as int),
        folder_stamp(t).subrange(5, 7) == pad2(t.month as int),
        folder_stamp(t).subrange(8, 10) == pad2(t.day as int),
        folder_stamp(t).subrange(11, 13) == pad2(t.hour as int),
        folder_stamp(t).subrange(14, 16) == pad2(t.minute as int),
        folder_stamp(t).subrange(17, 19) == pad2(t.second as int),
{
    let f = folder_stamp(t);
    assert(f.subrange(0, 4) =~= pad4(t.year as int));
    assert(f.subrange(5, 7) =~= pad2(t.month as int));
    assert(f.subrange(8, 10) =~= pad2(t.day as int));
    assert(f.subrange(11, 13) =~= pad2(t.hour as int));
    assert(f.subrange(14, 16) =~= pad2(t.minute as int));
    assert(f.subrange(17, 19) =~= pad2(t.second as int));
}

pub proof fn lemma_folder_stamp_len(t: Timestamp)
    ensures
        folder_stamp(t).len() == 19,
{
}

/// Reads an event name `YYYY-MM-DD_HH-MM-SS`: the moment it names, where it
/// names a real one.
pub fn parse_folder_stamp(s: &str) -> (r: Option<Timestamp>)
    ensures
        r matches Some(t) ==> t.wf() && t.milli == 0 && folder_stamp(t) == s@,
        r is None ==> forall|t: Timestamp|
            t.wf() && t.milli == 0 ==> folder_stamp(t) != s@,
{
    if s.unicode_len() != 19 || s.get_char(4) != '-' || s.get_char(7) != '-' || s.get_char(10)
        != '_' || s.get_char(13) != '-' || s.get_char(16) != '-' {
        assert forall|t: Timestamp| t.wf() && t.milli == 0 implies folder_stamp(t) != s@ by {
            lemma_folder_stamp_parts(t);
        }
        return None;
    }
    let fields = (read4(s, 0), read2(s, 5), read2(s, 8), read2(s, 11), read2(s, 14), read2(s, 17));
    match fields {
        (Some(year), Some(month), Some(day), Some(hour), Some(minute), Some(second)) => {
            let t = Timestamp { year: year as i32, month, day, hour, minute, second, milli: 0 };
            if t.is_valid() {
                proof {
                    lemma_folder_stamp_parts(t);
                    assert(folder_stamp(t) =~= s@);
                }
                Some(t)
            } else {
                assert forall|u: Timestamp| u.wf() && u.milli == 0 implies folder_stamp(u) != s@ by {
                    lemma_folder_stamp_parts(u);
                    if folder_stamp(u) == s@ {
                        assert(u.year as int == year as int);
                        assert(u.month as int == month as int);
                        assert(u.day as int == day as int);
                        assert(u.hour as int == hour as int);
                        assert(u.minute as int == minute as int);
                        assert(u.second as int == second as int);
                    }
                }
                None
            }
        },
        _ => {
            assert forall|u: Timestamp| u.wf() && u.milli == 0 implies folder_stamp(u) != s@ by {
                lemma_folder_stamp_parts(u);
            }
            None
        },
    }
}

} // verus!
