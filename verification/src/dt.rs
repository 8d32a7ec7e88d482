use vstd::prelude::*;
use vstd::string::StrSliceExecFns;
use vstd::string::StringExecFns;

verus! {

/// A civil date-time with second precision and no time zone, the unit in
/// which feed build dates, item publish dates and stored watermarks are
/// compared. Ordering is chronological, i.e. lexicographic on
/// (year, month, day, hour, minute, second).
#[derive(Clone, Copy, PartialEq, Eq, Structural, Debug)]
pub struct Dt {
    pub year: u32,
    pub month: u32,
    pub day: u32,
    pub hour: u32,
    pub minute: u32,
    pub second: u32,
}

pub open spec fn leap_year(y: int) -> bool {
    y % 4 == 0 && (y % 100 != 0 || y % 400 == 0)
}

pub open spec fn days_in_month(y: int, m: int) -> int {
    if m == 2 {
        if leap_year(y) {
            29
        } else {
            28
        }
    } else if m == 4 || m == 6 || m == 9 || m == 11 {
        30
    } else {
        31
    }
}

/// A well-formed calendar date-time, as the fixed storage format can
/// represent it: four-digit year, real month and day, and a time of day.
pub open spec fn dt_valid(d: Dt) -> bool {
    &&& 0 <= d.year <= 9999
    &&& 1 <= d.month <= 12
    &&& 1 <= d.day <= days_in_month(d.year as int, d.month as int)
    &&& d.hour < 24
    &&& d.minute < 60
    &&& d.second < 60
}

/// Chronological strict order on civil date-times.
pub open spec fn dt_lt(a: Dt, b: Dt) -> bool {
    if a.year != b.year {
        a.year < b.year
    } else if a.month != b.month {
        a.month < b.month
    } else if a.day != b.day {
        a.day < b.day
    } else if a.hour != b.hour {
        a.hour < b.hour
    } else if a.minute != b.minute {
        a.minute < b.minute
    } else {
        a.second < b.second
    }
}

pub open spec fn dt_le(a: Dt, b: Dt) -> bool {
    dt_lt(a, b) || a == b
}

impl Dt {
    /// Decides whether `self` is chronologically strictly before `other`.
    pub fn before(&self, other: &Dt) -> (r: bool)
        ensures
            r == dt_lt(*self, *other),
    {
        if self.year != other.year {
            self.year < other.year
        } else if self.month != other.month {
            self.month < other.month
        } else if self.day != other.day {
            self.day < other.day
        } else if self.hour != other.hour {
            self.hour < other.hour
        } else if self.minute != other.minute {
            self.minute < other.minute
        } else {
            self.second < other.second
        }
    }

    /// Decides whether the fields form a well-formed calendar date-time.
    pub fn is_valid(&self) -> (r: bool)
        ensures
            r == dt_valid(*self),
    {
        let dim: u32 = if self.month == 2 {
            if self.year % 4 == 0 && (self.year % 100 != 0 || self.year % 400 == 0) {
                29
            } else {
                28
            }
        } else if self.month == 4 || self.month == 6 || self.month == 9 || self.month == 11 {
            30
        } else {
            31
        };
        self.year <= 9999 && 1 <= self.month && self.month <= 12 && 1 <= self.day && self.day
            <= dim && self.hour < 24 && self.minute < 60 && self.second < 60
    }
}

pub open spec fn digit_char(d: int) -> char {
    if d == 0 {
        '0'
    } else if d == 1 {
        '1'
    } else if d == 2 {
        '2'
    } else if d == 3 {
        '3'
    } else if d == 4 {
        '4'
    } else if d == 5 {
        '5'
    } else if d == 6 {
        '6'
    } else if d == 7 {
        '7'
    } else if d == 8 {
        '8'
    } else {
        '9'
    }
}

/// Value of a decimal digit character; 10 stands for "not a digit".
pub open spec fn digit_val(c: char) -> int {
    if c == '0' {
        0
    } else if c == '1' {
        1
    } else if c == '2' {
        2
    } else if c == '3' {
        3
    } else if c == '4' {
        4
    } else if c == '5' {
        5
    } else if c == '6' {
        6
    } else if c == '7' {
        7
    } else if c == '8' {
        8
    } else if c == '9' {
        9
    } else {
        10
    }
}

pub open spec fn is_digit(c: char) -> bool {
    digit_val(c) < 10
}

pub open spec fn fmt2(n: int) -> Seq<char> {
    seq![digit_char(n / 10), digit_char(n % 10)]
}

pub open spec fn fmt4(n: int) -> Seq<char> {
    seq![
        digit_char(n / 1000),
        digit_char((n / 100) % 10),
        digit_char((n / 10) % 10),
        digit_char(n % 10),
    ]
}

/// The fixed storage rendering of a date-time: `YYYY-MM-DD HH:MM:SS`.
pub open spec fn fmt_dt(d: Dt) -> Seq<char> {
    fmt4(d.year as int) + seq!['-'] + fmt2(d.month as int) + seq!['-'] + fmt2(d.day as int)
        + seq![' '] + fmt2(d.hour as int) + seq![':'] + fmt2(d.minute as int) + seq![':'] + fmt2(
        d.second as int,
    )
}

pub open spec fn val2(s: Seq<char>, i: int) -> int {
    10 * digit_val(s[i]) + digit_val(s[i + 1])
}

pub open spec fn val4(s: Seq<char>, i: int) -> int {
    1000 * digit_val(s[i]) + 100 * digit_val(s[i + 1]) + 10 * digit_val(s[i + 2]) + digit_val(
        s[i + 3],
    )
}

/// Nineteen characters in the exact `YYYY-MM-DD HH:MM:SS` shape.
pub open spec fn storage_shape_ok(s: Seq<char>) -> bool {
    &&& s.len() == 19
    &&& s[4] == '-' && s[7] == '-' && s[10] == ' ' && s[13] == ':' && s[16] == ':'
    &&& is_digit(s[0]) && is_digit(s[1]) && is_digit(s[2]) && is_digit(s[3])
    &&& is_digit(s[5]) && is_digit(s[6])
    &&& is_digit(s[8]) && is_digit(s[9])
    &&& is_digit(s[11]) && is_digit(s[12])
    &&& is_digit(s[14]) && is_digit(s[15])
    &&& is_digit(s[17]) && is_digit(s[18])
}

/// What the stored watermark text means: a date-time if the text has the
/// exact storage shape and names a real calendar date, nothing otherwise.
pub open spec fn parse_dt(s: Seq<char>) -> Option<Dt> {
    if storage_shape_ok(s) {
        let d = Dt {
            year: val4(s, 0) as u32,
            month: val2(s, 5) as u32,
            day: val2(s, 8) as u32,
            hour: val2(s, 11) as u32,
            minute: val2(s, 14) as u32,
            second: val2(s, 17) as u32,
        };
        if dt_valid(d) {
            Some(d)
        } else {
            None
        }
    } else {
        None
    }
}

pub proof fn lemma_digit_roundtrip(x: int)
    requires
        0 <= x <= 9,
    ensures
        digit_val(digit_char(x)) == x,
        is_digit(digit_char(x)),
{
}

proof fn lemma_digits4(n: int)
    requires
        0 <= n < 10000,
    ensures
        1000 * (n / 1000) + 100 * ((n / 100) % 10) + 10 * ((n / 10) % 10) + n % 10 == n,
        0 <= n / 1000 <= 9,
        0 <= (n / 100) % 10 <= 9,
        0 <= (n / 10) % 10 <= 9,
        0 <= n % 10 <= 9,
{
    assert(n == 10 * (n / 10) + n % 10);
    assert(n / 10 == 10 * (n / 100) + (n / 10) % 10);
    assert(n / 100 == 10 * (n / 1000) + (n / 100) % 10);
}

proof fn lemma_digits2(n: int)
    requires
        0 <= n < 100,
    ensures
        10 * (n / 10) + n % 10 == n,
        0 <= n / 10 <= 9,
        0 <= n % 10 <= 9,
{
    assert(n == 10 * (n / 10) + n % 10);
}

/// Writing a well-formed date-time in the storage format and reading the
/// text back yields the same date-time.
pub proof fn lemma_storage_roundtrip(d: Dt)
    requires
        dt_valid(d),
    ensures
        parse_dt(fmt_dt(d)) == Some(d),
{
    let s = fmt_dt(d);
    lemma_digits4(d.year as int);
    lemma_digits2(d.month as int);
    lemma_digits2(d.day as int);
    lemma_digits2(d.hour as int);
    lemma_digits2(d.minute as int);
    lemma_digits2(d.second as int);
    assert forall|x: int| 0 <= x <= 9 implies digit_val(digit_char(x)) == x && is_digit(
        digit_char(x),
    ) by {
        lemma_digit_roundtrip(x);
    }
    assert(s.len() == 19);
    assert(s[0] == digit_char(d.year as int / 1000));
    assert(s[1] == digit_char((d.year as int / 100) % 10));
    assert(s[2] == digit_char((d.year as int / 10) % 10));
    assert(s[3] == digit_char(d.year as int % 10));
    assert(s[4] == '-');
    assert(s[5] == digit_char(d.month as int / 10));
    assert(s[6] == digit_char(d.month as int % 10));
    assert(s[7] == '-');
    assert(s[8] == digit_char(d.day as int / 10));
    assert(s[9] == digit_char(d.day as int % 10));
    assert(s[10] == ' ');
    assert(s[11] == digit_char(d.hour as int / 10));
    assert(s[12] == digit_char(d.hour as int % 10));
    assert(s[13] == ':');
    assert(s[14] == digit_char(d.minute as int / 10));
    assert(s[15] == digit_char(d.minute as int % 10));
    assert(s[16] == ':');
    assert(s[17] == digit_char(d.second as int / 10));
    assert(s[18] == digit_char(d.second as int % 10));
    assert(storage_shape_ok(s));
    assert(val4(s, 0) == d.year as int);
    assert(val2(s, 5) == d.month as int);
    assert(val2(s, 8) == d.day as int);
    assert(val2(s, 11) == d.hour as int);
    assert(val2(s, 14) == d.minute as int);
    assert(val2(s, 17) == d.second as int);
    assert(parse_dt(s) == Some(d));
}

fn digit_str(x: u32) -> (r: &'static str)
    requires
        x <= 9,
    ensures
        r@ == seq![digit_char(x as int)],
{
    if x == 0 {
        proof {
            reveal_strlit("0");
        }
        let r = "0";
        proof {
            assert(r@ =~= seq![digit_char(0)]);
        }
        r
    } else if x == 1 {
        proof {
            reveal_strlit("1");
        }
        let r = "1";
        proof {
            assert(r@ =~= seq![digit_char(1)]);
        }
        r
    } else if x == 2 {
        proof {
            reveal_strlit("2");
        }
        let r = "2";
        proof {
            assert(r@ =~= seq![digit_char(2)]);
        }
        r
    } else if x == 3 {
        proof {
            reveal_strlit("3");
        }
        let r = "3";
        proof {
            assert(r@ =~= seq![digit_char(3)]);
        }
        r
    } else if x == 4 {
        proof {
            reveal_strlit("4");
        }
        let r = "4";
        proof {
            assert(r@ =~= seq![digit_char(4)]);
        }
        r
    } else if x == 5 {
        proof {
            reveal_strlit("5");
        }
        let r = "5";
        proof {
            assert(r@ =~= seq![digit_char(5)]);
        }
        r
    } else if x == 6 {
        proof {
            reveal_strlit("6");
        }
        let r = "6";
        proof {
            assert(r@ =~= seq![digit_char(6)]);
        }
        r
    } else if x == 7 {
        proof {
            reveal_strlit("7");
        }
        let r = "7";
        proof {
            assert(r@ =~= seq![digit_char(7)]);
        }
        r
    } else if x == 8 {
        proof {
            reveal_strlit("8");
        }
        let r = "8";
        proof {
            assert(r@ =~= seq![digit_char(8)]);
        }
        r
    } else {
        proof {
            reveal_strlit("9");
        }
        let r = "9";
        proof {
            assert(r@ =~= seq![digit_char(9)]);
        }
        r
    }
}

fn push2(s: &mut String, n: u32)
    requires
        n < 100,
    ensures
        final(s)@ == old(s)@ + fmt2(n as int),
{
    s.append(digit_str(n / 10));
    s.append(digit_str(n % 10));
    proof {
        assert(s@ =~= old(s)@ + fmt2(n as int));
    }
}

fn push4(s: &mut String, n: u32)
    requires
        n < 10000,
    ensures
        final(s)@ == old(s)@ + fmt4(n as int),
{
    s.append(digit_str(n / 1000));
    s.append(digit_str((n / 100) % 10));
    s.append(digit_str((n / 10) % 10));
    s.append(digit_str(n % 10));
    proof {
        assert(s@ =~= old(s)@ + fmt4(n as int));
    }
}

/// Renders a date-time in the storage format `YYYY-MM-DD HH:MM:SS`.
pub fn format_dt(d: &Dt) -> (r: String)
    requires
        dt_valid(*d),
    ensures
        r@ == fmt_dt(*d),
{
    proof {
        reveal_strlit("-");
        reveal_strlit(" ");
        reveal_strlit(":");
    }
    let mut s = String::new();
    push4(&mut s, d.year);
    s.append("-");
    push2(&mut s, d.month);
    s.append("-");
    push2(&mut s, d.day);
    s.append(" ");
    push2(&mut s, d.hour);
    s.append(":");
    push2(&mut s, d.minute);
    s.append(":");
    push2(&mut s, d.second);
    proof {
        assert("-"@ =~= seq!['-']);
        assert(" "@ =~= seq![' ']);
        assert(":"@ =~= seq![':']);
        assert(s@ =~= fmt_dt(*d));
    }
    s
}

/// Digit value of a character, with 10 for anything that is not a digit.
fn digit_of(c: char) -> (r: u32)
    ensures
        r as int == digit_val(c),
{
    if c == '0' {
        0
    } else if c == '1' {
        1
    } else if c == '2' {
        2
    } else if c == '3' {
        3
    } else if c == '4' {
        4
    } else if c == '5' {
        5
    } else if c == '6' {
        6
    } else if c == '7' {
        7
    } else if c == '8' {
        8
    } else if c == '9' {
        9
    } else {
        10
    }
}

/// Reads a date-time from the storage format, rejecting anything that is
/// not exactly `YYYY-MM-DD HH:MM:SS` naming a real calendar date.
pub fn parse_storage_dt(s: &str) -> (r: Option<Dt>)
    ensures
        r == parse_dt(s@),
{
    if s.unicode_len() != 19 {
        return None;
    }
    if !(s.get_char(4) == '-' && s.get_char(7) == '-' && s.get_char(10) == ' ' && s.get_char(13)
        == ':' && s.get_char(16) == ':') {
        return None;
    }
    let y0: u32 = digit_of(s.get_char(0));
    let y1: u32 = digit_of(s.get_char(1));
    let y2: u32 = digit_of(s.get_char(2));
    let y3: u32 = digit_of(s.get_char(3));
    let mo0: u32 = digit_of(s.get_char(5));
    let mo1: u32 = digit_of(s.get_char(6));
    let d0: u32 = digit_of(s.get_char(8));
    let d1: u32 = digit_of(s.get_char(9));
    let h0: u32 = digit_of(s.get_char(11));
    let h1: u32 = digit_of(s.get_char(12));
    let mi0: u32 = digit_of(s.get_char(14));
    let mi1: u32 = digit_of(s.get_char(15));
    let s0: u32 = digit_of(s.get_char(17));
    let s1: u32 = digit_of(s.get_char(18));
    if y0 >= 10 || y1 >= 10 || y2 >= 10 || y3 >= 10 || mo0 >= 10 || mo1 >= 10 || d0 >= 10 || d1
        >= 10 || h0 >= 10 || h1 >= 10 || mi0 >= 10 || mi1 >= 10 || s0 >= 10 || s1 >= 10 {
        return None;
    }
    let d = Dt {
        year: 1000 * y0 + 100 * y1 + 10 * y2 + y3,
        month: 10 * mo0 + mo1,
        day: 10 * d0 + d1,
        hour: 10 * h0 + h1,
        minute: 10 * mi0 + mi1,
        second: 10 * s0 + s1,
    };
    if d.is_valid() {
        Some(d)
    } else {
        None
    }
}

} // verus!
