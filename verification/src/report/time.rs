//! Points in time as the documents and the log spell them.

use vstd::prelude::*;
use vstd::string::*;

use crate::text;

verus! {

/// Whether a year of the Gregorian calendar has a 29th of February.
pub open spec fn is_leap(year: int) -> bool {
    year % 4 == 0 && (year % 100 != 0 || year % 400 == 0)
}

/// How many days a month has.
pub open spec fn days_in_month(year: int, month: int) -> int {
    if month == 2 {
        if is_leap(year) {
            29
        } else {
            28
        }
    } else if month == 4 || month == 6 || month == 9 || month == 11 {
        30
    } else {
        31
    }
}

/// How many days of a year lie before a month.
pub open spec fn days_before_month(year: int, month: int) -> int
    decreases month,
{
    if month <= 1 {
        0
    } else {
        days_before_month(year, month - 1) + days_in_month(year, month - 1)
    }
}

/// How many leap days lie in the years up to and with `year`, counted from
/// the year 0.
pub open spec fn leap_days(year: int) -> int {
    year / 4 - year / 100 + year / 400
}

/// How many days lie between 1970-01-01 and the first day of a year.
pub open spec fn days_before_year(year: int) -> int {
    365 * (year - 1970) + leap_days(year - 1) - leap_days(1969)
}

/// How many days lie between 1970-01-01 and a date.
pub open spec fn day_number(year: int, month: int, day: int) -> int {
    days_before_year(year) + days_before_month(year, month) + day - 1
}

/// Whether a date is one of the Gregorian calendar.
pub open spec fn is_date(year: int, month: int, day: int) -> bool {
    1 <= month <= 12 && 1 <= day <= days_in_month(year, month)
}

proof fn lemma_month_table(year: int)
    ensures
        days_before_month(year, 1) == 0,
        days_before_month(year, 2) == 31,
        days_before_month(year, 3) == 31 + days_in_month(year, 2),
        days_before_month(year, 4) == 62 + days_in_month(year, 2),
        days_before_month(year, 5) == 92 + days_in_month(year, 2),
        days_before_month(year, 6) == 123 + days_in_month(year, 2),
        days_before_month(year, 7) == 153 + days_in_month(year, 2),
        days_before_month(year, 8) == 184 + days_in_month(year, 2),
        days_before_month(year, 9) == 215 + days_in_month(year, 2),
        days_before_month(year, 10) == 245 + days_in_month(year, 2),
        days_before_month(year, 11) == 276 + days_in_month(year, 2),
        days_before_month(year, 12) == 306 + days_in_month(year, 2),
{
    reveal_with_fuel(days_before_month, 13);
}

/// A year adds a leap day exactly when it has one.
proof fn lemma_leap_step(year: int)
    ensures
        leap_days(year) == leap_days(year - 1) + if is_leap(year) {
            1int
        } else {
            0int
        },
{
    assert(year / 4 == (year - 1) / 4 + if year % 4 == 0 {
        1int
    } else {
        0int
    });
    assert(year / 100 == (year - 1) / 100 + if year % 100 == 0 {
        1int
    } else {
        0int
    });
    assert(year / 400 == (year - 1) / 400 + if year % 400 == 0 {
        1int
    } else {
        0int
    });
    assert(year % 100 == 0 ==> year % 4 == 0);
    assert(year % 400 == 0 ==> year % 100 == 0);
}

/// No two dates of the calendar lie the same number of days from 1970-01-01.
pub proof fn lemma_dates_are_told_apart(
    y1: int,
    m1: int,
    d1: int,
    y2: int,
    m2: int,
    d2: int,
)
    requires
        is_date(y1, m1, d1),
        is_date(y2, m2, d2),
        day_number(y1, m1, d1) == day_number(y2, m2, d2),
    ensures
        y1 == y2 && m1 == m2 && d1 == d2,
{
    lemma_month_table(y1);
    lemma_month_table(y2);
    lemma_year_bounds(y1, m1, d1);
    lemma_year_bounds(y2, m2, d2);
    if y1 < y2 {
        lemma_years_ordered(y1 + 1, y2);
    } else if y2 < y1 {
        lemma_years_ordered(y2 + 1, y1);
    }
}

proof fn lemma_year_bounds(y: int, m: int, d: int)
    requires
        is_date(y, m, d),
    ensures
        days_before_year(y) <= day_number(y, m, d) < days_before_year(y + 1),
{
    lemma_month_table(y);
    lemma_leap_step(y);
}

proof fn lemma_years_ordered(a: int, b: int)
    requires
        a <= b,
    ensures
        days_before_year(a) <= days_before_year(b),
    decreases b - a,
{
    if a < b {
        lemma_leap_step(a);
        lemma_years_ordered(a + 1, b);
    }
}

/// Where a day of a year that starts on the 1st of March lies: the month and
/// the day of the month.
fn month_and_day(doy: u64) -> (r: (u64, u64))
    requires
        doy <= 365,
    ensures
        1 <= r.0 <= 12,
        ({
            let m = r.0 as int;
            let d = r.1 as int;
            &&& 1 <= d
            &&& m == 3 ==> d <= 31 && doy == d - 1
            &&& m == 4 ==> d <= 30 && doy == 31 + d - 1
            &&& m == 5 ==> d <= 31 && doy == 61 + d - 1
            &&& m == 6 ==> d <= 30 && doy == 92 + d - 1
            &&& m == 7 ==> d <= 31 && doy == 122 + d - 1
            &&& m == 8 ==> d <= 31 && doy == 153 + d - 1
            &&& m == 9 ==> d <= 30 && doy == 184 + d - 1
            &&& m == 10 ==> d <= 31 && doy == 214 + d - 1
            &&& m == 11 ==> d <= 30 && doy == 245 + d - 1
            &&& m == 12 ==> d <= 31 && doy == 275 + d - 1
            &&& m == 1 ==> d <= 31 && doy == 306 + d - 1
            &&& m == 2 ==> d <= 29 && doy == 337 + d - 1
        }),
{
    let mp: u64 = (5 * doy + 2) / 153;
    let d: u64 = doy - (153 * mp + 2) / 5 + 1;
    let m: u64 = if mp < 10 {
        mp + 3
    } else {
        mp - 9
    };
    (m, d)
}

/// The date that lies `days` after 1970-01-01: the day count is taken apart
/// into cycles of 400, 100 and 4 years that start on the 1st of March, so
/// that a leap day is always the last day of its year.
#[verifier::rlimit(30)]
pub fn civil_from_days(days: i64) -> (r: (i64, u32, u32))
    requires
        days + 719_468 <= i64::MAX,
    ensures
        is_date(r.0 as int, r.1 as int, r.2 as int),
        day_number(r.0 as int, r.1 as int, r.2 as int) == days,
{
    // Days since 0000-03-01, whole cycles of 400 years ahead of it, so that
    // the count is not negative.
    let z: u128 = (days as i128 + 719_468 + 9_233_330_400_000_000_000) as u128;
    let cycles: u64 = (z / 146_097) as u64;
    let in_cycle: u64 = (z % 146_097) as u64;
    let century: u64 = if in_cycle / 36_524 < 3 {
        in_cycle / 36_524
    } else {
        3
    };
    let in_century: u64 = in_cycle - century * 36_524;
    let four: u64 = in_century / 1_461;
    let in_four: u64 = in_century % 1_461;
    let one: u64 = if in_four / 365 < 3 {
        in_four / 365
    } else {
        3
    };
    let doy: u64 = in_four - one * 365;
    let (m, d) = month_and_day(doy);
    let of_cycle: u64 = century * 100 + four * 4 + one;
    let y: i64 = (cycles as i64 - 63_200_000_000_000) * 400 + of_cycle as i64;
    let year: i64 = if m <= 2 {
        y + 1
    } else {
        y
    };
    proof {
        let yi = y as int;
        assert(four <= 24);
        assert(of_cycle <= 399);
        let e = cycles as int - 63_200_000_000_000;
        assert(yi == e * 400 + of_cycle);
        assert(yi / 400 == e);
        assert(yi / 100 == e * 4 + century);
        assert(yi / 4 == e * 100 + century * 25 + four);
        assert(days + 719_468 == 365 * yi + leap_days(yi) + doy);
        assert(doy == 365 ==> is_leap(yi + 1)) by {
            if doy == 365 {
                assert(one == 3);
                assert((yi + 1) % 4 == 0);
                if four == 24 {
                    assert(century == 3);
                    assert((yi + 1) % 400 == 0);
                } else {
                    assert((yi + 1) % 100 == (four * 4 + 4) % 100);
                }
            }
        }
        lemma_month_table(yi);
        lemma_month_table(yi + 1);
        lemma_leap_step(yi);
    }
    (year, m as u32, d as u32)
}

/// `n` with zeros in front of its digits up to a width.
pub open spec fn padded(n: int, width: nat) -> Seq<char> {
    let sign = if n < 0 {
        seq!['-']
    } else {
        Seq::<char>::empty()
    };
    let digits = text::decimal(
        if n < 0 {
            -n
        } else {
            n
        } as nat,
    );
    let room = width - sign.len() - digits.len();
    sign + Seq::new(
        if room > 0 {
            room as nat
        } else {
            0
        },
        |i: int| '0',
    ) + digits
}

fn pad(n: i64, width: usize) -> (r: String)
    requires
        width <= 8,
    ensures
        r@ == padded(n as int, width as nat),
{
    let size: u64 = if n < 0 {
        (-(n as i128)) as u64
    } else {
        n as u64
    };
    let digits = text::decimal_of(size);
    let mut out = String::new();
    if n < 0 {
        out.push('-');
    }
    let ghost sign = out@;
    let used: usize = digits.as_str().unicode_len();
    let mut k: usize = if n < 0 {
        1
    } else {
        0
    };
    let first: usize = k;
    while k < width && used < width - k
        invariant
            first <= k,
            width <= 8,
            first == sign.len(),
            used == digits@.len(),
            k == first || k + used <= width,
            out@ == sign + Seq::new((k - first) as nat, |i: int| '0'),
        decreases width - k,
    {
        out.push('0');
        k = k + 1;
        assert(out@ =~= sign + Seq::new((k - first) as nat, |i: int| '0'));
    }
    out.append(digits.as_str());
    assert(out@ =~= padded(n as int, width as nat));
    out
}

/// A Unix time as RFC 3339 UTC with millisecond precision: the date of its
/// day, and the hour, minute and second within it.
pub open spec fn is_stamp(s: Seq<char>, seconds: int, millis: int) -> bool {
    exists|y: int, m: int, d: int| #[trigger]
        is_date(y, m, d) && day_number(y, m, d) == seconds / 86_400 && s == spelled(
            y,
            m,
            d,
            seconds % 86_400,
            millis,
        )
}

/// A date and a time of day as the stamp spells them.
pub open spec fn spelled(y: int, m: int, d: int, of_day: int, millis: int) -> Seq<char> {
    padded(y, 4) + seq!['-'] + padded(m, 2) + seq!['-'] + padded(d, 2) + seq!['T'] + padded(
        of_day / 3600,
        2,
    ) + seq![':'] + padded((of_day % 3600) / 60, 2) + seq![':'] + padded(of_day % 60, 2)
        + seq!['.'] + padded(millis, 3) + seq!['Z']
}

/// Formats a Unix time as RFC 3339 UTC with millisecond precision.
pub fn rfc3339_from_unix(seconds: i64, millis: u32) -> (r: String)
    ensures
        is_stamp(r@, seconds as int, millis as int),
{
    let t: u128 = (seconds as i128 + 17_280_000_000_000_000_000) as u128;
    let days: i64 = (t / 86_400) as i64 - 200_000_000_000_000;
    let of_day: i64 = (t % 86_400) as i64;
    assert(days == seconds as int / 86_400 && of_day == seconds as int % 86_400);
    let (year, month, day) = civil_from_days(days);
    let mut out = pad(year, 4);
    out.push('-');
    out.append(pad(month as i64, 2).as_str());
    out.push('-');
    out.append(pad(day as i64, 2).as_str());
    out.push('T');
    out.append(pad(of_day / 3600, 2).as_str());
    out.push(':');
    out.append(pad((of_day % 3600) / 60, 2).as_str());
    out.push(':');
    out.append(pad(of_day % 60, 2).as_str());
    out.push('.');
    out.append(pad(millis as i64, 3).as_str());
    out.push('Z');
    proof {
        assert(out@ =~= spelled(
            year as int,
            month as int,
            day as int,
            of_day as int,
            millis as int,
        ));
        assert(is_date(year as int, month as int, day as int));
    }
    out
}

/// `SystemTime::now`: the seconds and milliseconds since the Unix epoch. What
/// the clock says is open; the milliseconds are those of one second.
#[verifier::external_body]
fn now() -> (r: (i64, u32))
    ensures
        r.1 < 1000,
{
    let now = std::time::SystemTime::now().duration_since(std::time::UNIX_EPOCH).unwrap_or_default();
    (now.as_secs() as i64, now.subsec_millis())
}

/// Current time as `YYYY-MM-DDTHH:MM:SS.mmmZ`.
pub fn now_rfc3339() -> (r: String)
    ensures
        exists|seconds: int, millis: int|
            0 <= millis < 1000 && #[trigger] is_stamp(r@, seconds, millis),
{
    let (seconds, millis) = now();
    rfc3339_from_unix(seconds, millis)
}

/// The digits among the first characters of a stamp.
pub open spec fn digits_of(s: Seq<char>) -> Seq<char>
    decreases s.len(),
{
    if s.len() == 0 {
        s
    } else {
        let before = digits_of(s.drop_last());
        if text::is_digit(s.last()) {
            before.push(s.last())
        } else {
            before
        }
    }
}

/// The day of a stamp as `YYYYMMDD`: the digits of its first ten characters.
pub fn day_of(stamp: &str) -> (r: String)
    ensures
        r@ == digits_of(
            stamp@.take(
                if stamp@.len() < 10 {
                    stamp@.len() as int
                } else {
                    10
                },
            ),
        ),
{
    let v = text::chars_of(stamp);
    let n: usize = if v.len() < 10 {
        v.len()
    } else {
        10
    };
    let mut out = String::new();
    let mut i: usize = 0;
    assert(v@.take(0) =~= Seq::<char>::empty());
    while i < n
        invariant
            i <= n <= v@.len(),
            out@ == digits_of(v@.take(i as int)),
        decreases n - i,
    {
        assert(v@.take(i + 1).drop_last() =~= v@.take(i as int));
        if '0' <= v[i] && v[i] <= '9' {
            out.push(v[i]);
        }
        i = i + 1;
    }
    out
}

/// A number in lower-case hexadecimal.
pub open spec fn hexadecimal(n: nat) -> Seq<char>
    decreases n,
{
    if n < 16 {
        seq![crate::action::encoding::hex_digit(n as int)]
    } else {
        hexadecimal(n / 16).push(crate::action::encoding::hex_digit((n % 16) as int))
    }
}

fn hexadecimal_of(n: u128) -> (r: String)
    ensures
        r@ == hexadecimal(n as nat),
    decreases n,
{
    if n < 16 {
        let mut out = String::new();
        out.push(crate::action::encoding::hex_digit_of(n as u8));
        assert(out@ =~= hexadecimal(n as nat));
        out
    } else {
        let mut out = hexadecimal_of(n / 16);
        out.push(crate::action::encoding::hex_digit_of((n % 16) as u8));
        out
    }
}

/// An identifier for a transaction or an installation: the time, the process
/// and how many the process has made before.
pub open spec fn identifier(nanos: nat, process: nat, counter: nat) -> Seq<char> {
    hexadecimal(nanos) + seq!['-'] + hexadecimal(process) + seq!['-'] + hexadecimal(counter)
}

/// A process-unique identifier for transactions and installations.
pub fn unique_id(nanos: u128, process: u32, counter: u32) -> (r: String)
    ensures
        r@ == identifier(nanos as nat, process as nat, counter as nat),
{
    let mut out = hexadecimal_of(nanos);
    out.push('-');
    out.append(hexadecimal_of(process as u128).as_str());
    out.push('-');
    out.append(hexadecimal_of(counter as u128).as_str());
    assert(out@ =~= identifier(nanos as nat, process as nat, counter as nat));
    out
}

proof fn lemma_hexadecimal(n: nat)
    ensures
        hexadecimal(n).len() > 0,
        !hexadecimal(n).contains('-'),
    decreases n,
{
    if n >= 16 {
        lemma_hexadecimal(n / 16);
        let s = hexadecimal(n / 16);
        assert forall|i: int| 0 <= i < hexadecimal(n).len() implies hexadecimal(n)[i] != '-' by {
            if i < s.len() {
                assert(s.contains(s[i]));
            }
        }
    }
}

proof fn lemma_hexadecimal_told_apart(a: nat, b: nat)
    requires
        hexadecimal(a) == hexadecimal(b),
    ensures
        a == b,
    decreases a,
{
    lemma_hexadecimal(a);
    lemma_hexadecimal(b);
    let s = hexadecimal(a);
    if a < 16 && b < 16 {
        assert(hexadecimal(a)[0] == hexadecimal(b)[0]);
    } else if a < 16 {
        lemma_hexadecimal(b / 16);
        assert(s.len() == 1);
    } else if b < 16 {
        lemma_hexadecimal(a / 16);
    } else {
        assert(hexadecimal(a).drop_last() =~= hexadecimal(a / 16));
        assert(hexadecimal(b).drop_last() =~= hexadecimal(b / 16));
        lemma_hexadecimal_told_apart(a / 16, b / 16);
        assert(hexadecimal(a).last() == hexadecimal(b).last());
    }
}

/// Identifiers made from different times, processes or counts differ: a
/// process never makes the same one twice.
pub proof fn lemma_identifiers_are_told_apart(
    n1: nat,
    p1: nat,
    c1: nat,
    n2: nat,
    p2: nat,
    c2: nat,
)
    requires
        identifier(n1, p1, c1) == identifier(n2, p2, c2),
    ensures
        n1 == n2 && p1 == p2 && c1 == c2,
{
    lemma_hexadecimal(n1);
    lemma_hexadecimal(n2);
    lemma_hexadecimal(p1);
    lemma_hexadecimal(p2);
    let whole = identifier(n1, p1, c1);
    let x1 = hexadecimal(n1);
    let x2 = hexadecimal(n2);
    assert(whole =~= x1 + seq!['-'] + (hexadecimal(p1) + seq!['-'] + hexadecimal(c1)));
    assert(whole =~= x2 + seq!['-'] + (hexadecimal(p2) + seq!['-'] + hexadecimal(c2)));
    lemma_first_dash(x1, hexadecimal(p1) + seq!['-'] + hexadecimal(c1), whole);
    lemma_first_dash(x2, hexadecimal(p2) + seq!['-'] + hexadecimal(c2), whole);
    let rest = whole.skip(x1.len() as int + 1);
    lemma_first_dash(hexadecimal(p1), hexadecimal(c1), rest);
    lemma_first_dash(hexadecimal(p2), hexadecimal(c2), rest);
    lemma_hexadecimal_told_apart(n1, n2);
    lemma_hexadecimal_told_apart(p1, p2);
    lemma_hexadecimal_told_apart(c1, c2);
}

/// Where the first dash stands decides what is in front of it.
proof fn lemma_first_dash(head: Seq<char>, tail: Seq<char>, whole: Seq<char>)
    requires
        !head.contains('-'),
        whole == head + seq!['-'] + tail,
    ensures
        text::find(whole, '-') == Some(head.len() as int),
        head == whole.take(head.len() as int),
        tail == whole.skip(head.len() as int + 1),
{
    assert(whole[head.len() as int] == '-');
    assert forall|i: int| 0 <= i < head.len() implies whole[i] != '-' by {
        assert(head.contains(head[i]));
    }
    text::lemma_find_at(whole, '-', head.len() as int);
    assert(head =~= whole.take(head.len() as int));
    assert(tail =~= whole.skip(head.len() as int + 1));
}

/// Days are counted from 1970-01-01, one by one: through a month, from the
/// last day of a month to the first of the next, and from the last day of a
/// year to the first of the next.
pub proof fn lemma_days_follow_one_another(y: int, m: int, d: int)
    requires
        is_date(y, m, d),
    ensures
        day_number(1970, 1, 1) == 0,
        is_date(y, m, d + 1) ==> day_number(y, m, d + 1) == day_number(y, m, d) + 1,
        !is_date(y, m, d + 1) && m < 12 ==> is_date(y, m + 1, 1) && day_number(y, m + 1, 1)
            == day_number(y, m, d) + 1,
        !is_date(y, m, d + 1) && m == 12 ==> is_date(y + 1, 1, 1) && day_number(y + 1, 1, 1)
            == day_number(y, m, d) + 1,
{
    lemma_month_table(y);
    lemma_month_table(y + 1);
    lemma_month_table(1970);
    lemma_leap_step(y);
}

/// How long the months are.
pub proof fn lemma_how_long_months_are(y: int, m: int)
    requires
        1 <= m <= 12,
    ensures
        m == 1 || m == 3 || m == 5 || m == 7 || m == 8 || m == 10 || m == 12 ==> days_in_month(y, m)
            == 31,
        m == 4 || m == 6 || m == 9 || m == 11 ==> days_in_month(y, m) == 30,
        m == 2 && y % 400 == 0 ==> days_in_month(y, m) == 29,
        m == 2 && y % 400 != 0 && y % 100 == 0 ==> days_in_month(y, m) == 28,
        m == 2 && y % 100 != 0 && y % 4 == 0 ==> days_in_month(y, m) == 29,
        m == 2 && y % 4 != 0 ==> days_in_month(y, m) == 28,
{
    assert(y % 400 == 0 ==> y % 100 == 0 && y % 4 == 0);
}

/// What the digits of a text are: those of it, in their order, and nothing
/// else.
pub proof fn lemma_the_digits_of_a_text(a: Seq<char>, c: char)
    ensures
        '0' <= c <= '9' ==> digits_of(a.push(c)) == digits_of(a).push(c),
        !('0' <= c <= '9') ==> digits_of(a.push(c)) == digits_of(a),
        digits_of(Seq::<char>::empty()).len() == 0,
{
    assert(a.push(c).drop_last() =~= a);
}

}
