//! Times of day and calendar dates as NMEA sentences give them, checked by
//! chrono, and the exact value of fractional seconds.
use chrono::{Datelike, Timelike};
use vstd::prelude::*;

use crate::number::{all_digits, digits_value, is_digit, is_exponent_text, is_minus, is_plus};
use crate::error::{decimal_text, digit_char};
use crate::text::{find2_from, find_byte2_from, lemma_find2_from};

verus! {

/// A time of day in UTC. `nano` may reach into a second second when
/// `second` is 59, which is how chrono holds a leap second.
#[derive(Debug, Clone, Copy, PartialEq, Eq, Structural)]
pub struct UtcTime {
    pub hour: u32,
    pub minute: u32,
    pub second: u32,
    pub nano: u32,
}

/// A calendar date.
#[derive(Debug, Clone, Copy, PartialEq, Eq, Structural)]
pub struct Date {
    pub year: i32,
    pub month: u32,
    pub day: u32,
}

/// A date and a time of day in UTC.
#[derive(Debug, Clone, Copy, PartialEq, Eq, Structural)]
pub struct UtcDateTime {
    pub date: Date,
    pub time: UtcTime,
}

impl UtcTime {
    /// The time is one that chrono accepts.
    pub open spec fn valid(self) -> bool {
        time_valid(self.hour as nat, self.minute as nat, self.second as nat, self.nano as nat)
    }
}

impl Date {
    /// The date is one that chrono accepts.
    pub open spec fn valid(self) -> bool {
        date_valid(self.year as int, self.month as nat, self.day as nat)
    }
}

impl UtcDateTime {
    /// The date and the time are both ones that chrono accepts.
    pub open spec fn valid(self) -> bool {
        self.date.valid() && self.time.valid()
    }
}

/// The times that `chrono::NaiveTime::from_hms_nano_opt` accepts.
pub open spec fn time_valid(hour: nat, min: nat, sec: nat, nano: nat) -> bool {
    &&& hour < 24
    &&& min < 60
    &&& sec < 60
    &&& !(nano >= 1_000_000_000 && sec != 59)
    &&& nano < 2_000_000_000
}

/// Gregorian leap years, counted back past year 0 as chrono counts them.
pub open spec fn is_leap_year(year: int) -> bool {
    (year % 4 == 0 && year % 100 != 0) || year % 400 == 0
}

pub open spec fn days_in_month(year: int, month: nat) -> nat {
    if month == 2 {
        if is_leap_year(year) {
            29
        } else {
            28
        }
    } else if month == 4 || month == 6 || month == 9 || month == 11 {
        30
    } else {
        31
    }
}

/// The years chrono's `NaiveDate` can hold.
pub open spec fn min_year() -> int {
    -262143
}

pub open spec fn max_year() -> int {
    262142
}

/// The dates that `chrono::NaiveDate::from_ymd_opt` accepts.
pub open spec fn date_valid(year: int, month: nat, day: nat) -> bool {
    &&& min_year() <= year <= max_year()
    &&& 1 <= month <= 12
    &&& 1 <= day <= days_in_month(year, month)
}

#[verifier::external_type_specification]
#[verifier::external_body]
pub struct ExNaiveTime(chrono::NaiveTime);

#[verifier::external_type_specification]
#[verifier::external_body]
pub struct ExNaiveDate(chrono::NaiveDate);

/// Calls `chrono::NaiveTime::from_hms_nano_opt`, which gives a time exactly
/// when the hour, minute and second are in range and the nanosecond is under
/// one second, or under two seconds when the second is 59 (a leap second).
#[verifier::external_body]
fn naive_time_from_hms_nano(
    hour: u32,
    min: u32,
    sec: u32,
    nano: u32,
) -> (r: Option<chrono::NaiveTime>)
    ensures
        r is Some <==> time_valid(hour as nat, min as nat, sec as nat, nano as nat),
{
    chrono::NaiveTime::from_hms_nano_opt(hour, min, sec, nano)
}

/// Calls `chrono::NaiveDate::from_ymd_opt`, which gives a date exactly when
/// the year is within chrono's range, the month is 1 to 12 and the day exists
/// in that month (February has 29 days in Gregorian leap years).
#[verifier::external_body]
fn naive_date_from_ymd(year: i32, month: u32, day: u32) -> (r: Option<chrono::NaiveDate>)
    ensures
        r is Some <==> date_valid(year as int, month as nat, day as nat),
{
    chrono::NaiveDate::from_ymd_opt(year, month, day)
}

/// Calls `chrono::Utc::now`, read as its date and its time of day: the
/// current UTC date and time from the system clock. Every value chrono holds
/// is a valid date and time; nothing more is stated, since it depends on the
/// clock. (`Utc::now` panics when the system clock is set before 1970.)
#[verifier::external_body]
pub(crate) fn utc_now() -> (r: UtcDateTime)
    ensures
        r.valid(),
{
    let now = chrono::Utc::now();
    let (d, t) = (now.date_naive(), now.time());
    UtcDateTime {
        date: Date { year: d.year(), month: d.month(), day: d.day() },
        time: UtcTime { hour: t.hour(), minute: t.minute(), second: t.second(), nano: t.nanosecond() },
    }
}

/// `n` in decimal with exactly `w` digits, zeros in front.
pub open spec fn padded(n: nat, w: nat) -> Seq<char>
    decreases w,
{
    if w == 0 {
        Seq::empty()
    } else {
        padded(n / 10, (w - 1) as nat).push(digit_char(n % 10))
    }
}

/// How chrono writes a time of day: `HH:MM:SS`, a leap second as second 60,
/// then, when the nanoseconds are not zero, a `.` and three, six or nine
/// digits, the fewest that show them exactly.
pub open spec fn time_text(hour: nat, min: nat, sec: nat, nano: nat) -> Seq<char> {
    let (s, n) = if nano >= 1_000_000_000 {
        (sec + 1, (nano - 1_000_000_000) as nat)
    } else {
        (sec, nano)
    };
    let frac = if n == 0 {
        Seq::empty()
    } else if n % 1_000_000 == 0 {
        seq!['.'] + padded(n / 1_000_000, 3)
    } else if n % 1_000 == 0 {
        seq!['.'] + padded(n / 1_000, 6)
    } else {
        seq!['.'] + padded(n, 9)
    };
    padded(hour, 2) + seq![':'] + padded(min, 2) + seq![':'] + padded(s, 2) + frac
}

/// How chrono writes a date: `YYYY-MM-DD`; a year outside 0 to 9999 with its
/// sign and at least four digits.
pub open spec fn date_text(year: int, month: nat, day: nat) -> Seq<char> {
    let y = if 0 <= year <= 9999 {
        padded(year as nat, 4)
    } else {
        let a = (if year < 0 {
            -year
        } else {
            year
        }) as nat;
        seq![
            if year < 0 {
                '-'
            } else {
                '+'
            },
        ] + (if a < 1000 {
            padded(a, 4)
        } else {
            decimal_text(a)
        })
    };
    y + seq!['-'] + padded(month, 2) + seq!['-'] + padded(day, 2)
}

/// Writes the time with these parts, which chrono accepts, with chrono's
/// `Display` for `NaiveTime`; the text is [`time_text`], as chrono's source
/// writes it.
#[verifier::external_body]
fn naive_time_text(hour: u32, min: u32, sec: u32, nano: u32) -> (r: String)
    requires
        time_valid(hour as nat, min as nat, sec as nat, nano as nat),
    ensures
        r@ == time_text(hour as nat, min as nat, sec as nat, nano as nat),
{
    chrono::NaiveTime::from_hms_nano_opt(hour, min, sec, nano).unwrap().to_string()
}

/// Writes the date with these parts, which chrono accepts, with chrono's
/// `Display` for `NaiveDate`; the text is [`date_text`], as chrono's source
/// writes it.
#[verifier::external_body]
fn naive_date_text(year: i32, month: u32, day: u32) -> (r: String)
    requires
        date_valid(year as int, month as nat, day as nat),
    ensures
        r@ == date_text(year as int, month as nat, day as nat),
{
    chrono::NaiveDate::from_ymd_opt(year, month, day).unwrap().to_string()
}

/// Writes the date and time, which chrono accepts, with chrono's `Display`
/// for `DateTime<Utc>`: the date, a space, the time, and ` UTC`, as chrono's
/// source writes it.
#[verifier::external_body]
fn datetime_text(date: Date, time: UtcTime) -> (r: String)
    requires
        date.valid(),
        time.valid(),
    ensures
        r@ == date_text(date.year as int, date.month as nat, date.day as nat) + seq![' ']
            + time_text(time.hour as nat, time.minute as nat, time.second as nat, time.nano as nat)
            + seq![' ', 'U', 'T', 'C'],
{
    chrono::NaiveDate::from_ymd_opt(date.year, date.month, date.day).unwrap().and_time(
        chrono::NaiveTime::from_hms_nano_opt(time.hour, time.minute, time.second, time.nano).unwrap(),
    ).and_utc().to_string()
}

impl UtcDateTime {
    /// The date and time as chrono writes a `DateTime<Utc>`.
    pub fn to_string(&self) -> (r: String)
        requires
            self.valid(),
        ensures
            r@ == date_text(self.date.year as int, self.date.month as nat, self.date.day as nat)
                + seq![' '] + time_text(
                self.time.hour as nat,
                self.time.minute as nat,
                self.time.second as nat,
                self.time.nano as nat,
            ) + seq![' ', 'U', 'T', 'C'],
    {
        datetime_text(self.date, self.time)
    }

    /// The time of day `time` on the current UTC date, read from the clock.
    pub fn today_at(time: UtcTime) -> (r: Self)
        ensures
            r.time == time,
            r.date.valid(),
    {
        UtcDateTime { date: utc_now().date, time }
    }
}

impl UtcTime {
    /// The time as chrono writes it.
    pub fn to_string(&self) -> (r: String)
        requires
            time_valid(self.hour as nat, self.minute as nat, self.second as nat, self.nano as nat),
        ensures
            r@ == time_text(self.hour as nat, self.minute as nat, self.second as nat, self.nano as nat),
    {
        naive_time_text(self.hour, self.minute, self.second, self.nano)
    }

    /// The time with these parts, when chrono accepts it.
    pub fn from_hms_nano(hour: u32, minute: u32, second: u32, nano: u32) -> (r: Option<Self>)
        ensures
            r == (if time_valid(hour as nat, minute as nat, second as nat, nano as nat) {
                Some(UtcTime { hour, minute, second, nano })
            } else {
                None
            }),
    {
        if naive_time_from_hms_nano(hour, minute, second, nano).is_some() {
            Some(UtcTime { hour, minute, second, nano })
        } else {
            None
        }
    }
}

impl Date {
    /// The date as chrono writes it.
    pub fn to_string(&self) -> (r: String)
        requires
            date_valid(self.year as int, self.month as nat, self.day as nat),
        ensures
            r@ == date_text(self.year as int, self.month as nat, self.day as nat),
    {
        naive_date_text(self.year, self.month, self.day)
    }

    /// The date with these parts, when chrono accepts it.
    pub fn from_ymd(year: i32, month: u32, day: u32) -> (r: Option<Self>)
        ensures
            r == (if date_valid(year as int, month as nat, day as nat) {
                Some(Date { year, month, day })
            } else {
                None
            }),
    {
        if naive_date_from_ymd(year, month, day).is_some() {
            Some(Date { year, month, day })
        } else {
            None
        }
    }
}

pub open spec fn pow10(n: nat) -> nat
    decreases n,
{
    if n == 0 {
        1
    } else {
        10 * pow10((n - 1) as nat)
    }
}

/// `d * 10^k`, rounded half away from zero to a whole number.
pub open spec fn round_scaled(d: nat, k: int) -> nat {
    if k >= 0 {
        d * pow10(k as nat)
    } else {
        let p = pow10((-k) as nat);
        d / p + (if 2 * (d % p) >= p {
            1nat
        } else {
            0nat
        })
    }
}

/// The fractional part of an NMEA time, `f` being the text after the dot,
/// makes `"0." + f` a floating-point literal: digits, then an optional
/// exponent.
pub open spec fn is_fraction_text(f: Seq<u8>) -> bool {
    match find2_from(f, 101, 69, 0) {
        None => all_digits(f),
        Some(e) => all_digits(f.take(e)) && is_exponent_text(f.skip(e + 1)),
    }
}

/// The value of an exponent's text (sign and digits).
pub open spec fn exponent_value(x: Seq<u8>) -> int {
    if x.len() > 0 && is_minus(x[0]) {
        -(digits_value(x.skip(1)) as int)
    } else if x.len() > 0 && is_plus(x[0]) {
        digits_value(x.skip(1)) as int
    } else {
        digits_value(x) as int
    }
}

pub open spec fn u32_max() -> nat {
    4294967295
}

/// Nanoseconds of the fraction `f` of a second: the value of `"0." + f` times
/// one billion, rounded half away from zero and held at `u32::MAX` when
/// larger; zero when `"0." + f` is not a number. The value is computed
/// exactly, not in binary floating point.
pub open spec fn frac_nanos(f: Seq<u8>) -> nat {
    if !is_fraction_text(f) {
        0
    } else {
        let (dig, e) = match find2_from(f, 101, 69, 0) {
            None => (f, 0int),
            Some(i) => (f.take(i), exponent_value(f.skip(i + 1))),
        };
        let r = round_scaled(digits_value(dig), 9 + e - dig.len());
        if r > u32_max() {
            u32_max()
        } else {
            r
        }
    }
}

/// A fraction of at most nine digits gives its digits scaled to nine
/// places, exactly: `.5` is 500000000 nanoseconds and `.123` is 123000000.
pub proof fn law_short_fraction(f: Seq<u8>)
    requires
        all_digits(f),
        f.len() <= 9,
    ensures
        frac_nanos(f) == digits_value(f) * pow10((9 - f.len()) as nat),
{
    lemma_find2_from(f, 101, 69, 0);
    if let Some(i) = find2_from(f, 101, 69, 0) {
        assert(is_digit(f[i]));
    }
    assert(is_fraction_text(f));
    let k = (9 - f.len()) as nat;
    lemma_digits_bound(f);
    lemma_pow10_add(f.len(), k);
    lemma_pow10_values();
    let d = digits_value(f);
    let p = pow10(f.len());
    let q = pow10(k);
    lemma_pow10_pos(k);
    assert(d * q < p * q) by (nonlinear_arith)
        requires
            d < p,
            q >= 1,
    ;
}

pub proof fn lemma_pow10_values()
    ensures
        pow10(9) == 1_000_000_000,
        pow10(10) == 10_000_000_000,
{
    reveal_with_fuel(pow10, 11);
}

pub proof fn lemma_pow10_pos(n: nat)
    ensures
        pow10(n) >= 1,
    decreases n,
{
    if n > 0 {
        lemma_pow10_pos((n - 1) as nat);
    }
}

pub proof fn lemma_pow10_add(a: nat, b: nat)
    ensures
        pow10(a + b) == pow10(a) * pow10(b),
    decreases a,
{
    if a > 0 {
        let a1 = (a - 1) as nat;
        lemma_pow10_add(a1, b);
        assert(pow10(a) == 10 * pow10(a1));
        assert(pow10(a + b) == 10 * pow10(a1 + b));
        let x = pow10(a1);
        let y = pow10(b);
        let z = pow10(a + b);
        let w = pow10(a);
        assert(z == w * y) by (nonlinear_arith)
            requires
                z == 10 * (x * y),
                w == 10 * x,
        ;
    } else {
        assert(pow10(a) == 1);
        let y = pow10(b);
        assert(y == 1 * y);
    }
}

pub proof fn lemma_pow10_mono(a: nat, b: nat)
    requires
        a <= b,
    ensures
        pow10(a) <= pow10(b),
{
    lemma_pow10_add(a, (b - a) as nat);
    lemma_pow10_pos((b - a) as nat);
    lemma_pow10_pos(a);
    let x = pow10(a);
    let y = pow10((b - a) as nat);
    assert(x <= x * y) by (nonlinear_arith)
        requires
            y >= 1,
            x >= 0,
    ;
}

/// Joining digit strings multiplies the first one's value by a power of ten.
pub proof fn lemma_digits_concat(a: Seq<u8>, b: Seq<u8>)
    ensures
        digits_value(a + b) == digits_value(a) * pow10(b.len()) + digits_value(b),
    decreases b.len(),
{
    if b.len() == 0 {
        assert(a + b =~= a);
        assert(pow10(0) == 1);
        let x = digits_value(a);
        assert(x * 1 == x);
    } else {
        let b1 = b.drop_last();
        assert((a + b).drop_last() =~= a + b1);
        assert((a + b).last() == b.last());
        lemma_digits_concat(a, b1);
        let x = digits_value(a);
        let p = pow10(b1.len());
        let y = digits_value(b1);
        let d = (b.last() - 48) as nat;
        assert(digits_value(a + b) == digits_value(a + b1) * 10 + d);
        assert(digits_value(b) == y * 10 + d);
        assert(pow10(b.len()) == 10 * p);
        let lhs = digits_value(a + b);
        let pb = pow10(b.len());
        let vb = digits_value(b);
        assert(lhs == x * pb + vb) by (nonlinear_arith)
            requires
                lhs == (x * p + y) * 10 + d,
                pb == 10 * p,
                vb == y * 10 + d,
        ;
    }
}

pub proof fn lemma_digits_bound(s: Seq<u8>)
    requires
        all_digits(s),
    ensures
        digits_value(s) < pow10(s.len()),
    decreases s.len(),
{
    if s.len() > 0 {
        assert(is_digit(s[s.len() - 1]));
        lemma_digits_bound(s.drop_last());
    }
}

/// A digit string that does not start with `0` is at least `10^(len-1)`.
pub proof fn lemma_digits_lower(s: Seq<u8>)
    requires
        all_digits(s),
        s.len() > 0,
        s[0] != 48,
    ensures
        digits_value(s) >= pow10((s.len() - 1) as nat),
{
    let h = s.take(1);
    let t = s.skip(1);
    assert(h + t =~= s);
    lemma_digits_concat(h, t);
    assert(h.drop_last() =~= Seq::<u8>::empty());
    assert(is_digit(s[0]));
    assert(h.last() == s[0]);
    assert(digits_value(Seq::<u8>::empty()) == 0);
    assert(digits_value(h) >= 1);
    lemma_pow10_pos(t.len());
    let x = digits_value(h);
    let p = pow10(t.len());
    assert(x * p >= p) by (nonlinear_arith)
        requires
            x >= 1,
            p >= 1,
    ;
}

pub proof fn lemma_zeros_value(s: Seq<u8>)
    requires
        forall|i: int| 0 <= i < s.len() ==> s[i] == 48,
    ensures
        digits_value(s) == 0,
    decreases s.len(),
{
    if s.len() > 0 {
        lemma_zeros_value(s.drop_last());
    }
}

/// Rounding away the digits `b` rounds up exactly when the first of them is 5
/// or more.
pub proof fn lemma_round_digit(b: Seq<u8>)
    requires
        all_digits(b),
        b.len() > 0,
    ensures
        (2 * digits_value(b) >= pow10(b.len())) <==> b[0] >= 53,
{
    let h = b.take(1);
    let t = b.skip(1);
    assert(h + t =~= b);
    lemma_digits_concat(h, t);
    assert(h.drop_last() =~= Seq::<u8>::empty());
    assert(is_digit(b[0]));
    assert(h.last() == b[0]);
    assert(digits_value(Seq::<u8>::empty()) == 0);
    let d = digits_value(h);
    assert(d == (b[0] - 48) as nat);
    lemma_digits_bound(t);
    let p = pow10(t.len());
    let y = digits_value(t);
    assert(pow10(b.len()) == 10 * p);
    if b[0] >= 53 {
        assert(2 * (d * p + y) >= 10 * p) by (nonlinear_arith)
            requires
                d >= 5,
                y >= 0,
                p >= 0,
        ;
    } else {
        assert(2 * (d * p + y) < 10 * p) by (nonlinear_arith)
            requires
                d <= 4,
                y < p,
                0 <= y,
        ;
    }
}

/// The capped exponent the computation works with.
pub open spec fn exponent_cap() -> int {
    100_000_000_000_000_000_000
}

pub open spec fn clamp_exponent(e: int) -> int {
    if e > exponent_cap() {
        exponent_cap()
    } else if e < -exponent_cap() {
        -exponent_cap()
    } else {
        e
    }
}

/// Reads the digits of `s` from `a` to its end, holding the value at
/// `exponent_cap()` when larger.
fn capped_digits(s: &[u8], a: usize) -> (r: u128)
    requires
        a <= s@.len(),
        all_digits(s@.skip(a as int)),
    ensures
        r == (if digits_value(s@.skip(a as int)) > exponent_cap() {
            exponent_cap()
        } else {
            digits_value(s@.skip(a as int)) as int
        }),
{
    let cap: u128 = 100_000_000_000_000_000_000;
    let mut v: u128 = 0;
    let mut i = a;
    while i < s.len()
        invariant
            a <= i <= s@.len(),
            all_digits(s@.skip(a as int)),
            cap == exponent_cap(),
            v == (if digits_value(s@.subrange(a as int, i as int)) > exponent_cap() {
                exponent_cap()
            } else {
                digits_value(s@.subrange(a as int, i as int)) as int
            }),
        decreases s.len() - i,
    {
        let ghost sub = s@.subrange(a as int, i + 1);
        assert(sub.drop_last() =~= s@.subrange(a as int, i as int));
        assert(is_digit(s@.skip(a as int)[i - a]));
        let d = (s[i] - 48) as u128;
        if v >= cap {
            v = cap;
        } else {
            let nv = v * 10 + d;
            v = if nv > cap {
                cap
            } else {
                nv
            };
        }
        i = i + 1;
    }
    assert(s@.subrange(a as int, i as int) =~= s@.skip(a as int));
    v
}

/// The exponent's value, capped at `exponent_cap()` either way.
fn capped_exponent(x: &[u8]) -> (r: i128)
    requires
        is_exponent_text(x@),
    ensures
        r == clamp_exponent(exponent_value(x@)),
{
    if x[0] == 45 {
        let m = capped_digits(x, 1);
        0 - (m as i128)
    } else if x[0] == 43 {
        let m = capped_digits(x, 1);
        m as i128
    } else {
        assert(x@.skip(0) =~= x@);
        let m = capped_digits(x, 0);
        m as i128
    }
}

/// The value of the digits `s[a..b]`, ten digits at most.
fn small_digits(s: &[u8], a: usize, b: usize) -> (r: u64)
    requires
        a <= b <= s@.len(),
        b - a <= 10,
        all_digits(s@.subrange(a as int, b as int)),
    ensures
        r == digits_value(s@.subrange(a as int, b as int)),
        r < pow10((b - a) as nat),
{
    let mut v: u64 = 0;
    let mut i = a;
    while i < b
        invariant
            a <= i <= b <= s@.len(),
            b - a <= 10,
            all_digits(s@.subrange(a as int, b as int)),
            v == digits_value(s@.subrange(a as int, i as int)),
            v < pow10((i - a) as nat),
        decreases b - i,
    {
        let ghost sub = s@.subrange(a as int, i + 1);
        assert(sub.drop_last() =~= s@.subrange(a as int, i as int));
        assert(is_digit(s@.subrange(a as int, b as int)[i - a]));
        proof {
            lemma_pow10_mono((i - a) as nat, 9);
            lemma_pow10_values();
        }
        let d = (s[i] - 48) as u64;
        v = v * 10 + d;
        i = i + 1;
    }
    v
}

/// A value of `m` significant digits scaled so that it has eleven or more
/// digits before the point exceeds `u32::MAX`.
proof fn lemma_round_big(d: nat, m: nat, k: int)
    requires
        m >= 1,
        d >= pow10((m - 1) as nat),
        m + k >= 11,
    ensures
        round_scaled(d, k) >= 10_000_000_000,
{
    lemma_pow10_values();
    if k >= 0 {
        lemma_pow10_add((m - 1) as nat, k as nat);
        lemma_pow10_mono(10, (m - 1 + k) as nat);
        let a = pow10((m - 1) as nat);
        let b = pow10(k as nat);
        assert(d * b >= a * b) by (nonlinear_arith)
            requires
                d >= a,
                b >= 0,
        ;
    } else {
        let j = (-k) as nat;
        let c = (m + k - 1) as nat;
        lemma_pow10_add(c, j);
        assert((m - 1) as nat == c + j);
        lemma_pow10_pos(j);
        lemma_pow10_mono(10, c);
        let p = pow10(j);
        let q = pow10(c);
        assert(d / p >= q) by (nonlinear_arith)
            requires
                d >= q * p,
                p >= 1,
        ;
    }
}

/// A value below `10^m` scaled so that it lies below 0.1 rounds to zero.
proof fn lemma_round_small(d: nat, m: nat, k: int)
    requires
        d < pow10(m),
        m + k <= -1,
    ensures
        round_scaled(d, k) == 0,
{
    let j = (-k) as nat;
    lemma_pow10_mono((m + 1) as nat, j);
    assert(pow10((m + 1) as nat) == 10 * pow10(m));
    let p = pow10(j);
    assert(d / p == 0 && d % p == d) by (nonlinear_arith)
        requires
            0 <= d < p,
    ;
}

/// Dropping the digits `b` from `a + b` and rounding on the first of them.
proof fn lemma_round_split(a: Seq<u8>, b: Seq<u8>)
    requires
        all_digits(b),
        b.len() > 0,
    ensures
        round_scaled(digits_value(a + b), -(b.len() as int)) == digits_value(a) + (if b[0]
            >= 53 {
            1nat
        } else {
            0nat
        }),
{
    lemma_digits_concat(a, b);
    lemma_digits_bound(b);
    lemma_round_digit(b);
    let p = pow10(b.len());
    let x = digits_value(a);
    let y = digits_value(b);
    assert((x * p + y) / p == x && (x * p + y) % p == y) by (nonlinear_arith)
        requires
            0 <= y < p,
            x >= 0,
    ;
}

/// `round_scaled(digits_value(dig), 9 + e - dig.len())`, held at `u32::MAX`,
/// where the caller knows `e` only as capped.
fn scaled_nanos(dig: &[u8], ec: i128, Ghost(e): Ghost<int>) -> (r: u32)
    requires
        all_digits(dig@),
        ec == clamp_exponent(e),
    ensures
        r == (if round_scaled(digits_value(dig@), 9 + e - dig@.len()) > u32_max() {
            u32_max()
        } else {
            round_scaled(digits_value(dig@), 9 + e - dig@.len())
        }),
{
    let n = dig.len();
    let ghost d = digits_value(dig@);
    let ghost k = 9 + e - n;
    let mut z: usize = 0;
    while z < n && dig[z] == 48
        invariant
            z <= n == dig@.len(),
            forall|j: int| 0 <= j < z ==> dig@[j] == 48,
        decreases n - z,
    {
        z = z + 1;
    }
    let ghost zeros = dig@.take(z as int);
    let ghost sig = dig@.skip(z as int);
    proof {
        assert(zeros + sig =~= dig@);
        lemma_digits_concat(zeros, sig);
        assert forall|i: int| 0 <= i < zeros.len() implies zeros[i] == 48 by {
            assert(zeros[i] == dig@[i]);
        }
        lemma_zeros_value(zeros);
        let pz = pow10(sig.len());
        assert(0 * pz == 0) by (nonlinear_arith);
        assert(d == digits_value(sig));
        assert(all_digits(sig)) by {
            assert forall|i: int| 0 <= i < sig.len() implies is_digit(#[trigger] sig[i]) by {
                assert(sig[i] == dig@[z + i]);
            }
        }
        lemma_digits_bound(sig);
    }
    if z == n {
        // only zeros: the value is zero
        proof {
            assert(sig.len() == 0);
            assert(d == 0);
            if k < 0 {
                let p = pow10((-k) as nat);
                lemma_pow10_pos((-k) as nat);
                assert(0nat / p == 0 && 0nat % p == 0) by (nonlinear_arith)
                    requires
                        p >= 1,
                ;
            } else {
                let p = pow10(k as nat);
                assert(0 * p == 0) by (nonlinear_arith);
            }
        }
        return 0;
    }
    let m = n - z;
    proof {
        assert(sig[0] == dig@[z as int]);
        lemma_digits_lower(sig);
    }
    let t: i128 = 9 + ec - (z as i128);
    let ghost tt = 9 + e - z;
    assert(tt == m + k);
    if t >= 11 {
        proof {
            assert(tt >= 11);
            lemma_round_big(d, m as nat, k);
        }
        return 4294967295;
    }
    if t <= -1 {
        proof {
            assert(tt <= -1);
            lemma_round_small(d, m as nat, k);
        }
        return 0;
    }
    let tu = t as usize;
    assert(tu == tt);
    if tu >= m {
        // k >= 0: the value is a whole number below 10^10
        let mut v: u64 = small_digits(dig, z, n);
        assert(dig@.subrange(z as int, n as int) =~= sig);
        proof {
            assert(pow10(0) == 1);
            assert(d * 1 == d);
        }
        let mut i: usize = m;
        while i < tu
            invariant
                m <= i <= tu <= 10,
                v == d * pow10((i - m) as nat),
                v < pow10(i as nat),
            decreases tu - i,
        {
            proof {
                lemma_pow10_mono(i as nat, 9);
                lemma_pow10_values();
                assert(pow10((i + 1 - m) as nat) == 10 * pow10((i - m) as nat));
                let p = pow10((i - m) as nat);
                assert(v * 10 == d * (10 * p)) by (nonlinear_arith)
                    requires
                        v == d * p,
                ;
            }
            v = v * 10;
            i = i + 1;
        }
        assert(k == tu - m);
        if v > 4294967295 {
            4294967295
        } else {
            v as u32
        }
    } else {
        // k < 0: drop the last m - t digits, rounding on the first of them
        let q = small_digits(dig, z, z + tu);
        let ghost a = sig.take(tu as int);
        let ghost b = sig.skip(tu as int);
        proof {
            assert(dig@.subrange(z as int, z + tu) =~= a);
            assert(a + b =~= sig);
            assert(all_digits(b)) by {
                assert forall|i: int| 0 <= i < b.len() implies is_digit(#[trigger] b[i]) by {
                    assert(b[i] == sig[tu + i]);
                }
            }
            assert(b.len() == -k);
            lemma_round_split(a, b);
            assert(b[0] == dig@[z + tu]);
            lemma_pow10_mono(tu as nat, 10);
            lemma_pow10_values();
        }
        let up: u64 = if dig[z + tu] >= 53 {
            1
        } else {
            0
        };
        let r = q + up;
        if r > 4294967295 {
            4294967295
        } else {
            r as u32
        }
    }
}

/// Whether `f` is the text of a fraction: digits, then an optional exponent.
pub fn is_fraction_text_exec(f: &[u8]) -> (r: bool)
    ensures
        r == is_fraction_text(f@),
{
    match find_byte2_from(f, 101, 69, 0) {
        None => crate::number::all_digits_exec(f),
        Some(i) => {
            proof {
                lemma_find2_from(f@, 101, 69, 0);
            }
            assert(i < f.len());
            let dig = vstd::slice::slice_subrange(f, 0, i);
            let x = vstd::slice::slice_subrange(f, i + 1, f.len());
            assert(dig@ =~= f@.take(i as int));
            assert(x@ =~= f@.skip(i + 1));
            crate::number::all_digits_exec(dig) && crate::number::is_exponent_exec(x)
        },
    }
}

/// Nanoseconds of the fractional second whose digits (after the dot) are `f`.
pub fn frac_nanos_exec(f: &[u8]) -> (r: u32)
    ensures
        r == frac_nanos(f@),
{
    match find_byte2_from(f, 101, 69, 0) {
        None => {
            if !crate::number::all_digits_exec(f) {
                return 0;
            }
            scaled_nanos(f, 0, Ghost(0))
        },
        Some(i) => {
            proof {
                lemma_find2_from(f@, 101, 69, 0);
                assert(find2_from(f@, 101, 69, 0) == Some(i as int));
            }
            assert(i < f.len());
            let dig = vstd::slice::slice_subrange(f, 0, i);
            let x = vstd::slice::slice_subrange(f, i + 1, f.len());
            assert(dig@ =~= f@.take(i as int));
            assert(x@ =~= f@.skip(i + 1));
            if !crate::number::all_digits_exec(dig) || !crate::number::is_exponent_exec(x) {
                return 0;
            }
            let ec = capped_exponent(x);
            let ghost e = exponent_value(x@);
            proof {
                // the digits of the fraction and of its exponent are fewer than the cap
                assert(dig@.len() <= usize::MAX);
            }
            scaled_nanos(dig, ec, Ghost(e))
        },
    }
}

} // verus!
