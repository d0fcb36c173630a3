//! Calendar arithmetic behind the `Time` class: a point in time as seconds and
//! nanoseconds since the UNIX epoch with a UTC offset, its decomposition into
//! proleptic Gregorian date and time of day, and its textual form.
use vstd::prelude::*;
use crate::fmt::{dec, zero_pad, signed_padded, append_padded, digit_char};
use crate::error::Error;
use crate::value::{RObject, RValue};
use crate::args::{strip_trailing_nil, without_trailing_nil};

verus! {

/// A time: seconds and nanoseconds since 1970-01-01 00:00:00 UTC and an
/// offset from UTC in seconds.
#[derive(Debug, Clone, Copy)]
pub struct RTimeData {
    /// Seconds since the epoch (negative before 1970).
    pub sec: i64,
    /// Nanoseconds within the second.
    pub nsec: u32,
    /// Offset from UTC in seconds (e.g. 32400 for +09:00).
    pub utc_offset: i32,
}

/// Decomposed date and time: (year, month, day, weekday, hour, minute, second).
pub type DateTimeParts = (i32, u32, u32, u32, u32, u32, u32);

/// Division rounding toward zero, as Rust's `/` on signed integers.
pub open spec fn tdiv(a: int, b: int) -> int
    recommends
        b > 0,
{
    if a >= 0 {
        a / b
    } else {
        -((-a) / b)
    }
}

/// Calendar date `(year, month, day)` of a Julian Day Number, by the
/// Fliegel–Van Flandern conversion with truncating division.
#[verifier::opaque]
pub open spec fn civil_from_jdn(jdn: int) -> (int, int, int) {
    let l0 = jdn + 68569;
    let n = tdiv(4 * l0, 146097);
    let l1 = l0 - tdiv(146097 * n + 3, 4);
    let i = tdiv(4000 * (l1 + 1), 1461001);
    let l2 = l1 - tdiv(1461 * i, 4) + 31;
    let j = tdiv(80 * l2, 2447);
    let day = l2 - tdiv(2447 * j, 80);
    let l3 = tdiv(j, 11);
    let month = j + 2 - 12 * l3;
    let year = 100 * (n - 49) + i + l3;
    (year, month, day)
}

/// Julian Day Number of 1970-01-01.
pub open spec fn epoch_jdn() -> int {
    2440588
}

/// The decomposition of a local time (seconds since the epoch, already
/// shifted by the UTC offset).
pub open spec fn spec_parts(local: int) -> DateTimeParts {
    let sec_in_day = local % 86400;
    let days = local / 86400;
    let jdn = days + epoch_jdn();
    let (year, month, day) = civil_from_jdn(jdn);
    (
        year as i32,
        month as u32,
        day as u32,
        ((jdn + 1) % 7) as u32,
        (sec_in_day / 3600) as u32,
        ((sec_in_day % 3600) / 60) as u32,
        (sec_in_day % 60) as u32,
    )
}

/// Division toward zero of `a` by a positive `b`.
fn tdiv_i64(a: i64, b: i64) -> (r: i64)
    requires
        b > 0,
        a > i64::MIN,
    ensures
        r == tdiv(a as int, b as int),
        a >= 0 ==> 0 <= r <= a,
        a < 0 ==> a <= r <= 0,
{
    if a >= 0 {
        proof {
            vstd::arithmetic::div_mod::lemma_div_is_ordered_by_denominator(a as int, 1, b as int);
        }
        a / b
    } else {
        let na = -a;
        proof {
            vstd::arithmetic::div_mod::lemma_div_is_ordered_by_denominator(na as int, 1, b as int);
        }
        -(na / b)
    }
}

/// Euclidean quotient and remainder of `a` by a positive `b`.
fn div_rem_euclid(a: i64, b: i64) -> (r: (i64, i64))
    requires
        b > 0,
    ensures
        r.0 == (a as int) / (b as int),
        r.1 == (a as int) % (b as int),
{
    if a >= 0 {
        (a / b, a % b)
    } else {
        let m = -(a + 1);
        let q0 = m / b;
        let r0 = m % b;
        proof {
            vstd::arithmetic::div_mod::lemma_fundamental_div_mod(m as int, b as int);
            vstd::arithmetic::div_mod::lemma_div_is_ordered_by_denominator(m as int, 1, b as int);
            let q = -q0 - 1;
            let r = b - 1 - r0;
            assert(a == q * b + r) by (nonlinear_arith)
                requires
                    m == b * q0 + r0,
                    m == -(a + 1),
                    q == -q0 - 1,
                    r == b - 1 - r0,
            ;
            assert(0 <= r < b);
            vstd::arithmetic::div_mod::lemma_fundamental_div_mod_converse(a as int, b as int, q, r);
        }
        (-q0 - 1, b - 1 - r0)
    }
}

impl RTimeData {
    /// A time of `sec` seconds and `nsec` nanoseconds since the epoch, at
    /// `utc_offset` seconds from UTC.
    pub fn new(sec: i64, nsec: u32, utc_offset: i32) -> (r: Self)
        ensures
            r.sec == sec,
            r.nsec == nsec,
            r.utc_offset == utc_offset,
    {
        RTimeData { sec, nsec, utc_offset }
    }

    /// Seconds since the epoch shifted by the UTC offset.
    pub open spec fn spec_local_sec(&self) -> int {
        self.sec + self.utc_offset
    }

    /// Whether the shifted seconds fit in an `i64`.
    pub open spec fn local_in_range(&self) -> bool {
        i64::MIN <= self.spec_local_sec() <= i64::MAX
    }

    /// Seconds since the epoch shifted by the UTC offset.
    pub fn local_sec(&self) -> (r: i64)
        requires
            self.local_in_range(),
        ensures
            r == self.spec_local_sec(),
    {
        self.sec + self.utc_offset as i64
    }

    /// Decomposes the local time into (year, month, day, weekday, hour,
    /// minute, second) in the proleptic Gregorian calendar; weekday 0 is
    /// Sunday.
    pub fn to_datetime_parts(&self) -> (r: DateTimeParts)
        requires
            self.local_in_range(),
        ensures
            r == spec_parts(self.spec_local_sec()),
    {
        reveal(civil_from_jdn);
        let local = self.local_sec();
        let (days_from_epoch, sec_rem) = div_rem_euclid(local, 86400);
        let sec_in_day = sec_rem as u32;
        let hour = sec_in_day / 3600;
        let min = (sec_in_day % 3600) / 60;
        let sec = sec_in_day % 60;
        proof {
            assert(-106751991167301 <= days_from_epoch <= 106751991167300) by (nonlinear_arith)
                requires
                    days_from_epoch == (local as int) / 86400,
                    i64::MIN <= local <= i64::MAX,
            ;
        }
        let jdn = days_from_epoch + 2440588;
        let l0 = jdn + 68569;
        let n = tdiv_i64(4 * l0, 146097);
        let l1 = l0 - tdiv_i64(146097 * n + 3, 4);
        let i = tdiv_i64(4000 * (l1 + 1), 1461001);
        let l2 = l1 - tdiv_i64(1461 * i, 4) + 31;
        let j = tdiv_i64(80 * l2, 2447);
        let day = l2 - tdiv_i64(2447 * j, 80);
        let l3 = tdiv_i64(j, 11);
        let month = j + 2 - 12 * l3;
        let year = 100 * (n - 49) + i + l3;
        let (_, wrem) = div_rem_euclid(jdn + 1, 7);
        let wday = wrem as u32;
        (year as i32, month as u32, day as u32, wday, hour, min, sec)
    }
}


// ---------------------------------------------------------------------------
// Decimal formatting
// ---------------------------------------------------------------------------

/// The date part `YYYY-MM-DD`.
pub open spec fn date_str(year: int, month: nat, day: nat) -> Seq<char> {
    signed_padded(year, 4) + seq!['-'] + zero_pad(dec(month), 2) + seq!['-'] + zero_pad(dec(day), 2)
}

/// The clock part `hh:mm:ss`.
pub open spec fn clock_str(hour: nat, min: nat, sec: nat) -> Seq<char> {
    zero_pad(dec(hour), 2) + seq![':'] + zero_pad(dec(min), 2) + seq![':'] + zero_pad(dec(sec), 2)
}

/// The offset part `+hhmm` or `-hhmm`.
pub open spec fn offset_str(utc_offset: int) -> Seq<char> {
    let abs_offset: int = if utc_offset >= 0 {
        utc_offset
    } else {
        -utc_offset
    };
    seq![if utc_offset >= 0 { '+' } else { '-' }] + zero_pad(dec((abs_offset / 3600) as nat), 2)
        + zero_pad(dec(((abs_offset % 3600) / 60) as nat), 2)
}

/// The string form `YYYY-MM-DD hh:mm:ss +hhmm` of a time.
pub open spec fn spec_time_string(t: RTimeData) -> Seq<char> {
    let (year, month, day, _wday, hour, min, sec) = spec_parts(t.spec_local_sec());
    date_str(year as int, month as nat, day as nat) + seq![' '] + clock_str(
        hour as nat,
        min as nat,
        sec as nat,
    ) + seq![' '] + offset_str(t.utc_offset as int)
}

/// Formats `YYYY-MM-DD`.
fn date_string(year: i32, month: u32, day: u32) -> (r: String)
    ensures
        r@ == date_str(year as int, month as nat, day as nat),
{
    proof {
        reveal_strlit("-");
    }
    let mut out = String::new();
    if year < 0 {
        out.append("-");
        append_padded(&mut out, (-(year as i64)) as u64, 3);
    } else {
        append_padded(&mut out, year as u64, 4);
    }
    proof {
        assert(out@ =~= signed_padded(year as int, 4));
    }
    out.append("-");
    append_padded(&mut out, month as u64, 2);
    out.append("-");
    append_padded(&mut out, day as u64, 2);
    out
}

/// Formats `hh:mm:ss`.
fn clock_string(hour: u32, min: u32, sec: u32) -> (r: String)
    ensures
        r@ == clock_str(hour as nat, min as nat, sec as nat),
{
    proof {
        reveal_strlit(":");
    }
    let mut out = String::new();
    append_padded(&mut out, hour as u64, 2);
    out.append(":");
    append_padded(&mut out, min as u64, 2);
    out.append(":");
    append_padded(&mut out, sec as u64, 2);
    assert(out@ =~= clock_str(hour as nat, min as nat, sec as nat));
    out
}

/// Formats the UTC offset as `+hhmm` or `-hhmm`.
fn offset_string(utc_offset: i32) -> (r: String)
    ensures
        r@ == offset_str(utc_offset as int),
{
    proof {
        reveal_strlit("-");
        reveal_strlit("+");
    }
    let mut out = String::new();
    if utc_offset >= 0 {
        out.append("+");
    } else {
        out.append("-");
    }
    let abs_offset: u32 = if utc_offset >= 0 {
        utc_offset as u32
    } else {
        (-(utc_offset as i64)) as u32
    };
    let offset_h = abs_offset / 3600;
    let offset_m = (abs_offset % 3600) / 60;
    append_padded(&mut out, offset_h as u64, 2);
    append_padded(&mut out, offset_m as u64, 2);
    assert(out@ =~= offset_str(utc_offset as int));
    out
}

impl RTimeData {
    /// The time as `YYYY-MM-DD hh:mm:ss +hhmm` in its own offset.
    pub fn to_s(&self) -> (r: String)
        requires
            self.local_in_range(),
        ensures
            r@ == spec_time_string(*self),
    {
        let (year, month, day, _wday, hour, min, sec) = self.to_datetime_parts();
        proof {
            reveal_strlit(" ");
        }
        let mut out = date_string(year, month, day);
        out.append(" ");
        let clock = clock_string(hour, min, sec);
        out.append(clock.as_str());
        out.append(" ");
        let off = offset_string(self.utc_offset);
        out.append(off.as_str());
        out
    }
}

// ---------------------------------------------------------------------------
// Arithmetic and comparison
// ---------------------------------------------------------------------------

/// Nanoseconds since the epoch.
pub open spec fn total_nsec(t: RTimeData) -> int {
    t.sec * 1_000_000_000 + t.nsec
}

/// `t` moved forward by `delta_sec` seconds and `delta_nsec` nanoseconds,
/// carrying whole seconds out of the nanoseconds; the offset is kept.
pub open spec fn spec_time_add(t: RTimeData, delta_sec: int, delta_nsec: int) -> RTimeData {
    let n = t.nsec + delta_nsec;
    RTimeData {
        sec: (t.sec + delta_sec + n / 1_000_000_000) as i64,
        nsec: (n % 1_000_000_000) as u32,
        utc_offset: t.utc_offset,
    }
}

/// `t` moved back by `delta_sec` seconds and `delta_nsec` nanoseconds,
/// borrowing whole seconds for the nanoseconds; the offset is kept.
pub open spec fn spec_time_sub(t: RTimeData, delta_sec: int, delta_nsec: int) -> RTimeData {
    let n = t.nsec - delta_nsec;
    RTimeData {
        sec: (t.sec - delta_sec + n / 1_000_000_000) as i64,
        nsec: (n % 1_000_000_000) as u32,
        utc_offset: t.utc_offset,
    }
}

/// The time `delta_sec` seconds and `delta_nsec` nanoseconds after `t`.
pub fn time_add(t: &RTimeData, delta_sec: i64, delta_nsec: u32) -> (r: RTimeData)
    requires
        i64::MIN <= t.sec + delta_sec <= i64::MAX,
        i64::MIN <= t.sec + delta_sec + (t.nsec + delta_nsec) / 1_000_000_000 <= i64::MAX,
    ensures
        r == spec_time_add(*t, delta_sec as int, delta_nsec as int),
        r.nsec < 1_000_000_000,
        total_nsec(r) == total_nsec(*t) + delta_sec * 1_000_000_000 + delta_nsec,
{
    let new_nsec = t.nsec as i64 + delta_nsec as i64;
    let (carry, rem) = div_rem_euclid(new_nsec, 1_000_000_000);
    let new_sec = t.sec + delta_sec + carry;
    proof {
        vstd::arithmetic::div_mod::lemma_fundamental_div_mod(new_nsec as int, 1_000_000_000);
    }
    RTimeData::new(new_sec, rem as u32, t.utc_offset)
}

/// The time `delta_sec` seconds and `delta_nsec` nanoseconds before `t`.
pub fn time_sub(t: &RTimeData, delta_sec: i64, delta_nsec: u32) -> (r: RTimeData)
    requires
        i64::MIN <= t.sec - delta_sec + (t.nsec - delta_nsec) / 1_000_000_000 <= i64::MAX,
        i64::MIN <= t.sec - delta_sec <= i64::MAX,
    ensures
        r == spec_time_sub(*t, delta_sec as int, delta_nsec as int),
        r.nsec < 1_000_000_000,
        total_nsec(r) == total_nsec(*t) - delta_sec * 1_000_000_000 - delta_nsec,
{
    let new_nsec = t.nsec as i64 - delta_nsec as i64;
    let (carry, rem) = div_rem_euclid(new_nsec, 1_000_000_000);
    proof {
        vstd::arithmetic::div_mod::lemma_fundamental_div_mod(new_nsec as int, 1_000_000_000);
        assert(-5 <= carry <= 5) by (nonlinear_arith)
            requires
                carry == (new_nsec as int) / 1_000_000_000,
                -4294967296 <= new_nsec <= 4294967296,
        ;
    }
    let new_sec = t.sec - delta_sec + carry;
    RTimeData::new(new_sec, rem as u32, t.utc_offset)
}

/// Ordering of two times by seconds, then nanoseconds: -1, 0 or 1.
pub open spec fn spec_time_cmp(a: RTimeData, b: RTimeData) -> int {
    if a.sec < b.sec {
        -1
    } else if a.sec > b.sec {
        1
    } else if a.nsec < b.nsec {
        -1
    } else if a.nsec > b.nsec {
        1
    } else {
        0
    }
}

/// Compares two times by seconds, then nanoseconds: -1, 0 or 1.
pub fn time_cmp(a: &RTimeData, b: &RTimeData) -> (r: i64)
    ensures
        r == spec_time_cmp(*a, *b),
{
    if a.sec < b.sec {
        -1
    } else if a.sec > b.sec {
        1
    } else if a.nsec < b.nsec {
        -1
    } else if a.nsec > b.nsec {
        1
    } else {
        0
    }
}

/// The same instant seen at another UTC offset.
pub fn time_localtime(t: &RTimeData, utc_offset: i32) -> (r: RTimeData)
    ensures
        r.sec == t.sec,
        r.nsec == t.nsec,
        r.utc_offset == utc_offset,
{
    RTimeData::new(t.sec, t.nsec, utc_offset)
}

} // verus!

verus! {

// ---------------------------------------------------------------------------
// Laws
// ---------------------------------------------------------------------------

/// Moving a time forward and then back by the same amount gives the time
/// back, provided its nanoseconds are below one second.
pub proof fn lemma_time_add_then_sub(t: RTimeData, delta_sec: i64, delta_nsec: u32)
    requires
        t.nsec < 1_000_000_000,
        i64::MIN <= t.sec + delta_sec + (t.nsec + delta_nsec) / 1_000_000_000 <= i64::MAX,
    ensures
        spec_time_sub(spec_time_add(t, delta_sec as int, delta_nsec as int), delta_sec as int, delta_nsec as int) == t,
{
    let n = t.nsec + delta_nsec;
    let q = n / 1_000_000_000;
    let rem = n % 1_000_000_000;
    vstd::arithmetic::div_mod::lemma_fundamental_div_mod(n, 1_000_000_000);
    let r = spec_time_add(t, delta_sec as int, delta_nsec as int);
    assert(r.sec == t.sec + delta_sec + q);
    assert(r.nsec == rem);
    let m = rem - delta_nsec;
    assert(m == (-q) * 1_000_000_000 + t.nsec);
    vstd::arithmetic::div_mod::lemma_fundamental_div_mod_converse(m, 1_000_000_000, -q, t.nsec as int);
}

/// Moving a time back and then forward by the same amount gives the time
/// back, provided its nanoseconds are below one second.
pub proof fn lemma_time_sub_then_add(t: RTimeData, delta_sec: i64, delta_nsec: u32)
    requires
        t.nsec < 1_000_000_000,
        i64::MIN <= t.sec - delta_sec + (t.nsec - delta_nsec) / 1_000_000_000 <= i64::MAX,
    ensures
        spec_time_add(spec_time_sub(t, delta_sec as int, delta_nsec as int), delta_sec as int, delta_nsec as int) == t,
{
    let n = t.nsec - delta_nsec;
    let q = n / 1_000_000_000;
    let rem = n % 1_000_000_000;
    vstd::arithmetic::div_mod::lemma_fundamental_div_mod(n, 1_000_000_000);
    let r = spec_time_sub(t, delta_sec as int, delta_nsec as int);
    assert(r.sec == t.sec - delta_sec + q);
    assert(r.nsec == rem);
    let m = rem + delta_nsec;
    assert(m == (-q) * 1_000_000_000 + t.nsec);
    vstd::arithmetic::div_mod::lemma_fundamental_div_mod_converse(m, 1_000_000_000, -q, t.nsec as int);
}

/// Comparison is antisymmetric, is zero exactly on equal instants, and,
/// for normalized times, orders them as their nanoseconds since the epoch.
pub proof fn lemma_time_cmp_order(a: RTimeData, b: RTimeData)
    ensures
        spec_time_cmp(a, b) == -spec_time_cmp(b, a),
        spec_time_cmp(a, b) == 0 <==> (a.sec == b.sec && a.nsec == b.nsec),
        a.nsec < 1_000_000_000 && b.nsec < 1_000_000_000 ==> (spec_time_cmp(a, b) < 0
            <==> total_nsec(a) < total_nsec(b)),
{
    if a.nsec < 1_000_000_000 && b.nsec < 1_000_000_000 {
        if a.sec < b.sec {
            assert(total_nsec(a) < total_nsec(b)) by (nonlinear_arith)
                requires
                    a.sec + 1 <= b.sec,
                    a.nsec < 1_000_000_000,
            ;
        } else if a.sec > b.sec {
            assert(total_nsec(a) > total_nsec(b)) by (nonlinear_arith)
                requires
                    b.sec + 1 <= a.sec,
                    b.nsec < 1_000_000_000,
            ;
        }
    }
}

/// The time of day is the local time modulo a day, split into hours,
/// minutes and seconds within range; the weekday advances by one each day.
pub proof fn lemma_time_of_day(local: int)
    requires
        i64::MIN <= local <= i64::MAX - 86400,
    ensures
        ({
            let p = spec_parts(local);
            &&& p.4 < 24 && p.5 < 60 && p.6 < 60 && p.3 < 7
            &&& p.4 * 3600 + p.5 * 60 + p.6 == local % 86400
            &&& spec_parts(local + 86400).3 == (p.3 + 1) % 7
        }),
{
    let s = local % 86400;
    assert(0 <= s < 86400);
    let days = local / 86400;
    vstd::arithmetic::div_mod::lemma_fundamental_div_mod(local, 86400);
    vstd::arithmetic::div_mod::lemma_fundamental_div_mod_converse(local + 86400, 86400, days + 1, s);
    let jdn = days + epoch_jdn();
    let w = (jdn + 1) % 7;
    vstd::arithmetic::div_mod::lemma_fundamental_div_mod(jdn + 1, 7);
    let w2 = (jdn + 2) % 7;
    vstd::arithmetic::div_mod::lemma_fundamental_div_mod(jdn + 2, 7);
    vstd::arithmetic::div_mod::lemma_fundamental_div_mod(w + 1, 7);
    assert(w2 == (w + 1) % 7) by {
        vstd::arithmetic::div_mod::lemma_mod_add_multiples_vanish(w + 1, 7);
        let k = (jdn + 1) / 7;
        assert(jdn + 2 == k * 7 + (w + 1));
        vstd::arithmetic::div_mod::lemma_mod_multiples_vanish(k, w + 1, 7);
    }
    assert(s / 3600 * 3600 + (s % 3600) / 60 * 60 + s % 60 == s) by {
        vstd::arithmetic::div_mod::lemma_fundamental_div_mod(s, 3600);
        vstd::arithmetic::div_mod::lemma_fundamental_div_mod(s % 3600, 60);
        vstd::arithmetic::div_mod::lemma_mod_mod(s, 3600, 60);
    }
}

} // verus!

verus! {

// ---------------------------------------------------------------------------
// The proleptic Gregorian calendar
// ---------------------------------------------------------------------------

/// Leap years: divisible by 4, except centuries not divisible by 400.
pub open spec fn is_leap_year(y: int) -> bool {
    y % 4 == 0 && (y % 100 != 0 || y % 400 == 0)
}

/// Number of days of month `m` (1 to 12) of year `y`.
pub open spec fn days_in_month(y: int, m: int) -> int {
    if m == 2 {
        if is_leap_year(y) {
            29
        } else {
            28
        }
    } else if m == 4 || m == 6 || m == 9 || m == 11 {
        30
    } else {
        31
    }
}

/// Days of the months of year `y` before month `m`.
pub open spec fn days_before_month(y: int, m: int) -> int
    decreases m,
{
    if m <= 1 {
        0
    } else {
        days_before_month(y, m - 1) + days_in_month(y, m - 1)
    }
}

/// Number of leap years among the years 1 to `y - 1` (for `y <= 0`, minus
/// the number among `y` to 0).
pub open spec fn leap_years_before(y: int) -> int {
    (y - 1) / 4 - (y - 1) / 100 + (y - 1) / 400
}

/// Days from 1970-01-01 to the date `y-m-d`.
pub open spec fn days_from_civil(y: int, m: int, d: int) -> int {
    365 * (y - 1970) + (leap_years_before(y) - leap_years_before(1970)) + days_before_month(y, m) + d - 1
}

/// A year adds one leap day to the count exactly when it is a leap year, so
/// consecutive New Year's days are a year's length apart.
pub proof fn lemma_leap_years_before_step(y: int)
    ensures
        leap_years_before(y + 1) - leap_years_before(y) == (if is_leap_year(y) { 1int } else { 0int }),
        days_from_civil(y + 1, 1, 1) - days_from_civil(y, 1, 1) == (if is_leap_year(y) { 366int } else { 365int }),
{
    vstd::arithmetic::div_mod::lemma_fundamental_div_mod(y - 1, 4);
    vstd::arithmetic::div_mod::lemma_fundamental_div_mod(y, 4);
    vstd::arithmetic::div_mod::lemma_fundamental_div_mod(y - 1, 100);
    vstd::arithmetic::div_mod::lemma_fundamental_div_mod(y, 100);
    vstd::arithmetic::div_mod::lemma_fundamental_div_mod(y - 1, 400);
    vstd::arithmetic::div_mod::lemma_fundamental_div_mod(y, 400);
}

/// The day count of March 1 of year `y`: the leap day of `y` is counted.
proof fn lemma_days_to_march(y: int)
    ensures
        365 * (y - 1970) + (leap_years_before(y) - leap_years_before(1970)) + days_before_month(y, 3)
            == 365 * y + y / 4 - y / 100 + y / 400 - 719468,
{
    reveal_with_fuel(days_before_month, 3);
    lemma_leap_years_before_step(y);
    assert(leap_years_before(1970) == 477);
}

/// The century step: `l1` is the day within the century `n`.
proof fn lemma_civil_century(l0: int)
    requires
        l0 >= 0,
    ensures
        ({
            let n = tdiv(4 * l0, 146097);
            let l1 = l0 - tdiv(146097 * n + 3, 4);
            &&& n >= 0
            &&& 0 <= l1 <= 36524
            &&& l0 == 36524 * n + (n + 3) / 4 + l1
            &&& l1 == 36524 ==> n % 4 == 0
        }),
{
    let n = (4 * l0) / 146097;
    vstd::arithmetic::div_mod::lemma_fundamental_div_mod(4 * l0, 146097);
    let r = 4 * l0 - 146097 * n;
    assert(0 <= r < 146097);
    assert(n >= 0);
    let q = (146097 * n + 3) / 4;
    vstd::arithmetic::div_mod::lemma_fundamental_div_mod(146097 * n + 3, 4);
    vstd::arithmetic::div_mod::lemma_fundamental_div_mod(n + 3, 4);
    assert(q == 36524 * n + (n + 3) / 4);
    let l1 = l0 - q;
    assert(r - 3 <= 4 * l1 <= r);
    if l1 == 36524 {
        assert(r == 146096);
        vstd::arithmetic::div_mod::lemma_fundamental_div_mod(n, 4);
    }
}

/// `365 i + i / 4`: the days before year `i` of a century whose every
/// fourth year is long.
pub open spec fn century_year_start(i: int) -> int {
    365 * i + i / 4
}

/// The year step: `i` is the year within the century and `l2 - 31` the day
/// within that (March-based) year.
proof fn lemma_civil_year(l1: int)
    requires
        0 <= l1 <= 36524,
    ensures
        ({
            let i = tdiv(4000 * (l1 + 1), 1461001);
            let l2 = l1 - tdiv(1461 * i, 4) + 31;
            &&& 0 <= i <= 99
            &&& century_year_start(i) <= l1 < century_year_start(i + 1)
            &&& l2 == l1 - century_year_start(i) + 31
        }),
{
    let i = (4000 * (l1 + 1)) / 1461001;
    vstd::arithmetic::div_mod::lemma_fundamental_div_mod(4000 * (l1 + 1), 1461001);
    assert(0 <= i <= 99);
    vstd::arithmetic::div_mod::lemma_fundamental_div_mod(i, 4);
    vstd::arithmetic::div_mod::lemma_fundamental_div_mod(i + 1, 4);
    vstd::arithmetic::div_mod::lemma_fundamental_div_mod(1461 * i, 4);
    assert((1461 * i) / 4 == 365 * i + i / 4);
}

/// Days from March 1 to the first of month `m` in a year that starts in
/// March.
pub open spec fn march_offset(m: int) -> int {
    if m >= 3 {
        days_before_month(1, m) - 59
    } else {
        306 + days_before_month(1, m)
    }
}

/// The month step on one day of the March-based year.
pub open spec fn month_step_ok(l2: int) -> bool {
    let j = tdiv(80 * l2, 2447);
    let day = l2 - tdiv(2447 * j, 80);
    let l3 = tdiv(j, 11);
    let month = j + 2 - 12 * l3;
    &&& 1 <= month <= 12
    &&& l3 == (if month <= 2 { 1int } else { 0int })
    &&& 1 <= day
    &&& (month == 2 ==> day <= 29)
    &&& (month != 2 ==> day <= days_in_month(1, month))
    &&& (month == 2 && day == 29 ==> l2 == 396)
    &&& l2 - 31 == march_offset(month) + day - 1
}

/// The month step: every day of a March-based year falls in a month with a
/// valid day number.
proof fn lemma_civil_month(l2: int)
    requires
        31 <= l2 <= 396,
    ensures
        month_step_ok(l2),
{
    reveal_with_fuel(days_before_month, 13);
    let j = (80 * l2) / 2447;
    vstd::arithmetic::div_mod::lemma_fundamental_div_mod(80 * l2, 2447);
    assert(1 <= j <= 12);
    assert(2447 * j <= 80 * l2 < 2447 * j + 2447);
    if j == 1 {
        assert((2447 * j) / 80 == 30);
    } else if j == 2 {
        assert((2447 * j) / 80 == 61);
    } else if j == 3 {
        assert((2447 * j) / 80 == 91);
    } else if j == 4 {
        assert((2447 * j) / 80 == 122);
    } else if j == 5 {
        assert((2447 * j) / 80 == 152);
    } else if j == 6 {
        assert((2447 * j) / 80 == 183);
    } else if j == 7 {
        assert((2447 * j) / 80 == 214);
    } else if j == 8 {
        assert((2447 * j) / 80 == 244);
    } else if j == 9 {
        assert((2447 * j) / 80 == 275);
    } else if j == 10 {
        assert((2447 * j) / 80 == 305);
    } else if j == 11 {
        assert((2447 * j) / 80 == 336);
    } else {
        assert((2447 * j) / 80 == 367);
    }
}

/// Months before March do not see the leap day; later months see it once.
proof fn lemma_days_before_month_leap(y: int, m: int)
    requires
        1 <= m <= 12,
    ensures
        days_before_month(y, m) == days_before_month(1, m) + (if m >= 3 && is_leap_year(y) { 1int } else { 0int }),
        m != 2 ==> days_in_month(y, m) == days_in_month(1, m),
{
    reveal_with_fuel(days_before_month, 13);
}

/// The date that `civil_from_jdn` gives for a Julian Day Number is a valid
/// date of the proleptic Gregorian calendar (month 1 to 12, day within the
/// month, leap years by the 4/100/400 rule) lying exactly that many days
/// after 1970-01-01 as the day number lies after the epoch's. The
/// truncating divisions it uses agree with floor division while the shifted
/// day number `jdn + 68569` is not negative, which the law requires.
pub proof fn lemma_civil_from_jdn_is_gregorian(jdn: int)
    requires
        jdn + 68569 >= 0,
    ensures
        ({
            let (y, m, d) = civil_from_jdn(jdn);
            &&& 1 <= m <= 12
            &&& 1 <= d <= days_in_month(y, m)
            &&& days_from_civil(y, m, d) == jdn - epoch_jdn()
        }),
{
    reveal(civil_from_jdn);
    let l0 = jdn + 68569;
    lemma_civil_century(l0);
    let n = tdiv(4 * l0, 146097);
    let l1 = l0 - tdiv(146097 * n + 3, 4);
    lemma_civil_year(l1);
    let i = tdiv(4000 * (l1 + 1), 1461001);
    let l2 = l1 - tdiv(1461 * i, 4) + 31;
    lemma_civil_month(l2);
    let j = tdiv(80 * l2, 2447);
    let day = l2 - tdiv(2447 * j, 80);
    let l3 = tdiv(j, 11);
    let month = j + 2 - 12 * l3;
    let year = 100 * (n - 49) + i + l3;
    assert(civil_from_jdn(jdn) == (year, month, day));
    lemma_days_before_month_leap(year, month);
    // the March-based year and its leap-year counts
    let c = n - 49;
    let yp = 100 * c + i;
    vstd::arithmetic::div_mod::lemma_fundamental_div_mod(i, 4);
    vstd::arithmetic::div_mod::lemma_fundamental_div_mod(c, 4);
    vstd::arithmetic::div_mod::lemma_fundamental_div_mod_converse(yp, 4, 25 * c + i / 4, i % 4);
    vstd::arithmetic::div_mod::lemma_fundamental_div_mod_converse(yp, 100, c, i);
    vstd::arithmetic::div_mod::lemma_fundamental_div_mod_converse(yp, 400, c / 4, 100 * (c % 4) + i);
    vstd::arithmetic::div_mod::lemma_fundamental_div_mod_converse(n + 3, 4, c / 4 + 13, c % 4);
    assert(365 * yp + yp / 4 - yp / 100 + yp / 400 == 36524 * c + c / 4 + century_year_start(i));
    assert(jdn - epoch_jdn() == 36524 * c + c / 4 + l1 - 719468);
    if l3 == 0 {
        lemma_days_to_march(yp);
        lemma_days_before_month_leap(yp, 3);
    } else {
        assert(leap_years_before(yp + 1) == yp / 4 - yp / 100 + yp / 400);
    }
    if month == 2 && day == 29 {
        // the long year ends in a leap day
        vstd::arithmetic::div_mod::lemma_fundamental_div_mod(i + 1, 4);
        assert(i % 4 == 3);
        let y = yp + 1;
        if i < 99 {
            vstd::arithmetic::div_mod::lemma_fundamental_div_mod_converse(y, 4, 25 * c + (i + 1) / 4, 0);
            vstd::arithmetic::div_mod::lemma_fundamental_div_mod_converse(y, 100, c, i + 1);
        } else {
            assert(l1 == 36524);
            assert(n % 4 == 0);
            vstd::arithmetic::div_mod::lemma_fundamental_div_mod(n, 4);
            vstd::arithmetic::div_mod::lemma_fundamental_div_mod_converse(y, 400, (n - 48) / 4, 0);
            vstd::arithmetic::div_mod::lemma_fundamental_div_mod_converse(y, 4, 25 * (n - 48), 0);
        }
        assert(is_leap_year(year));
    }
}

/// The decomposition of a local time is a valid Gregorian date and a time of
/// day that together give the local time back: the date's day count from
/// 1970-01-01 times 86400 plus the seconds of the day. The weekday counts
/// from Thursday, 1970-01-01. It holds from 1 March of the year -4900 on and
/// as long as the year fits in an `i32`.
pub proof fn lemma_datetime_parts_gregorian(local: int)
    requires
        local / 86400 + epoch_jdn() + 68569 >= 0,
        i32::MIN <= civil_from_jdn(local / 86400 + epoch_jdn()).0 <= i32::MAX,
    ensures
        ({
            let (year, month, day, wday, hour, min, sec) = spec_parts(local);
            let days = days_from_civil(year as int, month as int, day as int);
            &&& 1 <= month <= 12
            &&& 1 <= day <= days_in_month(year as int, month as int)
            &&& hour < 24 && min < 60 && sec < 60
            &&& days * 86400 + hour * 3600 + min * 60 + sec == local
            &&& wday == (days + 4) % 7
        }),
{
    let days = local / 86400;
    let jdn = days + epoch_jdn();
    lemma_civil_from_jdn_is_gregorian(jdn);
    let s = local % 86400;
    vstd::arithmetic::div_mod::lemma_fundamental_div_mod(local, 86400);
    assert(s / 3600 * 3600 + (s % 3600) / 60 * 60 + s % 60 == s) by {
        vstd::arithmetic::div_mod::lemma_fundamental_div_mod(s, 3600);
        vstd::arithmetic::div_mod::lemma_fundamental_div_mod(s % 3600, 60);
        vstd::arithmetic::div_mod::lemma_mod_mod(s, 3600, 60);
    }
    vstd::arithmetic::div_mod::lemma_fundamental_div_mod(jdn + 1, 7);
    vstd::arithmetic::div_mod::lemma_fundamental_div_mod_converse(days + 4, 7, (jdn + 1) / 7 - 348655, (jdn + 1) % 7);
}

/// For every local time from 0001-01-01 00:00:00 to 9999-12-31 23:59:59,
/// the decomposition is a Gregorian date of the years 1 to 9999 and the time
/// of day that give the local time back, with the weekday counted from
/// Thursday, 1970-01-01.
pub proof fn lemma_datetime_parts_in_range(local: int)
    requires
        -62135596800 <= local <= 253402300799,
    ensures
        ({
            let (year, month, day, wday, hour, min, sec) = spec_parts(local);
            let days = days_from_civil(year as int, month as int, day as int);
            &&& 1 <= year <= 9999
            &&& 1 <= month <= 12
            &&& 1 <= day <= days_in_month(year as int, month as int)
            &&& hour < 24 && min < 60 && sec < 60
            &&& days * 86400 + hour * 3600 + min * 60 + sec == local
            &&& wday == (days + 4) % 7
        }),
{
    let days = local / 86400;
    assert(-719163 <= days <= 2932896) by (nonlinear_arith)
        requires
            days == local / 86400,
            -62135596800 <= local <= 253402300799,
    ;
    let jdn = days + epoch_jdn();
    let l0 = jdn + 68569;
    lemma_civil_century(l0);
    let n = tdiv(4 * l0, 146097);
    assert(n <= 150) by (nonlinear_arith)
        requires
            n == (4 * l0) / 146097,
            0 <= l0 <= 5442053,
    ;
    let l1 = l0 - tdiv(146097 * n + 3, 4);
    lemma_civil_year(l1);
    let i = tdiv(4000 * (l1 + 1), 1461001);
    let l2 = l1 - tdiv(1461 * i, 4) + 31;
    assert(century_year_start(i + 1) - century_year_start(i) <= 366);
    lemma_civil_month(l2);
    reveal(civil_from_jdn);
    let j = tdiv(80 * l2, 2447);
    let l3 = tdiv(j, 11);
    assert(0 <= l3 <= 1);
    assert(civil_from_jdn(jdn).0 == 100 * (n - 49) + i + l3);
    lemma_datetime_parts_gregorian(local);
    let (year, month, day, _wday, _hour, _min, _sec) = spec_parts(local);
    assert(-719162 <= days_from_civil(year as int, month as int, day as int) <= 2932896);
    lemma_year_in_range(year as int, month as int, day as int);
}

/// The days of the months before month `m` and of month `m` make at most a
/// leap year.
proof fn lemma_month_days_bounded(y: int, m: int)
    requires
        1 <= m <= 12,
    ensures
        0 <= days_before_month(y, m),
        days_before_month(y, m) + days_in_month(y, m) <= 366,
{
    reveal_with_fuel(days_before_month, 13);
}

/// A date whose day count lies from 0001-01-01 to 9999-12-31 is in a year
/// from 1 to 9999.
proof fn lemma_year_in_range(y: int, m: int, d: int)
    requires
        1 <= m <= 12,
        1 <= d <= days_in_month(y, m),
        -719162 <= days_from_civil(y, m, d) <= 2932896,
    ensures
        1 <= y <= 9999,
{
    lemma_month_days_bounded(y, m);
    let q = (y - 1) / 400;
    let r = (y - 1) % 400;
    vstd::arithmetic::div_mod::lemma_fundamental_div_mod(y - 1, 400);
    assert((y - 1) / 4 == 100 * q + r / 4) by (nonlinear_arith)
        requires
            y - 1 == 400 * q + r,
            0 <= r < 400,
    ;
    assert((y - 1) / 100 == 4 * q + r / 100) by (nonlinear_arith)
        requires
            y - 1 == 400 * q + r,
            0 <= r < 400,
    ;
    assert(leap_years_before(1970) == 477);
    assert(0 <= r / 4 - r / 100 <= 96);
    if y <= 0 {
        assert(q <= -1);
    }
    if y >= 10000 {
        assert(q >= 24);
        if q == 24 {
            assert(r == 399);
        }
    }
}

// ---------------------------------------------------------------------------
// Time.at
// ---------------------------------------------------------------------------

/// The seconds argument of `Time.at`: an integer.
fn seconds_arg(o: &RObject) -> (r: Result<i64, Error>)
    ensures
        o.value is Integer ==> r == Ok::<i64, Error>(o.value->Integer_0),
        !(o.value is Integer) ==> (r matches Err(Error::ArgumentError(m)) && m@ == "expected Integer or Float"@),
{
    match &o.value {
        RValue::Integer(i) => Ok(*i),
        _ => Err(Error::ArgumentError(String::from_str("expected Integer or Float"))),
    }
}

/// The nanoseconds argument of `Time.at`: a non-negative integer, taken
/// modulo `2^32`.
fn nanoseconds_arg(o: &RObject) -> (r: Result<u32, Error>)
    ensures
        o.value is Integer && o.value->Integer_0 >= 0 ==> r == Ok::<u32, Error>(o.value->Integer_0 as u32),
        o.value is Integer && o.value->Integer_0 < 0 ==> (r matches Err(Error::ArgumentError(m)) && m@
            == "nsec must be non-negative"@),
        !(o.value is Integer) ==> (r matches Err(Error::ArgumentError(m)) && m@ == "expected Integer or Float"@),
{
    match &o.value {
        RValue::Integer(i) => {
            if *i < 0 {
                return Err(Error::ArgumentError(String::from_str("nsec must be non-negative")));
            }
            Ok(*i as u32)
        },
        _ => Err(Error::ArgumentError(String::from_str("expected Integer or Float"))),
    }
}

/// `Time.at(sec)` or `Time.at(sec, nsec)` at UTC: integer seconds since the
/// epoch and optional non-negative integer nanoseconds.
pub fn time_at(args: &[RObject]) -> (r: Result<RTimeData, Error>)
    ensures
        ({
            let a = without_trailing_nil(args@);
            &&& a.len() == 0 ==> (r matches Err(Error::ArgumentError(m)) && m@
                == "wrong number of arguments (given 0, expected 1+)"@)
            &&& a.len() > 0 && !(a[0].value is Integer) ==> (r matches Err(Error::ArgumentError(m)) && m@
                == "expected Integer or Float"@)
            &&& a.len() > 1 && a[0].value is Integer && !(a[1].value is Integer) ==> (r matches Err(
                Error::ArgumentError(m),
            ) && m@ == "expected Integer or Float"@)
            &&& a.len() > 1 && a[0].value is Integer && a[1].value is Integer && a[1].value->Integer_0 < 0 ==> (
            r matches Err(Error::ArgumentError(m)) && m@ == "nsec must be non-negative"@)
            &&& a.len() == 1 && a[0].value is Integer ==> r == Ok::<RTimeData, Error>(
                RTimeData { sec: a[0].value->Integer_0, nsec: 0, utc_offset: 0 },
            )
            &&& a.len() > 1 && a[0].value is Integer && a[1].value is Integer && a[1].value->Integer_0 >= 0 ==> r
                == Ok::<RTimeData, Error>(
                RTimeData { sec: a[0].value->Integer_0, nsec: a[1].value->Integer_0 as u32, utc_offset: 0 },
            )
        }),
{
    let a = strip_trailing_nil(args);
    if a.len() == 0 {
        return Err(Error::ArgumentError(String::from_str("wrong number of arguments (given 0, expected 1+)")));
    }
    let sec = seconds_arg(&a[0])?;
    let nsec = if a.len() >= 2 {
        nanoseconds_arg(&a[1])?
    } else {
        0
    };
    Ok(RTimeData::new(sec, nsec, 0))
}

/// The value of the decimal digit character at `i` of `s`.
pub open spec fn digit_value(s: Seq<char>, i: int) -> int {
    (s[i] as int) - 48
}

/// A number below 100 is written, padded to two places, as its tens digit
/// and its units digit.
proof fn lemma_two_digits(n: nat)
    requires
        n < 100,
    ensures
        zero_pad(dec(n), 2) == seq![digit_char((n / 10) as int), digit_char((n % 10) as int)],
        0 <= (digit_char((n / 10) as int) as int) - 48 == n / 10 <= 9,
        0 <= (digit_char((n % 10) as int) as int) - 48 == n % 10 <= 9,
{
    reveal_with_fuel(dec, 2);
    if n < 10 {
        assert(digit_char(0) == '0');
        assert(zero_pad(dec(n), 2) =~= seq!['0', digit_char(n as int)]);
    } else {
        assert(dec(n / 10) == seq![digit_char((n / 10) as int)]);
        assert(dec(n) =~= seq![digit_char((n / 10) as int), digit_char((n % 10) as int)]);
    }
}

/// The string form of a time ends with its UTC offset spelled in hours and
/// minutes: the last two characters are the minutes (below 60) and, for an
/// offset under 100 hours, the four before them a sign and the hours, so
/// that hours * 3600 + minutes * 60 is the offset's size in whole minutes.
pub proof fn lemma_offset_spelling(t: RTimeData)
    ensures
        ({
            let s = spec_time_string(t);
            let n = s.len() as int;
            let o = t.utc_offset as int;
            let a = if o >= 0 { o } else { -o };
            let m = 10 * digit_value(s, n - 2) + digit_value(s, n - 1);
            &&& n >= 5
            &&& 0 <= digit_value(s, n - 2) <= 9 && 0 <= digit_value(s, n - 1) <= 9
            &&& 0 <= m < 60
            &&& (a - a % 60 - m * 60) % 3600 == 0
            &&& a < 360000 ==> {
                let h = 10 * digit_value(s, n - 4) + digit_value(s, n - 3);
                &&& s[n - 5] == (if o >= 0 { '+' } else { '-' })
                &&& 0 <= digit_value(s, n - 4) <= 9 && 0 <= digit_value(s, n - 3) <= 9
                &&& h * 3600 + m * 60 == a - a % 60
            }
        }),
{
    let o = t.utc_offset as int;
    let a = if o >= 0 { o } else { -o };
    let hours = (a / 3600) as nat;
    let mins = ((a % 3600) / 60) as nat;
    let (year, month, day, _wday, hour, min, sec) = spec_parts(t.spec_local_sec());
    let head = date_str(year as int, month as nat, day as nat) + seq![' '] + clock_str(hour as nat, min as nat, sec as nat)
        + seq![' '];
    let sign = seq![if o >= 0 { '+' } else { '-' }];
    let hp = zero_pad(dec(hours), 2);
    lemma_two_digits(mins);
    assert(offset_str(o) == sign + hp + zero_pad(dec(mins), 2));
    let s = spec_time_string(t);
    assert(s == head + sign + hp + zero_pad(dec(mins), 2));
    let n = s.len() as int;
    assert(s[n - 2] == digit_char((mins / 10) as int));
    assert(s[n - 1] == digit_char((mins % 10) as int));
    assert(a == 3600 * hours + 60 * mins + a % 60) by {
        vstd::arithmetic::div_mod::lemma_fundamental_div_mod(a, 3600);
        vstd::arithmetic::div_mod::lemma_fundamental_div_mod(a % 3600, 60);
        vstd::arithmetic::div_mod::lemma_mod_mod(a, 3600, 60);
    }
    assert((a - a % 60 - mins * 60) == 3600 * hours);
    vstd::arithmetic::div_mod::lemma_mod_multiples_basic(hours as int, 3600);
    if a < 360000 {
        lemma_two_digits(hours);
        assert(s[n - 4] == digit_char((hours / 10) as int));
        assert(s[n - 3] == digit_char((hours % 10) as int));
        assert(s[n - 5] == sign[0]);
    }
}

/// A number below 10000 is written, padded to four places, as its four
/// decimal digits.
proof fn lemma_four_digits(n: nat)
    requires
        n < 10000,
    ensures
        zero_pad(dec(n), 4) == seq![
            digit_char((n / 1000) as int),
            digit_char((n / 100 % 10) as int),
            digit_char((n / 10 % 10) as int),
            digit_char((n % 10) as int),
        ],
{
    reveal_with_fuel(dec, 4);
    assert(digit_char(0) == '0');
    if n < 10 {
        assert(zero_pad(dec(n), 4) =~= seq!['0', '0', '0', digit_char(n as int)]);
    } else if n < 100 {
        assert(dec(n) =~= seq![digit_char((n / 10) as int), digit_char((n % 10) as int)]);
        assert(zero_pad(dec(n), 4) =~= seq!['0', '0', digit_char((n / 10) as int), digit_char((n % 10) as int)]);
    } else if n < 1000 {
        assert(dec(n / 10) =~= seq![digit_char((n / 100) as int), digit_char((n / 10 % 10) as int)]);
        assert(dec(n) =~= seq![digit_char((n / 100) as int), digit_char((n / 10 % 10) as int), digit_char((n % 10) as int)]);
    } else {
        assert(dec(n / 100) =~= seq![digit_char((n / 1000) as int), digit_char((n / 100 % 10) as int)]);
        assert(dec(n / 10) =~= seq![
            digit_char((n / 1000) as int),
            digit_char((n / 100 % 10) as int),
            digit_char((n / 10 % 10) as int),
        ]);
    }
}

/// A digit character's value.
proof fn lemma_digit_value(d: int)
    requires
        0 <= d <= 9,
    ensures
        (digit_char(d) as int) - 48 == d,
{
}

/// The character at `i` of `s` is a decimal digit.
pub open spec fn is_digit_at(s: Seq<char>, i: int) -> bool {
    0 <= digit_value(s, i) <= 9
}

/// The date part of a year from 1 to 9999 and a month and day below 100:
/// four year digits, a dash, two month digits, a dash, two day digits.
proof fn lemma_date_str_chars(year: int, month: nat, day: nat)
    requires
        1 <= year <= 9999,
        month < 100,
        day < 100,
    ensures
        date_str(year, month, day) == seq![
            digit_char(year / 1000),
            digit_char(year / 100 % 10),
            digit_char(year / 10 % 10),
            digit_char(year % 10),
            '-',
            digit_char((month / 10) as int),
            digit_char((month % 10) as int),
            '-',
            digit_char((day / 10) as int),
            digit_char((day % 10) as int),
        ],
{
    lemma_four_digits(year as nat);
    lemma_two_digits(month);
    lemma_two_digits(day);
    assert(signed_padded(year, 4) == zero_pad(dec(year as nat), 4));
    assert(date_str(year, month, day) =~= seq![
        digit_char(year / 1000),
        digit_char(year / 100 % 10),
        digit_char(year / 10 % 10),
        digit_char(year % 10),
        '-',
        digit_char((month / 10) as int),
        digit_char((month % 10) as int),
        '-',
        digit_char((day / 10) as int),
        digit_char((day % 10) as int),
    ]);
}

/// The clock part of an hour, minute and second below 100.
proof fn lemma_clock_str_chars(hour: nat, min: nat, sec: nat)
    requires
        hour < 100,
        min < 100,
        sec < 100,
    ensures
        clock_str(hour, min, sec) == seq![
            digit_char((hour / 10) as int),
            digit_char((hour % 10) as int),
            ':',
            digit_char((min / 10) as int),
            digit_char((min % 10) as int),
            ':',
            digit_char((sec / 10) as int),
            digit_char((sec % 10) as int),
        ],
{
    lemma_two_digits(hour);
    lemma_two_digits(min);
    lemma_two_digits(sec);
    assert(clock_str(hour, min, sec) =~= seq![
        digit_char((hour / 10) as int),
        digit_char((hour % 10) as int),
        ':',
        digit_char((min / 10) as int),
        digit_char((min % 10) as int),
        ':',
        digit_char((sec / 10) as int),
        digit_char((sec % 10) as int),
    ]);
}

/// The string form of a time from year 1 to 9999 spells its date and clock
/// as `YYYY-MM-DD hh:mm:ss`, and the fields read back from the characters
/// are a valid Gregorian date and time of day that give the local time
/// (seconds since the epoch shifted by the UTC offset).
#[verifier::rlimit(40)]
pub proof fn lemma_time_string_fields(t: RTimeData)
    requires
        -62135596800 <= t.spec_local_sec() <= 253402300799,
    ensures
        ({
            let s = spec_time_string(t);
            let y = 1000 * digit_value(s, 0) + 100 * digit_value(s, 1) + 10 * digit_value(s, 2) + digit_value(s, 3);
            let mo = 10 * digit_value(s, 5) + digit_value(s, 6);
            let d = 10 * digit_value(s, 8) + digit_value(s, 9);
            let h = 10 * digit_value(s, 11) + digit_value(s, 12);
            let mi = 10 * digit_value(s, 14) + digit_value(s, 15);
            let se = 10 * digit_value(s, 17) + digit_value(s, 18);
            &&& s.len() >= 20
            &&& s[4] == '-' && s[7] == '-' && s[10] == ' ' && s[13] == ':' && s[16] == ':' && s[19] == ' '
            &&& is_digit_at(s, 0) && is_digit_at(s, 1) && is_digit_at(s, 2) && is_digit_at(s, 3)
            &&& is_digit_at(s, 5) && is_digit_at(s, 6) && is_digit_at(s, 8) && is_digit_at(s, 9)
            &&& is_digit_at(s, 11) && is_digit_at(s, 12) && is_digit_at(s, 14) && is_digit_at(s, 15)
            &&& is_digit_at(s, 17) && is_digit_at(s, 18)
            &&& 1 <= y <= 9999 && 1 <= mo <= 12 && 1 <= d <= days_in_month(y, mo)
            &&& 0 <= h < 24 && 0 <= mi < 60 && 0 <= se < 60
            &&& days_from_civil(y, mo, d) * 86400 + h * 3600 + mi * 60 + se == t.spec_local_sec()
        }),
{
    let local = t.spec_local_sec();
    lemma_datetime_parts_in_range(local);
    let (year, month, day, _wday, hour, min, sec) = spec_parts(local);
    let y = year as int;
    let ds = date_str(y, month as nat, day as nat);
    let cs = clock_str(hour as nat, min as nat, sec as nat);
    lemma_date_str_chars(y, month as nat, day as nat);
    lemma_clock_str_chars(hour as nat, min as nat, sec as nat);
    let s = spec_time_string(t);
    assert(s == ds + seq![' '] + cs + seq![' '] + offset_str(t.utc_offset as int));
    let p = ds + seq![' '] + cs + seq![' '];
    assert(forall|k: int| 0 <= k < 20 ==> s[k] == #[trigger] p[k]);
    lemma_digit_value(y / 1000);
    lemma_digit_value(y / 100 % 10);
    lemma_digit_value(y / 10 % 10);
    lemma_digit_value(y % 10);
    lemma_digit_value((month / 10) as int);
    lemma_digit_value((month % 10) as int);
    lemma_digit_value((day / 10) as int);
    lemma_digit_value((day % 10) as int);
    lemma_digit_value((hour / 10) as int);
    lemma_digit_value((hour % 10) as int);
    lemma_digit_value((min / 10) as int);
    lemma_digit_value((min % 10) as int);
    lemma_digit_value((sec / 10) as int);
    lemma_digit_value((sec % 10) as int);
    assert(p[0] == s[0] && p[1] == s[1] && p[2] == s[2] && p[3] == s[3] && p[4] == s[4] && p[5] == s[5]);
    assert(p[6] == s[6] && p[7] == s[7] && p[8] == s[8] && p[9] == s[9] && p[10] == s[10] && p[11] == s[11]);
    assert(p[12] == s[12] && p[13] == s[13] && p[14] == s[14] && p[15] == s[15] && p[16] == s[16]);
    assert(p[17] == s[17] && p[18] == s[18] && p[19] == s[19]);
    assert(1000 * (y / 1000) + 100 * (y / 100 % 10) + 10 * (y / 10 % 10) + y % 10 == y);
}
/// Comparing two times orders the instants they stand for: for times with
/// fewer than a second of nanoseconds, the answer is -1, 0 or 1 as the
/// first is earlier than, the same as, or later than the second, and
/// swapping the times negates it.
pub proof fn lemma_time_order_of_instants(a: RTimeData, b: RTimeData)
    requires
        a.nsec < 1_000_000_000,
        b.nsec < 1_000_000_000,
    ensures
        spec_time_cmp(a, b) == (if total_nsec(a) < total_nsec(b) {
            -1int
        } else if total_nsec(a) == total_nsec(b) {
            0int
        } else {
            1int
        }),
        spec_time_cmp(b, a) == -spec_time_cmp(a, b),
{
    let x = a.sec;
    let y = b.sec;
    if x < y {
        assert(x * 1_000_000_000 + a.nsec < y * 1_000_000_000 + b.nsec) by (nonlinear_arith)
            requires
                x < y,
                a.nsec < 1_000_000_000,
                b.nsec >= 0,
        ;
    } else if x > y {
        assert(x * 1_000_000_000 + a.nsec > y * 1_000_000_000 + b.nsec) by (nonlinear_arith)
            requires
                x > y,
                b.nsec < 1_000_000_000,
                a.nsec >= 0,
        ;
    }
}

} // verus!
