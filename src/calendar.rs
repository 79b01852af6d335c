//! The proleptic Gregorian calendar, as seconds since 1970-01-01T00:00:00Z.
use chrono::{Datelike, TimeZone, Timelike, Utc};
use vstd::arithmetic::div_mod::{lemma_fundamental_div_mod, lemma_fundamental_div_mod_converse};
use vstd::prelude::*;

verus! {

/// First representable instant: -262144-01-01T00:00:00Z.
pub const MIN_SECONDS: i64 = -8334632851200;

/// Last representable whole second: +262143-12-31T23:59:59Z.
pub const MAX_SECONDS: i64 = 8210298412799;

/// First representable year.
pub const MIN_YEAR: i32 = -262144;

/// Last representable year.
pub const MAX_YEAR: i32 = 262143;

/// A calendar date and a time of day, read on a clock that shows UTC or a zone's local time.
#[derive(Clone, Copy, Debug, PartialEq, Eq, Structural)]
pub struct CivilTime {
    pub year: i32,
    pub month: u32,
    pub day: u32,
    pub hour: u32,
    pub minute: u32,
    pub second: u32,
}

pub open spec fn is_leap_year(y: int) -> bool {
    (y % 4 == 0 && y % 100 != 0) || y % 400 == 0
}

pub open spec fn days_in_month(y: int, m: int) -> int {
    if m == 2 {
        if is_leap_year(y) {
            29
        } else {
            28
        }
    } else if m == 4 || m == 6 || m == 9 || m == 11 {
        30
    } else {
        31
    }
}

/// Days of year `y` that lie before the first of month `m`.
pub open spec fn days_before_month(y: int, m: int) -> int {
    let common: int = if m <= 1 {
        0
    } else if m == 2 {
        31
    } else if m == 3 {
        59
    } else if m == 4 {
        90
    } else if m == 5 {
        120
    } else if m == 6 {
        151
    } else if m == 7 {
        181
    } else if m == 8 {
        212
    } else if m == 9 {
        243
    } else if m == 10 {
        273
    } else if m == 11 {
        304
    } else {
        334
    };
    if m > 2 && is_leap_year(y) {
        common + 1
    } else {
        common
    }
}

/// The number of leap years before `y`, counted from a fixed origin: only differences matter.
pub open spec fn leap_years_before(y: int) -> int {
    (y - 1) / 4 - (y - 1) / 100 + (y - 1) / 400
}

/// Days from 1970-01-01 to the first of January of year `y` (negative before 1970).
pub open spec fn days_before_year(y: int) -> int {
    365 * (y - 1970) + leap_years_before(y) - leap_years_before(1970)
}

/// Days from 1970-01-01 to the date `y-m-d`.
pub open spec fn day_number(y: int, m: int, d: int) -> int {
    days_before_year(y) + days_before_month(y, m) + d - 1
}

pub open spec fn second_of_day(c: CivilTime) -> int {
    c.hour * 3600 + c.minute * 60 + c.second
}

/// Seconds from 1970-01-01T00:00:00 to the calendar time `c` read on the same clock.
pub open spec fn civil_seconds(c: CivilTime) -> int {
    day_number(c.year as int, c.month as int, c.day as int) * 86400 + second_of_day(c)
}

pub open spec fn is_valid_civil(c: CivilTime) -> bool {
    &&& 1 <= c.month <= 12
    &&& 1 <= c.day <= days_in_month(c.year as int, c.month as int)
    &&& c.hour < 24
    &&& c.minute < 60
    &&& c.second < 60
}

/// The calendar time that lies `secs` seconds after 1970-01-01T00:00:00 (see `lemma_civil_of`).
pub open spec fn civil_of(secs: int) -> CivilTime {
    choose|c: CivilTime| is_valid_civil(c) && civil_seconds(c) == secs
}

/// Lower end of the span of seconds on which `civil_of` is proved to be defined.
pub open spec fn civil_span_start() -> int {
    days_before_year(MIN_YEAR - 1) * 86400
}

/// Upper end (exclusive) of the span of seconds on which `civil_of` is proved to be defined.
pub open spec fn civil_span_end() -> int {
    days_before_year(MAX_YEAR + 2) * 86400
}

proof fn lemma_div_step(y: int, k: int)
    requires
        k > 0,
    ensures
        y / k - (y - 1) / k == (if y % k == 0 { 1int } else { 0int }),
{
    let q = (y - 1) / k;
    let r = (y - 1) % k;
    lemma_fundamental_div_mod(y - 1, k);
    assert(0 <= r < k);
    if r + 1 < k {
        assert(y == q * k + (r + 1)) by (nonlinear_arith)
            requires
                y - 1 == k * q + r,
        ;
        lemma_fundamental_div_mod_converse(y, k, q, r + 1);
    } else {
        assert(y == (q + 1) * k + 0) by (nonlinear_arith)
            requires
                y - 1 == k * q + r,
                r + 1 == k,
        ;
        lemma_fundamental_div_mod_converse(y, k, q + 1, 0);
    }
}

proof fn lemma_divides_down(y: int, big: int, small: int)
    requires
        small > 0,
        big > 0,
        big % small == 0,
        y % big == 0,
    ensures
        y % small == 0,
{
    lemma_fundamental_div_mod(y, big);
    lemma_fundamental_div_mod(big, small);
    let a = y / big;
    let b = big / small;
    assert(y == (a * b) * small + 0) by (nonlinear_arith)
        requires
            y == big * a + 0,
            big == small * b + 0,
    ;
    lemma_fundamental_div_mod_converse(y, small, a * b, 0);
}

/// Year `y` has 366 days when it is a leap year and 365 otherwise.
pub proof fn lemma_year_length(y: int)
    ensures
        days_before_year(y + 1) == days_before_year(y) + 365 + (if is_leap_year(y) {
            1int
        } else {
            0int
        }),
{
    lemma_div_step(y, 4);
    lemma_div_step(y, 100);
    lemma_div_step(y, 400);
    if y % 400 == 0 {
        lemma_divides_down(y, 400, 100);
        lemma_divides_down(y, 400, 4);
    }
    if y % 100 == 0 {
        lemma_divides_down(y, 100, 4);
    }
}

proof fn lemma_years_ordered(a: int, b: int)
    requires
        a <= b,
    ensures
        days_before_year(a) <= days_before_year(b),
    decreases b - a,
{
    if a < b {
        lemma_year_length(b - 1);
        lemma_years_ordered(a, b - 1);
    }
}

proof fn lemma_date_in_year(c: CivilTime)
    requires
        is_valid_civil(c),
    ensures
        days_before_year(c.year as int) <= day_number(c.year as int, c.month as int, c.day as int)
            < days_before_year(c.year + 1),
{
    lemma_year_length(c.year as int);
}

proof fn lemma_same_date(a: CivilTime, b: CivilTime)
    requires
        is_valid_civil(a),
        is_valid_civil(b),
        day_number(a.year as int, a.month as int, a.day as int) == day_number(
            b.year as int,
            b.month as int,
            b.day as int,
        ),
    ensures
        a.year == b.year,
        a.month == b.month,
        a.day == b.day,
{
    lemma_date_in_year(a);
    lemma_date_in_year(b);
    if a.year < b.year {
        lemma_years_ordered(a.year + 1, b.year as int);
    } else if b.year < a.year {
        lemma_years_ordered(b.year + 1, a.year as int);
    }
}

/// Two valid calendar times that lie the same number of seconds after the epoch are equal.
pub proof fn lemma_civil_unique(a: CivilTime, b: CivilTime)
    requires
        is_valid_civil(a),
        is_valid_civil(b),
        civil_seconds(a) == civil_seconds(b),
    ensures
        a == b,
{
    let s = civil_seconds(a);
    let da = day_number(a.year as int, a.month as int, a.day as int);
    let db = day_number(b.year as int, b.month as int, b.day as int);
    lemma_fundamental_div_mod_converse(s, 86400, da, second_of_day(a));
    lemma_fundamental_div_mod_converse(s, 86400, db, second_of_day(b));
    lemma_same_date(a, b);
    let t = second_of_day(a);
    lemma_fundamental_div_mod_converse(t, 3600, a.hour as int, a.minute * 60 + a.second);
    lemma_fundamental_div_mod_converse(t, 3600, b.hour as int, b.minute * 60 + b.second);
    let u = a.minute * 60 + a.second;
    lemma_fundamental_div_mod_converse(u, 60, a.minute as int, a.second as int);
    lemma_fundamental_div_mod_converse(u, 60, b.minute as int, b.second as int);
}

proof fn lemma_find_year(n: int, lo: int, hi: int) -> (y: int)
    requires
        lo < hi,
        days_before_year(lo) <= n < days_before_year(hi),
    ensures
        lo <= y < hi,
        days_before_year(y) <= n < days_before_year(y + 1),
    decreases hi - lo,
{
    if n < days_before_year(lo + 1) {
        lo
    } else {
        lemma_find_year(n, lo + 1, hi)
    }
}

proof fn lemma_find_month(y: int, k: int) -> (m: int)
    requires
        0 <= k < 365 + (if is_leap_year(y) {
            1int
        } else {
            0int
        }),
    ensures
        1 <= m <= 12,
        days_before_month(y, m) <= k < days_before_month(y, m) + days_in_month(y, m),
{
    if k < days_before_month(y, 2) {
        1
    } else if k < days_before_month(y, 3) {
        2
    } else if k < days_before_month(y, 4) {
        3
    } else if k < days_before_month(y, 5) {
        4
    } else if k < days_before_month(y, 6) {
        5
    } else if k < days_before_month(y, 7) {
        6
    } else if k < days_before_month(y, 8) {
        7
    } else if k < days_before_month(y, 9) {
        8
    } else if k < days_before_month(y, 10) {
        9
    } else if k < days_before_month(y, 11) {
        10
    } else if k < days_before_month(y, 12) {
        11
    } else {
        12
    }
}

/// Every second of the span names a valid calendar time, in a year that fits an `i32`.
pub proof fn lemma_civil_exists(secs: int)
    requires
        civil_span_start() <= secs < civil_span_end(),
    ensures
        exists|c: CivilTime| is_valid_civil(c) && civil_seconds(c) == secs,
{
    let n = secs / 86400;
    let t = secs % 86400;
    lemma_fundamental_div_mod(secs, 86400);
    assert(days_before_year(MIN_YEAR - 1) <= n < days_before_year(MAX_YEAR + 2));
    let y = lemma_find_year(n, MIN_YEAR - 1, MAX_YEAR + 2);
    lemma_year_length(y);
    let k = n - days_before_year(y);
    let m = lemma_find_month(y, k);
    let d = k - days_before_month(y, m) + 1;
    let h = t / 3600;
    let rest = t % 3600;
    lemma_fundamental_div_mod(t, 3600);
    lemma_fundamental_div_mod(rest, 60);
    let c = CivilTime {
        year: y as i32,
        month: m as u32,
        day: d as u32,
        hour: h as u32,
        minute: (rest / 60) as u32,
        second: (rest % 60) as u32,
    };
    assert(is_valid_civil(c));
    assert(civil_seconds(c) == secs);
}

/// `civil_of` gives back the calendar time of a valid calendar time's seconds.
pub proof fn lemma_civil_of(c: CivilTime)
    requires
        is_valid_civil(c),
    ensures
        civil_of(civil_seconds(c)) == c,
{
    let s = civil_seconds(c);
    assert(is_valid_civil(c) && civil_seconds(c) == s);
    let d = civil_of(s);
    lemma_civil_unique(c, d);
}

/// `civil_of(secs)` is valid and lies `secs` seconds after the epoch.
pub proof fn lemma_civil_of_secs(secs: int)
    requires
        civil_span_start() <= secs < civil_span_end(),
    ensures
        is_valid_civil(civil_of(secs)),
        civil_seconds(civil_of(secs)) == secs,
{
    lemma_civil_exists(secs);
}

/// Calendar times of the representable years lie in the representable span of seconds.
pub proof fn lemma_representable(c: CivilTime)
    requires
        is_valid_civil(c),
        MIN_YEAR <= c.year <= MAX_YEAR,
    ensures
        MIN_SECONDS <= civil_seconds(c) <= MAX_SECONDS,
{
    lemma_date_in_year(c);
    lemma_years_ordered(MIN_YEAR as int, c.year as int);
    lemma_years_ordered(c.year + 1, MAX_YEAR + 1);
    assert(days_before_year(MIN_YEAR as int) * 86400 == MIN_SECONDS);
    assert(days_before_year(MAX_YEAR + 1) * 86400 == MAX_SECONDS + 1);
}

/// Relies on chrono's `TimeZone::timestamp_opt` for `Utc` with the `Datelike` and `Timelike`
/// accessors: the proleptic Gregorian date and time of day, in UTC, of a UNIX timestamp.
#[verifier::external_body]
pub(crate) fn utc_civil(secs: i64) -> (r: CivilTime)
    requires
        MIN_SECONDS <= secs <= MAX_SECONDS,
    ensures
        is_valid_civil(r),
        civil_seconds(r) == secs,
{
    let dt = Utc.timestamp_opt(secs, 0).unwrap();
    CivilTime {
        year: dt.year(),
        month: dt.month(),
        day: dt.day(),
        hour: dt.hour(),
        minute: dt.minute(),
        second: dt.second(),
    }
}

/// Relies on chrono's `TimeZone::with_ymd_and_hms` for `Utc`, read through `single` and
/// `DateTime::timestamp`: the UNIX timestamp of a valid UTC calendar time of a representable year.
#[verifier::external_body]
pub(crate) fn utc_timestamp(c: &CivilTime) -> (r: Option<i64>)
    ensures
        r is Some <==> (is_valid_civil(*c) && MIN_YEAR <= c.year <= MAX_YEAR),
        r matches Some(t) ==> t == civil_seconds(*c),
{
    let dt = Utc.with_ymd_and_hms(c.year, c.month, c.day, c.hour, c.minute, c.second).single()?;
    Some(dt.timestamp())
}

} // verus!
