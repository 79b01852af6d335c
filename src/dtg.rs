//! Instants ("date time groups"): reading them from decimal or "x" text, and formatting them.
use crate::base60::{all_symbols, lemma_x_round_trip, x_decode, x_encode, x_seconds, x_text, X_MAX_YEAR};
use crate::braille::{bcd_encode, bcd_text, bcd_year_fits};
use crate::calendar::{
    civil_of, civil_span_end, civil_span_start, lemma_civil_of, lemma_civil_of_secs,
    lemma_representable, utc_civil, utc_timestamp, MAX_SECONDS, MIN_SECONDS,
};
use crate::error::{invalid_timestamp_message, DtgError, INVALID_TIMESTAMP};
use crate::text::{
    all_digits, chars_of, digits_upto, first_index, int_text, lemma_digits_bound,
    lemma_first_index, lemma_int_text, lemma_zero_padded, opt_str_view, opt_view, pow10,
    signed_value, text_eq, unsigned_value, zero_padded,
};
use crate::zone::{utc_offset, zone_known, zone_offset, zone_view, Zone};
use chrono::{TimeZone, Utc};
use chrono_tz::Tz;
use std::fmt::Write;
use vstd::prelude::*;
use vstd::string::StringExecFns;

verus! {

/// Whether a timestamp and a nanosecond count make an instant: the seconds are representable,
/// and a count of a second or more (a leap second) only falls on the last second of a minute.
pub open spec fn instant_ok(secs: int, nanos: int) -> bool {
    &&& MIN_SECONDS <= secs <= MAX_SECONDS
    &&& 0 <= nanos < 2_000_000_000
    &&& nanos >= 1_000_000_000 ==> secs % 60 == 59
}

/// An instant, held in UTC as a UNIX timestamp and nanoseconds.
#[derive(Debug)]
pub struct Dtg {
    secs: i64,
    nanos: u32,
}

/// Relies on std's `SystemTime::duration_since`, applied to `SystemTime::now()` and
/// `UNIX_EPOCH`: whether the system clock reads after the epoch (`true`) or before it, and how far
/// from it, as whole seconds and the nanoseconds below a second (`Duration::subsec_nanos`).
#[verifier::external_body]
fn clock_reading() -> (r: (bool, u64, u32))
    ensures
        r.2 < 1_000_000_000,
{
    match std::time::SystemTime::now().duration_since(std::time::UNIX_EPOCH) {
        Ok(d) => (true, d.as_secs(), d.subsec_nanos()),
        Err(e) => (false, e.duration().as_secs(), e.duration().subsec_nanos()),
    }
}

/// Nanoseconds from the epoch to a clock reading, negative before it.
pub open spec fn clock_nanos(after: bool, secs: int, nanos: int) -> int {
    if after {
        secs * 1_000_000_000 + nanos
    } else {
        -(secs * 1_000_000_000 + nanos)
    }
}

/// Whether an instant given in nanoseconds from the epoch is representable.
pub open spec fn nanos_in_range(t: int) -> bool {
    MIN_SECONDS * 1_000_000_000 <= t < (MAX_SECONDS + 1) * 1_000_000_000
}

/// The fraction of a decimal timestamp, padded on the right with zeros or cut to nine digits.
pub open spec fn nine_digits(f: Seq<char>) -> Seq<char> {
    Seq::new(9, |k: int| if k < f.len() { f[k] } else { '0' })
}

/// The seconds and nanoseconds that a decimal timestamp `seconds[.fraction]` stands for: the
/// text before the first `.` is a signed integer of representable seconds, and the fraction,
/// as nine digits, an unsigned integer.
pub open spec fn decimal_parts(s: Seq<char>) -> Option<(int, int)> {
    let dot = first_index(s, '.');
    match signed_value(s.take(dot)) {
        None => None,
        Some(secs) => if secs < MIN_SECONDS || secs > MAX_SECONDS {
            None
        } else if dot == s.len() {
            Some((secs, 0))
        } else {
            match unsigned_value(nine_digits(s.skip(dot + 1))) {
                Some(nanos) => Some((secs, nanos)),
                None => None,
            }
        },
    }
}

/// Reads `cs[..hi]` as a signed number of seconds; `None` where it is no integer or lies outside
/// the representable seconds.
fn seconds_in(cs: &Vec<char>, hi: usize) -> (r: Option<i64>)
    requires
        hi <= cs.len(),
    ensures
        r matches Some(v) ==> signed_value(cs@.take(hi as int)) == Some(v as int),
        r is None ==> match signed_value(cs@.take(hi as int)) {
            Some(v) => v < MIN_SECONDS || v > MAX_SECONDS,
            None => true,
        },
        r matches Some(v) ==> MIN_SECONDS <= v <= MAX_SECONDS,
{
    let ghost t = cs@.take(hi as int);
    if hi == 0 {
        return None;
    }
    let sign = cs[0];
    if sign == '-' || sign == '+' {
        assert(t.skip(1) =~= cs@.subrange(1, hi as int));
        if hi == 1 {
            return None;
        }
        let cap: u64 = if sign == '-' {
            8334632851200
        } else {
            8210298412799
        };
        match digits_upto(cs, 1, hi, cap) {
            Some(v) => {
                if sign == '-' {
                    Some(-(v as i64))
                } else {
                    Some(v as i64)
                }
            },
            None => None,
        }
    } else {
        assert(t =~= cs@.subrange(0, hi as int));
        match digits_upto(cs, 0, hi, 8210298412799) {
            Some(v) => Some(v as i64),
            None => None,
        }
    }
}

/// Reads nine characters as an unsigned number of nanoseconds.
fn nanos_in(cs: &Vec<char>) -> (r: Option<u32>)
    requires
        cs.len() == 9,
    ensures
        r matches Some(v) ==> unsigned_value(cs@) == Some(v as int) && v < 1_000_000_000,
        r is None ==> unsigned_value(cs@) is None,
{
    let lo: usize = if cs[0] == '+' {
        1
    } else {
        0
    };
    let ghost t = cs@.subrange(lo as int, 9);
    if cs[0] == '+' {
        assert(cs@.skip(1) =~= t);
    } else {
        assert(cs@ =~= t);
    }
    if lo == 1 && cs.len() == 1 {
        return None;
    }
    match digits_upto(cs, lo, 9, 999_999_999) {
        Some(v) => Some(v as u32),
        None => {
            proof {
                if all_digits(t) {
                    lemma_digits_bound(t);
                    assert(pow10(t.len()) <= 1_000_000_000) by {
                        reveal_with_fuel(pow10, 10);
                    }
                }
            }
            None
        },
    }
}

impl Dtg {
    #[verifier::type_invariant]
    spec fn well_formed(&self) -> bool {
        instant_ok(self.secs as int, self.nanos as int)
    }

    /// Seconds since 1970-01-01T00:00:00Z.
    pub closed spec fn seconds(&self) -> int {
        self.secs as int
    }

    /// Nanoseconds past those seconds; a second or more only within a leap second.
    pub closed spec fn nanoseconds(&self) -> int {
        self.nanos as int
    }

    /// The instant of a clock reading that lies `secs` seconds and `nanos` nanoseconds after
    /// (`after`) or before the epoch; `None` where it is not representable.
    pub fn from_clock(after: bool, secs: u64, nanos: u32) -> (r: Option<Dtg>)
        requires
            nanos < 1_000_000_000,
        ensures
            r is Some <==> nanos_in_range(clock_nanos(after, secs as int, nanos as int)),
            r matches Some(d) ==> d.seconds() * 1_000_000_000 + d.nanoseconds() == clock_nanos(
                after,
                secs as int,
                nanos as int,
            ) && d.nanoseconds() < 1_000_000_000,
    {
        if after {
            if secs > 8210298412799 {
                return None;
            }
            Some(Dtg { secs: secs as i64, nanos })
        } else if nanos == 0 {
            if secs > 8334632851200 {
                return None;
            }
            Some(Dtg { secs: -(secs as i64), nanos: 0 })
        } else {
            if secs >= 8334632851200 {
                return None;
            }
            Some(Dtg { secs: -(secs as i64) - 1, nanos: 1_000_000_000 - nanos })
        }
    }

    /// Create a current [Dtg]; `None` where the system clock reads outside the representable
    /// span.
    pub fn now() -> (r: Option<Dtg>)
        ensures
            r matches Some(d) ==> d.nanoseconds() < 1_000_000_000,
    {
        let (after, secs, nanos) = clock_reading();
        Dtg::from_clock(after, secs, nanos)
    }

    /// Create a [Dtg] from a decimal timestamp: seconds since the epoch, then optionally `.` and
    /// a fraction of a second.
    pub fn from(s: &str) -> (r: Result<Dtg, DtgError>)
        ensures
            match decimal_parts(s@) {
                Some((secs, nanos)) => r matches Ok(d) && d.seconds() == secs && d.nanoseconds()
                    == nanos,
                None => r matches Err(e) && e.is(INVALID_TIMESTAMP, invalid_timestamp_message(s@)),
            },
    {
        let cs = chars_of(s);
        let n = cs.len();
        let mut dot: usize = 0;
        while dot < n && cs[dot] != '.'
            invariant
                cs@ == s@,
                n == cs.len(),
                dot <= n,
                forall|j: int| 0 <= j < dot ==> cs@[j] != '.',
            decreases n - dot,
        {
            dot = dot + 1;
        }
        proof {
            lemma_first_index(s@, '.', dot as int);
        }
        let secs = match seconds_in(&cs, dot) {
            Some(v) => v,
            None => {
                return Err(DtgError::invalid_timestamp(s));
            },
        };
        if dot == n {
            return Ok(Dtg { secs, nanos: 0 });
        }
        let mut nine: Vec<char> = Vec::new();
        let mut k: usize = 0;
        while k < 9
            invariant
                cs@ == s@,
                n == cs.len(),
                dot < n,
                k <= 9,
                nine@ == nine_digits(s@.skip(dot + 1)).take(k as int),
            decreases 9 - k,
        {
            if k < n - dot - 1 {
                nine.push(cs[dot + 1 + k]);
            } else {
                nine.push('0');
            }
            k = k + 1;
            assert(nine@ =~= nine_digits(s@.skip(dot + 1)).take(k as int));
        }
        assert(nine@ =~= nine_digits(s@.skip(dot + 1)));
        match nanos_in(&nine) {
            Some(nanos) => Ok(Dtg { secs, nanos }),
            None => Err(DtgError::invalid_timestamp(s)),
        }
    }

    /// Create a [Dtg] from an "x" format timestamp
    pub fn from_x(s: &str) -> (r: Result<Dtg, DtgError>)
        ensures
            match x_seconds(s@) {
                Some(secs) => r matches Ok(d) && d.seconds() == secs && d.nanoseconds() == 0,
                None => r matches Err(e) && e.is(INVALID_TIMESTAMP, invalid_timestamp_message(s@)),
            },
    {
        match x_decode(s) {
            Some(c) => {
                proof {
                    lemma_representable(c);
                }
                match utc_timestamp(&c) {
                    Some(secs) => Ok(Dtg { secs, nanos: 0 }),
                    None => Err(DtgError::invalid_timestamp(s)),
                }
            },
            None => Err(DtgError::invalid_timestamp(s)),
        }
    }

    /// Create a [Dtg] from a UNIX timestamp and nanoseconds, as a UTC date-time holds them;
    /// `None` where they make no instant.
    pub fn from_timestamp(secs: i64, nanos: u32) -> (r: Option<Dtg>)
        ensures
            r is Some <==> instant_ok(secs as int, nanos as int),
            r matches Some(d) ==> d.seconds() == secs && d.nanoseconds() == nanos,
    {
        if MIN_SECONDS <= secs && secs <= MAX_SECONDS && (nanos < 1_000_000_000 || (nanos
            < 2_000_000_000 && (secs % 60 == 59 || secs % 60 == -1))) {
            Some(Dtg { secs, nanos })
        } else {
            None
        }
    }
}

impl PartialEq for Dtg {
    fn eq(&self, other: &Dtg) -> (r: bool) {
        self.secs == other.secs && self.nanos == other.nanos
    }
}

impl vstd::std_specs::cmp::PartialEqSpecImpl for Dtg {
    open spec fn obeys_eq_spec() -> bool {
        true
    }

    open spec fn eq_spec(&self, other: &Dtg) -> bool {
        self.seconds() == other.seconds() && self.nanoseconds() == other.nanoseconds()
    }
}


/// Default pattern: weekday, day, month, year, time and zone abbreviation.
pub const DEFAULT: &'static str = "%a %d %b %Y %H:%M:%S %Z";

/// Seconds since the epoch with nine digits of fraction.
pub const EPOCH: &'static str = "%s.%f";

/// RFC 3339 in UTC.
pub const RFC_3339: &'static str = "%Y-%m-%dT%H:%M:%SZ";

/// The text of a strftime-style pattern for an instant, in UTC (`None`) or in a named zone;
/// `None` where the pattern is rejected.
pub uninterp spec fn strftime_text(
    secs: int,
    nanos: int,
    zone: Option<Seq<char>>,
    pattern: Seq<char>,
) -> Option<Seq<char>>;

/// The `%s.%f` text of an instant: the timestamp, `.`, and nine digits of fraction.
pub open spec fn epoch_text(secs: int, nanos: int) -> Seq<char> {
    int_text(secs) + seq!['.'] + zero_padded((nanos % 1_000_000_000) as nat, 9)
}

/// Specifiers that every zone and every representable instant can fill in.
pub open spec fn plain_specifier(c: char) -> bool {
    c == 'Y' || c == 'm' || c == 'd' || c == 'H' || c == 'M' || c == 'S' || c == 'a' || c == 'A'
        || c == 'b' || c == 'B' || c == 'Z' || c == 's' || c == 'f' || c == '%'
}

/// A pattern whose every `%` starts a plain specifier.
pub open spec fn plain_pattern(p: Seq<char>) -> bool
    decreases p.len(),
{
    if p.len() == 0 {
        true
    } else if p[0] == '%' {
        p.len() >= 2 && plain_specifier(p[1]) && plain_pattern(p.skip(2))
    } else {
        plain_pattern(p.skip(1))
    }
}

pub open spec fn in_range(secs: int) -> bool {
    MIN_SECONDS <= secs <= MAX_SECONDS
}

/// The seconds that the zone's clock shows at an instant, counted like a UNIX timestamp.
pub open spec fn local_seconds(secs: int, zone: Option<Seq<char>>) -> int {
    match zone {
        Some(z) => secs + zone_offset(z, secs),
        None => secs,
    }
}

/// Relies on chrono's `DateTime::format`, written through `Display`, on the `DateTime<Utc>` of
/// `TimeZone::timestamp_opt` or on the `DateTime<Tz>` that `with_timezone` makes of it for a
/// chrono-tz zone: the text depends on the instant, the zone and the pattern alone, and is
/// `None` where chrono rejects the pattern. Plain specifiers are never rejected, and `%s.%f`
/// writes the timestamp, `.`, and the nanoseconds below a second as nine digits.
#[verifier::external_body]
fn strftime(secs: i64, nanos: u32, zone: Option<&str>, pattern: &str) -> (r: Option<String>)
    requires
        instant_ok(secs as int, nanos as int),
        zone matches Some(z) ==> zone_known(z@) && in_range(local_seconds(secs as int, Some(z@))),
    ensures
        opt_view(r) == strftime_text(secs as int, nanos as int, opt_str_view(zone), pattern@),
        plain_pattern(pattern@) ==> r is Some,
        pattern@ == epoch_pattern() ==> opt_view(r) == Some(
            epoch_text(secs as int, nanos as int),
        ),
{
    let utc = Utc.timestamp_opt(secs, nanos).unwrap();
    let mut out = String::new();
    let written = match zone {
        None => write!(out, "{}", utc.format(pattern)),
        Some(name) => {
            let zone: Tz = name.parse().unwrap();
            write!(out, "{}", utc.with_timezone(&zone).format(pattern))
        },
    };
    match written {
        Ok(()) => Some(out),
        Err(_) => None,
    }
}

/// Compact date.
pub const COMPACT_DATE: &'static str = "%Y%m%d";

/// Compact date and time.
pub const COMPACT_DATE_TIME: &'static str = "%Y%m%d-%H%M%S";

/// Compact time.
pub const COMPACT_TIME: &'static str = "%H%M%S";

/// Output formats.
///
/// * `A`: four lines: `%s.%f`, RFC 3339, and the default pattern in UTC and in the zone.
/// * `BCD`: a binary clock drawn with Braille cells.
/// * `X`: the compact base-60 "x" format, always in UTC.
/// * `Custom`: a strftime-style pattern.
#[derive(Clone, Debug)]
pub enum Format {
    A,
    BCD,
    X,
    Custom(String),
}

/// The text of a pattern in UTC.
pub open spec fn utc_text(secs: int, nanos: int, p: Seq<char>) -> Option<Seq<char>> {
    strftime_text(secs, nanos, None, p)
}

/// The text of a pattern in a zone (UTC when absent); `None` also where the zone's clock
/// leaves the representable span.
pub open spec fn zoned_text(secs: int, nanos: int, zone: Option<Seq<char>>, p: Seq<char>) -> Option<
    Seq<char>,
> {
    if in_range(local_seconds(secs, zone)) {
        strftime_text(secs, nanos, zone, p)
    } else {
        None
    }
}

pub open spec fn four_lines(a: Seq<char>, b: Seq<char>, c: Seq<char>, d: Seq<char>) -> Seq<char> {
    a + seq!['\n'] + b + seq!['\n'] + c + seq!['\n'] + d
}

/// What a format writes for an instant in a zone (UTC when absent), or `None` where it cannot.
pub open spec fn format_text(f: Format, secs: int, nanos: int, zone: Option<Seq<char>>) -> Option<
    Seq<char>,
> {
    match f {
        Format::Custom(p) => if p@ == RFC_3339@ {
            utc_text(secs, nanos, p@)
        } else {
            zoned_text(secs, nanos, zone, p@)
        },
        Format::A => match (
            utc_text(secs, nanos, RFC_3339@),
            utc_text(secs, nanos, DEFAULT@),
            zoned_text(secs, nanos, zone, DEFAULT@),
        ) {
            (Some(b), Some(c), Some(d)) => Some(four_lines(epoch_text(secs, nanos), b, c, d)),
            _ => None,
        },
        Format::X => Some(x_text(civil_of(secs))),
        Format::BCD => if bcd_renders(secs, zone) {
            Some(bcd_text(civil_of(local_seconds(secs, zone))))
        } else {
            None
        },
    }
}

/// Whether the Braille clock can draw an instant in a zone (UTC when absent): the zone's clock
/// stays in the representable span and shows a year of at most four digits.
pub open spec fn bcd_renders(secs: int, zone: Option<Seq<char>>) -> bool {
    let local = local_seconds(secs, zone);
    in_range(local) && bcd_year_fits(civil_of(local).year as int)
}

/// Whether a format may be asked for: the Braille clock only where it can draw the instant, as
/// a wider year is a programming error.
pub open spec fn format_allowed(fmt: Option<Format>, secs: int, zone: Option<Seq<char>>) -> bool {
    fmt matches Some(Format::BCD) ==> bcd_renders(secs, zone)
}

/// The `%s.%f` pattern.
pub open spec fn epoch_pattern() -> Seq<char> {
    seq!['%', 's', '.', '%', 'f']
}

/// What an optional format writes: RFC 3339 in UTC when absent.
pub open spec fn render(secs: int, nanos: int, fmt: Option<Format>, zone: Option<Seq<char>>) -> Option<
    Seq<char>,
> {
    match fmt {
        Some(f) => format_text(f, secs, nanos, zone),
        None => utc_text(secs, nanos, RFC_3339@),
    }
}

proof fn lemma_patterns()
    ensures
        plain_pattern(DEFAULT@),
        plain_pattern(RFC_3339@),
        EPOCH@ == seq!['%', 's', '.', '%', 'f'],
        DEFAULT@ != RFC_3339@,
        EPOCH@ != RFC_3339@,
{
    reveal_strlit("%a %d %b %Y %H:%M:%S %Z");
    reveal_strlit("%Y-%m-%dT%H:%M:%SZ");
    reveal_strlit("%s.%f");
    reveal_with_fuel(plain_pattern, 25);
    assert(EPOCH@ =~= seq!['%', 's', '.', '%', 'f']);
    assert(DEFAULT@[1] != RFC_3339@[1]);
    assert(EPOCH@[1] != RFC_3339@[1]);
}

/// Whether `f` is the format that the name `n` stands for: `a`/`all`, `bcd`, `x`,
/// `d`/`default`, `i`/`r`/`iso`/`rfc`/`rfc-3339`, `cd`/`compact-date`,
/// `cdt`/`compact-date-time` and `ct`/`compact-time` name formats; any other name is a pattern.
pub open spec fn is_named_format(n: Seq<char>, f: Format) -> bool {
    if n == "a"@ || n == "all"@ {
        f is A
    } else if n == "bcd"@ {
        f is BCD
    } else if n == "x"@ {
        f is X
    } else if n == "d"@ || n == "default"@ {
        f matches Format::Custom(p) && p@ == DEFAULT@
    } else if n == "i"@ || n == "r"@ || n == "iso"@ || n == "rfc"@ || n == "rfc-3339"@ {
        f matches Format::Custom(p) && p@ == RFC_3339@
    } else if n == "cd"@ || n == "compact-date"@ {
        f matches Format::Custom(p) && p@ == COMPACT_DATE@
    } else if n == "cdt"@ || n == "compact-date-time"@ {
        f matches Format::Custom(p) && p@ == COMPACT_DATE_TIME@
    } else if n == "ct"@ || n == "compact-time"@ {
        f matches Format::Custom(p) && p@ == COMPACT_TIME@
    } else {
        f matches Format::Custom(p) && p@ == n
    }
}

impl Format {
    /// The format that a name stands for; a name that is none of them is a custom pattern.
    pub fn named(n: &str) -> (r: Format)
        ensures
            is_named_format(n@, r),
    {
        if text_eq(n, "a") || text_eq(n, "all") {
            Format::A
        } else if text_eq(n, "bcd") {
            Format::BCD
        } else if text_eq(n, "x") {
            Format::X
        } else if text_eq(n, "d") || text_eq(n, "default") {
            Format::new()
        } else if text_eq(n, "i") || text_eq(n, "r") || text_eq(n, "iso") || text_eq(n, "rfc")
            || text_eq(n, "rfc-3339") {
            Format::rfc_3339()
        } else if text_eq(n, "cd") || text_eq(n, "compact-date") {
            Format::custom(COMPACT_DATE)
        } else if text_eq(n, "cdt") || text_eq(n, "compact-date-time") {
            Format::custom(COMPACT_DATE_TIME)
        } else if text_eq(n, "ct") || text_eq(n, "compact-time") {
            Format::custom(COMPACT_TIME)
        } else {
            Format::custom(n)
        }
    }

    /// Create a default [Format]
    pub fn new() -> (r: Format)
        ensures
            r matches Format::Custom(p) && p@ == DEFAULT@,
    {
        Format::Custom(String::from_str(DEFAULT))
    }

    /// Create an RFC 3339 [Format]
    pub fn rfc_3339() -> (r: Format)
        ensures
            r matches Format::Custom(p) && p@ == RFC_3339@,
    {
        Format::Custom(String::from_str(RFC_3339))
    }

    /// Create a custom [Format]
    pub fn custom(s: &str) -> (r: Format)
        ensures
            r matches Format::Custom(p) && p@ == s@,
    {
        Format::Custom(s.to_string())
    }

    /// Format a [Dtg] with a timezone
    fn with(&self, d: &Dtg, zone: &Option<Zone>) -> (r: Option<String>)
        requires
            format_allowed(Some(*self), d.seconds(), zone_view(*zone)),
        ensures
            opt_view(r) == format_text(*self, d.seconds(), d.nanoseconds(), zone_view(*zone)),
            *self is A ==> (r is Some <==> in_range(local_seconds(d.seconds(), zone_view(*zone)))),
            *self is X ==> r is Some,
            *self matches Format::Custom(p) && plain_pattern(p@) && (zone is None || in_range(
                local_seconds(d.seconds(), zone_view(*zone)),
            )) ==> r is Some,
            *self matches Format::Custom(p) && p@ == epoch_pattern() && (zone is None || in_range(
                local_seconds(d.seconds(), zone_view(*zone)),
            )) ==> opt_view(r) == Some(epoch_text(d.seconds(), d.nanoseconds())),
    {
        proof {
            lemma_patterns();
            use_type_invariant(d);
        }
        match self {
            Format::Custom(f) => {
                if text_eq(f.as_str(), RFC_3339) {
                    d.pattern_in(&None, f.as_str())
                } else {
                    d.pattern_in(zone, f.as_str())
                }
            },
            Format::A => {
                let epoch = d.pattern_in(&None, EPOCH);
                let rfc = d.pattern_in(&None, RFC_3339);
                let utc = d.pattern_in(&None, DEFAULT);
                let local = d.pattern_in(zone, DEFAULT);
                match (epoch, rfc, utc, local) {
                    (Some(epoch), Some(rfc), Some(utc), Some(local)) => {
                        let mut out = epoch;
                        out.push('\n');
                        out.append(rfc.as_str());
                        out.push('\n');
                        out.append(utc.as_str());
                        out.push('\n');
                        out.append(local.as_str());
                        Some(out)
                    },
                    _ => None,
                }
            },
            Format::X => Some(self.x(d)),
            Format::BCD => Some(self.bcd(d, zone)),
        }
    }

    /// Format a [Dtg] with "x" format
    fn x(&self, d: &Dtg) -> (r: String)
        ensures
            r@ == x_text(civil_of(d.seconds())),
            all_symbols(r@),
    {
        proof {
            use_type_invariant(d);
        }
        let c = utc_civil(d.secs);
        proof {
            lemma_civil_of(c);
        }
        x_encode(&c)
    }

    /// Format a [Dtg] like a binary clock using the Braille Patterns Unicode Block and `|`
    /// separators
    fn bcd(&self, d: &Dtg, zone: &Option<Zone>) -> (r: String)
        requires
            bcd_renders(d.seconds(), zone_view(*zone)),
        ensures
            r@ == bcd_text(civil_of(local_seconds(d.seconds(), zone_view(*zone)))),
    {
        let local = d.local_secs(zone);
        let c = utc_civil(local);
        proof {
            lemma_civil_of(c);
        }
        bcd_encode(&c)
    }
}

impl Default for Format {
    fn default() -> (r: Format)
        ensures
            r matches Format::Custom(p) && p@ == DEFAULT@,
    {
        Format::new()
    }
}

impl Dtg {
    /// The seconds that the zone's clock shows (UTC when absent), where they are representable.
    fn local_secs(&self, zone: &Option<Zone>) -> (r: i64)
        requires
            in_range(local_seconds(self.seconds(), zone_view(*zone))),
        ensures
            r == local_seconds(self.seconds(), zone_view(*zone)),
    {
        proof {
            use_type_invariant(self);
        }
        match zone {
            Some(z) => self.secs + utc_offset(z.name(), self.secs) as i64,
            None => self.secs,
        }
    }

    /// Whether `format` may be asked for this format in this zone (UTC when absent): the Braille
    /// clock needs the zone's clock to show a year of at most four digits.
    pub fn can_format(&self, fmt: &Option<Format>, tz: &Option<Zone>) -> (r: bool)
        ensures
            r == format_allowed(*fmt, self.seconds(), zone_view(*tz)),
    {
        proof {
            use_type_invariant(self);
        }
        match fmt {
            Some(Format::BCD) => {
                let local: i64 = match tz {
                    Some(z) => self.secs + utc_offset(z.name(), self.secs) as i64,
                    None => self.secs,
                };
                if local < MIN_SECONDS || local > MAX_SECONDS {
                    return false;
                }
                let c = utc_civil(local);
                proof {
                    lemma_civil_of(c);
                }
                -9999 <= c.year && c.year <= 9999
            },
            _ => true,
        }
    }

    /// The text of a pattern in a zone (UTC when absent).
    fn pattern_in(&self, zone: &Option<Zone>, pattern: &str) -> (r: Option<String>)
        ensures
            opt_view(r) == zoned_text(self.seconds(), self.nanoseconds(), zone_view(*zone), pattern@),
            zone is None ==> opt_view(r) == utc_text(self.seconds(), self.nanoseconds(), pattern@),
            plain_pattern(pattern@) && in_range(
                local_seconds(self.seconds(), zone_view(*zone)),
            ) ==> r is Some,
            pattern@ == epoch_pattern() && in_range(
                local_seconds(self.seconds(), zone_view(*zone)),
            ) ==> opt_view(r) == Some(epoch_text(self.seconds(), self.nanoseconds())),
    {
        proof {
            use_type_invariant(self);
        }
        match zone {
            None => strftime(self.secs, self.nanos, None, pattern),
            Some(z) => {
                let name = z.name();
                let local = self.secs + utc_offset(name, self.secs) as i64;
                if local < MIN_SECONDS || local > MAX_SECONDS {
                    None
                } else {
                    strftime(self.secs, self.nanos, Some(name), pattern)
                }
            },
        }
    }

    /// Format as a string with format and timezone; `None` where chrono rejects a pattern or
    /// where the zone's clock leaves the representable span. The Braille clock may only be asked
    /// for where it can draw the instant (see `can_format`).
    pub fn format(&self, fmt: &Option<Format>, tz: &Option<Zone>) -> (r: Option<String>)
        requires
            format_allowed(*fmt, self.seconds(), zone_view(*tz)),
        ensures
            opt_view(r) == render(self.seconds(), self.nanoseconds(), *fmt, zone_view(*tz)),
            fmt is None ==> r is Some,
            fmt matches Some(f) && (f is X || f is BCD) ==> r is Some,
            fmt matches Some(f) && f is A ==> (r is Some <==> in_range(
                local_seconds(self.seconds(), zone_view(*tz)),
            )),
            fmt matches Some(Format::Custom(p)) && plain_pattern(p@) && (tz is None || in_range(
                local_seconds(self.seconds(), zone_view(*tz)),
            )) ==> r is Some,
            fmt matches Some(Format::Custom(p)) && p@ == epoch_pattern() && (tz is None
                || in_range(local_seconds(self.seconds(), zone_view(*tz)))) ==> opt_view(r) == Some(
                epoch_text(self.seconds(), self.nanoseconds()),
            ),
    {
        proof {
            use_type_invariant(self);
        }
        match fmt {
            Some(f) => f.with(self, tz),
            None => {
                proof {
                    lemma_patterns();
                }
                self.pattern_in(&None, RFC_3339)
            },
        }
    }

    /// Format in the default pattern, in the zone (UTC when absent); `None` where the zone's
    /// clock leaves the representable span.
    pub fn default(&self, tz: &Option<Zone>) -> (r: Option<String>)
        ensures
            opt_view(r) == zoned_text(self.seconds(), self.nanoseconds(), zone_view(*tz), DEFAULT@),
            r is Some <==> in_range(local_seconds(self.seconds(), zone_view(*tz))),
    {
        proof {
            lemma_patterns();
        }
        self.pattern_in(tz, DEFAULT)
    }

    /// Format as an RFC 3339 string
    pub fn rfc_3339(&self) -> (r: String)
        ensures
            utc_text(self.seconds(), self.nanoseconds(), RFC_3339@) == Some(r@),
    {
        proof {
            lemma_patterns();
            use_type_invariant(self);
        }
        self.pattern_in(&None, RFC_3339).unwrap()
    }

    /// Format as "x" format
    pub fn x_format(&self) -> (r: String)
        ensures
            r@ == x_text(civil_of(self.seconds())),
            all_symbols(r@),
    {
        Format::X.x(self)
    }

    /// Format as "a" format; `None` where the zone's clock leaves the representable span.
    pub fn a_format(&self, tz: &Option<Zone>) -> (r: Option<String>)
        ensures
            opt_view(r) == format_text(Format::A, self.seconds(), self.nanoseconds(), zone_view(*tz)),
            r is Some <==> in_range(local_seconds(self.seconds(), zone_view(*tz))),
    {
        proof {
            lemma_patterns();
            use_type_invariant(self);
        }
        Format::A.with(self, tz)
    }

    /// Format like a binary clock using the Braille Patterns Unicode Block and `|` separators,
    /// in UTC; the year must have at most four digits.
    pub fn bcd_format(&self) -> (r: String)
        requires
            bcd_year_fits(civil_of(self.seconds()).year as int),
        ensures
            r@ == bcd_text(civil_of(self.seconds())),
    {
        proof {
            use_type_invariant(self);
        }
        Format::BCD.bcd(self, &None)
    }
}


/// Reading back the `%s.%f` text of an instant gives the same instant. A leap second is left
/// out: its fraction of a second or more does not fit the nine digits.
pub proof fn lemma_decimal_round_trip(secs: int, nanos: int)
    requires
        instant_ok(secs, nanos),
        nanos < 1_000_000_000,
    ensures
        decimal_parts(epoch_text(secs, nanos)) == Some((secs, nanos)),
{
    let head = int_text(secs);
    let tail = zero_padded(nanos as nat, 9);
    let s = epoch_text(secs, nanos);
    lemma_int_text(secs);
    assert(pow10(9) == 1_000_000_000) by {
        reveal_with_fuel(pow10, 10);
    }
    lemma_zero_padded(nanos as nat, 9);
    assert(s =~= head + seq!['.'] + tail);
    assert forall|j: int| 0 <= j < head.len() implies s[j] != '.' by {
        assert(s[j] == head[j]);
    }
    lemma_first_index(s, '.', head.len() as int);
    assert(s.take(head.len() as int) =~= head);
    assert(s.skip(head.len() as int + 1) =~= tail);
    assert(nine_digits(tail) =~= tail);
    assert(crate::text::is_digit(tail[0]));
}

/// Reading back the "x" text of a whole-second instant of a year in 0..=262143 gives the same
/// instant.
pub proof fn lemma_x_format_round_trip(secs: int)
    requires
        MIN_SECONDS <= secs <= MAX_SECONDS,
        0 <= civil_of(secs).year <= X_MAX_YEAR,
    ensures
        x_seconds(x_text(civil_of(secs))) == Some(secs),
{
    assert(civil_span_start() <= MIN_SECONDS);
    assert(MAX_SECONDS < civil_span_end());
    lemma_civil_of_secs(secs);
    lemma_x_round_trip(civil_of(secs));
}

} // verus!
