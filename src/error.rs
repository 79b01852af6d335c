//! The error that parsing, zone lookup and formatting report.
use vstd::prelude::*;
use vstd::string::StringExecFns;

verus! {

/// An error with a numeric code and a message.
///
/// * 101: invalid timestamp
/// * 102: invalid timezone
/// * 103: failed to get the local timezone
/// * 104: no timezone matches a search
/// * 105: a format cannot render a timestamp
#[derive(Debug)]
pub struct DtgError {
    pub code: usize,
    pub message: String,
}

pub const INVALID_TIMESTAMP: usize = 101;

pub const INVALID_TIMEZONE: usize = 102;

pub const LOCAL_ZONE_UNAVAILABLE: usize = 103;

pub const ZERO_ZONES_FOUND: usize = 104;

pub const UNRENDERABLE: usize = 105;

/// `prefix`, then the offending input between backquotes.
pub open spec fn quoted(prefix: Seq<char>, raw: Seq<char>) -> Seq<char> {
    prefix + seq!['`'] + raw + seq!['`']
}

pub open spec fn invalid_timestamp_message(raw: Seq<char>) -> Seq<char> {
    quoted("Invalid timestamp: "@, raw)
}

pub open spec fn invalid_timezone_message(raw: Seq<char>) -> Seq<char> {
    quoted("Invalid timezone: "@, raw)
}

pub open spec fn local_zone_message() -> Seq<char> {
    "Failed to get local timezone"@
}

pub open spec fn zero_zones_message(search: Seq<char>) -> Seq<char> {
    quoted("Zero timezones found matching "@, search)
}

pub open spec fn unrenderable_message(raw: Seq<char>) -> Seq<char> {
    quoted("Cannot format timestamp: "@, raw)
}

impl DtgError {
    /// Whether this error has the given code and message.
    pub open spec fn is(&self, code: usize, message: Seq<char>) -> bool {
        self.code == code && self.message@ == message
    }

    /// Create error
    pub fn new(message: &str, code: usize) -> (r: DtgError)
        ensures
            r.is(code, message@),
    {
        DtgError { code, message: message.to_string() }
    }

    /// An error of `code` whose message is `prefix` followed by `raw` between backquotes.
    pub fn quoting(prefix: &str, raw: &str, code: usize) -> (r: DtgError)
        ensures
            r.is(code, quoted(prefix@, raw@)),
    {
        let mut message = String::from_str(prefix);
        message.push('`');
        message.append(raw);
        message.push('`');
        assert(message@ =~= quoted(prefix@, raw@));
        DtgError { code, message }
    }

    pub fn invalid_timestamp(raw: &str) -> (r: DtgError)
        ensures
            r.is(INVALID_TIMESTAMP, invalid_timestamp_message(raw@)),
    {
        DtgError::quoting("Invalid timestamp: ", raw, INVALID_TIMESTAMP)
    }

    pub fn invalid_timezone(raw: &str) -> (r: DtgError)
        ensures
            r.is(INVALID_TIMEZONE, invalid_timezone_message(raw@)),
    {
        DtgError::quoting("Invalid timezone: ", raw, INVALID_TIMEZONE)
    }

    pub fn local_zone_unavailable() -> (r: DtgError)
        ensures
            r.is(LOCAL_ZONE_UNAVAILABLE, local_zone_message()),
    {
        DtgError::new("Failed to get local timezone", LOCAL_ZONE_UNAVAILABLE)
    }

    pub fn zero_zones_found(search: &str) -> (r: DtgError)
        ensures
            r.is(ZERO_ZONES_FOUND, zero_zones_message(search@)),
    {
        DtgError::quoting("Zero timezones found matching ", search, ZERO_ZONES_FOUND)
    }

    pub fn unrenderable(raw: &str) -> (r: DtgError)
        ensures
            r.is(UNRENDERABLE, unrenderable_message(raw@)),
    {
        DtgError::quoting("Cannot format timestamp: ", raw, UNRENDERABLE)
    }
}

impl PartialEq for DtgError {
    fn eq(&self, other: &DtgError) -> (r: bool) {
        self.code == other.code && self.message == other.message
    }
}

impl vstd::std_specs::cmp::PartialEqSpecImpl for DtgError {
    open spec fn obeys_eq_spec() -> bool {
        true
    }

    open spec fn eq_spec(&self, other: &DtgError) -> bool {
        self.code == other.code && self.message@ == other.message@
    }
}

} // verus!
