//! Timezone-aware timestamps, modelled as a Unix instant in whole seconds
//! together with the local offset they are presented in. Equality and order
//! follow the instant alone; the offset never influences scheduling.

use vstd::prelude::*;

verus! {

/// Largest magnitude (in seconds) an instant may have while still leaving
/// headroom for offset arithmetic in `i64`.
pub const MAX_INSTANT_SECS: i64 = 0x1000_0000_0000_0000;

/// An instant in time: seconds since the Unix epoch, plus the offset
/// (seconds east of UTC) used when the instant is rendered for people.
#[derive(Clone, Copy, Debug)]
pub struct Timestamp {
    /// Seconds since 1970-01-01T00:00:00Z.
    pub secs: i64,
    /// Seconds east of UTC; presentation only.
    pub tz_secs: i32,
}

impl Timestamp {
    /// The instant is small enough that sums with offsets stay inside `i64`.
    pub open spec fn bounded(self) -> bool {
        -MAX_INSTANT_SECS <= self.secs <= MAX_INSTANT_SECS
    }

    /// Builds the timestamp for a UTC instant.
    pub fn from_epoch_secs(secs: i64) -> (r: Timestamp)
        ensures
            r.secs == secs,
            r.tz_secs == 0,
    {
        Timestamp { secs, tz_secs: 0 }
    }

    /// Builds a timestamp with an explicit presentation offset.
    pub fn with_offset(secs: i64, tz_secs: i32) -> (r: Timestamp)
        ensures
            r.secs == secs,
            r.tz_secs == tz_secs,
    {
        Timestamp { secs, tz_secs }
    }

    /// True when offset arithmetic on this instant cannot overflow.
    pub fn is_bounded(&self) -> (r: bool)
        ensures
            r == self.bounded(),
    {
        -MAX_INSTANT_SECS <= self.secs && self.secs <= MAX_INSTANT_SECS
    }
}

/// Two timestamps are equal exactly when they denote the same instant; the
/// presentation offset is ignored, as the schedule's consumers only ever
/// compare instants.
impl PartialEq for Timestamp {
    fn eq(&self, other: &Timestamp) -> (r: bool) {
        self.secs == other.secs
    }
}

impl vstd::std_specs::cmp::PartialEqSpecImpl for Timestamp {
    open spec fn obeys_eq_spec() -> bool {
        true
    }

    open spec fn eq_spec(&self, other: &Timestamp) -> bool {
        self.secs == other.secs
    }
}

/// The instant and offset an RFC 3339 string denotes, if it is one. The
/// value depends on the string alone.
pub uninterp spec fn rfc3339_instant(s: Seq<char>) -> Option<(i64, i32)>;

/// The UTC instant a local-naive string denotes when read with the given
/// strftime format. The value depends on the string and format alone.
pub uninterp spec fn naive_instant(s: Seq<char>, fmt: Seq<char>) -> Option<i64>;

/// Relies on chrono's `DateTime::parse_from_rfc3339`, `DateTime::timestamp`
/// and `FixedOffset::local_minus_utc`: parses an RFC 3339 string into its
/// Unix instant and timezone offset, a pure function of the string.
#[verifier::external_body]
fn parse_rfc3339_instant(s: &str) -> (r: Option<(i64, i32)>)
    ensures
        r == rfc3339_instant(s@),
{
    match chrono::DateTime::parse_from_rfc3339(s) {
        Ok(t) => Some((t.timestamp(), t.offset().local_minus_utc())),
        Err(_) => None,
    }
}

/// Relies on chrono's `NaiveDateTime::parse_from_str` and
/// `NaiveDateTime::and_utc`: parses a naive date-and-time string with a
/// strftime format and reads it as UTC, a pure function of its arguments.
#[verifier::external_body]
fn parse_naive_instant(s: &str, fmt: &str) -> (r: Option<i64>)
    ensures
        r == naive_instant(s@, fmt@),
{
    match chrono::NaiveDateTime::parse_from_str(s, fmt) {
        Ok(t) => Some(t.and_utc().timestamp()),
        Err(_) => None,
    }
}

/// The strftime shape of the upstream source's non-standard timestamps.
pub open spec fn naive_fallback_fmt() -> Seq<char> {
    "%Y-%m-%d %H:%M:%S"@
}

fn fallback_fmt() -> (r: &'static str)
    ensures
        r@ == naive_fallback_fmt(),
{
    "%Y-%m-%d %H:%M:%S"
}

/// What parsing a timestamp string yields: the RFC 3339 reading when the
/// string has one; otherwise the local-naive fallback reading, corrected by
/// subtracting a fixed one-hour skew and tagged with a fixed +01:00 offset —
/// an upstream data quirk reproduced deliberately; otherwise nothing.
pub open spec fn spec_parse_timestamp(s: Seq<char>) -> Option<Timestamp> {
    match rfc3339_instant(s) {
        Some((secs, tz)) => Some(Timestamp { secs, tz_secs: tz }),
        None => match naive_instant(s, naive_fallback_fmt()) {
            Some(n) => if n - 3600 >= i64::MIN {
                Some(Timestamp { secs: (n - 3600) as i64, tz_secs: 3600 })
            } else {
                None
            },
            None => None,
        },
    }
}

/// Parses a timestamp: strict RFC 3339, with a literal
/// "YYYY-MM-DD HH:MM:SS" local-naive form accepted as fallback, skew-corrected
/// by one hour and tagged +01:00.
pub fn parse_timestamp_string(s: &str) -> (r: Option<Timestamp>)
    ensures
        r == spec_parse_timestamp(s@),
{
    match parse_rfc3339_instant(s) {
        Some((secs, tz)) => Some(Timestamp { secs, tz_secs: tz }),
        None => match parse_naive_instant(s, fallback_fmt()) {
            Some(n) => match n.checked_sub(3600) {
                Some(v) => Some(Timestamp { secs: v, tz_secs: 3600 }),
                None => None,
            },
            None => None,
        },
    }
}

} // verus!
