//! Points in time, held as whole seconds since the Unix epoch plus a
//! sub-second part in nanoseconds, in UTC.

use vstd::prelude::*;

verus! {

/// The smallest count of seconds that chrono can represent as a UTC date-time
/// (January 1 of year -262143, 00:00:00).
pub const MIN_TIMESTAMP_SECS: i64 = -8334601228800i64;

/// The largest count of seconds that chrono can represent as a UTC date-time
/// (December 31 of year 262142, 23:59:59).
pub const MAX_TIMESTAMP_SECS: i64 = 8210266876799i64;

/// Day number (days since January 1 of year 1) of January 1, 1970.
pub const UNIX_EPOCH_DAY: i64 = 719163i64;

/// A UTC point in time: `secs` whole seconds since 1970-01-01T00:00:00Z and
/// `nanos` nanoseconds past that second.  A value of `nanos` of one billion or
/// more marks a leap second, as chrono does.
#[derive(Clone, Copy, Debug, PartialEq, Eq, Structural)]
pub struct Timestamp {
    pub secs: i64,
    pub nanos: u32,
}

impl Timestamp {
    /// The value is one that a chrono `DateTime<Utc>` can hold.
    pub open spec fn wf(self) -> bool {
        &&& MIN_TIMESTAMP_SECS <= self.secs <= MAX_TIMESTAMP_SECS
        &&& self.nanos < 2_000_000_000
        &&& self.nanos >= 1_000_000_000 ==> self.secs % 60 == 59
    }

    /// Chronological order: `self` is not later than `other`.
    pub open spec fn not_after(self, other: Timestamp) -> bool {
        ||| self.secs < other.secs
        ||| (self.secs == other.secs && self.nanos <= other.nanos)
    }

    /// The UTC calendar day of this point in time, counted from 1970-01-01.
    pub open spec fn utc_day(self) -> int {
        self.secs as int / 86400
    }

    /// Builds a timestamp, refusing values that no UTC date-time can hold.
    pub fn from_parts(secs: i64, nanos: u32) -> (r: Option<Timestamp>)
        ensures
            r matches Some(t) ==> t.secs == secs && t.nanos == nanos,
            r is Some <==> (Timestamp { secs, nanos }).wf(),
    {
        let t = Timestamp { secs, nanos };
        let last_second_of_minute = match secs.checked_rem_euclid(60) {
            Some(r) => r == 59,
            None => false,
        };
        let ok = MIN_TIMESTAMP_SECS <= secs && secs <= MAX_TIMESTAMP_SECS && nanos < 2_000_000_000
            && (nanos < 1_000_000_000 || last_second_of_minute);
        if ok {
            Some(t)
        } else {
            None
        }
    }

    /// Whether `self` is not later than `other`.
    pub fn is_not_after(&self, other: &Timestamp) -> (r: bool)
        ensures
            r == self.not_after(*other),
    {
        self.secs < other.secs || (self.secs == other.secs && self.nanos <= other.nanos)
    }
}

/// Reads the system clock through chrono's `Utc::now()` and returns its
/// seconds (`DateTime::timestamp`) and sub-second nanoseconds
/// (`DateTime::timestamp_subsec_nanos`).  Claimed: the result is a value a
/// `DateTime<Utc>` can hold.  Nothing is claimed of which instant it is.
#[verifier::external_body]
pub(crate) fn current_time() -> (now: Timestamp)
    ensures
        now.wf(),
{
    let now = chrono::Utc::now();
    Timestamp { secs: now.timestamp(), nanos: now.timestamp_subsec_nanos() }
}

/// Calls chrono's `DateTime::<Utc>::from_timestamp(secs, nanos)`, then
/// `date_naive()` and `Datelike::num_days_from_ce()`.  Claimed: for a value
/// that `from_timestamp` accepts (which `wf` states, after chrono's source),
/// the day number is the Euclidean quotient of the seconds by 86400 plus the
/// day number of 1970-01-01, as `from_timestamp` computes it.
#[verifier::external_body]
fn utc_day_from_ce(t: Timestamp) -> (day: i32)
    requires
        t.wf(),
    ensures
        day == t.utc_day() + UNIX_EPOCH_DAY,
{
    let dt = chrono::DateTime::<chrono::Utc>::from_timestamp(t.secs, t.nanos).unwrap();
    chrono::Datelike::num_days_from_ce(&dt.date_naive())
}

/// Whether two points in time fall on the same UTC calendar day.
pub fn same_utc_day(a: Timestamp, b: Timestamp) -> (r: bool)
    requires
        a.wf(),
        b.wf(),
    ensures
        r == (a.utc_day() == b.utc_day()),
{
    utc_day_from_ce(a) == utc_day_from_ce(b)
}

/// The text that chrono's `format("%Y-%m-%d")` gives for the UTC date of the
/// point in time `secs`, `nanos`.
pub uninterp spec fn utc_date_text(secs: i64, nanos: u32) -> Seq<char>;

/// Formats the UTC date of `t` with chrono's `format("%Y-%m-%d")`.  Claimed:
/// the text is `utc_date_text` of the two parts of `t`; what that text is
/// character by character is left to chrono.
#[verifier::external_body]
pub(crate) fn format_utc_date(t: Timestamp) -> (text: String)
    requires
        t.wf(),
    ensures
        text@ == utc_date_text(t.secs, t.nanos),
{
    let dt = chrono::DateTime::<chrono::Utc>::from_timestamp(t.secs, t.nanos).unwrap();
    dt.format("%Y-%m-%d").to_string()
}

} // verus!
