//! Points in time, as seconds and nanoseconds since the Unix epoch in UTC.

use vstd::prelude::*;

verus! {

/// The last second of the year 9999, in seconds since the epoch.
pub const MAX_SECONDS: i64 = 253_402_300_799;

/// The nanoseconds in a second.
pub const NANOS_PER_SECOND: u32 = 1_000_000_000;

/// The nanoseconds in a minute.
pub const NANOS_PER_MINUTE: i64 = 60_000_000_000;

/// A point in time between the epoch and the end of the year 9999, with
/// nanosecond precision and without leap seconds.
#[derive(Clone, Copy, Debug, PartialEq, Eq, Structural)]
pub struct Timestamp {
    secs: i64,
    nanos: u32,
}

/// Whether `secs` and `nanos` denote a point in time that a [`Timestamp`]
/// can hold.
pub open spec fn in_range(secs: int, nanos: int) -> bool {
    0 <= secs <= MAX_SECONDS && 0 <= nanos < NANOS_PER_SECOND
}

/// `d` nanoseconds in whole minutes, rounded towards zero.
pub open spec fn whole_minutes(d: int) -> int {
    if d >= 0 {
        d / (NANOS_PER_MINUTE as int)
    } else {
        -((-d) / (NANOS_PER_MINUTE as int))
    }
}

/// The text that a point in time is written as in UTC: date, time of day
/// with the fraction of a second that is needed, and the zone. It is what
/// the calendar library prints for it.
pub uninterp spec fn utc_text(secs: int, nanos: int) -> Seq<char>;

impl Timestamp {
    /// The whole seconds since the epoch.
    pub closed spec fn secs(self) -> int {
        self.secs as int
    }

    /// The nanoseconds since the last whole second.
    pub closed spec fn nanos(self) -> int {
        self.nanos as int
    }

    /// Whether the value is within the range of the type. Every value that
    /// the program holds is.
    pub open spec fn valid(self) -> bool {
        in_range(self.secs(), self.nanos())
    }

    #[verifier::type_invariant]
    closed spec fn holds(self) -> bool {
        in_range(self.secs as int, self.nanos as int)
    }

    /// The nanoseconds since the epoch.
    pub open spec fn total_nanos(self) -> int {
        self.secs() * (NANOS_PER_SECOND as int) + self.nanos()
    }

    /// The point in time `secs` seconds and `nanos` nanoseconds after the
    /// epoch; `None` exactly where that is out of range.
    pub fn new(secs: i64, nanos: u32) -> (t: Option<Timestamp>)
        ensures
            t is Some == in_range(secs as int, nanos as int),
            t is Some ==> t->Some_0.secs() == secs && t->Some_0.nanos() == nanos
                && t->Some_0.valid(),
    {
        if 0 <= secs && secs <= MAX_SECONDS && nanos < NANOS_PER_SECOND {
            Some(Timestamp { secs, nanos })
        } else {
            None
        }
    }

    /// The whole seconds since the epoch.
    pub fn seconds(&self) -> (s: i64)
        ensures
            s == self.secs(),
            self.valid(),
    {
        proof {
            use_type_invariant(self);
        }
        self.secs
    }

    /// The nanoseconds since the last whole second.
    pub fn subsec_nanos(&self) -> (n: u32)
        ensures
            n == self.nanos(),
            self.valid(),
    {
        proof {
            use_type_invariant(self);
        }
        self.nanos
    }

    /// The whole minutes from `earlier` to `self`, rounded towards zero;
    /// negative where `earlier` is the later one.
    pub fn minutes_since(&self, earlier: &Timestamp) -> (m: i64)
        ensures
            m == whole_minutes(self.total_nanos() - earlier.total_nanos()),
    {
        proof {
            use_type_invariant(self);
            use_type_invariant(earlier);
        }
        minutes_between(self.secs, self.nanos, earlier.secs, earlier.nanos)
    }

    /// The text of this point in time, as [`utc_text`] names it.
    pub fn to_text(&self) -> (s: String)
        ensures
            s@ == utc_text(self.secs(), self.nanos()),
    {
        proof {
            use_type_invariant(self);
        }
        format_utc(self.secs, self.nanos)
    }
}

/// The whole minutes between two points in time.
///
/// Trusted: this is `DateTime::signed_duration_since` of chrono followed
/// by `TimeDelta::num_minutes`, on values made by
/// `DateTime::from_timestamp`, which accepts every point in range. For
/// points without leap seconds the duration is the exact difference, and
/// the whole minutes are the whole seconds, rounded towards zero, divided
/// by sixty, rounded towards zero.
#[verifier::external_body]
fn minutes_between(secs: i64, nanos: u32, earlier_secs: i64, earlier_nanos: u32) -> (m: i64)
    requires
        in_range(secs as int, nanos as int),
        in_range(earlier_secs as int, earlier_nanos as int),
    ensures
        m == whole_minutes(
            (secs * NANOS_PER_SECOND + nanos) - (earlier_secs * NANOS_PER_SECOND + earlier_nanos),
        ),
{
    let later = chrono::DateTime::from_timestamp(secs, nanos).unwrap();
    let earlier = chrono::DateTime::from_timestamp(earlier_secs, earlier_nanos).unwrap();
    later.signed_duration_since(earlier).num_minutes()
}

/// The text of a point in time in UTC.
///
/// Trusted: this is the `Display` of chrono's `DateTime<Utc>`, on a value
/// made by `DateTime::from_timestamp`, which accepts every point in
/// range. The text depends on the point alone, so it has a name; nothing
/// else is claimed of it.
#[verifier::external_body]
fn format_utc(secs: i64, nanos: u32) -> (s: String)
    requires
        in_range(secs as int, nanos as int),
    ensures
        s@ == utc_text(secs as int, nanos as int),
{
    chrono::DateTime::from_timestamp(secs, nanos).unwrap().to_string()
}

} // verus!
