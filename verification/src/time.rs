//! Points in time (UTC) and spans of whole seconds.

use chrono::{DateTime, Utc};
use vstd::prelude::*;

verus! {

/// Whether chrono can represent the UTC instant `secs` seconds after the Unix
/// epoch plus `nanos` nanoseconds (a leap second carries `nanos` of one
/// second or more).
pub uninterp spec fn chrono_accepts_spec(secs: i64, nanos: u32) -> bool;

/// The RFC 3339 text that chrono writes for that instant.
pub uninterp spec fn rfc3339_spec(secs: i64, nanos: u32) -> Seq<char>;

/// Calls `chrono::DateTime::<Utc>::from_timestamp`; claims that the result
/// tells whether chrono accepts the pair, which is given a name here.
#[verifier::external_body]
fn chrono_accepts(secs: i64, nanos: u32) -> (b: bool)
    ensures
        b == chrono_accepts_spec(secs, nanos),
{
    DateTime::<Utc>::from_timestamp(secs, nanos).is_some()
}

/// Calls `DateTime::<Utc>::from_timestamp` and then `to_rfc3339`; claims
/// that the text is the one named `rfc3339_spec` for the pair. The pair must
/// be one chrono accepts, so the conversion never fails.
#[verifier::external_body]
fn chrono_rfc3339(secs: i64, nanos: u32) -> (s: String)
    requires
        chrono_accepts_spec(secs, nanos),
    ensures
        s@ == rfc3339_spec(secs, nanos),
{
    DateTime::<Utc>::from_timestamp(secs, nanos).unwrap().to_rfc3339()
}

/// The UTC instant (seconds and nanoseconds) that chrono reads from an
/// RFC 3339 text, if it parses.
pub uninterp spec fn rfc3339_parse_spec(text: Seq<char>) -> Option<(i64, u32)>;

/// Calls `chrono::DateTime::parse_from_rfc3339` and converts the result to
/// UTC seconds and nanoseconds; claims that it parses exactly when the
/// name above gives an instant, that instant, and that chrono accepts it
/// (it came from a `DateTime`). The error's text is chrono's and is not
/// described.
#[verifier::external_body]
fn chrono_parse_rfc3339(text: &str) -> (r: Result<(i64, u32), String>)
    ensures
        r is Ok <==> rfc3339_parse_spec(text@) is Some,
        r matches Ok(v) ==> rfc3339_parse_spec(text@) == Some(v) && chrono_accepts_spec(v.0, v.1),
{
    match DateTime::parse_from_rfc3339(text) {
        Ok(dt) => {
            let u = dt.with_timezone(&Utc);
            Ok((u.timestamp(), u.timestamp_subsec_nanos()))
        },
        Err(e) => Err(e.to_string()),
    }
}

/// Calls `chrono::Utc::now`; claims only that chrono accepts the instant it
/// returns and that its nanoseconds are below one second. Which instant it
/// is depends on the clock and is not stated.
#[verifier::external_body]
fn chrono_now() -> (r: (i64, u32))
    ensures
        chrono_accepts_spec(r.0, r.1),
        r.1 < 1_000_000_000,
{
    let now = Utc::now();
    (now.timestamp(), now.timestamp_subsec_nanos())
}

/// A UTC instant: whole seconds since the Unix epoch and nanoseconds within
/// the second. Only instants that chrono can represent exist.
#[derive(Clone, Copy, Debug, PartialEq, Eq, Hash)]
pub struct Timestamp {
    secs: i64,
    nanos: u32,
}

impl Timestamp {
    #[verifier::type_invariant]
    spec fn well_formed(self) -> bool {
        chrono_accepts_spec(self.secs, self.nanos)
    }

    /// Seconds since the Unix epoch.
    pub closed spec fn secs_spec(self) -> i64 {
        self.secs
    }

    /// Nanoseconds within the second.
    pub closed spec fn nanos_spec(self) -> u32 {
        self.nanos
    }

    /// The instant as a pair ordered the way time runs.
    pub open spec fn key(self) -> (i64, u32) {
        (self.secs_spec(), self.nanos_spec())
    }

    /// The RFC 3339 text of this instant.
    pub open spec fn text(self) -> Seq<char> {
        rfc3339_spec(self.secs_spec(), self.nanos_spec())
    }

    /// The current instant.
    pub fn now() -> (t: Self)
        ensures
            t.nanos_spec() < 1_000_000_000,
    {
        let (secs, nanos) = chrono_now();
        Timestamp { secs, nanos }
    }

    /// The instant `secs` seconds plus `nanos` nanoseconds after the epoch,
    /// or `None` where chrono cannot represent it.
    pub fn from_unix(secs: i64, nanos: u32) -> (r: Option<Self>)
        ensures
            r is Some <==> chrono_accepts_spec(secs, nanos),
            r matches Some(t) ==> t.secs_spec() == secs && t.nanos_spec() == nanos,
    {
        if chrono_accepts(secs, nanos) {
            Some(Timestamp { secs, nanos })
        } else {
            None
        }
    }

    /// The instant an RFC 3339 text names, as chrono parses it; chrono's
    /// error message when it does not parse.
    pub fn parse_rfc3339(text: &str) -> (r: Result<Self, String>)
        ensures
            r is Ok <==> rfc3339_parse_spec(text@) is Some,
            r matches Ok(t) ==> rfc3339_parse_spec(text@) == Some(t.key()),
    {
        match chrono_parse_rfc3339(text) {
            Ok((secs, nanos)) => Ok(Timestamp { secs, nanos }),
            Err(e) => Err(e),
        }
    }

    /// Seconds since the Unix epoch.
    pub fn secs(&self) -> (r: i64)
        ensures
            r == self.secs_spec(),
            chrono_accepts_spec(self.secs_spec(), self.nanos_spec()),
    {
        proof {
            use_type_invariant(self);
        }
        self.secs
    }

    /// Nanoseconds within the second.
    pub fn nanos(&self) -> (r: u32)
        ensures
            r == self.nanos_spec(),
    {
        self.nanos
    }

    /// The RFC 3339 text of this instant, as chrono writes it.
    pub fn to_rfc3339(&self) -> (s: String)
        ensures
            s@ == self.text(),
    {
        proof {
            use_type_invariant(self);
        }
        chrono_rfc3339(self.secs, self.nanos)
    }

    /// Whether `self` comes strictly later than `other`.
    pub fn is_after(&self, other: &Timestamp) -> (r: bool)
        ensures
            r == key_after(self.key(), other.key()),
    {
        self.secs > other.secs || (self.secs == other.secs && self.nanos > other.nanos)
    }
}

/// Whether instant `a` comes strictly later than instant `b`.
pub open spec fn key_after(a: (i64, u32), b: (i64, u32)) -> bool {
    a.0 > b.0 || (a.0 == b.0 && a.1 > b.1)
}

/// The largest number of whole seconds that a chrono duration can hold.
pub const MAX_DURATION_SECS: i64 = 9_223_372_036_854_775;

/// A signed span of time as chrono holds it: whole seconds (rounded down)
/// and nanoseconds below one second, within chrono's bounds of
/// `i64::MAX` milliseconds either way.
#[derive(Clone, Copy, Debug, PartialEq, Eq, Hash)]
pub struct Duration {
    secs: i64,
    nanos: u32,
}

/// The span's length in nanoseconds.
pub open spec fn total_nanos(secs: int, nanos: int) -> int {
    secs * 1_000_000_000 + nanos
}

/// The bound on a span's length in nanoseconds: `i64::MAX` milliseconds.
pub open spec fn max_duration_nanos() -> int {
    i64::MAX as int * 1_000_000
}

impl Duration {
    #[verifier::type_invariant]
    spec fn well_formed(self) -> bool {
        &&& self.nanos < 1_000_000_000
        &&& -max_duration_nanos() <= total_nanos(self.secs as int, self.nanos as int)
            <= max_duration_nanos()
    }

    /// The whole seconds of the span, rounded down.
    pub closed spec fn secs_spec(self) -> i64 {
        self.secs
    }

    /// The nanoseconds beyond the whole seconds, below one second.
    pub closed spec fn nanos_spec(self) -> u32 {
        self.nanos
    }

    /// The span in whole seconds, rounded toward zero (chrono's
    /// `num_seconds`).
    pub open spec fn num_seconds_spec(self) -> int {
        if self.secs_spec() < 0 && self.nanos_spec() > 0 {
            self.secs_spec() + 1
        } else {
            self.secs_spec() as int
        }
    }

    /// A span of `secs` seconds.
    pub fn seconds(secs: i64) -> (d: Self)
        requires
            -MAX_DURATION_SECS <= secs <= MAX_DURATION_SECS,
        ensures
            d.secs_spec() == secs,
            d.nanos_spec() == 0,
    {
        Duration { secs, nanos: 0 }
    }

    /// A span of `m` minutes.
    pub fn minutes(m: i64) -> (d: Self)
        requires
            -MAX_DURATION_SECS <= m * 60 <= MAX_DURATION_SECS,
        ensures
            d.secs_spec() == m * 60,
            d.nanos_spec() == 0,
    {
        Duration { secs: m * 60, nanos: 0 }
    }

    /// A span of `h` hours.
    pub fn hours(h: i64) -> (d: Self)
        requires
            -MAX_DURATION_SECS <= h * 3600 <= MAX_DURATION_SECS,
        ensures
            d.secs_spec() == h * 3600,
            d.nanos_spec() == 0,
    {
        Duration { secs: h * 3600, nanos: 0 }
    }

    /// A span of `days` days of 86 400 seconds.
    pub fn days(days: i64) -> (d: Self)
        requires
            -MAX_DURATION_SECS <= days * 86400 <= MAX_DURATION_SECS,
        ensures
            d.secs_spec() == days * 86400,
            d.nanos_spec() == 0,
    {
        Duration { secs: days * 86400, nanos: 0 }
    }

    /// A span of `ms` milliseconds (any but `i64::MIN`, which chrono does
    /// not hold).
    pub fn milliseconds(ms: i64) -> (d: Self)
        requires
            ms > i64::MIN,
        ensures
            total_nanos(d.secs_spec() as int, d.nanos_spec() as int) == ms * 1_000_000,
            d.nanos_spec() < 1_000_000_000,
    {
        let mut secs = ms / 1000;
        let mut rem = ms % 1000;
        if rem < 0 {
            rem = rem + 1000;
            secs = secs - 1;
        }
        let nanos = (rem as u32) * 1_000_000;
        assert(ms == secs * 1000 + rem);
        Duration { secs, nanos }
    }

    /// The span in whole seconds, rounded toward zero.
    pub fn num_seconds(&self) -> (r: i64)
        ensures
            r == self.num_seconds_spec(),
            -MAX_DURATION_SECS <= r <= MAX_DURATION_SECS,
    {
        proof {
            use_type_invariant(self);
        }
        if self.secs < 0 && self.nanos > 0 {
            self.secs + 1
        } else {
            self.secs
        }
    }

    /// The nanoseconds beyond the whole seconds.
    pub fn subsec_nanos(&self) -> (r: u32)
        ensures
            r == self.nanos_spec(),
            r < 1_000_000_000,
    {
        proof {
            use_type_invariant(self);
        }
        self.nanos
    }

    /// The whole seconds, rounded down.
    pub(crate) fn whole_seconds_floor(&self) -> (r: i64)
        ensures
            r == self.secs_spec(),
            -MAX_DURATION_SECS - 1 <= r <= MAX_DURATION_SECS,
    {
        proof {
            use_type_invariant(self);
        }
        self.secs
    }
}

} // verus!
