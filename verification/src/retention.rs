//! Retention policies for audit chains.
//!
//! Retention works by rotating the chain: entries that fall outside the
//! retention window are archived, and the chain continues with only the
//! retained entries, linked to the last archived one.

use vstd::prelude::*;

use crate::entry::AuditEntry;
use crate::text::{push_str, string_of};
use crate::time::{chrono_accepts_spec, rfc3339_parse_spec, Duration, Timestamp, MAX_DURATION_SECS};

verus! {

/// A retention policy that determines which entries to keep.
#[derive(Clone, Copy, Debug, PartialEq, Eq)]
#[non_exhaustive]
pub enum RetentionPolicy {
    /// Keep the most recent N entries.
    KeepCount(usize),
    /// Keep entries newer than this span before now (older ones are
    /// archived with everything before them).
    KeepDuration(Duration),
    /// Keep entries strictly newer than this instant (older ones are
    /// archived with everything before them).
    KeepAfter(Timestamp),
}

/// Whether entry `e` comes strictly after the instant `(secs, nanos)`.
pub open spec fn after_point(e: AuditEntry, secs: int, nanos: int) -> bool {
    e.timestamp.secs_spec() > secs || (e.timestamp.secs_spec() == secs && e.timestamp.nanos_spec()
        > nanos)
}

/// Whether `k` is where the entries newer than `(secs, nanos)` begin once
/// every older one is archived: every entry from `k` on is newer, and the
/// entry just before `k`, if any, is not. Entries are archived as a prefix,
/// so an old entry after a newer one (timestamps out of order) is archived
/// with everything before it.
pub open spec fn retained_from(s: Seq<AuditEntry>, secs: int, nanos: int, k: int) -> bool {
    &&& 0 <= k <= s.len()
    &&& forall|j: int| k <= j < s.len() ==> #[trigger] after_point(s[j], secs, nanos)
    &&& k > 0 ==> !after_point(s[k - 1], secs, nanos)
}

/// Whether `k` is where `p` splits `s`: entries before `k` are archived and
/// the rest retained. For a span, the split is taken from a moment that the
/// clock supplies, so any instant that chrono can represent may stand for "now".
pub open spec fn split_point(p: RetentionPolicy, s: Seq<AuditEntry>, k: int) -> bool {
    match p {
        RetentionPolicy::KeepCount(n) => k == if s.len() > n {
            s.len() - n
        } else {
            0
        },
        RetentionPolicy::KeepAfter(c) => retained_from(s, c.secs_spec() as int, c.nanos_spec() as int, k),
        RetentionPolicy::KeepDuration(d) => exists|now_s: i64, now_n: u32|
            chrono_accepts_spec(now_s, now_n) && now_n < 1_000_000_000 && retained_from(
                s,
                cutoff_secs(now_s as int, now_n as int, d),
                cutoff_nanos(now_n as int, d),
                k,
            ),
    }
}

/// The whole seconds of the instant a span `d` before `(now_s, now_n)`.
pub open spec fn cutoff_secs(now_s: int, now_n: int, d: Duration) -> int {
    if now_n >= d.nanos_spec() {
        now_s - d.secs_spec()
    } else {
        now_s - d.secs_spec() - 1
    }
}

/// The nanoseconds of the instant a span `d` before `(_, now_n)`.
pub open spec fn cutoff_nanos(now_n: int, d: Duration) -> int {
    if now_n >= d.nanos_spec() {
        now_n - d.nanos_spec()
    } else {
        now_n + 1_000_000_000 - d.nanos_spec()
    }
}

/// Where the entries strictly after `(secs, nanos)` begin once every
/// entry not after it has been cut off with all that precedes it.
fn retained_start(entries: &[AuditEntry], secs: i128, nanos: u32) -> (k: usize)
    ensures
        retained_from(entries@, secs as int, nanos as int, k as int),
{
    let mut i = entries.len();
    while i > 0
        invariant
            i <= entries@.len(),
            forall|j: int| i <= j < entries@.len() ==> #[trigger] after_point(entries@[j], secs as int, nanos as int),
        decreases i,
    {
        let t = entries[i - 1].timestamp;
        let ts = t.secs() as i128;
        if !(ts > secs || (ts == secs && t.nanos() > nanos)) {
            return i;
        }
        i = i - 1;
    }
    0
}

impl RetentionPolicy {
    /// PCI DSS 4.0 Requirement 10.7: retain audit logs for at least 12 months.
    pub fn pci_dss() -> (p: Self)
        ensures
            p matches RetentionPolicy::KeepDuration(d) && d.secs_spec() == 365 * 86400
                && d.nanos_spec() == 0,
    {
        RetentionPolicy::KeepDuration(Duration::days(365))
    }

    /// HIPAA 45 CFR 164.530(j): retain records for 6 years.
    pub fn hipaa() -> (p: Self)
        ensures
            p matches RetentionPolicy::KeepDuration(d) && d.secs_spec() == 6 * 365 * 86400
                && d.nanos_spec() == 0,
    {
        RetentionPolicy::KeepDuration(Duration::days(6 * 365))
    }

    /// SOX Section 802: retain audit records for 7 years.
    pub fn sox() -> (p: Self)
        ensures
            p matches RetentionPolicy::KeepDuration(d) && d.secs_spec() == 7 * 365 * 86400
                && d.nanos_spec() == 0,
    {
        RetentionPolicy::KeepDuration(Duration::days(7 * 365))
    }

    /// GDPR-aligned: retain for the duration appropriate to the processing purpose.
    pub fn gdpr(purpose_duration: Duration) -> (p: Self)
        ensures
            p == RetentionPolicy::KeepDuration(purpose_duration),
    {
        RetentionPolicy::KeepDuration(purpose_duration)
    }

    /// The split index: entries before it are archived, entries from it on retained.
    pub fn split_index(&self, entries: &[AuditEntry]) -> (k: usize)
        ensures
            split_point(*self, entries@, k as int),
    {
        match self {
            RetentionPolicy::KeepCount(n) => {
                let len = entries.len();
                if len > *n {
                    len - *n
                } else {
                    0
                }
            },
            RetentionPolicy::KeepDuration(d) => {
                let now = Timestamp::now();
                let now_s = now.secs();
                let now_n = now.nanos();
                let span_s = d.whole_seconds_floor();
                let span_n = d.subsec_nanos();
                if now_n >= span_n {
                    retained_start(entries, now_s as i128 - span_s as i128, now_n - span_n)
                } else {
                    retained_start(
                        entries,
                        now_s as i128 - span_s as i128 - 1,
                        now_n + (1_000_000_000 - span_n),
                    )
                }
            },
            RetentionPolicy::KeepAfter(cutoff) => {
                retained_start(entries, cutoff.secs() as i128, cutoff.nanos())
            },
        }
    }
}


/// The value of a policy's tagged form (`{"type": ..., "value": ...}`):
/// a count, a span in seconds, or an RFC 3339 instant.
#[derive(Clone, Debug, PartialEq, Eq)]
pub enum PolicyValue {
    Count(usize),
    Seconds(i64),
    Instant(String),
}

/// A tagged form's value as a reader sees it: the number it holds as an
/// unsigned or a signed 64-bit integer, and the text it holds, where it
/// holds such a thing.
#[derive(Clone, Debug, PartialEq, Eq)]
pub struct TaggedValue {
    pub as_u64: Option<u64>,
    pub as_i64: Option<i64>,
    pub as_str: Option<String>,
}

/// The policy that a tagged form describes, or the message of why it
/// describes none.
pub open spec fn tagged_policy(kind: Seq<char>, value: TaggedValue, r: Result<RetentionPolicy, String>) -> bool {
    if kind == "KeepCount"@ {
        match value.as_u64 {
            Some(n) => r == Ok::<RetentionPolicy, String>(RetentionPolicy::KeepCount(n as usize)),
            None => r matches Err(m) && m@ == "KeepCount value must be a number"@,
        }
    } else if kind == "KeepDuration"@ {
        match value.as_i64 {
            Some(s) => r matches Ok(RetentionPolicy::KeepDuration(d)) && d.secs_spec() == s
                && d.nanos_spec() == 0,
            None => r matches Err(m) && m@ == "KeepDuration value must be seconds"@,
        }
    } else if kind == "KeepAfter"@ {
        match value.as_str {
            Some(t) => match rfc3339_parse_spec(t@) {
                Some(v) => r matches Ok(RetentionPolicy::KeepAfter(c)) && c.key() == v,
                None => r is Err,
            },
            None => r matches Err(m) && m@ == "KeepAfter value must be an RFC3339 timestamp"@,
        }
    } else {
        r matches Err(m) && m@ == "unknown RetentionPolicy type: "@ + kind
    }
}

impl RetentionPolicy {
    /// The tagged form of the policy: its variant's name and its value (a
    /// span in whole seconds, rounded toward zero; an instant as RFC 3339
    /// text).
    pub fn tagged(&self) -> (r: (&'static str, PolicyValue))
        ensures
            match self {
                RetentionPolicy::KeepCount(n) => r.0@ == "KeepCount"@ && r.1 == PolicyValue::Count(*n),
                RetentionPolicy::KeepDuration(d) => r.0@ == "KeepDuration"@ && r.1
                    == PolicyValue::Seconds(d.num_seconds_spec() as i64),
                RetentionPolicy::KeepAfter(c) => r.0@ == "KeepAfter"@ && (r.1 matches PolicyValue::Instant(
                    t,
                ) && t@ == c.text()),
            },
    {
        match self {
            RetentionPolicy::KeepCount(n) => ("KeepCount", PolicyValue::Count(*n)),
            RetentionPolicy::KeepDuration(d) => ("KeepDuration", PolicyValue::Seconds(d.num_seconds())),
            RetentionPolicy::KeepAfter(c) => ("KeepAfter", PolicyValue::Instant(c.to_rfc3339())),
        }
    }

    /// The policy a tagged form describes. A span must be one that a
    /// duration can hold.
    pub fn from_tagged(kind: &str, value: &TaggedValue) -> (r: Result<Self, String>)
        requires
            kind@ == "KeepDuration"@ ==> (value.as_i64 matches Some(s) ==> -MAX_DURATION_SECS <= s
                <= MAX_DURATION_SECS),
        ensures
            tagged_policy(kind@, *value, r),
    {
        if crate::hasher::constant_time_eq(kind, "KeepCount") {
            match value.as_u64 {
                Some(n) => Ok(RetentionPolicy::KeepCount(n as usize)),
                None => Err(string_of("KeepCount value must be a number")),
            }
        } else if crate::hasher::constant_time_eq(kind, "KeepDuration") {
            match value.as_i64 {
                Some(s) => Ok(RetentionPolicy::KeepDuration(Duration::seconds(s))),
                None => Err(string_of("KeepDuration value must be seconds")),
            }
        } else if crate::hasher::constant_time_eq(kind, "KeepAfter") {
            match &value.as_str {
                Some(t) => match Timestamp::parse_rfc3339(t.as_str()) {
                    Ok(c) => Ok(RetentionPolicy::KeepAfter(c)),
                    Err(e) => Err(e),
                },
                None => Err(string_of("KeepAfter value must be an RFC3339 timestamp")),
            }
        } else {
            let mut m = string_of("unknown RetentionPolicy type: ");
            push_str(&mut m, kind);
            Err(m)
        }
    }
}

} // verus!
