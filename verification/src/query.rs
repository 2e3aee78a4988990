//! Query filters for audit entries.
//!
//! All set criteria are ANDed together; unset criteria are ignored.

use vstd::prelude::*;

use crate::entry::{AuditEntry, EventSeverity};
use crate::time::{key_after, Timestamp};

verus! {

/// A composable filter for querying audit entries.
#[derive(Clone, Debug)]
pub struct QueryFilter {
    pub source: Option<String>,
    pub severity: Option<EventSeverity>,
    pub agent_id: Option<String>,
    /// Entries strictly after this instant.
    pub after: Option<Timestamp>,
    /// Entries strictly before this instant.
    pub before: Option<Timestamp>,
    pub action: Option<String>,
}

/// Whether entry `e` meets every criterion that `f` sets.
pub open spec fn admits(f: QueryFilter, e: AuditEntry) -> bool {
    &&& (f.source matches Some(s) ==> e.source@ == s@)
    &&& (f.severity matches Some(v) ==> e.severity == v)
    &&& (f.agent_id matches Some(a) ==> (e.agent_id matches Some(x) && x@ == a@))
    &&& (f.action matches Some(a) ==> e.action@ == a@)
    &&& (f.after matches Some(t) ==> key_after(e.timestamp.key(), t.key()))
    &&& (f.before matches Some(t) ==> key_after(t.key(), e.timestamp.key()))
}

/// The entries that references point to, in order.
pub open spec fn targets(s: Seq<&AuditEntry>) -> Seq<AuditEntry> {
    s.map_values(|r: &AuditEntry| *r)
}

/// The entries of `s` that `f` admits, in order.
pub open spec fn selected(f: QueryFilter, s: Seq<AuditEntry>) -> Seq<AuditEntry> {
    s.filter(|e: AuditEntry| admits(f, e))
}

fn opt_text_eq(a: &Option<String>, b: &String) -> (r: bool)
    ensures
        r == (a matches Some(x) && x@ == b@),
{
    match a {
        Some(x) => *x == *b,
        None => false,
    }
}

impl QueryFilter {
    /// A filter with no criteria: it admits every entry.
    pub fn new() -> (f: Self)
        ensures
            f.source is None && f.severity is None && f.agent_id is None && f.after is None
                && f.before is None && f.action is None,
    {
        QueryFilter {
            source: None,
            severity: None,
            agent_id: None,
            after: None,
            before: None,
            action: None,
        }
    }

    /// Filter by source.
    pub fn source(self, source: &str) -> (f: Self)
        ensures
            f == (QueryFilter { source: f.source, ..self }),
            f.source matches Some(s) && s@ == source@,
    {
        QueryFilter { source: Some(crate::text::string_of(source)), ..self }
    }

    /// Filter by severity level.
    pub fn severity(self, severity: EventSeverity) -> (f: Self)
        ensures
            f == (QueryFilter { severity: Some(severity), ..self }),
    {
        QueryFilter { severity: Some(severity), ..self }
    }

    /// Filter by agent id.
    pub fn agent_id(self, agent_id: &str) -> (f: Self)
        ensures
            f == (QueryFilter { agent_id: f.agent_id, ..self }),
            f.agent_id matches Some(a) && a@ == agent_id@,
    {
        QueryFilter { agent_id: Some(crate::text::string_of(agent_id)), ..self }
    }

    /// Filter to entries strictly after this instant.
    pub fn after(self, after: Timestamp) -> (f: Self)
        ensures
            f == (QueryFilter { after: Some(after), ..self }),
    {
        QueryFilter { after: Some(after), ..self }
    }

    /// Filter to entries strictly before this instant.
    pub fn before(self, before: Timestamp) -> (f: Self)
        ensures
            f == (QueryFilter { before: Some(before), ..self }),
    {
        QueryFilter { before: Some(before), ..self }
    }

    /// Filter by action.
    pub fn action(self, action: &str) -> (f: Self)
        ensures
            f == (QueryFilter { action: f.action, ..self }),
            f.action matches Some(a) && a@ == action@,
    {
        QueryFilter { action: Some(crate::text::string_of(action)), ..self }
    }

    /// Test whether a single entry matches this filter.
    pub fn matches(&self, entry: &AuditEntry) -> (r: bool)
        ensures
            r == admits(*self, *entry),
    {
        if let Some(s) = &self.source {
            if entry.source != *s {
                return false;
            }
        }
        if let Some(sev) = self.severity {
            if entry.severity != sev {
                return false;
            }
        }
        if let Some(a) = &self.agent_id {
            if !opt_text_eq(&entry.agent_id, a) {
                return false;
            }
        }
        if let Some(a) = &self.action {
            if entry.action != *a {
                return false;
            }
        }
        if let Some(after) = &self.after {
            if !entry.timestamp.is_after(after) {
                return false;
            }
        }
        if let Some(before) = &self.before {
            if !before.is_after(&entry.timestamp) {
                return false;
            }
        }
        true
    }

    /// Filter a slice of entries, returning references to the matches in order.
    pub fn apply<'a>(&self, entries: &'a [AuditEntry]) -> (r: Vec<&'a AuditEntry>)
        ensures
            targets(r@) == selected(*self, entries@),
    {
        let mut out: Vec<&'a AuditEntry> = Vec::new();
        let n = entries.len();
        for i in 0..n
            invariant
                n == entries@.len(),
                targets(out@) == selected(*self, entries@.take(i as int)),
        {
            let e = &entries[i];
            proof {
                reveal_with_fuel(Seq::<_>::filter, 1);
                assert(entries@.take(i + 1).drop_last() =~= entries@.take(i as int));
            }
            let ghost prior = out@;
            if self.matches(e) {
                out.push(e);
                assert(targets(out@) =~= targets(prior).push(*e));
            }
        }
        assert(entries@.take(n as int) =~= entries@);
        out
    }
}

} // verus!
