//! The audit chain — append-only, hash-linked sequence of entries.

use vstd::prelude::*;

use crate::entry::{details_text, opt_text, sealed, AuditEntry, EventSeverity};
use crate::error::LibroError;
use crate::query::{selected, targets, QueryFilter};
use crate::retention::{after_point, split_point, RetentionPolicy};
use crate::verify::{chain_sound, reports, sound_at, verify_chain};

verus! {

/// An append-only audit chain with hash-linked entries.
#[derive(Debug)]
pub struct AuditChain {
    entries: Vec<AuditEntry>,
    /// After rotation, the head hash of the previous chain, for continuity.
    prev_chain_hash: Option<String>,
}

/// Archived entries from a chain rotation.
#[derive(Clone, Debug, PartialEq, Eq)]
pub struct ChainArchive {
    /// The drained entries.
    pub entries: Vec<AuditEntry>,
    /// The head hash of the archived chain (used to link the next chain).
    pub head_hash: String,
}

/// The hash the next entry appended to a chain with these entries and this
/// link to a previous chain will carry as its previous hash.
pub open spec fn next_link(s: Seq<AuditEntry>, prev: Option<String>) -> Seq<char> {
    if s.len() > 0 {
        s.last().hash@
    } else {
        opt_text(prev)
    }
}

/// The hash that entry `j` of a chain with these entries should carry as
/// its previous hash.
pub open spec fn link_before(s: Seq<AuditEntry>, j: int, prev: Option<String>) -> Seq<char> {
    if j > 0 {
        s[j - 1].hash@
    } else {
        opt_text(prev)
    }
}

/// Whether a chain with these entries and this link to a previous chain is
/// intact: its first entry links to the previous chain's head (empty for a
/// fresh chain) and every entry is sealed and linked to its predecessor.
pub open spec fn chain_valid(s: Seq<AuditEntry>, prev: Option<String>) -> bool {
    (s.len() > 0 ==> s[0].prev_hash@ == opt_text(prev)) && chain_sound(s)
}

/// What verifying such a chain reports: a violation at entry 0 when the
/// first entry does not link to the previous chain's head, otherwise what
/// verifying its entries reports.
pub open spec fn chain_reports(
    s: Seq<AuditEntry>,
    prev: Option<String>,
    r: Result<(), LibroError>,
) -> bool {
    if s.len() > 0 && s[0].prev_hash@ != opt_text(prev) {
        r matches Err(LibroError::IntegrityViolation { index, expected, actual }) && index == 0
            && expected@ == opt_text(prev) && actual@ == s[0].prev_hash@
    } else {
        reports(s, 0, r)
    }
}

/// Appending a sealed entry that carries the chain's next link keeps an
/// intact chain intact.
pub proof fn lemma_append_keeps_chain_valid(s: Seq<AuditEntry>, prev: Option<String>, e: AuditEntry)
    requires
        chain_valid(s, prev),
        sealed(e),
        e.prev_hash@ == next_link(s, prev),
    ensures
        chain_valid(s.push(e), prev),
{
    let t = s.push(e);
    assert forall|i: int| 0 <= i < t.len() implies #[trigger] sound_at(t, i) by {
        if i < s.len() {
            assert(sound_at(s, i));
        }
    }
}

/// A chain whose entries pass verification stays intact when it is cut at
/// any point: the tail, linked to the last entry of the head, and the head,
/// linked as before.
pub proof fn lemma_split_keeps_chain_valid(s: Seq<AuditEntry>, prev: Option<String>, k: int)
    requires
        chain_valid(s, prev),
        0 < k <= s.len(),
    ensures
        chain_valid(s.subrange(k, s.len() as int), Some(s[k - 1].hash)),
        chain_valid(s.subrange(0, k), prev),
{
    let tail = s.subrange(k, s.len() as int);
    let head = s.subrange(0, k);
    assert forall|i: int| 0 <= i < tail.len() implies #[trigger] sound_at(tail, i) by {
        assert(sound_at(s, k + i));
    }
    if tail.len() > 0 {
        assert(sound_at(s, k));
    }
    assert forall|i: int| 0 <= i < head.len() implies #[trigger] sound_at(head, i) by {
        assert(sound_at(s, i));
    }
}

impl AuditChain {
    /// The chain's entries.
    pub closed spec fn entries_spec(&self) -> Seq<AuditEntry> {
        self.entries@
    }

    /// The head hash of the previous chain that this one continues, if any.
    pub closed spec fn prev_spec(&self) -> Option<String> {
        self.prev_chain_hash
    }

    /// An empty chain that continues no previous chain.
    pub fn new() -> (c: Self)
        ensures
            c.entries_spec() == Seq::<AuditEntry>::empty(),
            c.prev_spec() is None,
    {
        AuditChain { entries: Vec::new(), prev_chain_hash: None }
    }

    /// The hash the next appended entry links to.
    fn link(&self) -> (h: String)
        ensures
            h@ == next_link(self.entries_spec(), self.prev_spec()),
    {
        let n = self.entries.len();
        if n > 0 {
            self.entries[n - 1].hash.clone()
        } else {
            match &self.prev_chain_hash {
                Some(p) => p.clone(),
                None => String::new(),
            }
        }
    }

    /// Appends `entry` and returns a reference to it.
    fn push_entry(&mut self, entry: AuditEntry) -> (r: &AuditEntry)
        ensures
            final(self).entries_spec() == old(self).entries_spec().push(entry),
            final(self).prev_spec() == old(self).prev_spec(),
            *r == entry,
    {
        self.entries.push(entry);
        let n = self.entries.len();
        &self.entries[n - 1]
    }

    /// Append an event to the chain, linked to the previous entry's hash (or,
    /// for the first entry after a rotation, the previous chain's head).
    pub fn append(&mut self, severity: EventSeverity, source: &str, action: &str, details: &str) -> (r:
        &AuditEntry)
        ensures
            final(self).entries_spec() == old(self).entries_spec().push(*r),
            final(self).prev_spec() == old(self).prev_spec(),
            r.severity == severity,
            r.source@ == source@,
            r.action@ == action@,
            r.details@ == details_text(details@),
            r.agent_id is None,
            r.prev_hash@ == next_link(old(self).entries_spec(), old(self).prev_spec()),
            sealed(*r),
            chain_valid(old(self).entries_spec(), old(self).prev_spec()) ==> chain_valid(
                final(self).entries_spec(),
                final(self).prev_spec(),
            ),
    {
        let prev_hash = self.link();
        let entry = AuditEntry::new(severity, source, action, details, prev_hash.as_str());
        proof {
            if chain_valid(self.entries_spec(), self.prev_spec()) {
                lemma_append_keeps_chain_valid(self.entries_spec(), self.prev_spec(), entry);
            }
        }
        self.push_entry(entry)
    }

    /// Append an event with an agent id to the chain.
    pub fn append_with_agent(
        &mut self,
        severity: EventSeverity,
        source: &str,
        action: &str,
        details: &str,
        agent_id: &str,
    ) -> (r: &AuditEntry)
        ensures
            final(self).entries_spec() == old(self).entries_spec().push(*r),
            final(self).prev_spec() == old(self).prev_spec(),
            r.severity == severity,
            r.source@ == source@,
            r.action@ == action@,
            r.details@ == details_text(details@),
            r.agent_id matches Some(a) && a@ == agent_id@,
            r.prev_hash@ == next_link(old(self).entries_spec(), old(self).prev_spec()),
            sealed(*r),
            chain_valid(old(self).entries_spec(), old(self).prev_spec()) ==> chain_valid(
                final(self).entries_spec(),
                final(self).prev_spec(),
            ),
    {
        let prev_hash = self.link();
        let entry = AuditEntry::new(severity, source, action, details, prev_hash.as_str()).with_agent(
            agent_id,
        );
        proof {
            if chain_valid(self.entries_spec(), self.prev_spec()) {
                lemma_append_keeps_chain_valid(self.entries_spec(), self.prev_spec(), entry);
            }
        }
        self.push_entry(entry)
    }

    /// Append several events in order, each linked to the one before.
    /// Returns the newly appended entries.
    pub fn append_batch(&mut self, events: Vec<(EventSeverity, String, String, String)>) -> (r:
        &[AuditEntry])
        ensures
            final(self).prev_spec() == old(self).prev_spec(),
            final(self).entries_spec().len() == old(self).entries_spec().len() + events@.len(),
            final(self).entries_spec().subrange(0, old(self).entries_spec().len() as int)
                == old(self).entries_spec(),
            r@ == final(self).entries_spec().subrange(
                old(self).entries_spec().len() as int,
                final(self).entries_spec().len() as int,
            ),
            forall|i: int|
                0 <= i < events@.len() ==> {
                    let e = #[trigger] r@[i];
                    let ev = events@[i];
                    &&& e.severity == ev.0
                    &&& e.source@ == ev.1@
                    &&& e.action@ == ev.2@
                    &&& e.details@ == details_text(ev.3@)
                    &&& e.agent_id is None
                    &&& sealed(e)
                    &&& e.prev_hash@ == link_before(
                        final(self).entries_spec(),
                        old(self).entries_spec().len() + i,
                        old(self).prev_spec(),
                    )
                },
            chain_valid(old(self).entries_spec(), old(self).prev_spec()) ==> chain_valid(
                final(self).entries_spec(),
                final(self).prev_spec(),
            ),
    {
        let start = self.entries.len();
        let ghost s0 = self.entries_spec();
        let n = events.len();
        for k in 0..n
            invariant
                n == events@.len(),
                start == s0.len(),
                self.prev_spec() == old(self).prev_spec(),
                s0 == old(self).entries_spec(),
                self.entries_spec().len() == start + k,
                self.entries_spec().subrange(0, start as int) == s0,
                forall|i: int|
                    0 <= i < k ==> {
                        let e = #[trigger] self.entries_spec()[start + i];
                        let ev = events@[i];
                        &&& e.severity == ev.0
                        &&& e.source@ == ev.1@
                        &&& e.action@ == ev.2@
                        &&& e.details@ == details_text(ev.3@)
                        &&& e.agent_id is None
                        &&& sealed(e)
                        &&& e.prev_hash@ == link_before(
                            self.entries_spec(),
                            start + i,
                            old(self).prev_spec(),
                        )
                    },
                chain_valid(s0, old(self).prev_spec()) ==> chain_valid(
                    self.entries_spec(),
                    self.prev_spec(),
                ),
        {
            let ev = &events[k];
            let ghost before = self.entries_spec();
            let _ = self.append(ev.0, ev.1.as_str(), ev.2.as_str(), ev.3.as_str());
            proof {
                assert(self.entries_spec().subrange(0, start as int) =~= before.subrange(
                    0,
                    start as int,
                ));
                assert(before =~= self.entries_spec().subrange(0, start + k));
            }
        }
        let total = self.entries.len();
        let r = vstd::slice::slice_subrange(self.entries.as_slice(), start, total);
        proof {
            assert forall|i: int| 0 <= i < n implies #[trigger] r@[i] == self.entries_spec()[start
                + i] by {}
        }
        r
    }

    /// Number of entries in the chain.
    pub fn len(&self) -> (n: usize)
        ensures
            n == self.entries_spec().len(),
    {
        self.entries.len()
    }

    pub fn is_empty(&self) -> (b: bool)
        ensures
            b == (self.entries_spec().len() == 0),
    {
        self.entries.len() == 0
    }

    /// The head hash of the previous chain that this one continues, if any.
    pub fn continued_from(&self) -> (r: Option<&str>)
        ensures
            match self.prev_spec() {
                Some(p) => r matches Some(q) && q@ == p@,
                None => r is None,
            },
    {
        match &self.prev_chain_hash {
            Some(p) => Some(p.as_str()),
            None => None,
        }
    }

    /// All entries, in order.
    pub fn entries(&self) -> (r: &[AuditEntry])
        ensures
            r@ == self.entries_spec(),
    {
        self.entries.as_slice()
    }

    /// The last entry's hash (the chain head), if any.
    pub fn head_hash(&self) -> (r: Option<&str>)
        ensures
            self.entries_spec().len() == 0 ==> r is None,
            self.entries_spec().len() > 0 ==> (r matches Some(h) && h@
                == self.entries_spec().last().hash@),
    {
        let n = self.entries.len();
        if n == 0 {
            None
        } else {
            Some(self.entries[n - 1].hash.as_str())
        }
    }

    /// Verify the entire chain's integrity: the first entry must link to the
    /// previous chain's head (empty for a fresh chain), then every entry must
    /// be sealed and linked to its predecessor.
    pub fn verify(&self) -> (r: Result<(), LibroError>)
        ensures
            chain_reports(self.entries_spec(), self.prev_spec(), r),
            r is Ok <==> chain_valid(self.entries_spec(), self.prev_spec()),
    {
        if self.entries.len() == 0 {
            return Ok(());
        }
        let expected = match &self.prev_chain_hash {
            Some(p) => p.clone(),
            None => String::new(),
        };
        if self.entries[0].prev_hash != expected {
            return Err(
                LibroError::IntegrityViolation {
                    index: 0,
                    expected,
                    actual: self.entries[0].prev_hash.clone(),
                },
            );
        }
        verify_chain(self.entries.as_slice())
    }

    /// Entries whose source is `source`, in order.
    pub fn by_source(&self, source: &str) -> (r: Vec<&AuditEntry>)
        ensures
            targets(r@) == self.entries_spec().filter(|e: AuditEntry| e.source@ == source@),
    {
        let f = QueryFilter::new().source(source);
        let r = f.apply(self.entries.as_slice());
        proof {
            let p1 = |e: AuditEntry| crate::query::admits(f, e);
            let p2 = |e: AuditEntry| e.source@ == source@;
            assert(p1 =~= p2);
        }
        r
    }

    /// Entries of severity `severity`, in order.
    pub fn by_severity(&self, severity: EventSeverity) -> (r: Vec<&AuditEntry>)
        ensures
            targets(r@) == self.entries_spec().filter(|e: AuditEntry| e.severity == severity),
    {
        let f = QueryFilter::new().severity(severity);
        let r = f.apply(self.entries.as_slice());
        proof {
            let p1 = |e: AuditEntry| crate::query::admits(f, e);
            let p2 = |e: AuditEntry| e.severity == severity;
            assert(p1 =~= p2);
        }
        r
    }

    /// Entries whose agent id is `agent_id`, in order.
    pub fn by_agent(&self, agent_id: &str) -> (r: Vec<&AuditEntry>)
        ensures
            targets(r@) == self.entries_spec().filter(
                |e: AuditEntry| e.agent_id matches Some(a) && a@ == agent_id@,
            ),
    {
        let f = QueryFilter::new().agent_id(agent_id);
        let r = f.apply(self.entries.as_slice());
        proof {
            let p1 = |e: AuditEntry| crate::query::admits(f, e);
            let p2 = |e: AuditEntry| e.agent_id matches Some(a) && a@ == agent_id@;
            assert(p1 =~= p2);
        }
        r
    }

    /// A page of entries: `offset` entries skipped, up to `limit` returned.
    pub fn page(&self, offset: usize, limit: usize) -> (r: &[AuditEntry])
        requires
            (if offset < self.entries_spec().len() {
                offset as int
            } else {
                self.entries_spec().len() as int
            }) + limit <= usize::MAX,
        ensures
            ({
                let n = self.entries_spec().len() as int;
                let start = if offset < n {
                    offset as int
                } else {
                    n
                };
                let end = if start + limit < n {
                    start + limit
                } else {
                    n
                };
                r@ == self.entries_spec().subrange(start, end)
            }),
    {
        let n = self.entries.len();
        let start = if offset < n {
            offset
        } else {
            n
        };
        let end = if start + limit < n {
            start + limit
        } else {
            n
        };
        vstd::slice::slice_subrange(self.entries.as_slice(), start, end)
    }

    /// Entries that `filter` admits, in order.
    pub fn query(&self, filter: &QueryFilter) -> (r: Vec<&AuditEntry>)
        ensures
            targets(r@) == selected(*filter, self.entries_spec()),
    {
        filter.apply(self.entries.as_slice())
    }

    /// Rotate the chain: drain all entries into an archive. The next entry
    /// appended links to the archived head, preserving continuity; where
    /// there is no head hash (an empty chain, or an empty last hash) the
    /// link to a previous chain stays as it was.
    pub fn rotate(&mut self) -> (a: ChainArchive)
        ensures
            a.entries@ == old(self).entries_spec(),
            a.head_hash@ == next_link(old(self).entries_spec(), None),
            final(self).entries_spec() == Seq::<AuditEntry>::empty(),
            final(self).prev_spec() == if old(self).entries_spec().len() > 0
                && old(self).entries_spec().last().hash@.len() > 0 {
                Some(old(self).entries_spec().last().hash)
            } else {
                old(self).prev_spec()
            },
            chain_valid(final(self).entries_spec(), final(self).prev_spec()),
    {
        let n = self.entries.len();
        let head_hash = if n > 0 {
            self.entries[n - 1].hash.clone()
        } else {
            String::new()
        };
        let mut entries: Vec<AuditEntry> = Vec::new();
        std::mem::swap(&mut entries, &mut self.entries);
        if !head_hash.as_str().is_empty() {
            self.prev_chain_hash = Some(head_hash.clone());
        }
        ChainArchive { entries, head_hash }
    }

    /// A chain holding `entries`, continuing no previous chain (for example
    /// to verify archived or loaded entries).
    pub fn from_entries(entries: Vec<AuditEntry>) -> (c: Self)
        ensures
            c.entries_spec() == entries@,
            c.prev_spec() is None,
    {
        AuditChain { entries, prev_chain_hash: None }
    }

    /// Apply a retention policy: archive the entries that fall outside the
    /// retention window and keep the rest, linked to the last archived entry.
    /// Returns `None`, changing nothing, when no entry needs archiving.
    pub fn apply_retention(&mut self, policy: &RetentionPolicy) -> (r: Option<ChainArchive>)
        ensures
            exists|k: int|
                #[trigger] split_point(*policy, old(self).entries_spec(), k) && if k == 0 {
                    r is None && final(self).entries_spec() == old(self).entries_spec()
                        && final(self).prev_spec() == old(self).prev_spec()
                } else {
                    r matches Some(a) && a.entries@ == old(self).entries_spec().subrange(0, k)
                        && a.head_hash@ == old(self).entries_spec()[k - 1].hash@
                        && final(self).entries_spec() == old(self).entries_spec().subrange(
                        k,
                        old(self).entries_spec().len() as int,
                    ) && final(self).prev_spec() == Some(a.head_hash)
                },
            chain_valid(old(self).entries_spec(), old(self).prev_spec()) ==> chain_valid(
                final(self).entries_spec(),
                final(self).prev_spec(),
            ),
            chain_valid(old(self).entries_spec(), old(self).prev_spec()) ==> (r matches Some(a)
                ==> chain_valid(a.entries@, old(self).prev_spec())),
            policy matches RetentionPolicy::KeepAfter(c) ==> forall|i: int|
                0 <= i < final(self).entries_spec().len() ==> #[trigger] after_point(
                    final(self).entries_spec()[i],
                    c.secs_spec() as int,
                    c.nanos_spec() as int,
                ),
    {
        let split = policy.split_index(self.entries.as_slice());
        if split == 0 {
            return None;
        }
        let ghost s = self.entries_spec();
        let ghost prev = self.prev_spec();
        let mut archived = self.entries.split_off(split);
        let head_hash = self.entries[split - 1].hash.clone();
        std::mem::swap(&mut archived, &mut self.entries);
        self.prev_chain_hash = Some(head_hash.clone());
        proof {
            if chain_valid(s, prev) {
                lemma_split_keeps_chain_valid(s, prev, split as int);
            }
        }
        Some(ChainArchive { entries: archived, head_hash })
    }
}

} // verus!
