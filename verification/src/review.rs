//! Chain review: a structured summary of a chain's state, integrity and
//! contents, and its text rendering.

use vstd::prelude::*;

use crate::chain::{chain_reports, chain_valid, AuditChain};
use crate::entry::AuditEntry;
use crate::error::{violation_message, LibroError};
use crate::text::{
    compare_text, decimal, lemma_text_before_irreflexive, lemma_text_before_total,
    lemma_text_before_transitive, push_decimal, push_str, string_of, text_before, TextOrder,
};

verus! {

/// Whether the keys of `v` strictly increase.
pub open spec fn keys_sorted(v: Seq<(Seq<char>, nat)>) -> bool {
    forall|i: int, j: int| 0 <= i < j < v.len() ==> text_before(#[trigger] v[i].0, #[trigger] v[j].0)
}

/// The count that `v` holds for `k` (its last entry with that key), 0
/// when `k` is absent.
pub open spec fn tally_count(v: Seq<(Seq<char>, nat)>, k: Seq<char>) -> nat
    decreases v.len(),
{
    if v.len() == 0 {
        0
    } else if v.last().0 == k {
        v.last().1
    } else {
        tally_count(v.drop_last(), k)
    }
}

/// One where `k` is `key`, else zero.
pub open spec fn bump(k: Seq<char>, key: Seq<char>) -> nat {
    if k == key {
        1
    } else {
        0
    }
}

/// How many times `k` occurs in `s`.
pub open spec fn count_key(s: Seq<Seq<char>>, k: Seq<char>) -> nat
    decreases s.len(),
{
    if s.len() == 0 {
        0
    } else {
        count_key(s.drop_last(), k) + if s.last() == k {
            1nat
        } else {
            0nat
        }
    }
}

/// Whether `v` tallies `keys`: sorted distinct keys, each with a positive
/// count, and for every text the number of times it occurs in `keys`.
pub open spec fn tally_matches(v: Seq<(Seq<char>, nat)>, keys: Seq<Seq<char>>) -> bool {
    &&& keys_sorted(v)
    &&& forall|i: int| 0 <= i < v.len() ==> #[trigger] v[i].1 >= 1
    &&& forall|k: Seq<char>| #[trigger] tally_count(v, k) == count_key(keys, k)
}

/// The rendering of tally lines: `  {key}: {count}` for each key, in order.
pub open spec fn tally_text(v: Seq<(Seq<char>, nat)>) -> Seq<char>
    decreases v.len(),
{
    if v.len() == 0 {
        Seq::empty()
    } else {
        tally_text(v.drop_last()) + "  "@ + v.last().0 + ": "@ + decimal(v.last().1) + "\n"@
    }
}

proof fn lemma_count_at(v: Seq<(Seq<char>, nat)>, i: int)
    requires
        keys_sorted(v),
        0 <= i < v.len(),
    ensures
        tally_count(v, v[i].0) == v[i].1,
    decreases v.len(),
{
    if i < v.len() - 1 {
        let w = v.drop_last();
        assert(text_before(v[i].0, v[v.len() - 1].0));
        lemma_text_before_irreflexive(v[i].0);
        assert(keys_sorted(w)) by {
            assert forall|a: int, b: int| 0 <= a < b < w.len() implies text_before(
                #[trigger] w[a].0,
                #[trigger] w[b].0,
            ) by {
                assert(w[a] == v[a] && w[b] == v[b]);
            }
        }
        assert(w[i] == v[i]);
        lemma_count_at(w, i);
    }
}

proof fn lemma_count_absent(v: Seq<(Seq<char>, nat)>, k: Seq<char>)
    requires
        forall|j: int| 0 <= j < v.len() ==> #[trigger] v[j].0 != k,
    ensures
        tally_count(v, k) == 0,
    decreases v.len(),
{
    if v.len() > 0 {
        let w = v.drop_last();
        assert(v[v.len() - 1].0 != k);
        assert forall|j: int| 0 <= j < w.len() implies #[trigger] w[j].0 != k by {
            assert(w[j] == v[j]);
        }
        lemma_count_absent(w, k);
    }
}

proof fn lemma_count_key_bound(s: Seq<Seq<char>>, k: Seq<char>)
    ensures
        count_key(s, k) <= s.len(),
    decreases s.len(),
{
    if s.len() > 0 {
        lemma_count_key_bound(s.drop_last(), k);
    }
}

/// Counts of entries per key, kept in increasing key order.
#[derive(Debug, PartialEq, Eq)]
pub struct Tally {
    items: Vec<(String, usize)>,
}

/// The plain view of tally items.
pub open spec fn items_view(items: Seq<(String, usize)>) -> Seq<(Seq<char>, nat)> {
    items.map_values(|p: (String, usize)| (p.0@, p.1 as nat))
}

impl View for Tally {
    type V = Seq<(Seq<char>, nat)>;

    /// The keys and counts, in key order.
    closed spec fn view(&self) -> Seq<(Seq<char>, nat)> {
        items_view(self.items@)
    }
}

impl Tally {
    #[verifier::type_invariant]
    spec fn well_formed(self) -> bool {
        &&& keys_sorted(items_view(self.items@))
        &&& forall|i: int| 0 <= i < self.items@.len() ==> #[trigger] self.items@[i].1 >= 1
    }

    /// An empty tally.
    pub fn new() -> (t: Self)
        ensures
            t@ == Seq::<(Seq<char>, nat)>::empty(),
    {
        let t = Tally { items: Vec::new() };
        assert(items_view(t.items@) =~= Seq::<(Seq<char>, nat)>::empty());
        t
    }

    /// Counts one more occurrence of `key`.
    pub fn add(&mut self, key: &str)
        requires
            tally_count(old(self)@, key@) < usize::MAX,
        ensures
            forall|k: Seq<char>| #[trigger] tally_count(final(self)@, k) == tally_count(old(self)@, k)
                + bump(k, key@),
            keys_sorted(final(self)@),
            forall|i: int| 0 <= i < final(self)@.len() ==> #[trigger] final(self)@[i].1 >= 1,
    {
        proof {
            use_type_invariant(&*self);
        }
        let mut items: Vec<(String, usize)> = Vec::new();
        std::mem::swap(&mut items, &mut self.items);
        let ghost v = items_view(items@);
        let n = items.len();
        let mut i: usize = 0;
        while i < n && compare_text(items[i].0.as_str(), key) == TextOrder::Before
            invariant
                n == items@.len(),
                v == items_view(items@),
                i <= n,
                forall|j: int| 0 <= j < i ==> text_before(#[trigger] v[j].0, key@),
            decreases n - i,
        {
            i = i + 1;
        }
        if i < n && compare_text(items[i].0.as_str(), key) == TextOrder::Same {
            let c = items[i].1;
            proof {
                lemma_count_at(v, i as int);
            }
            let k = items[i].0.clone();
            items.set(i, (k, c + 1));
            proof {
                let w = items_view(items@);
                assert(w =~= v.update(i as int, (key@, (c + 1) as nat)));
                assert forall|a: int, b: int| 0 <= a < b < w.len() implies text_before(
                    #[trigger] w[a].0,
                    #[trigger] w[b].0,
                ) by {
                    assert(w[a].0 == v[a].0 && w[b].0 == v[b].0);
                }
                assert(keys_sorted(w));
                assert forall|k: Seq<char>| #[trigger] tally_count(w, k) == tally_count(v, k) + bump(
                    k,
                    key@,
                ) by {
                    assert(v[i as int].0 == key@);
                    if k == key@ {
                        lemma_count_at(v, i as int);
                        lemma_count_at(w, i as int);
                    } else if exists|j: int| 0 <= j < v.len() && (#[trigger] v[j]).0 == k {
                        let j = choose|j: int| 0 <= j < v.len() && (#[trigger] v[j]).0 == k;
                        assert(j != i);
                        assert(w[j] == v[j]);
                        lemma_count_at(v, j);
                        lemma_count_at(w, j);
                    } else {
                        assert forall|j: int| 0 <= j < w.len() implies #[trigger] w[j].0 != k by {
                            assert(w[j].0 == v[j].0);
                        }
                        assert forall|j: int| 0 <= j < v.len() implies #[trigger] v[j].0 != k by {
                            assert(!((v[j]).0 == k));
                        }
                        lemma_count_absent(v, k);
                        lemma_count_absent(w, k);
                    }
                }
            }
        } else {
            proof {
                if i < n {
                    lemma_text_before_total(v[i as int].0, key@);
                }
            }
            let ghost old_items = items@;
            items.insert(i, (string_of(key), 1));
            proof {
                let w = items_view(items@);
                assert(w =~= v.insert(i as int, (key@, 1nat)));
                assert forall|j: int| 0 <= j < v.len() implies #[trigger] v[j].0 != key@ by {
                    lemma_text_before_irreflexive(key@);
                    if j >= i {
                        if j > i {
                            lemma_text_before_transitive(key@, v[i as int].0, v[j].0);
                        }
                    }
                }
                assert forall|a: int, b: int| 0 <= a < b < w.len() implies text_before(
                    #[trigger] w[a].0,
                    #[trigger] w[b].0,
                ) by {
                    if b < i {
                    } else if b == i {
                        assert(w[a].0 == v[a].0);
                    } else if a < i {
                        assert(w[b].0 == v[b - 1].0);
                        assert(text_before(v[a].0, key@));
                        lemma_text_before_transitive(v[a].0, key@, v[i as int].0);
                        if b - 1 > i {
                            lemma_text_before_transitive(v[a].0, v[i as int].0, v[b - 1].0);
                        }
                    } else if a == i {
                        assert(w[b].0 == v[b - 1].0);
                        if b - 1 > i {
                            lemma_text_before_transitive(key@, v[i as int].0, v[b - 1].0);
                        }
                    } else {
                        assert(w[a].0 == v[a - 1].0);
                        assert(w[b].0 == v[b - 1].0);
                    }
                }
                assert(keys_sorted(w));
                assert forall|k: Seq<char>| #[trigger] tally_count(w, k) == tally_count(v, k) + bump(
                    k,
                    key@,
                ) by {
                    if k == key@ {
                        lemma_count_absent(v, k);
                        lemma_count_at(w, i as int);
                    } else if exists|j: int| 0 <= j < v.len() && (#[trigger] v[j]).0 == k {
                        let j = choose|j: int| 0 <= j < v.len() && (#[trigger] v[j]).0 == k;
                        lemma_count_at(v, j);
                        if j < i {
                            assert(w[j] == v[j]);
                            lemma_count_at(w, j);
                        } else {
                            assert(w[j + 1] == v[j]);
                            lemma_count_at(w, j + 1);
                        }
                    } else {
                        assert forall|j: int| 0 <= j < w.len() implies #[trigger] w[j].0 != k by {
                            if j < i {
                                assert(w[j] == v[j]);
                            } else if j > i {
                                assert(w[j] == v[j - 1]);
                            }
                        }
                        assert forall|j: int| 0 <= j < v.len() implies #[trigger] v[j].0 != k by {
                            assert(!((v[j]).0 == k));
                        }
                        lemma_count_absent(v, k);
                        lemma_count_absent(w, k);
                    }
                }
            }
        }
        self.items = items;
    }

    /// The count for `key`; `None` when it was never counted.
    pub fn get(&self, key: &str) -> (r: Option<usize>)
        ensures
            tally_count(self@, key@) == 0 <==> r is None,
            r matches Some(c) ==> c == tally_count(self@, key@),
    {
        proof {
            use_type_invariant(self);
        }
        let ghost v = self@;
        assert forall|j: int| 0 <= j < v.len() implies #[trigger] v[j].1 >= 1 by {
            assert(self.items@[j].1 >= 1);
        }
        let n = self.items.len();
        for i in 0..n
            invariant
                n == v.len(),
                v == items_view(self.items@),
                keys_sorted(v),
                forall|j: int| 0 <= j < v.len() ==> #[trigger] v[j].1 >= 1,
                forall|j: int| 0 <= j < i ==> #[trigger] v[j].0 != key@,
        {
            if compare_text(self.items[i].0.as_str(), key) == TextOrder::Same {
                proof {
                    lemma_count_at(v, i as int);
                }
                return Some(self.items[i].1);
            }
        }
        proof {
            lemma_count_absent(v, key@);
        }
        None
    }

    /// Number of distinct keys.
    pub fn len(&self) -> (n: usize)
        ensures
            n == self@.len(),
    {
        self.items.len()
    }

    /// Whether nothing was counted.
    pub fn is_empty(&self) -> (b: bool)
        ensures
            b == (self@.len() == 0),
    {
        self.items.len() == 0
    }

    /// The keys and their counts, in key order.
    pub fn items(&self) -> (r: &[(String, usize)])
        ensures
            items_view(r@) == self@,
    {
        self.items.as_slice()
    }

    /// Appends the tally lines `  {key}: {count}` to `s`.
    fn push_lines(&self, s: &mut String)
        ensures
            final(s)@ == old(s)@ + tally_text(self@),
    {
        let ghost start = s@;
        let ghost v = self@;
        let n = self.items.len();
        assert(v.take(0) =~= Seq::<(Seq<char>, nat)>::empty());
        for i in 0..n
            invariant
                n == v.len(),
                v == items_view(self.items@),
                s@ == start + tally_text(v.take(i as int)),
        {
            push_str(s, "  ");
            push_str(s, self.items[i].0.as_str());
            push_str(s, ": ");
            push_decimal(s, self.items[i].1 as u64);
            push_str(s, "\n");
            proof {
                assert(v.take(i + 1).drop_last() =~= v.take(i as int));
            }
        }
        assert(v.take(n as int) =~= v);
    }
}

/// Chain integrity status.
#[derive(Clone, Debug, PartialEq, Eq)]
#[non_exhaustive]
pub enum IntegrityStatus {
    /// Chain verified successfully.
    Valid,
    /// Chain is empty.
    Empty,
    /// Chain verification failed.
    Invalid(String),
}

/// The text of an integrity status.
pub open spec fn status_text(s: IntegrityStatus) -> Seq<char> {
    match s {
        IntegrityStatus::Valid => "VALID"@,
        IntegrityStatus::Empty => "EMPTY"@,
        IntegrityStatus::Invalid(e) => "INVALID: "@ + e@,
    }
}

impl IntegrityStatus {
    /// `VALID`, `EMPTY` or `INVALID: {message}`.
    pub fn text(&self) -> (s: String)
        ensures
            s@ == status_text(*self),
    {
        match self {
            IntegrityStatus::Valid => string_of("VALID"),
            IntegrityStatus::Empty => string_of("EMPTY"),
            IntegrityStatus::Invalid(e) => {
                let mut s = string_of("INVALID: ");
                push_str(&mut s, e.as_str());
                s
            },
        }
    }
}

/// A structured review of an audit chain's contents and integrity.
#[derive(Debug, PartialEq, Eq)]
#[non_exhaustive]
pub struct ChainReview {
    /// Total number of entries.
    pub entry_count: usize,
    /// Whether the chain passed integrity verification.
    pub integrity: IntegrityStatus,
    /// Earliest entry timestamp (None if chain is empty).
    pub earliest: Option<String>,
    /// Latest entry timestamp (None if chain is empty).
    pub latest: Option<String>,
    /// Count of entries per source.
    pub sources: Tally,
    /// Count of entries per severity level.
    pub severities: Tally,
    /// Count of entries per agent (entries without one under "(none)").
    pub agents: Tally,
    /// Head hash of the chain (None if empty).
    pub head_hash: Option<String>,
    /// Whether this chain continues from a previous (rotated) chain.
    pub continued_from: Option<String>,
}

/// The agent key an entry is counted under.
pub open spec fn agent_key(e: AuditEntry) -> Seq<char> {
    match e.agent_id {
        Some(a) => a@,
        None => "(none)"@,
    }
}

/// Whether an optional string holds the given optional text.
pub open spec fn opt_is(o: Option<String>, t: Option<Seq<char>>) -> bool {
    match t {
        Some(x) => o matches Some(y) && y@ == x,
        None => o is None,
    }
}

/// The text of an optional string, if any.
pub open spec fn opt_view(o: Option<String>) -> Option<Seq<char>> {
    match o {
        Some(s) => Some(s@),
        None => None,
    }
}

/// The first `n` characters of a hash, followed by `...` where it is longer.
pub open spec fn abbreviated(h: Seq<char>) -> Seq<char> {
    if h.len() <= 16 {
        h
    } else {
        h.take(16) + "..."@
    }
}

/// Abbreviates a hash for display: its first 16 characters and `...`, or
/// the whole hash where it has at most 16.
pub fn abbreviate_hash(h: &str) -> (s: String)
    ensures
        s@ == abbreviated(h@),
{
    let v = crate::text::chars_of(h);
    if v.len() <= 16 {
        return string_of(h);
    }
    let mut s = String::new();
    for i in 0..16
        invariant
            v@ == h@,
            v@.len() > 16,
            s@ == h@.take(i as int),
    {
        crate::text::push_char(&mut s, v[i]);
        assert(h@.take(i + 1) =~= h@.take(i as int).push(h@[i as int]));
    }
    push_str(&mut s, "...");
    s
}

/// The rendering of a review.
pub open spec fn review_text(r: ChainReview) -> Seq<char> {
    "=== Chain Review ===\n"@ + "Entries:    "@ + decimal(r.entry_count as nat) + "\n"@
        + "Integrity:  "@ + status_text(r.integrity) + "\n"@ + match r.earliest {
        Some(e) => "Earliest:   "@ + e@ + "\n"@,
        None => Seq::empty(),
    } + match r.latest {
        Some(l) => "Latest:     "@ + l@ + "\n"@,
        None => Seq::empty(),
    } + match r.head_hash {
        Some(h) => "Head:       "@ + abbreviated(h@) + "\n"@,
        None => Seq::empty(),
    } + match r.continued_from {
        Some(p) => "Continues:  "@ + abbreviated(p@) + "\n"@,
        None => Seq::empty(),
    } + section_text("Sources:\n"@, r.sources@) + section_text("Severities:\n"@, r.severities@)
        + section_text("Agents:\n"@, r.agents@)
}

/// A titled tally section, or nothing for an empty tally.
pub open spec fn section_text(title: Seq<char>, v: Seq<(Seq<char>, nat)>) -> Seq<char> {
    if v.len() == 0 {
        Seq::empty()
    } else {
        title + tally_text(v)
    }
}

/// Appends `{label}{value}\n` to `s` when `value` is present.
fn push_optional_line(s: &mut String, label: &str, value: &Option<String>, abbreviate: bool)
    ensures
        final(s)@ == old(s)@ + match value {
            Some(v) => label@ + (if abbreviate {
                abbreviated(v@)
            } else {
                v@
            }) + "\n"@,
            None => Seq::empty(),
        },
{
    match value {
        Some(v) => {
            push_str(s, label);
            if abbreviate {
                let a = abbreviate_hash(v.as_str());
                push_str(s, a.as_str());
            } else {
                push_str(s, v.as_str());
            }
            push_str(s, "\n");
        },
        None => {
            assert(old(s)@ + Seq::<char>::empty() =~= old(s)@);
        },
    }
}

impl ChainReview {
    /// The review as text: a header, the entry count and integrity, the
    /// time range, head and continuation hashes (abbreviated) where there
    /// are any, then the source, severity and agent counts in key order.
    pub fn render(&self) -> (s: String)
        ensures
            s@ == review_text(*self),
    {
        let mut s = string_of("=== Chain Review ===\n");
        push_str(&mut s, "Entries:    ");
        push_decimal(&mut s, self.entry_count as u64);
        push_str(&mut s, "\n");
        push_str(&mut s, "Integrity:  ");
        let t = self.integrity.text();
        push_str(&mut s, t.as_str());
        push_str(&mut s, "\n");
        push_optional_line(&mut s, "Earliest:   ", &self.earliest, false);
        push_optional_line(&mut s, "Latest:     ", &self.latest, false);
        push_optional_line(&mut s, "Head:       ", &self.head_hash, true);
        push_optional_line(&mut s, "Continues:  ", &self.continued_from, true);
        let ghost before = s@;
        if !self.sources.is_empty() {
            push_str(&mut s, "Sources:\n");
            self.sources.push_lines(&mut s);
        }
        assert(s@ =~= before + section_text("Sources:\n"@, self.sources@));
        let ghost before = s@;
        if !self.severities.is_empty() {
            push_str(&mut s, "Severities:\n");
            self.severities.push_lines(&mut s);
        }
        assert(s@ =~= before + section_text("Severities:\n"@, self.severities@));
        let ghost before = s@;
        if !self.agents.is_empty() {
            push_str(&mut s, "Agents:\n");
            self.agents.push_lines(&mut s);
        }
        assert(s@ =~= before + section_text("Agents:\n"@, self.agents@));
        s
    }
}

/// Whether `m` is the message of the integrity violation that verifying a
/// chain with these entries and this link reports.
pub open spec fn reported_message(s: Seq<AuditEntry>, prev: Option<String>, m: Seq<char>) -> bool {
    exists|index: usize, expected: String, actual: String|
        #![trigger violation_message(index as nat, expected@, actual@)]
        chain_reports(s, prev, Err(LibroError::IntegrityViolation { index, expected, actual }))
            && m == violation_message(index as nat, expected@, actual@)
}

impl AuditChain {
    /// A structured review of the chain: integrity (empty, valid, or the
    /// message of the first violation), entry count, first and last
    /// timestamps, counts per source, severity and agent, the head hash
    /// and the previous chain it continues.
    pub fn review(&self) -> (r: ChainReview)
        ensures
            r.entry_count == self.entries_spec().len(),
            self.entries_spec().len() == 0 ==> r.integrity == IntegrityStatus::Empty,
            self.entries_spec().len() > 0 ==> (r.integrity == IntegrityStatus::Valid <==> chain_valid(
                self.entries_spec(),
                self.prev_spec(),
            )),
            self.entries_spec().len() > 0 && !chain_valid(self.entries_spec(), self.prev_spec())
                ==> r.integrity is Invalid,
            r.integrity matches IntegrityStatus::Invalid(m) ==> reported_message(
                self.entries_spec(),
                self.prev_spec(),
                m@,
            ),
            opt_is(
                r.earliest,
                if self.entries_spec().len() > 0 {
                    Some(self.entries_spec()[0].timestamp.text())
                } else {
                    None
                },
            ),
            opt_is(
                r.latest,
                if self.entries_spec().len() > 0 {
                    Some(self.entries_spec().last().timestamp.text())
                } else {
                    None
                },
            ),
            tally_matches(r.sources@, self.entries_spec().map_values(|e: AuditEntry| e.source@)),
            tally_matches(
                r.severities@,
                self.entries_spec().map_values(|e: AuditEntry| e.severity.name()),
            ),
            tally_matches(r.agents@, self.entries_spec().map_values(|e: AuditEntry| agent_key(e))),
            opt_is(
                r.head_hash,
                if self.entries_spec().len() > 0 {
                    Some(self.entries_spec().last().hash@)
                } else {
                    None
                },
            ),
            opt_is(r.continued_from, opt_view(self.prev_spec())),
    {
        let integrity = if self.is_empty() {
            IntegrityStatus::Empty
        } else {
            match self.verify() {
                Ok(()) => IntegrityStatus::Valid,
                Err(e) => {
                    let m = e.message();
                    proof {
                        if let LibroError::IntegrityViolation { index, expected, actual } = e {
                            assert(m@ == violation_message(index as nat, expected@, actual@));
                        }
                    }
                    IntegrityStatus::Invalid(m)
                },
            }
        };
        let entries = self.entries();
        let n = entries.len();
        let ghost s = entries@;
        let ghost src_keys = s.map_values(|e: AuditEntry| e.source@);
        let ghost sev_keys = s.map_values(|e: AuditEntry| e.severity.name());
        let ghost agent_keys = s.map_values(|e: AuditEntry| agent_key(e));
        let mut sources = Tally::new();
        let mut severities = Tally::new();
        let mut agents = Tally::new();
        proof {
            assert(src_keys.take(0) =~= Seq::<Seq<char>>::empty());
            assert(sev_keys.take(0) =~= Seq::<Seq<char>>::empty());
            assert(agent_keys.take(0) =~= Seq::<Seq<char>>::empty());
        }
        for i in 0..n
            invariant
                n == s.len(),
                s == entries@,
                src_keys == s.map_values(|e: AuditEntry| e.source@),
                sev_keys == s.map_values(|e: AuditEntry| e.severity.name()),
                agent_keys == s.map_values(|e: AuditEntry| agent_key(e)),
                tally_matches(sources@, src_keys.take(i as int)),
                tally_matches(severities@, sev_keys.take(i as int)),
                tally_matches(agents@, agent_keys.take(i as int)),
        {
            let e = &entries[i];
            proof {
                lemma_count_key_bound(src_keys.take(i as int), e.source@);
                lemma_count_key_bound(sev_keys.take(i as int), e.severity.name());
                lemma_count_key_bound(agent_keys.take(i as int), agent_key(*e));
                assert(src_keys.take(i + 1).drop_last() =~= src_keys.take(i as int));
                assert(sev_keys.take(i + 1).drop_last() =~= sev_keys.take(i as int));
                assert(agent_keys.take(i + 1).drop_last() =~= agent_keys.take(i as int));
            }
            sources.add(e.source.as_str());
            severities.add(e.severity.as_str());
            match &e.agent_id {
                Some(a) => agents.add(a.as_str()),
                None => agents.add("(none)"),
            }
        }
        proof {
            assert(src_keys.take(n as int) =~= src_keys);
            assert(sev_keys.take(n as int) =~= sev_keys);
            assert(agent_keys.take(n as int) =~= agent_keys);
        }
        let earliest = if n > 0 {
            Some(entries[0].timestamp.to_rfc3339())
        } else {
            None
        };
        let latest = if n > 0 {
            Some(entries[n - 1].timestamp.to_rfc3339())
        } else {
            None
        };
        let head_hash = match self.head_hash() {
            Some(h) => Some(string_of(h)),
            None => None,
        };
        let continued_from = match self.continued_from() {
            Some(p) => Some(string_of(p)),
            None => None,
        };
        ChainReview {
            entry_count: n,
            integrity,
            earliest,
            latest,
            sources,
            severities,
            agents,
            head_hash,
            continued_from,
        }
    }
}

} // verus!
