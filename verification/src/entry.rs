//! Audit entries with hash linking.

use vstd::prelude::*;
use vstd::utf8::encode_utf8;

use crate::hasher::{digest_hex, sha256_hex};
use crate::text::{extend_bytes, lemma_utf8_injective};
use crate::time::Timestamp;

verus! {

/// Calls `uuid::Uuid::new_v4` and returns its 16 bytes. The bytes are random;
/// the only claim is what uuid's source shows it always sets: version 4 in
/// the high nibble of byte 6 and the RFC 4122 variant in byte 8.
#[verifier::external_body]
pub(crate) fn uuid_v4_bytes() -> (b: [u8; 16])
    ensures
        b[6] / 16 == 4,
        b[8] / 64 == 2,
{
    *uuid::Uuid::new_v4().as_bytes()
}

/// The compact JSON text that `serde_json` writes for the value it reads
/// from `text`, if `text` is JSON.
pub uninterp spec fn json_compact_spec(text: Seq<char>) -> Option<Seq<char>>;

/// Calls `serde_json::from_str::<serde_json::Value>` and then `to_string`;
/// claims it succeeds exactly when the name above gives a text, and gives
/// that text. The error's text is the crate's and is not described.
#[verifier::external_body]
pub(crate) fn compact_json(text: &str) -> (r: Result<String, String>)
    ensures
        r is Ok <==> json_compact_spec(text@) is Some,
        r matches Ok(s) ==> json_compact_spec(text@) == Some(s@),
{
    match serde_json::from_str::<serde_json::Value>(text) {
        Ok(v) => Ok(v.to_string()),
        Err(e) => Err(e.to_string()),
    }
}

/// The details text an entry keeps: the compact JSON form of `details`
/// where it is JSON, else the text as given.
pub open spec fn details_text(details: Seq<char>) -> Seq<char> {
    match json_compact_spec(details) {
        Some(c) => c,
        None => details,
    }
}

/// The details an entry keeps, normalised as `details_text` says.
fn normalise_details(details: &str) -> (d: String)
    ensures
        d@ == details_text(details@),
{
    match compact_json(details) {
        Ok(c) => c,
        Err(_) => crate::text::string_of(details),
    }
}

/// Event severity level.
#[derive(Clone, Copy, Debug, PartialEq, Eq, Structural)]
pub enum EventSeverity {
    Debug,
    Info,
    Warning,
    Error,
    Critical,
    Security,
}

impl EventSeverity {
    /// The name of the level, as written in hashes, exports and reviews.
    pub open spec fn name(self) -> Seq<char> {
        match self {
            EventSeverity::Debug => "Debug"@,
            EventSeverity::Info => "Info"@,
            EventSeverity::Warning => "Warning"@,
            EventSeverity::Error => "Error"@,
            EventSeverity::Critical => "Critical"@,
            EventSeverity::Security => "Security"@,
        }
    }

    /// The name of the level.
    pub fn as_str(&self) -> (s: &'static str)
        ensures
            s@ == self.name(),
    {
        match self {
            EventSeverity::Debug => "Debug",
            EventSeverity::Info => "Info",
            EventSeverity::Warning => "Warning",
            EventSeverity::Error => "Error",
            EventSeverity::Critical => "Critical",
            EventSeverity::Security => "Security",
        }
    }

    /// The level whose name is `s`, if any.
    pub fn from_name(s: &str) -> (r: Option<EventSeverity>)
        ensures
            r matches Some(v) ==> v.name() == s@,
            r is None ==> forall|v: EventSeverity| v.name() != s@,
    {
        let all = [
            EventSeverity::Debug,
            EventSeverity::Info,
            EventSeverity::Warning,
            EventSeverity::Error,
            EventSeverity::Critical,
            EventSeverity::Security,
        ];
        for i in 0..6
            invariant
                all@ == seq![
                    EventSeverity::Debug,
                    EventSeverity::Info,
                    EventSeverity::Warning,
                    EventSeverity::Error,
                    EventSeverity::Critical,
                    EventSeverity::Security,
                ],
                forall|j: int| 0 <= j < i ==> all@[j].name() != s@,
        {
            let v = all[i];
            if crate::hasher::constant_time_eq(v.as_str(), s) {
                return Some(v);
            }
        }
        proof {
            assert forall|v: EventSeverity| v.name() != s@ by {
                match v {
                    EventSeverity::Debug => assert(all@[0] == v),
                    EventSeverity::Info => assert(all@[1] == v),
                    EventSeverity::Warning => assert(all@[2] == v),
                    EventSeverity::Error => assert(all@[3] == v),
                    EventSeverity::Critical => assert(all@[4] == v),
                    EventSeverity::Security => assert(all@[5] == v),
                }
            }
        }
        None
    }
}

/// A single audit entry in the chain.
#[derive(Clone, Debug, PartialEq, Eq)]
pub struct AuditEntry {
    /// The entry's UUID, as its 16 bytes.
    pub id: [u8; 16],
    pub timestamp: Timestamp,
    pub severity: EventSeverity,
    pub source: String,
    pub action: String,
    /// Structured details, as compact JSON text.
    pub details: String,
    pub agent_id: Option<String>,
    /// Hash of the previous entry (empty for the genesis of a fresh chain).
    pub prev_hash: String,
    /// Hash of this entry's content.
    pub hash: String,
}

/// The text of an optional field, empty when absent.
pub open spec fn opt_text(o: Option<String>) -> Seq<char> {
    match o {
        Some(s) => s@,
        None => Seq::empty(),
    }
}

/// The bytes an entry's hash covers: the id's 16 bytes, then the UTF-8 text
/// of the timestamp (RFC 3339), severity name, source, action, details,
/// agent id (empty when absent) and previous hash, in that order.
pub open spec fn hash_input(e: AuditEntry) -> Seq<u8> {
    e.id@ + encode_utf8(e.timestamp.text()) + encode_utf8(e.severity.name()) + encode_utf8(
        e.source@,
    ) + encode_utf8(e.action@) + encode_utf8(e.details@) + encode_utf8(opt_text(e.agent_id))
        + encode_utf8(e.prev_hash@)
}

/// The hash an entry's content calls for: the hex SHA-256 digest of its hash input.
pub open spec fn content_hash(e: AuditEntry) -> Seq<char> {
    digest_hex(hash_input(e))
}

/// Whether the entry's stored hash matches its content.
pub open spec fn sealed(e: AuditEntry) -> bool {
    e.hash@ == content_hash(e)
}

fn append_text(buf: &mut Vec<u8>, s: &str)
    ensures
        final(buf)@ == old(buf)@ + encode_utf8(s@),
{
    extend_bytes(buf, s.as_bytes());
}

impl AuditEntry {
    /// Create a new entry chained to the given previous hash.
    ///
    /// The id is a fresh random UUID and the timestamp the current time.
    /// Details given as JSON are kept in their compact form (as
    /// `serde_json` writes the value), so that they read back unchanged.
    pub fn new(
        severity: EventSeverity,
        source: &str,
        action: &str,
        details: &str,
        prev_hash: &str,
    ) -> (e: Self)
        ensures
            e.severity == severity,
            e.source@ == source@,
            e.action@ == action@,
            e.details@ == details_text(details@),
            e.agent_id is None,
            e.prev_hash@ == prev_hash@,
            sealed(e),
            e.timestamp.nanos_spec() < 1_000_000_000,
            e.id[6] / 16 == 4,
            e.id[8] / 64 == 2,
    {
        let mut entry = AuditEntry {
            id: uuid_v4_bytes(),
            timestamp: Timestamp::now(),
            severity,
            source: crate::text::string_of(source),
            action: crate::text::string_of(action),
            details: normalise_details(details),
            agent_id: None,
            prev_hash: crate::text::string_of(prev_hash),
            hash: String::new(),
        };
        entry.hash = entry.compute_hash();
        entry
    }

    /// Sets the agent id and recomputes the hash.
    pub fn with_agent(self, agent_id: &str) -> (e: Self)
        ensures
            e.id == self.id,
            e.timestamp == self.timestamp,
            e.severity == self.severity,
            e.source == self.source,
            e.action == self.action,
            e.details == self.details,
            e.agent_id matches Some(a) && a@ == agent_id@,
            e.prev_hash == self.prev_hash,
            sealed(e),
    {
        let mut e = self;
        e.agent_id = Some(crate::text::string_of(agent_id));
        e.hash = e.compute_hash();
        e
    }

    /// Compute the hash of this entry's content.
    pub fn compute_hash(&self) -> (h: String)
        ensures
            h@ == content_hash(*self),
    {
        let mut buf: Vec<u8> = Vec::new();
        extend_bytes(&mut buf, self.id.as_slice());
        let ts = self.timestamp.to_rfc3339();
        append_text(&mut buf, ts.as_str());
        append_text(&mut buf, self.severity.as_str());
        append_text(&mut buf, self.source.as_str());
        append_text(&mut buf, self.action.as_str());
        append_text(&mut buf, self.details.as_str());
        match &self.agent_id {
            Some(a) => append_text(&mut buf, a.as_str()),
            None => append_text(&mut buf, ""),
        }
        append_text(&mut buf, self.prev_hash.as_str());
        proof {
            assert(Seq::<char>::empty() == ""@) by {
                reveal_strlit("");
            }
            assert(buf@ =~= hash_input(*self));
        }
        sha256_hex(buf.as_slice())
    }

    /// Verify this entry's hash matches its content.
    pub fn verify(&self) -> (r: bool)
        ensures
            r == sealed(*self),
    {
        let h = self.compute_hash();
        h == self.hash
    }

    /// A copy of this entry.
    pub fn duplicate(&self) -> (r: Self)
        ensures
            r == *self,
    {
        AuditEntry {
            id: self.id,
            timestamp: self.timestamp,
            severity: self.severity,
            source: self.source.clone(),
            action: self.action.clone(),
            details: self.details.clone(),
            agent_id: match &self.agent_id {
                Some(a) => Some(a.clone()),
                None => None,
            },
            prev_hash: self.prev_hash.clone(),
            hash: self.hash.clone(),
        }
    }

    /// The entry's UUID bytes.
    pub fn id(&self) -> (r: [u8; 16])
        ensures
            r == self.id,
    {
        self.id
    }

    pub fn timestamp(&self) -> (r: Timestamp)
        ensures
            r == self.timestamp,
    {
        self.timestamp
    }

    pub fn severity(&self) -> (r: EventSeverity)
        ensures
            r == self.severity,
    {
        self.severity
    }

    pub fn source(&self) -> (r: &str)
        ensures
            r@ == self.source@,
    {
        self.source.as_str()
    }

    pub fn action(&self) -> (r: &str)
        ensures
            r@ == self.action@,
    {
        self.action.as_str()
    }

    /// The details, as compact JSON text.
    pub fn details(&self) -> (r: &str)
        ensures
            r@ == self.details@,
    {
        self.details.as_str()
    }

    pub fn agent_id(&self) -> (r: Option<&str>)
        ensures
            match self.agent_id {
                Some(a) => r matches Some(x) && x@ == a@,
                None => r is None,
            },
    {
        match &self.agent_id {
            Some(a) => Some(a.as_str()),
            None => None,
        }
    }

    pub fn prev_hash(&self) -> (r: &str)
        ensures
            r@ == self.prev_hash@,
    {
        self.prev_hash.as_str()
    }

    pub fn hash(&self) -> (r: &str)
        ensures
            r@ == self.hash@,
    {
        self.hash.as_str()
    }
}


/// The hyphenated lowercase text of a UUID: hex groups of 4, 2, 2, 2 and 6
/// bytes joined by `-`, as `uuid` displays it.
pub open spec fn uuid_text_spec(id: Seq<u8>) -> Seq<char> {
    crate::hasher::hex_spec(id.subrange(0, 4)) + "-"@ + crate::hasher::hex_spec(id.subrange(4, 6))
        + "-"@ + crate::hasher::hex_spec(id.subrange(6, 8)) + "-"@ + crate::hasher::hex_spec(
        id.subrange(8, 10),
    ) + "-"@ + crate::hasher::hex_spec(id.subrange(10, 16))
}

/// The hyphenated lowercase text of a UUID's 16 bytes.
pub fn uuid_text(id: &[u8; 16]) -> (s: String)
    ensures
        s@ == uuid_text_spec(id@),
{
    let b = id.as_slice();
    let mut s = String::new();
    crate::hasher::push_hex(&mut s, &b[0..4]);
    crate::text::push_str(&mut s, "-");
    crate::hasher::push_hex(&mut s, &b[4..6]);
    crate::text::push_str(&mut s, "-");
    crate::hasher::push_hex(&mut s, &b[6..8]);
    crate::text::push_str(&mut s, "-");
    crate::hasher::push_hex(&mut s, &b[8..10]);
    crate::text::push_str(&mut s, "-");
    crate::hasher::push_hex(&mut s, &b[10..16]);
    s
}

/// The one-line text of an entry: `[{timestamp}] {severity} {source}/{action}`,
/// then ` agent={agent}` where there is one, then ` hash={abbreviated hash}`.
pub open spec fn entry_line(e: AuditEntry) -> Seq<char> {
    "["@ + e.timestamp.text() + "] "@ + e.severity.name() + " "@ + e.source@ + "/"@ + e.action@
        + match e.agent_id {
        Some(a) => " agent="@ + a@,
        None => Seq::empty(),
    } + " hash="@ + crate::review::abbreviated(e.hash@)
}

impl AuditEntry {
    /// The entry as one line of text (see [`entry_line`]).
    pub fn display_line(&self) -> (s: String)
        ensures
            s@ == entry_line(*self),
    {
        let mut s = crate::text::string_of("[");
        let ts = self.timestamp.to_rfc3339();
        crate::text::push_str(&mut s, ts.as_str());
        crate::text::push_str(&mut s, "] ");
        crate::text::push_str(&mut s, self.severity.as_str());
        crate::text::push_str(&mut s, " ");
        crate::text::push_str(&mut s, self.source.as_str());
        crate::text::push_str(&mut s, "/");
        crate::text::push_str(&mut s, self.action.as_str());
        let ghost before = s@;
        match &self.agent_id {
            Some(a) => {
                crate::text::push_str(&mut s, " agent=");
                crate::text::push_str(&mut s, a.as_str());
            },
            None => {},
        }
        assert(s@ =~= before + match self.agent_id {
            Some(a) => " agent="@ + a@,
            None => Seq::<char>::empty(),
        });
        crate::text::push_str(&mut s, " hash=");
        let h = crate::review::abbreviate_hash(self.hash.as_str());
        crate::text::push_str(&mut s, h.as_str());
        s
    }
}

/// Distinct severities have distinct names.
pub proof fn lemma_severity_names_distinct(a: EventSeverity, b: EventSeverity)
    requires
        a != b,
    ensures
        a.name() != b.name(),
{
    reveal_strlit("Debug");
    reveal_strlit("Info");
    reveal_strlit("Warning");
    reveal_strlit("Error");
    reveal_strlit("Critical");
    reveal_strlit("Security");
    assert(a.name()[0] != b.name()[0]);
}

/// The parts of an entry's hash input, in order.
spec fn hash_parts(x: AuditEntry) -> Seq<Seq<u8>> {
    seq![
        x.id@,
        encode_utf8(x.timestamp.text()),
        encode_utf8(x.severity.name()),
        encode_utf8(x.source@),
        encode_utf8(x.action@),
        encode_utf8(x.details@),
        encode_utf8(opt_text(x.agent_id)),
        encode_utf8(x.prev_hash@),
    ]
}

#[verifier::spinoff_prover]
#[verifier::rlimit(40)]
proof fn lemma_hash_input_parts(x: AuditEntry)
    ensures
        hash_input(x) == hash_parts(x).flatten(),
        hash_parts(x).len() == 8,
{
    reveal_with_fuel(Seq::flatten, 9);
    assert(hash_input(x) =~= hash_parts(x).flatten());
}

/// Entries whose hash parts differ at `k` only have different hash inputs.
proof fn lemma_one_part_differs(e: AuditEntry, f: AuditEntry, k: int)
    requires
        0 <= k < 8,
        hash_parts(e)[k] != hash_parts(f)[k],
        forall|j: int| 0 <= j < 8 && j != k ==> hash_parts(e)[j] == hash_parts(f)[j],
    ensures
        hash_input(e) != hash_input(f),
{
    lemma_hash_input_parts(e);
    lemma_hash_input_parts(f);
    lemma_flatten_differs_at(hash_parts(e), hash_parts(f), k);
}

/// The content hash covers every field of an entry: two entries that agree
/// on all fields but one (the id, the timestamp's text, the severity, the
/// source, the action, the details, the agent id's text or the previous
/// hash) and differ in that one have different hash inputs. So an entry
/// with one field changed keeps its seal only through a SHA-256 collision.
pub proof fn lemma_hash_input_covers_every_field(e: AuditEntry, f: AuditEntry)
    ensures
        e.id@ != f.id@ && e.timestamp == f.timestamp && e.severity == f.severity && e.source
            == f.source && e.action == f.action && e.details == f.details && e.agent_id
            == f.agent_id && e.prev_hash == f.prev_hash ==> hash_input(e) != hash_input(f),
        e.id == f.id && e.timestamp.text() != f.timestamp.text() && e.severity == f.severity
            && e.source == f.source && e.action == f.action && e.details == f.details
            && e.agent_id == f.agent_id && e.prev_hash == f.prev_hash ==> hash_input(e)
            != hash_input(f),
        e.id == f.id && e.timestamp == f.timestamp && e.severity != f.severity && e.source
            == f.source && e.action == f.action && e.details == f.details && e.agent_id
            == f.agent_id && e.prev_hash == f.prev_hash ==> hash_input(e) != hash_input(f),
        e.id == f.id && e.timestamp == f.timestamp && e.severity == f.severity && e.source@
            != f.source@ && e.action == f.action && e.details == f.details && e.agent_id
            == f.agent_id && e.prev_hash == f.prev_hash ==> hash_input(e) != hash_input(f),
        e.id == f.id && e.timestamp == f.timestamp && e.severity == f.severity && e.source
            == f.source && e.action@ != f.action@ && e.details == f.details && e.agent_id
            == f.agent_id && e.prev_hash == f.prev_hash ==> hash_input(e) != hash_input(f),
        e.id == f.id && e.timestamp == f.timestamp && e.severity == f.severity && e.source
            == f.source && e.action == f.action && e.details@ != f.details@ && e.agent_id
            == f.agent_id && e.prev_hash == f.prev_hash ==> hash_input(e) != hash_input(f),
        e.id == f.id && e.timestamp == f.timestamp && e.severity == f.severity && e.source
            == f.source && e.action == f.action && e.details == f.details && opt_text(
            e.agent_id,
        ) != opt_text(f.agent_id) && e.prev_hash == f.prev_hash ==> hash_input(e) != hash_input(
            f,
        ),
        e.id == f.id && e.timestamp == f.timestamp && e.severity == f.severity && e.source
            == f.source && e.action == f.action && e.details == f.details && e.agent_id
            == f.agent_id && e.prev_hash@ != f.prev_hash@ ==> hash_input(e) != hash_input(f),
{
    let pe = hash_parts(e);
    let pf = hash_parts(f);
    if e.id@ != f.id@ && e.timestamp == f.timestamp && e.severity == f.severity && e.source
        == f.source && e.action == f.action && e.details == f.details && e.agent_id == f.agent_id
        && e.prev_hash == f.prev_hash {
        lemma_one_part_differs(e, f, 0);
    }
    if e.id == f.id && e.timestamp.text() != f.timestamp.text() && e.severity == f.severity
        && e.source == f.source && e.action == f.action && e.details == f.details && e.agent_id
        == f.agent_id && e.prev_hash == f.prev_hash {
        lemma_utf8_injective(e.timestamp.text(), f.timestamp.text());
        lemma_one_part_differs(e, f, 1);
    }
    if e.id == f.id && e.timestamp == f.timestamp && e.severity != f.severity && e.source
        == f.source && e.action == f.action && e.details == f.details && e.agent_id == f.agent_id
        && e.prev_hash == f.prev_hash {
        lemma_severity_names_distinct(e.severity, f.severity);
        lemma_utf8_injective(e.severity.name(), f.severity.name());
        lemma_one_part_differs(e, f, 2);
    }
    if e.id == f.id && e.timestamp == f.timestamp && e.severity == f.severity && e.source@
        != f.source@ && e.action == f.action && e.details == f.details && e.agent_id == f.agent_id
        && e.prev_hash == f.prev_hash {
        lemma_utf8_injective(e.source@, f.source@);
        lemma_one_part_differs(e, f, 3);
    }
    if e.id == f.id && e.timestamp == f.timestamp && e.severity == f.severity && e.source
        == f.source && e.action@ != f.action@ && e.details == f.details && e.agent_id == f.agent_id
        && e.prev_hash == f.prev_hash {
        lemma_utf8_injective(e.action@, f.action@);
        lemma_one_part_differs(e, f, 4);
    }
    if e.id == f.id && e.timestamp == f.timestamp && e.severity == f.severity && e.source
        == f.source && e.action == f.action && e.details@ != f.details@ && e.agent_id == f.agent_id
        && e.prev_hash == f.prev_hash {
        lemma_utf8_injective(e.details@, f.details@);
        lemma_one_part_differs(e, f, 5);
    }
    if e.id == f.id && e.timestamp == f.timestamp && e.severity == f.severity && e.source
        == f.source && e.action == f.action && e.details == f.details && opt_text(e.agent_id)
        != opt_text(f.agent_id) && e.prev_hash == f.prev_hash {
        lemma_utf8_injective(opt_text(e.agent_id), opt_text(f.agent_id));
        lemma_one_part_differs(e, f, 6);
    }
    if e.id == f.id && e.timestamp == f.timestamp && e.severity == f.severity && e.source
        == f.source && e.action == f.action && e.details == f.details && e.agent_id == f.agent_id
        && e.prev_hash@ != f.prev_hash@ {
        lemma_utf8_injective(e.prev_hash@, f.prev_hash@);
        lemma_one_part_differs(e, f, 7);
    }
}

/// Lists of parts that agree everywhere but at `k`, where they differ, join
/// to different sequences.
pub proof fn lemma_flatten_differs_at<A>(p: Seq<Seq<A>>, q: Seq<Seq<A>>, k: int)
    requires
        p.len() == q.len(),
        0 <= k < p.len(),
        p[k] != q[k],
        forall|j: int| 0 <= j < p.len() && j != k ==> p[j] == q[j],
    ensures
        p.flatten() != q.flatten(),
{
    let pre = p.take(k).flatten();
    let post = p.skip(k + 1).flatten();
    assert(p.take(k) =~= q.take(k));
    assert(p.skip(k + 1) =~= q.skip(k + 1));
    lemma_flatten_split(p, k);
    lemma_flatten_split(q, k);
    crate::text::lemma_differ_in_middle(pre, p[k], q[k], post);
}

/// A list's join is the join of the parts before `k`, part `k`, and the join
/// of the parts after it.
proof fn lemma_flatten_split<A>(p: Seq<Seq<A>>, k: int)
    requires
        0 <= k < p.len(),
    ensures
        p.flatten() == p.take(k).flatten() + p[k] + p.skip(k + 1).flatten(),
    decreases k,
{
    if k == 0 {
        assert(p.take(0) =~= Seq::<Seq<A>>::empty());
        assert(p.skip(1) =~= p.drop_first());
        assert(p.take(0).flatten() =~= Seq::<A>::empty());
    } else {
        lemma_flatten_split(p.drop_first(), k - 1);
        assert(p.drop_first().take(k - 1) =~= p.take(k).drop_first());
        assert(p.drop_first().skip(k) =~= p.skip(k + 1));
        assert(p.take(k)[0] == p[0]);
        assert(p.take(k).flatten() =~= p[0] + p.take(k).drop_first().flatten());
        assert(p.flatten() =~= p[0] + p.drop_first().flatten());
    }
}

} // verus!
