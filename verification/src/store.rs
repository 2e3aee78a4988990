//! Persistence backends for the audit chain: the [`AuditStore`] trait, the
//! in-memory [`MemoryStore`], and the paged streaming verification that
//! every store shares.

use vstd::prelude::*;

use crate::entry::AuditEntry;
use crate::error::LibroError;
use crate::query::{selected, QueryFilter};
use crate::text::string_of;
use crate::verify::{chain_sound, reports, sound_at, verify_chain, verify_chain_offset};

verus! {

/// The entries of `all` that `filter` admits, in order.
pub fn filter_entries(all: Vec<AuditEntry>, filter: &QueryFilter) -> (r: Vec<AuditEntry>)
    ensures
        r@ == selected(*filter, all@),
{
    let mut out: Vec<AuditEntry> = Vec::new();
    let n = all.len();
    for i in 0..n
        invariant
            n == all@.len(),
            out@ == selected(*filter, all@.take(i as int)),
    {
        proof {
            reveal_with_fuel(Seq::<_>::filter, 1);
            assert(all@.take(i + 1).drop_last() =~= all@.take(i as int));
        }
        if filter.matches(&all[i]) {
            out.push(all[i].duplicate());
        }
    }
    assert(all@.take(n as int) =~= all@);
    out
}

/// The page of `all` that skips `offset` entries and keeps up to `limit`.
pub open spec fn page_spec(all: Seq<AuditEntry>, offset: nat, limit: nat) -> Seq<AuditEntry> {
    if offset >= all.len() {
        Seq::empty()
    } else if offset + limit >= all.len() {
        all.subrange(offset as int, all.len() as int)
    } else {
        all.subrange(offset as int, (offset + limit) as int)
    }
}

/// The entries of `all` after skipping `offset`, at most `limit` of them.
pub fn page_of(all: &[AuditEntry], offset: usize, limit: usize) -> (r: Vec<AuditEntry>)
    ensures
        r@ == page_spec(all@, offset as nat, limit as nat),
{
    let n = all.len();
    let mut out: Vec<AuditEntry> = Vec::new();
    if offset >= n {
        return out;
    }
    let end = if limit >= n - offset {
        n
    } else {
        offset + limit
    };
    for i in offset..end
        invariant
            n == all@.len(),
            offset <= end <= n,
            out@ == all@.subrange(offset as int, i as int),
    {
        out.push(all[i].duplicate());
        assert(all@.subrange(offset as int, i + 1) =~= all@.subrange(offset as int, i as int).push(
            all@[i as int],
        ));
    }
    out
}

/// The state of a paged verification: the pages checked so far, read
/// from `offset`, and the last hash seen.
pub struct StreamCheck {
    chunk_size: usize,
    offset: usize,
    prev_tail: Option<String>,
    finished: bool,
    seen: Ghost<Seq<AuditEntry>>,
}

/// The hash of the last entry of `s`, if any.
pub open spec fn tail_hash(s: Seq<AuditEntry>) -> Option<Seq<char>> {
    if s.len() > 0 {
        Some(s.last().hash@)
    } else {
        None
    }
}

/// What checking a page after the entries `seen` reports as an integrity
/// violation: at the page's first position, when it does not link to the
/// last entry seen, the last hash and the page's first previous hash;
/// otherwise what verifying the page on its own reports, positions counted
/// after `seen`.
pub open spec fn page_reports(seen: Seq<AuditEntry>, chunk: Seq<AuditEntry>, r: Result<(), LibroError>) -> bool {
    if seen.len() > 0 && chunk.len() > 0 && chunk[0].prev_hash@ != seen.last().hash@ {
        r matches Err(LibroError::IntegrityViolation { index, expected, actual }) && index
            == seen.len() && expected@ == seen.last().hash@ && actual@ == chunk[0].prev_hash@
    } else {
        reports(chunk, seen.len() as int, r)
    }
}

impl StreamCheck {
    /// The entries of every page fed so far, in order.
    pub closed spec fn seen(&self) -> Seq<AuditEntry> {
        self.seen@
    }

    /// The page size, at least one.
    pub closed spec fn chunk(&self) -> nat {
        self.chunk_size as nat
    }

    /// Whether the last page was short (or empty): nothing more to read.
    pub closed spec fn is_finished(&self) -> bool {
        self.finished
    }

    /// Whether the state is coherent: the offset counts the entries seen,
    /// and the last hash is that of the last entry seen.
    pub closed spec fn well_formed(&self) -> bool {
        &&& self.chunk_size >= 1
        &&& self.offset == self.seen@.len()
        &&& match self.prev_tail {
            Some(h) => tail_hash(self.seen@) == Some(h@),
            None => self.seen@.len() == 0,
        }
    }

    /// A check that reads pages of `chunk_size` entries (at least one).
    pub fn new(chunk_size: usize) -> (c: Self)
        ensures
            c.well_formed(),
            c.seen() == Seq::<AuditEntry>::empty(),
            c.chunk() == if chunk_size == 0 {
                1
            } else {
                chunk_size as nat
            },
            !c.is_finished(),
    {
        StreamCheck {
            chunk_size: if chunk_size == 0 {
                1
            } else {
                chunk_size
            },
            offset: 0,
            prev_tail: None,
            finished: false,
            seen: Ghost(Seq::empty()),
        }
    }

    /// The page to read next: its offset and size.
    pub fn next_page(&self) -> (r: (usize, usize))
        requires
            self.well_formed(),
        ensures
            r.0 == self.seen().len(),
            r.1 == self.chunk(),
    {
        (self.offset, self.chunk_size)
    }

    /// Number of entries verified so far.
    pub fn total(&self) -> (n: usize)
        requires
            self.well_formed(),
        ensures
            n == self.seen().len(),
    {
        self.offset
    }

    /// Feeds the next page. An empty or short page finishes the check; a
    /// page whose first entry does not link to the previous page's last,
    /// or that does not verify, is an integrity violation at its absolute
    /// position. A page that would take the count past a machine word is a
    /// store error.
    pub fn feed(&mut self, chunk: &[AuditEntry]) -> (r: Result<(), LibroError>)
        requires
            old(self).well_formed(),
            !old(self).is_finished(),
            chain_sound(old(self).seen()),
        ensures
            final(self).well_formed(),
            final(self).chunk() == old(self).chunk(),
            match r {
                Ok(()) => {
                    &&& final(self).seen() == old(self).seen() + chunk@
                    &&& chain_sound(final(self).seen())
                    &&& final(self).is_finished() == (chunk@.len() < old(self).chunk())
                },
                Err(LibroError::IntegrityViolation { index, expected, actual }) => page_reports(
                    old(self).seen(),
                    chunk@,
                    r,
                ),
                Err(LibroError::Store(m)) => old(self).seen().len() + chunk@.len() > usize::MAX,
                Err(_) => false,
            },
    {
        let n = chunk.len();
        let ghost before = self.seen@;
        if n == 0 {
            self.finished = true;
            assert(before + chunk@ =~= before);
            return Ok(());
        }
        if self.offset > usize::MAX - n {
            return Err(LibroError::Store(string_of("entry count overflows a machine word")));
        }
        let ghost s = before + chunk@;
        proof {
            assert forall|j: int| 0 <= j < before.len() implies #[trigger] sound_at(s, j) by {
                assert(sound_at(before, j));
                assert(s[j] == before[j]);
                if j > 0 {
                    assert(s[j - 1] == before[j - 1]);
                }
            }
        }
        match &self.prev_tail {
            Some(p) => {
                if chunk[0].prev_hash != *p {
                    proof {
                        assert(s[before.len() as int] == chunk@[0]);
                        assert(s[before.len() - 1] == before.last());
                    }
                    return Err(
                        LibroError::IntegrityViolation {
                            index: self.offset,
                            expected: p.clone(),
                            actual: chunk[0].prev_hash.clone(),
                        },
                    );
                }
            },
            None => {},
        }
        match verify_chain_offset(chunk, self.offset) {
            Ok(()) => {},
            Err(e) => {
                proof {
                    if let LibroError::IntegrityViolation { index, .. } = e {
                        let i = index - self.offset;
                        assert forall|j: int| 0 <= j < index implies #[trigger] sound_at(s, j) by {
                            if j >= before.len() {
                                assert(sound_at(chunk@, j - before.len()));
                                assert(s[j] == chunk@[j - before.len()]);
                                if j > before.len() {
                                    assert(s[j - 1] == chunk@[j - before.len() - 1]);
                                }
                            }
                        }
                        assert(s[index as int] == chunk@[i]);
                        if i > 0 {
                            assert(s[index - 1] == chunk@[i - 1]);
                        }
                    }
                }
                return Err(e);
            },
        }
        proof {
            assert forall|j: int| 0 <= j < s.len() implies #[trigger] sound_at(s, j) by {
                if j == before.len() && j > 0 {
                    assert(s[j - 1] == before[j - 1]);
                }
                if j >= before.len() {
                    assert(sound_at(chunk@, j - before.len()));
                    assert(s[j] == chunk@[j - before.len()]);
                    if j > before.len() {
                        assert(s[j - 1] == chunk@[j - before.len() - 1]);
                    }
                }
            }
        }
        self.prev_tail = Some(chunk[n - 1].hash.clone());
        self.offset = self.offset + n;
        self.seen = Ghost(s);
        self.finished = n < self.chunk_size;
        Ok(())
    }
}

/// Storage backends for audit chains.
///
/// `load_all` does not verify entry integrity: after loading from an
/// untrusted source, verify the result or use `load_and_verify`.
///
/// A store is described by the entries it holds, in order (`stored`), and
/// by whether its reads always succeed (`reads_succeed`). Reading may fail
/// where the medium decides; what a read gives when it succeeds is stated
/// over `stored`.
///
/// Both have defaults, so that stores written outside the verifier compile
/// without them. The contracts below bind only the stores verified in this
/// library (`MemoryStore`), which define both. For a store written outside
/// the verifier they are not checked, and with the defaults they do not
/// describe it: taken literally they would describe an empty store.
pub trait AuditStore {
    /// The entries the store holds, in order (by default, none).
    closed spec fn stored(&self) -> Seq<AuditEntry> {
        Seq::empty()
    }

    /// Whether every read of this store succeeds (by default, no read is
    /// promised to).
    closed spec fn reads_succeed(&self) -> bool {
        false
    }

    /// Persist one entry after the ones already stored.
    fn append(&mut self, entry: &AuditEntry) -> (r: crate::error::Result<()>)
        ensures
            r is Ok ==> final(self).stored() == old(self).stored().push(*entry),
    ;

    /// Load all entries, in order. Does not verify integrity.
    fn load_all(&self) -> (r: crate::error::Result<Vec<AuditEntry>>)
        ensures
            r matches Ok(v) ==> v@ == self.stored(),
            self.reads_succeed() ==> r is Ok,
    ;

    /// Number of stored entries.
    fn len(&self) -> (n: usize)
        ensures
            n == self.stored().len(),
    ;

    /// Whether the store holds no entries.
    fn is_empty(&self) -> (b: bool)
        ensures
            b == (self.stored().len() == 0),
    {
        self.len() == 0
    }

    /// Load all entries and verify the chain's integrity: the entries when
    /// they load and form an intact chain, an error otherwise (a tampered
    /// store never loads).
    fn load_and_verify(&self) -> (r: crate::error::Result<Vec<AuditEntry>>)
        ensures
            r matches Ok(v) ==> v@ == self.stored() && chain_sound(v@),
            !chain_sound(self.stored()) ==> r is Err,
            self.reads_succeed() && chain_sound(self.stored()) ==> r is Ok,
    {
        let entries = match self.load_all() {
            Ok(v) => v,
            Err(e) => {
                return Err(e);
            },
        };
        match verify_chain(entries.as_slice()) {
            Ok(()) => Ok(entries),
            Err(e) => Err(e),
        }
    }

    /// Verify the chain's integrity page by page (`chunk_size` entries at
    /// a time, at least one), checking the links across pages; the number
    /// of entries verified, which is all of them, or an error (a tampered
    /// store never passes).
    fn verify_streamed(&self, chunk_size: usize) -> (r: crate::error::Result<usize>)
        ensures
            r matches Ok(n) ==> n == self.stored().len() && chain_sound(self.stored()),
            !chain_sound(self.stored()) ==> r is Err,
            self.reads_succeed() && chain_sound(self.stored()) && self.stored().len()
                <= usize::MAX ==> r is Ok,
            self.reads_succeed() && self.stored().len() <= usize::MAX ==> (r is Ok <==> chain_sound(
                self.stored(),
            )),
    {
        let mut check = StreamCheck::new(chunk_size);
        loop
            invariant
                check.well_formed(),
                chain_sound(check.seen()),
                !check.is_finished(),
                check.chunk() >= 1,
                check.seen().len() <= self.stored().len(),
                check.seen() == self.stored().take(check.seen().len() as int),
            decreases usize::MAX - check.seen().len(),
        {
            let (offset, limit) = check.next_page();
            let chunk = match self.load_page(offset, limit) {
                Ok(c) => c,
                Err(e) => {
                    return Err(e);
                },
            };
            let ghost before = check.seen();
            proof {
                lemma_page_extends(self.stored(), before, check.chunk());
            }
            match check.feed(chunk.as_slice()) {
                Ok(()) => {},
                Err(e) => {
                    proof {
                        if chain_sound(self.stored()) {
                            lemma_sound_prefix(self.stored(), (before.len() + chunk@.len()) as int);
                            if e is IntegrityViolation {
                                lemma_sound_page_passes(before, chunk@, Err(e));
                            }
                        }
                    }
                    return Err(e);
                },
            }
            if check.is_done() {
                return Ok(check.total());
            }
            assert(check.seen().len() > before.len());
        }
    }

    /// The stored entries that `filter` admits, in order.
    fn query(&self, filter: &QueryFilter) -> (r: crate::error::Result<Vec<AuditEntry>>)
        ensures
            r matches Ok(v) ==> v@ == selected(*filter, self.stored()),
            self.reads_succeed() ==> r is Ok,
    {
        match self.load_all() {
            Ok(all) => Ok(filter_entries(all, filter)),
            Err(e) => Err(e),
        }
    }

    /// A page of entries: skip `offset`, return up to `limit`.
    fn load_page(&self, offset: usize, limit: usize) -> (r: crate::error::Result<Vec<AuditEntry>>)
        ensures
            r matches Ok(v) ==> v@ == page_spec(self.stored(), offset as nat, limit as nat),
            self.reads_succeed() ==> r is Ok,
    {
        match self.load_all() {
            Ok(all) => Ok(page_of(all.as_slice(), offset, limit)),
            Err(e) => Err(e),
        }
    }
}

/// Every prefix of an intact chain is intact.
proof fn lemma_sound_prefix(all: Seq<AuditEntry>, n: int)
    requires
        chain_sound(all),
        0 <= n <= all.len(),
    ensures
        chain_sound(all.take(n)),
{
    let p = all.take(n);
    assert forall|i: int| 0 <= i < p.len() implies #[trigger] sound_at(p, i) by {
        assert(sound_at(all, i));
        if i > 0 {
            assert(p[i - 1] == all[i - 1]);
        }
    }
}

/// A page that, after the entries seen, continues an intact chain reports
/// no integrity violation.
proof fn lemma_sound_page_passes(seen: Seq<AuditEntry>, chunk: Seq<AuditEntry>, r: Result<(), LibroError>)
    requires
        chain_sound(seen + chunk),
        r is Err,
    ensures
        !page_reports(seen, chunk, r),
{
    let p = seen + chunk;
    if page_reports(seen, chunk, r) {
        if seen.len() > 0 && chunk.len() > 0 && chunk[0].prev_hash@ != seen.last().hash@ {
            assert(sound_at(p, seen.len() as int));
            assert(p[seen.len() as int] == chunk[0]);
            assert(p[seen.len() - 1] == seen.last());
        } else {
            if let Err(LibroError::IntegrityViolation { index, expected, actual }) = r {
                let i = index - seen.len();
                assert(sound_at(p, index as int));
                assert(p[index as int] == chunk[i]);
                if i > 0 {
                    assert(p[index - 1] == chunk[i - 1]);
                }
                assert(sound_at(chunk, i));
            }
        }
    }
}

/// Reading the page after a prefix `seen` of `all` extends the prefix: by
/// the whole remainder when the page is short, else by `limit` entries.
proof fn lemma_page_extends(all: Seq<AuditEntry>, seen: Seq<AuditEntry>, limit: nat)
    requires
        limit >= 1,
        seen.len() <= all.len(),
        seen == all.take(seen.len() as int),
    ensures
        ({
            let page = page_spec(all, seen.len(), limit);
            &&& seen + page == all.take((seen.len() + page.len()) as int)
            &&& seen.len() + page.len() <= all.len()
            &&& page.len() < limit ==> seen + page == all
        }),
{
    let page = page_spec(all, seen.len(), limit);
    assert(seen + page =~= all.take((seen.len() + page.len()) as int));
    if page.len() < limit {
        assert(seen + page =~= all);
    }
}

impl StreamCheck {
    /// Whether the check is finished.
    pub fn is_done(&self) -> (b: bool)
        ensures
            b == self.is_finished(),
    {
        self.finished
    }
}

/// An in-memory store.
#[derive(Debug)]
pub struct MemoryStore {
    entries: Vec<AuditEntry>,
}

impl MemoryStore {
    /// The stored entries.
    pub closed spec fn entries_spec(&self) -> Seq<AuditEntry> {
        self.entries@
    }

    /// An empty store.
    pub fn new() -> (s: Self)
        ensures
            s.entries_spec() == Seq::<AuditEntry>::empty(),
    {
        MemoryStore { entries: Vec::new() }
    }
}

impl AuditStore for MemoryStore {
    open spec fn stored(&self) -> Seq<AuditEntry> {
        self.entries_spec()
    }

    open spec fn reads_succeed(&self) -> bool {
        true
    }

    fn append(&mut self, entry: &AuditEntry) -> (r: crate::error::Result<()>)
        ensures
            r is Ok,
            final(self).entries_spec() == old(self).entries_spec().push(*entry),
    {
        self.entries.push(entry.duplicate());
        Ok(())
    }

    fn load_all(&self) -> (r: crate::error::Result<Vec<AuditEntry>>)
        ensures
            r matches Ok(v) && v@ == self.entries_spec(),
    {
        let mut out: Vec<AuditEntry> = Vec::new();
        let n = self.entries.len();
        for i in 0..n
            invariant
                n == self.entries@.len(),
                out@ == self.entries@.take(i as int),
        {
            out.push(self.entries[i].duplicate());
            assert(self.entries@.take(i + 1) =~= self.entries@.take(i as int).push(
                self.entries@[i as int],
            ));
        }
        assert(self.entries@.take(n as int) =~= self.entries@);
        Ok(out)
    }

    fn len(&self) -> (n: usize)
        ensures
            n == self.entries_spec().len(),
    {
        self.entries.len()
    }
}

} // verus!
