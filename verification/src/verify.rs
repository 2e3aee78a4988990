//! Chain verification — validate the integrity of a sequence of entries.

use vstd::prelude::*;

use crate::entry::{content_hash, hash_input, sealed, AuditEntry};
use crate::hasher::{hex_spec, lemma_hex_decode_encode, sha256_spec};
use crate::error::LibroError;

verus! {

/// Whether entry `i` links to entry `i - 1` (the first entry always does).
pub open spec fn linked_at(s: Seq<AuditEntry>, i: int) -> bool {
    i == 0 || s[i].prev_hash@ == s[i - 1].hash@
}

/// Whether entry `i` is sealed and linked.
pub open spec fn sound_at(s: Seq<AuditEntry>, i: int) -> bool {
    sealed(s[i]) && linked_at(s, i)
}

/// Whether every entry is sealed and linked to its predecessor.
pub open spec fn chain_sound(s: Seq<AuditEntry>) -> bool {
    forall|i: int| 0 <= i < s.len() ==> #[trigger] sound_at(s, i)
}

/// What verification of `s` reports, entries numbered from `base`: `Ok` when
/// every entry is sound, else an integrity violation at the first unsound
/// entry — its expected and stored hash if it is not sealed, otherwise the
/// predecessor's hash and its stored previous hash.
pub open spec fn reports(s: Seq<AuditEntry>, base: int, r: Result<(), LibroError>) -> bool {
    match r {
        Ok(()) => chain_sound(s),
        Err(LibroError::IntegrityViolation { index, expected, actual }) => {
            let i = index - base;
            &&& 0 <= i < s.len()
            &&& forall|j: int| 0 <= j < i ==> #[trigger] sound_at(s, j)
            &&& !sound_at(s, i)
            &&& if !sealed(s[i]) {
                expected@ == content_hash(s[i]) && actual@ == s[i].hash@
            } else {
                expected@ == s[i - 1].hash@ && actual@ == s[i].prev_hash@
            }
        },
        Err(_) => false,
    }
}

/// Verify a sequence of audit entries forms a valid chain.
pub fn verify_chain(entries: &[AuditEntry]) -> (r: Result<(), LibroError>)
    ensures
        reports(entries@, 0, r),
{
    let _len = entries.len();
    verify_chain_offset(entries, 0)
}

/// Verify a sequence of audit entries forms a valid chain, reporting entry
/// positions counted from `offset`.
pub fn verify_chain_offset(entries: &[AuditEntry], offset: usize) -> (r: Result<(), LibroError>)
    requires
        offset + entries@.len() <= usize::MAX,
    ensures
        reports(entries@, offset as int, r),
{
    let n = entries.len();
    for i in 0..n
        invariant
            n == entries@.len(),
            offset + n <= usize::MAX,
            forall|j: int| 0 <= j < i ==> #[trigger] sound_at(entries@, j),
    {
        let entry = &entries[i];
        if !entry.verify() {
            return Err(
                LibroError::IntegrityViolation {
                    index: offset + i,
                    expected: entry.compute_hash(),
                    actual: entry.hash.clone(),
                },
            );
        }
        if i > 0 && entry.prev_hash != entries[i - 1].hash {
            return Err(
                LibroError::IntegrityViolation {
                    index: offset + i,
                    expected: entries[i - 1].hash.clone(),
                    actual: entry.prev_hash.clone(),
                },
            );
        }
    }
    Ok(())
}

/// Hex text names its bytes: two byte strings with the same hex text are equal.
proof fn lemma_hex_injective(a: Seq<u8>, b: Seq<u8>)
    requires
        hex_spec(a) == hex_spec(b),
    ensures
        a == b,
{
    lemma_hex_decode_encode(a);
    lemma_hex_decode_encode(b);
}

/// Tampering with an entry is detected. In an intact chain, an entry
/// replaced by another (at the tail: one that keeps the stored hash) leaves
/// the chain intact only if the replacement carries the same hash, and its
/// hashed content has the same SHA-256 digest as the replaced entry's: where the
/// content differs, only a SHA-256 collision passes.
pub proof fn lemma_tampering_detected(s: Seq<AuditEntry>, i: int, e: AuditEntry)
    requires
        chain_sound(s),
        0 <= i < s.len(),
        i < s.len() - 1 || e.hash@ == s[i].hash@,
        chain_sound(s.update(i, e)),
    ensures
        e.hash@ == s[i].hash@,
        sha256_spec(hash_input(e)) == sha256_spec(hash_input(s[i])),
{
    let t = s.update(i, e);
    assert(sound_at(t, i));
    assert(sound_at(s, i));
    if i < s.len() - 1 {
        assert(sound_at(t, i + 1));
        assert(sound_at(s, i + 1));
    }
    lemma_hex_injective(sha256_spec(hash_input(e)), sha256_spec(hash_input(s[i])));
}

/// Deleting an inner entry is detected: the chain without entry `i` is
/// intact only if entry `i` and its predecessor carry the same hash, so
/// their hashed contents have the same SHA-256 digest.
pub proof fn lemma_deletion_detected(s: Seq<AuditEntry>, i: int)
    requires
        chain_sound(s),
        0 < i < s.len() - 1,
        chain_sound(s.remove(i)),
    ensures
        s[i].hash@ == s[i - 1].hash@,
        sha256_spec(hash_input(s[i])) == sha256_spec(hash_input(s[i - 1])),
{
    let t = s.remove(i);
    assert(sound_at(t, i));
    assert(t[i] == s[i + 1] && t[i - 1] == s[i - 1]);
    assert(sound_at(s, i + 1));
    assert(sound_at(s, i));
    assert(sound_at(s, i - 1));
    lemma_hex_injective(sha256_spec(hash_input(s[i])), sha256_spec(hash_input(s[i - 1])));
}

} // verus!
