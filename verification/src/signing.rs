//! Ed25519 digital signatures for audit entries.
//!
//! Each entry's hash is signed, binding the signature to the entry's full
//! content. The curve arithmetic is ed25519-dalek's; the library keeps the
//! key bytes and decides what is signed and what a signature must match.

use ed25519_dalek::{Signature, Signer, Verifier};
use vstd::prelude::*;
use vstd::utf8::encode_utf8;

use crate::entry::AuditEntry;
use crate::error::LibroError;
use crate::hasher::{constant_time_eq, hex_decode, hex_decode_spec, hex_encode, hex_spec, lemma_hex_decode_encode};
use crate::text::{push_str, string_of};

verus! {

/// The Ed25519 public key (compressed point) of a 32-byte secret key
/// (RFC 8032 section 5.1.5).
pub uninterp spec fn ed25519_public_spec(secret: Seq<u8>) -> Seq<u8>;

/// The Ed25519 signature of `msg` under a 32-byte secret key (RFC 8032
/// section 5.1.6; the scheme is deterministic).
pub uninterp spec fn ed25519_sign_spec(secret: Seq<u8>, msg: Seq<u8>) -> Seq<u8>;

/// Whether ed25519-dalek's verification accepts `sig` on `msg` under the
/// public key `public`.
pub uninterp spec fn ed25519_verify_spec(public: Seq<u8>, msg: Seq<u8>, sig: Seq<u8>) -> bool;

/// Whether 32 bytes are the compressed form of a curve point.
pub uninterp spec fn ed25519_point_spec(bytes: Seq<u8>) -> bool;

/// Calls `ed25519_dalek::SigningKey::generate` with the operating system's
/// random source and returns the key's 32 secret bytes. They are random:
/// nothing is claimed of them.
#[verifier::external_body]
fn random_secret() -> [u8; 32] {
    ed25519_dalek::SigningKey::generate(&mut rand_core::OsRng).to_bytes()
}

/// Calls `ed25519_dalek::SigningKey::from_bytes`, then `verifying_key` and
/// `to_bytes`: the public key of the secret, named above. A derived public
/// key is the compression of a curve point, so it decompresses again.
#[verifier::external_body]
fn public_key_of(secret: &[u8; 32]) -> (pk: [u8; 32])
    ensures
        pk@ == ed25519_public_spec(secret@),
        ed25519_point_spec(pk@),
{
    ed25519_dalek::SigningKey::from_bytes(secret).verifying_key().to_bytes()
}

/// Calls `Signer::sign` on `ed25519_dalek::SigningKey::from_bytes(secret)`
/// and returns the 64 signature bytes, named above. As the crate documents,
/// the signature verifies under the key's own public key.
#[verifier::external_body]
fn sign_message(secret: &[u8; 32], msg: &[u8]) -> (sig: [u8; 64])
    ensures
        sig@ == ed25519_sign_spec(secret@, msg@),
        ed25519_verify_spec(ed25519_public_spec(secret@), msg@, sig@),
{
    ed25519_dalek::SigningKey::from_bytes(secret).sign(msg).to_bytes()
}

/// Calls `ed25519_dalek::VerifyingKey::from_bytes`: `Ok` exactly when the
/// bytes decompress to a point. The error's text is the crate's and is not
/// described here.
#[verifier::external_body]
fn check_point(bytes: &[u8; 32]) -> (r: Result<(), String>)
    ensures
        r is Ok <==> ed25519_point_spec(bytes@),
{
    match ed25519_dalek::VerifyingKey::from_bytes(bytes) {
        Ok(_) => Ok(()),
        Err(e) => Err(e.to_string()),
    }
}

/// Calls `Verifier::verify` of `ed25519_dalek::VerifyingKey` (built from
/// `public`) on `msg` and the signature made from `sig`: whether it
/// accepts, named above.
#[verifier::external_body]
fn verify_message(public: &[u8; 32], msg: &[u8], sig: &[u8; 64]) -> (ok: bool)
    requires
        ed25519_point_spec(public@),
    ensures
        ok == ed25519_verify_spec(public@, msg@, sig@),
{
    match ed25519_dalek::VerifyingKey::from_bytes(public) {
        Ok(k) => k.verify(msg, &Signature::from_bytes(sig)).is_ok(),
        Err(_) => false,
    }
}

/// An Ed25519 signing key for audit entries: its 32 secret bytes.
pub struct SigningKey {
    secret: [u8; 32],
}

/// An Ed25519 verifying (public) key: the 32 bytes of a curve point.
#[derive(Debug)]
pub struct VerifyingKey {
    bytes: [u8; 32],
}

/// A signature over an audit entry's hash.
#[derive(Clone, Debug, PartialEq, Eq)]
pub struct EntrySignature {
    /// The entry hash that was signed.
    pub entry_hash: String,
    /// The raw Ed25519 signature bytes (64 bytes), hex-encoded.
    pub signature: String,
    /// The verifying key that can validate this signature, hex-encoded.
    pub verifying_key: String,
    /// Optional key identifier for key rotation workflows.
    pub key_id: Option<String>,
}

/// Whether `sig` records a signature of the hash `hash` under `secret`:
/// the hash, the hex signature over its UTF-8 bytes, and the hex public key.
pub open spec fn signed_by(sig: EntrySignature, secret: Seq<u8>, hash: Seq<char>) -> bool {
    &&& sig.entry_hash@ == hash
    &&& sig.signature@ == hex_spec(ed25519_sign_spec(secret, encode_utf8(hash)))
    &&& sig.verifying_key@ == hex_spec(ed25519_public_spec(secret))
}

/// Whether a signature record is accepted for an entry with hash `hash`
/// under the public key `public`: the recorded hash is the entry's, the
/// signature is hex for 64 bytes, and Ed25519 verification of the hash's
/// UTF-8 bytes accepts them.
pub open spec fn signature_accepts(sig: EntrySignature, hash: Seq<char>, public: Seq<u8>) -> bool {
    &&& hash == sig.entry_hash@
    &&& hex_decode_spec(encode_utf8(sig.signature@)) matches Some(b)
    &&& b.len() == 64
    &&& ed25519_verify_spec(public, encode_utf8(sig.entry_hash@), b)
}

impl SigningKey {
    /// The 32 secret bytes.
    pub closed spec fn secret_spec(&self) -> Seq<u8> {
        self.secret@
    }

    /// A new random signing key.
    pub fn generate() -> (k: Self) {
        SigningKey { secret: random_secret() }
    }

    /// The signing key with these 32 secret bytes.
    pub fn from_bytes(bytes: &[u8; 32]) -> (k: Self)
        ensures
            k.secret_spec() == bytes@,
    {
        SigningKey { secret: *bytes }
    }

    /// The 32 secret bytes.
    pub fn to_bytes(&self) -> (b: [u8; 32])
        ensures
            b@ == self.secret_spec(),
    {
        self.secret
    }

    /// The corresponding verifying (public) key.
    pub fn verifying_key(&self) -> (v: VerifyingKey)
        ensures
            v.bytes_spec() == ed25519_public_spec(self.secret_spec()),
    {
        VerifyingKey { bytes: public_key_of(&self.secret) }
    }

    /// The public key's 32 bytes.
    pub fn verifying_key_bytes(&self) -> (b: [u8; 32])
        ensures
            b@ == ed25519_public_spec(self.secret_spec()),
    {
        public_key_of(&self.secret)
    }

    /// The signature algorithm's name.
    pub fn algorithm(&self) -> (s: &'static str)
        ensures
            s@ == "ed25519"@,
    {
        "ed25519"
    }

    /// The 64 signature bytes over `msg`.
    pub fn sign_bytes(&self, msg: &[u8]) -> (sig: Vec<u8>)
        ensures
            sig@ == ed25519_sign_spec(self.secret_spec(), msg@),
            sig@.len() == 64,
            ed25519_verify_spec(ed25519_public_spec(self.secret_spec()), msg@, sig@),
    {
        let s = sign_message(&self.secret, msg);
        let mut v: Vec<u8> = Vec::new();
        crate::text::extend_bytes(&mut v, s.as_slice());
        v
    }

    /// Sign an audit entry: the signature covers the UTF-8 bytes of the
    /// entry's hash. The record is accepted for that entry under this
    /// key's own verifying key.
    pub fn sign(&self, entry: &AuditEntry) -> (sig: EntrySignature)
        ensures
            signed_by(sig, self.secret_spec(), entry.hash@),
            signature_accepts(sig, entry.hash@, ed25519_public_spec(self.secret_spec())),
            sig.key_id is None,
    {
        let hash = entry.hash();
        let s = sign_message(&self.secret, hash.as_bytes());
        let pk = public_key_of(&self.secret);
        let sig = EntrySignature {
            entry_hash: string_of(hash),
            signature: hex_encode(s.as_slice()),
            verifying_key: hex_encode(pk.as_slice()),
            key_id: None,
        };
        proof {
            lemma_hex_decode_encode(s@);
        }
        sig
    }

    /// Sign an audit entry and record a key identifier.
    pub fn sign_with_key_id(&self, entry: &AuditEntry, key_id: &str) -> (sig: EntrySignature)
        ensures
            signed_by(sig, self.secret_spec(), entry.hash@),
            signature_accepts(sig, entry.hash@, ed25519_public_spec(self.secret_spec())),
            sig.key_id matches Some(k) && k@ == key_id@,
    {
        let mut sig = self.sign(entry);
        sig.key_id = Some(string_of(key_id));
        sig
    }
}

impl Clone for VerifyingKey {
    /// A copy of this key.
    fn clone(&self) -> (v: Self)
        ensures
            v.bytes_spec() == self.bytes_spec(),
    {
        proof {
            use_type_invariant(self);
        }
        VerifyingKey { bytes: self.bytes }
    }
}

impl VerifyingKey {
    #[verifier::type_invariant]
    spec fn is_point(self) -> bool {
        ed25519_point_spec(self.bytes@)
    }

    /// The key's 32 bytes.
    pub closed spec fn bytes_spec(&self) -> Seq<u8> {
        self.bytes@
    }

    /// The verifying key with these 32 bytes; a store error when they are
    /// not the compressed form of a curve point.
    pub fn from_bytes(bytes: &[u8; 32]) -> (r: crate::error::Result<Self>)
        ensures
            ed25519_point_spec(bytes@) <==> r is Ok,
            r matches Ok(v) ==> v.bytes_spec() == bytes@,
            r matches Err(e) ==> (e matches LibroError::Store(m)
                && "invalid verifying key: "@.is_prefix_of(m@)),
    {
        match check_point(bytes) {
            Ok(()) => Ok(VerifyingKey { bytes: *bytes }),
            Err(e) => {
                let mut m = string_of("invalid verifying key: ");
                push_str(&mut m, e.as_str());
                Err(LibroError::Store(m))
            },
        }
    }

    /// The key's 32 bytes.
    pub fn to_bytes(&self) -> (b: [u8; 32])
        ensures
            b@ == self.bytes_spec(),
    {
        self.bytes
    }

    /// The key's bytes, hex-encoded.
    pub fn to_hex(&self) -> (s: String)
        ensures
            s@ == hex_spec(self.bytes_spec()),
    {
        hex_encode(self.bytes.as_slice())
    }

    /// Whether `sig` is a 64-byte Ed25519 signature of `msg` under this key.
    pub fn verify_bytes(&self, msg: &[u8], sig: &[u8]) -> (ok: bool)
        ensures
            ok == (sig@.len() == 64 && ed25519_verify_spec(self.bytes_spec(), msg@, sig@)),
    {
        proof {
            use_type_invariant(self);
        }
        if sig.len() != 64 {
            return false;
        }
        let mut a = [0u8; 64];
        for i in 0..64
            invariant
                sig@.len() == 64,
                forall|j: int| 0 <= j < i ==> a@[j] == sig@[j],
        {
            a.set(i, sig[i]);
        }
        assert(a@ =~= sig@);
        verify_message(&self.bytes, msg, &a)
    }
}

impl EntrySignature {
    /// Verify this signature against an entry and a verifying key: the
    /// entry's current hash must be the signed hash, and the Ed25519
    /// signature must be valid for it.
    pub fn verify(&self, entry: &AuditEntry, key: &VerifyingKey) -> (ok: bool)
        ensures
            ok == signature_accepts(*self, entry.hash@, key.bytes_spec()),
    {
        if !constant_time_eq(entry.hash(), self.entry_hash.as_str()) {
            return false;
        }
        let sig_bytes = match hex_decode(self.signature.as_str()) {
            Some(b) => b,
            None => {
                return false;
            },
        };
        key.verify_bytes(self.entry_hash.as_str().as_bytes(), sig_bytes.as_slice())
    }
}

} // verus!
