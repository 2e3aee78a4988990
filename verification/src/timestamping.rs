//! RFC 3161 trusted timestamping for audit chains.
//!
//! Data types and DER construction helpers for RFC 3161 timestamp requests
//! and responses. Transport to the TSA is the caller's business.
//!
//! Workflow: build a [`TimestampRequest`] from a Merkle root, an entry hash
//! or a chain head; encode it with [`TimestampRequest::to_der`]; POST the
//! bytes to a TSA (`Content-Type: application/timestamp-query`); parse the
//! reply with [`TimestampResponse::from_der`]; keep a
//! [`TimestampAttestation`] for later checks.

use vstd::prelude::*;
use vstd::utf8::encode_utf8;

use crate::chain::AuditChain;
use crate::entry::{uuid_v4_bytes, AuditEntry};
use crate::error::LibroError;
use crate::hasher::{constant_time_eq, hex_decode, hex_decode_spec, hex_encode, hex_spec};
use crate::merkle::{tree_root, MerkleTree};
use crate::text::{decimal, push_decimal, push_str, string_of};
use crate::time::Timestamp;

verus! {

/// DER tag of a SEQUENCE.
pub const DER_SEQUENCE: u8 = 0x30;

/// DER tag of an INTEGER.
pub const DER_INTEGER: u8 = 0x02;

/// DER tag of an OCTET STRING.
pub const DER_OCTET_STRING: u8 = 0x04;

/// DER tag of a BOOLEAN.
pub const DER_BOOLEAN: u8 = 0x01;

/// DER tag of an OBJECT IDENTIFIER.
pub const DER_OID: u8 = 0x06;

/// Hash algorithm identifier for timestamp requests.
#[derive(Clone, Copy, Debug, PartialEq, Eq, Structural)]
#[non_exhaustive]
pub enum TimestampHashAlgorithm {
    /// SHA-256 (OID: 2.16.840.1.101.3.4.2.1)
    Sha256,
    /// SHA-384 (OID: 2.16.840.1.101.3.4.2.2)
    Sha384,
    /// SHA-512 (OID: 2.16.840.1.101.3.4.2.3)
    Sha512,
}

/// The content bytes of the algorithm's object identifier.
pub open spec fn oid_spec(a: TimestampHashAlgorithm) -> Seq<u8> {
    let last: u8 = match a {
        TimestampHashAlgorithm::Sha256 => 0x01,
        TimestampHashAlgorithm::Sha384 => 0x02,
        TimestampHashAlgorithm::Sha512 => 0x03,
    };
    seq![0x60u8, 0x86u8, 0x48u8, 0x01u8, 0x65u8, 0x03u8, 0x04u8, 0x02u8, last]
}

impl TimestampHashAlgorithm {
    /// The pre-encoded object identifier (without tag and length).
    pub fn oid_bytes(self) -> (v: Vec<u8>)
        ensures
            v@ == oid_spec(self),
    {
        let last: u8 = match self {
            TimestampHashAlgorithm::Sha256 => 0x01,
            TimestampHashAlgorithm::Sha384 => 0x02,
            TimestampHashAlgorithm::Sha512 => 0x03,
        };
        let v = vec![0x60u8, 0x86u8, 0x48u8, 0x01u8, 0x65u8, 0x03u8, 0x04u8, 0x02u8, last];
        assert(v@ =~= oid_spec(self));
        v
    }
}

/// Identifies what kind of data a timestamp covers.
#[derive(Clone, Copy, Debug, PartialEq, Eq, Structural)]
#[non_exhaustive]
pub enum TimestampSubject {
    /// A single audit entry hash.
    EntryHash,
    /// A Merkle root covering a range of entries.
    MerkleRoot,
    /// A chain head hash (snapshot of chain state).
    ChainHead,
}

/// PKI status codes from RFC 3161 Section 2.4.2.
#[derive(Clone, Copy, Debug, PartialEq, Eq, Structural)]
#[non_exhaustive]
pub enum TimestampStatus {
    /// The request was granted (status 0).
    Granted,
    /// The request was granted with modifications (status 1).
    GrantedWithMods,
    /// The request was rejected (status 2).
    Rejection,
    /// Waiting for approval (status 3).
    Waiting,
    /// Revocation warning (status 4).
    RevocationWarning,
    /// Revocation notification (status 5).
    RevocationNotification,
}

/// The status with RFC 3161 number `v`, if there is one.
pub open spec fn status_of(v: u64) -> Option<TimestampStatus> {
    if v == 0 {
        Some(TimestampStatus::Granted)
    } else if v == 1 {
        Some(TimestampStatus::GrantedWithMods)
    } else if v == 2 {
        Some(TimestampStatus::Rejection)
    } else if v == 3 {
        Some(TimestampStatus::Waiting)
    } else if v == 4 {
        Some(TimestampStatus::RevocationWarning)
    } else if v == 5 {
        Some(TimestampStatus::RevocationNotification)
    } else {
        None
    }
}

/// The name of a status, as its variant is written.
pub open spec fn status_name(s: TimestampStatus) -> Seq<char> {
    match s {
        TimestampStatus::Granted => "Granted"@,
        TimestampStatus::GrantedWithMods => "GrantedWithMods"@,
        TimestampStatus::Rejection => "Rejection"@,
        TimestampStatus::Waiting => "Waiting"@,
        TimestampStatus::RevocationWarning => "RevocationWarning"@,
        TimestampStatus::RevocationNotification => "RevocationNotification"@,
    }
}

impl TimestampStatus {
    /// The status with RFC 3161 number `v`; `None` for numbers above 5.
    pub fn from_value(v: u64) -> (r: Option<Self>)
        ensures
            r == status_of(v),
    {
        match v {
            0 => Some(TimestampStatus::Granted),
            1 => Some(TimestampStatus::GrantedWithMods),
            2 => Some(TimestampStatus::Rejection),
            3 => Some(TimestampStatus::Waiting),
            4 => Some(TimestampStatus::RevocationWarning),
            5 => Some(TimestampStatus::RevocationNotification),
            _ => None,
        }
    }

    /// The variant's name.
    pub fn name(&self) -> (s: &'static str)
        ensures
            s@ == status_name(*self),
    {
        match self {
            TimestampStatus::Granted => "Granted",
            TimestampStatus::GrantedWithMods => "GrantedWithMods",
            TimestampStatus::Rejection => "Rejection",
            TimestampStatus::Waiting => "Waiting",
            TimestampStatus::RevocationWarning => "RevocationWarning",
            TimestampStatus::RevocationNotification => "RevocationNotification",
        }
    }
}

// --- DER encoding ---

/// The number of bytes in the big-endian form of `n` (none for zero).
pub open spec fn byte_count(n: nat) -> nat
    decreases n,
{
    if n == 0 {
        0
    } else {
        1 + byte_count(n / 256)
    }
}

/// The low `k` bytes of `n`, most significant first.
pub open spec fn be_bytes(n: nat, k: nat) -> Seq<u8>
    decreases k,
{
    if k == 0 {
        Seq::empty()
    } else {
        be_bytes(n / 256, (k - 1) as nat).push((n % 256) as u8)
    }
}

/// 256 to the power `k`.
pub open spec fn pow256(k: nat) -> nat
    decreases k,
{
    if k == 0 {
        1
    } else {
        256 * pow256((k - 1) as nat)
    }
}

/// The DER length octets for a content length of `len`: the short form
/// below 128, else `0x80` plus the number of length bytes, followed by the
/// length in as few big-endian bytes as hold it.
pub open spec fn der_length_spec(len: nat) -> Seq<u8> {
    if len < 128 {
        seq![len as u8]
    } else {
        seq![(0x80 + byte_count(len)) as u8] + be_bytes(len, byte_count(len))
    }
}

/// A DER TLV: the tag, the length octets, the value.
pub open spec fn der_tlv_spec(tag: u8, value: Seq<u8>) -> Seq<u8> {
    seq![tag] + der_length_spec(value.len()) + value
}

/// A number below `256^j` has at most `j` bytes.
proof fn lemma_byte_count_le(n: nat, j: nat)
    requires
        n < pow256(j),
    ensures
        byte_count(n) <= j,
    decreases j,
{
    if n > 0 {
        assert(j > 0);
        let q = n / 256;
        assert(q < pow256((j - 1) as nat));
        lemma_byte_count_le(q, (j - 1) as nat);
    }
}

/// The big-endian bytes of `n`, when they are all of it, read back as `n`.
proof fn lemma_be_bytes_value(n: nat, k: nat)
    requires
        byte_count(n) <= k,
    ensures
        be_value(be_bytes(n, k)) == n,
        be_bytes(n, k).len() == k,
    decreases k,
{
    if k > 0 {
        lemma_be_bytes_value(n / 256, (k - 1) as nat);
        let b = be_bytes(n, k);
        assert(b.drop_last() =~= be_bytes(n / 256, (k - 1) as nat));
    }
}

/// Appends the low `k` bytes of `n`, most significant first.
fn push_be_bytes(out: &mut Vec<u8>, n: usize, k: usize)
    ensures
        final(out)@ == old(out)@ + be_bytes(n as nat, k as nat),
    decreases k,
{
    if k > 0 {
        push_be_bytes(out, n / 256, k - 1);
        out.push((n % 256) as u8);
    } else {
        assert(old(out)@ + be_bytes(n as nat, 0) =~= old(out)@);
    }
    proof {
        if k > 0 {
            assert(old(out)@ + be_bytes(n as nat, k as nat) =~= old(out)@ + be_bytes(
                (n / 256) as nat,
                (k - 1) as nat,
            ) + seq![(n % 256) as u8]);
        }
    }
}

/// Encode DER length octets (definite short and long forms, the long form
/// with as few length bytes as hold the length).
pub fn der_length(len: usize) -> (v: Vec<u8>)
    ensures
        v@ == der_length_spec(len as nat),
{
    if len < 128 {
        let v = vec![len as u8];
        assert(v@ =~= der_length_spec(len as nat));
        return v;
    }
    let mut k: usize = 0;
    let mut rest: usize = len;
    proof {
        reveal_with_fuel(pow256, 9);
        assert(pow256(8) == 0x1_0000_0000_0000_0000);
        lemma_byte_count_le(len as nat, 8);
    }
    while rest > 0
        invariant
            k + byte_count(rest as nat) == byte_count(len as nat),
            byte_count(len as nat) <= 8,
        decreases rest,
    {
        rest = rest / 256;
        k = k + 1;
    }
    let mut v: Vec<u8> = vec![(0x80 + k) as u8];
    push_be_bytes(&mut v, len, k);
    assert(v@ =~= der_length_spec(len as nat));
    v
}

/// Encode a DER TLV (tag, length, value).
pub fn der_tlv(tag: u8, value: &[u8]) -> (out: Vec<u8>)
    ensures
        out@ == der_tlv_spec(tag, value@),
{
    let mut out = vec![tag];
    let len = der_length(value.len());
    crate::text::extend_bytes(&mut out, len.as_slice());
    crate::text::extend_bytes(&mut out, value);
    assert(out@ =~= der_tlv_spec(tag, value@));
    out
}

/// The bytes of a list of parts, one after the other.
pub open spec fn concat_parts(parts: Seq<&[u8]>) -> Seq<u8> {
    parts.map_values(|p: &[u8]| p@).flatten()
}

/// Encode a DER SEQUENCE from pre-encoded parts.
pub fn der_sequence(parts: &[&[u8]]) -> (out: Vec<u8>)
    ensures
        out@ == der_tlv_spec(DER_SEQUENCE, concat_parts(parts@)),
{
    let mut content: Vec<u8> = Vec::new();
    let n = parts.len();
    for i in 0..n
        invariant
            n == parts@.len(),
            content@ == concat_parts(parts@.take(i as int)),
    {
        let ghost before = content@;
        crate::text::extend_bytes(&mut content, parts[i]);
        proof {
            let m = parts@.take(i + 1).map_values(|p: &[u8]| p@);
            assert(m =~= parts@.take(i as int).map_values(|p: &[u8]| p@).push(parts@[i as int]@));
            parts@.take(i as int).map_values(|p: &[u8]| p@).lemma_flatten_push(parts@[i as int]@);
        }
    }
    assert(parts@.take(n as int) =~= parts@);
    der_tlv(DER_SEQUENCE, content.as_slice())
}

// --- DER parsing ---

/// The big-endian value of `s`.
pub open spec fn be_value(s: Seq<u8>) -> nat
    decreases s.len(),
{
    if s.len() == 0 {
        0
    } else {
        be_value(s.drop_last()) * 256 + s.last() as nat
    }
}

/// The number of long-form length bytes announced by a TLV's second byte.
pub open spec fn tlv_len_bytes(data: Seq<u8>) -> nat {
    if data[1] < 128 {
        0
    } else {
        (data[1] - 128) as nat
    }
}

/// The size of the TLV's tag and length octets.
pub open spec fn tlv_header_size(data: Seq<u8>) -> nat {
    2 + tlv_len_bytes(data)
}

/// The content length a TLV announces.
pub open spec fn tlv_length(data: Seq<u8>) -> nat {
    if data[1] < 128 {
        data[1] as nat
    } else {
        be_value(data.subrange(2, 2 + tlv_len_bytes(data) as int))
    }
}

/// Why a TLV cannot be parsed, if it cannot.
pub open spec fn tlv_error(data: Seq<u8>) -> Option<Seq<char>> {
    if data.len() < 2 {
        Some("truncated TLV"@)
    } else if data[1] >= 128 && data.len() < 2 + tlv_len_bytes(data) {
        Some("truncated length"@)
    } else if data.len() < tlv_header_size(data) + tlv_length(data) {
        Some("truncated value"@)
    } else {
        None
    }
}

/// The value bytes of a TLV that parses.
pub open spec fn tlv_value(data: Seq<u8>) -> Seq<u8> {
    data.subrange(tlv_header_size(data) as int, (tlv_header_size(data) + tlv_length(data)) as int)
}

/// Parse a DER TLV, returning the total bytes it takes and its value. An
/// announced length that the data cannot hold (however large) is a
/// truncated value.
pub fn der_parse_tlv(data: &[u8]) -> (r: Result<(usize, &[u8]), &'static str>)
    ensures
        match r {
            Ok((total, value)) => {
                &&& tlv_error(data@) is None
                &&& total == tlv_header_size(data@) + tlv_length(data@)
                &&& value@ == tlv_value(data@)
            },
            Err(e) => tlv_error(data@) == Some(e@),
        },
{
    if data.len() < 2 {
        return Err("truncated TLV");
    }
    let (len, header_size) = if data[1] < 128 {
        (data[1] as usize, 2usize)
    } else {
        let num_bytes = (data[1] - 128) as usize;
        if data.len() < 2 + num_bytes {
            return Err("truncated length");
        }
        let ghost bytes = data@.subrange(2, 2 + num_bytes);
        let mut len: usize = 0;
        let mut i: usize = 0;
        assert(bytes.take(0) =~= Seq::<u8>::empty());
        while i < num_bytes
            invariant
                num_bytes == tlv_len_bytes(data@),
                2 + num_bytes <= data@.len(),
                bytes == data@.subrange(2, 2 + num_bytes),
                i <= num_bytes,
                len as nat == be_value(bytes.take(i as int)),
            decreases num_bytes - i,
        {
            let b = data[2 + i];
            proof {
                assert(bytes.take(i + 1).drop_last() =~= bytes.take(i as int));
                assert(bytes.take(i + 1).last() == b);
            }
            let next = match len.checked_mul(256) {
                Some(x) => x.checked_add(b as usize),
                None => None,
            };
            match next {
                Some(y) => {
                    len = y;
                },
                None => {
                    proof {
                        lemma_be_value_prefix(bytes, i + 1);
                        assert(bytes.take(num_bytes as int) =~= bytes);
                    }
                    return Err("truncated value");
                },
            }
            i = i + 1;
        }
        assert(bytes.take(num_bytes as int) =~= bytes);
        (len, 2 + num_bytes)
    };
    if data.len() - header_size < len {
        return Err("truncated value");
    }
    let total = header_size + len;
    Ok((total, &data[header_size..total]))
}

/// Reading more bytes never makes a big-endian value smaller.
proof fn lemma_be_value_prefix(s: Seq<u8>, i: int)
    requires
        0 <= i <= s.len(),
    ensures
        be_value(s.take(i)) <= be_value(s),
    decreases s.len() - i,
{
    if i < s.len() {
        lemma_be_value_prefix(s, i + 1);
        assert(s.take(i + 1).drop_last() =~= s.take(i));
    } else {
        assert(s.take(i) =~= s);
    }
}

proof fn lemma_shift_in_byte(x: nat, b: nat, k: nat)
    requires
        b < 256,
        k > 0,
    ensures
        (x * 256 + b) % (256 * k) == (x % k) * 256 + b,
{
    let q = x / k;
    let r = x % k;
    assert(x == q * k + r && r < k) by (nonlinear_arith)
        requires
            k > 0,
            q == x / k,
            r == x % k,
    ;
    assert(x * 256 + b == q * (256 * k) + (r * 256 + b)) by (nonlinear_arith)
        requires
            x == q * k + r,
    ;
    assert(r * 256 + b < 256 * k) by (nonlinear_arith)
        requires
            r < k,
            b < 256,
    ;
    vstd::arithmetic::div_mod::lemma_mod_multiples_vanish(q as int, (r * 256 + b) as int, (256 * k) as int);
    vstd::arithmetic::div_mod::lemma_small_mod((r * 256 + b) as nat, (256 * k) as nat);
}

/// Decode an unsigned integer from DER INTEGER content bytes, keeping the
/// low 64 bits of the big-endian value.
pub fn der_decode_unsigned(bytes: &[u8]) -> (v: u64)
    ensures
        v as nat == be_value(bytes@) % 0x1_0000_0000_0000_0000,
{
    let mut value: u64 = 0;
    let n = bytes.len();
    assert(bytes@.take(0) =~= Seq::<u8>::empty());
    for i in 0..n
        invariant
            n == bytes@.len(),
            value as nat == be_value(bytes@.take(i as int)) % 0x1_0000_0000_0000_0000,
    {
        let b = bytes[i];
        proof {
            assert(bytes@.take(i + 1).drop_last() =~= bytes@.take(i as int));
            lemma_shift_in_byte(be_value(bytes@.take(i as int)), b as nat, 0x100_0000_0000_0000);
            vstd::arithmetic::div_mod::lemma_mod_mod(
                be_value(bytes@.take(i as int)) as int,
                0x100_0000_0000_0000,
                256,
            );
        }
        value = (value % 0x100_0000_0000_0000) * 256 + b as u64;
    }
    assert(bytes@.take(n as int) =~= bytes@);
    value
}


/// Trim leading zero bytes; all zeros (or none) leave a single zero.
pub open spec fn trim_spec(b: Seq<u8>) -> Seq<u8>
    decreases b.len(),
{
    if b.len() == 0 {
        seq![0u8]
    } else if b[0] == 0 {
        trim_spec(b.drop_first())
    } else {
        b
    }
}

/// The content of a DER INTEGER holding the unsigned big-endian `b`: no
/// leading zeros, and a zero byte in front where the top bit is set.
pub open spec fn der_unsigned_spec(b: Seq<u8>) -> Seq<u8> {
    let t = trim_spec(b);
    if t[0] >= 128 {
        seq![0u8] + t
    } else {
        t
    }
}

proof fn lemma_trim_nonempty(b: Seq<u8>)
    ensures
        trim_spec(b).len() >= 1,
    decreases b.len(),
{
    if b.len() > 0 && b[0] == 0 {
        lemma_trim_nonempty(b.drop_first());
    }
}

/// Trim leading zeros from a byte slice (for DER INTEGER encoding).
pub fn trim_leading_zeros(bytes: &[u8]) -> (out: Vec<u8>)
    ensures
        out@ == trim_spec(bytes@),
{
    let n = bytes.len();
    let mut start: usize = 0;
    assert(bytes@.skip(0) =~= bytes@);
    while start < n && bytes[start] == 0
        invariant
            n == bytes@.len(),
            start <= n,
            trim_spec(bytes@.skip(start as int)) == trim_spec(bytes@),
        decreases n - start,
    {
        assert(bytes@.skip(start as int).drop_first() =~= bytes@.skip(start + 1));
        start = start + 1;
    }
    if start == n {
        assert(bytes@.skip(start as int) =~= Seq::<u8>::empty());
        let v = vec![0u8];
        assert(v@ =~= seq![0u8]);
        v
    } else {
        let mut out: Vec<u8> = Vec::new();
        crate::text::extend_bytes(&mut out, &bytes[start..n]);
        assert(bytes@.subrange(start as int, n as int) =~= bytes@.skip(start as int));
        out
    }
}

/// The bytes of `parts`, one after another, with one more part appended.
proof fn lemma_concat_push(parts: Seq<&[u8]>, x: &[u8])
    ensures
        concat_parts(parts.push(x)) == concat_parts(parts) + x@,
{
    assert(parts.push(x).map_values(|p: &[u8]| p@) =~= parts.map_values(|p: &[u8]| p@).push(x@));
    parts.map_values(|p: &[u8]| p@).lemma_flatten_push(x@);
}

/// An RFC 3161 `TimeStampReq`, ready to send to a TSA.
#[derive(Clone, Debug, PartialEq, Eq)]
pub struct TimestampRequest {
    /// The hash algorithm used to produce `message_imprint_hash`.
    pub hash_algorithm: TimestampHashAlgorithm,
    /// The hex-encoded hash of the data being timestamped.
    pub message_imprint_hash: String,
    /// Optional nonce for replay protection (hex-encoded).
    pub nonce: Option<String>,
    /// Whether to request the TSA's certificate in the response.
    pub cert_req: bool,
}

/// The bytes of hex text, or none where it is not valid hex.
pub open spec fn hex_or_empty(t: Seq<char>) -> Seq<u8> {
    match hex_decode_spec(encode_utf8(t)) {
        Some(b) => b,
        None => Seq::empty(),
    }
}

/// The DER encoding of a request (RFC 3161 section 2.4.1):
/// `SEQUENCE { version INTEGER 1, messageImprint SEQUENCE {
/// SEQUENCE { OID, NULL }, OCTET STRING hash }, [nonce INTEGER],
/// [certReq BOOLEAN TRUE] }`.
pub open spec fn request_der_spec(r: TimestampRequest) -> Seq<u8> {
    der_tlv_spec(DER_SEQUENCE, request_body_spec(r))
}

/// The content of the request's SEQUENCE: version, message imprint, the
/// nonce where there is one, and certReq TRUE only where it is set (its
/// default, FALSE, is not encoded).
pub open spec fn request_body_spec(r: TimestampRequest) -> Seq<u8> {
    let alg_id = der_tlv_spec(
        DER_SEQUENCE,
        der_tlv_spec(DER_OID, oid_spec(r.hash_algorithm)) + seq![0x05u8, 0x00u8],
    );
    let imprint = der_tlv_spec(
        DER_SEQUENCE,
        alg_id + der_tlv_spec(DER_OCTET_STRING, hex_or_empty(r.message_imprint_hash@)),
    );
    let version = der_tlv_spec(DER_INTEGER, seq![0x01u8]);
    let nonce = match r.nonce {
        Some(n) => der_tlv_spec(DER_INTEGER, der_unsigned_spec(hex_or_empty(n@))),
        None => Seq::empty(),
    };
    let cert = if r.cert_req {
        der_tlv_spec(DER_BOOLEAN, seq![0xFFu8])
    } else {
        Seq::empty()
    };
    version + imprint + nonce + cert
}

/// Decodes hex text, or gives no bytes where it is not valid hex.
fn hex_bytes_or_empty(t: &str) -> (b: Vec<u8>)
    ensures
        b@ == hex_or_empty(t@),
{
    match hex_decode(t) {
        Some(v) => v,
        None => Vec::new(),
    }
}

impl TimestampRequest {
    /// A request for a hex-encoded hash: SHA-256, no nonce, certificate
    /// requested.
    pub fn new(hash: &str) -> (r: Self)
        ensures
            r.hash_algorithm == TimestampHashAlgorithm::Sha256,
            r.message_imprint_hash@ == hash@,
            r.nonce is None,
            r.cert_req,
    {
        TimestampRequest {
            hash_algorithm: TimestampHashAlgorithm::Sha256,
            message_imprint_hash: string_of(hash),
            nonce: None,
            cert_req: true,
        }
    }

    /// A request with a specific hash algorithm.
    pub fn with_algorithm(hash: &str, algorithm: TimestampHashAlgorithm) -> (r: Self)
        ensures
            r.hash_algorithm == algorithm,
            r.message_imprint_hash@ == hash@,
            r.nonce is None,
            r.cert_req,
    {
        TimestampRequest {
            hash_algorithm: algorithm,
            message_imprint_hash: string_of(hash),
            nonce: None,
            cert_req: true,
        }
    }

    /// Add a random 16-byte nonce for replay protection: the first eight
    /// bytes of each of two fresh v4 UUIDs, hex-encoded.
    pub fn with_nonce(self) -> (r: Self)
        ensures
            r.hash_algorithm == self.hash_algorithm,
            r.message_imprint_hash == self.message_imprint_hash,
            r.cert_req == self.cert_req,
            r.nonce matches Some(n) && exists|b: Seq<u8>|
                #![auto]
                b.len() == 16 && b[6] / 16 == 4 && b[14] / 16 == 4 && n@ == hex_spec(b),
    {
        let u1 = uuid_v4_bytes();
        let u2 = uuid_v4_bytes();
        let mut nonce: Vec<u8> = Vec::new();
        for i in 0..8
            invariant
                nonce@ == u1@.take(i as int),
        {
            nonce.push(u1[i]);
            assert(u1@.take(i + 1) =~= u1@.take(i as int).push(u1@[i as int]));
        }
        for i in 0..8
            invariant
                nonce@ == u1@.take(8) + u2@.take(i as int),
        {
            nonce.push(u2[i]);
            assert(u2@.take(i + 1) =~= u2@.take(i as int).push(u2@[i as int]));
        }
        let text = hex_encode(nonce.as_slice());
        assert(nonce@[6] == u1[6] && nonce@[14] == u2[6]);
        let mut r = self;
        r.nonce = Some(text);
        r
    }

    /// Set whether to request the TSA's signing certificate.
    pub fn with_cert_req(self, cert_req: bool) -> (r: Self)
        ensures
            r == (TimestampRequest { cert_req, ..self }),
    {
        let mut r = self;
        r.cert_req = cert_req;
        r
    }

    /// A request for a Merkle tree's root hash.
    pub fn from_merkle_root(tree: &MerkleTree) -> (r: Self)
        ensures
            r.message_imprint_hash@ == tree_root(tree.leaves()),
            r.hash_algorithm == TimestampHashAlgorithm::Sha256,
            r.nonce is None,
            r.cert_req,
    {
        Self::new(tree.root())
    }

    /// A request for an audit entry's hash.
    pub fn from_entry(entry: &AuditEntry) -> (r: Self)
        ensures
            r.message_imprint_hash@ == entry.hash@,
            r.hash_algorithm == TimestampHashAlgorithm::Sha256,
            r.nonce is None,
            r.cert_req,
    {
        Self::new(entry.hash())
    }

    /// A request for a chain's head hash; `None` for an empty chain.
    pub fn from_chain_head(chain: &AuditChain) -> (r: Option<Self>)
        ensures
            chain.entries_spec().len() == 0 <==> r is None,
            r matches Some(q) ==> {
                &&& q.message_imprint_hash@ == chain.entries_spec().last().hash@
                &&& q.hash_algorithm == TimestampHashAlgorithm::Sha256
                &&& q.nonce is None
                &&& q.cert_req
            },
    {
        match chain.head_hash() {
            Some(h) => Some(Self::new(h)),
            None => None,
        }
    }

    /// Encode this request as DER bytes (RFC 3161 section 2.4.1). A hash or
    /// nonce that is not valid hex is encoded as no bytes.
    pub fn to_der(&self) -> (out: Vec<u8>)
        ensures
            out@ == request_der_spec(*self),
    {
        let hash_bytes = hex_bytes_or_empty(self.message_imprint_hash.as_str());
        let oid = self.hash_algorithm.oid_bytes();
        let oid_tlv = der_tlv(DER_OID, oid.as_slice());
        let null_tlv: Vec<u8> = vec![0x05u8, 0x00u8];
        let mut alg_parts: Vec<&[u8]> = Vec::new();
        let oid_tlv_s = oid_tlv.as_slice();
        proof {
            lemma_concat_push(alg_parts@, oid_tlv_s);
        }
        alg_parts.push(oid_tlv_s);
        let null_tlv_s = null_tlv.as_slice();
        proof {
            lemma_concat_push(alg_parts@, null_tlv_s);
        }
        alg_parts.push(null_tlv_s);
        let alg_id = der_sequence(alg_parts.as_slice());
        let hash_tlv = der_tlv(DER_OCTET_STRING, hash_bytes.as_slice());
        let mut imprint_parts: Vec<&[u8]> = Vec::new();
        let alg_id_s = alg_id.as_slice();
        proof {
            lemma_concat_push(imprint_parts@, alg_id_s);
        }
        imprint_parts.push(alg_id_s);
        let hash_tlv_s = hash_tlv.as_slice();
        proof {
            lemma_concat_push(imprint_parts@, hash_tlv_s);
        }
        imprint_parts.push(hash_tlv_s);
        let msg_imprint = der_sequence(imprint_parts.as_slice());
        let version = der_tlv(DER_INTEGER, &[0x01u8]);
        let mut body_parts: Vec<&[u8]> = Vec::new();
        let version_s = version.as_slice();
        proof {
            lemma_concat_push(body_parts@, version_s);
        }
        body_parts.push(version_s);
        let msg_imprint_s = msg_imprint.as_slice();
        proof {
            lemma_concat_push(body_parts@, msg_imprint_s);
        }
        body_parts.push(msg_imprint_s);
        let ghost head = concat_parts(body_parts@);
        let nonce_tlv: Vec<u8> = match &self.nonce {
            Some(nonce_hex) => {
                let nonce_bytes = hex_bytes_or_empty(nonce_hex.as_str());
                let trimmed = trim_leading_zeros(nonce_bytes.as_slice());
                proof {
                    lemma_trim_nonempty(nonce_bytes@);
                }
                if trimmed[0] >= 128 {
                    let mut padded: Vec<u8> = vec![0x00u8];
                    crate::text::extend_bytes(&mut padded, trimmed.as_slice());
                    assert(padded@ =~= der_unsigned_spec(nonce_bytes@));
                    der_tlv(DER_INTEGER, padded.as_slice())
                } else {
                    der_tlv(DER_INTEGER, trimmed.as_slice())
                }
            },
            None => Vec::new(),
        };
        if self.nonce.is_some() {
            let nonce_tlv_s = nonce_tlv.as_slice();
            proof {
                lemma_concat_push(body_parts@, nonce_tlv_s);
            }
            body_parts.push(nonce_tlv_s);
        } else {
            assert(concat_parts(body_parts@) =~= head + nonce_tlv@);
        }
        let ghost with_nonce = concat_parts(body_parts@);
        let cert_tlv: Vec<u8> = if self.cert_req {
            der_tlv(DER_BOOLEAN, &[0xFFu8])
        } else {
            Vec::new()
        };
        if self.cert_req {
            let cert_tlv_s = cert_tlv.as_slice();
            proof {
                lemma_concat_push(body_parts@, cert_tlv_s);
            }
            body_parts.push(cert_tlv_s);
        } else {
            assert(concat_parts(body_parts@) =~= with_nonce + cert_tlv@);
        }
        proof {
            assert(concat_parts(Seq::<&[u8]>::empty()) =~= Seq::<u8>::empty());
            reveal_with_fuel(Seq::flatten, 1);
            assert(seq![0x01u8] =~= seq![0x01u8]);
        }
        der_sequence(body_parts.as_slice())
    }
}


/// A parsed RFC 3161 `TimeStampResp` from a TSA.
#[derive(Clone, Debug, PartialEq, Eq)]
pub struct TimestampResponse {
    /// The PKI status from the TSA.
    pub status: TimestampStatus,
    /// The timestamp token (DER-encoded CMS `ContentInfo`), hex-encoded.
    /// Present only when `status` is `Granted` or `GrantedWithMods`.
    pub token: Option<String>,
    /// Optional status string from the TSA.
    pub status_string: Option<String>,
}

/// What `from_der` reads from a DER `TimeStampResp`
/// (`SEQUENCE { SEQUENCE { INTEGER status, ... }, token }`): the status and
/// the bytes after the status info, or the message of the error. A status
/// other than the six RFC 3161 numbers is an error, and so are token bytes
/// after a status that grants no timestamp.
pub open spec fn response_spec(der: Seq<u8>) -> Result<(TimestampStatus, Seq<u8>), Seq<char>> {
    let outer = tlv_value(der);
    let info = tlv_value(outer);
    let status_bytes = tlv_value(info);
    let v = be_value(status_bytes);
    let rest = outer.skip((tlv_header_size(outer) + tlv_length(outer)) as int);
    if tlv_error(der) is Some {
        Err("outer sequence: "@ + tlv_error(der)->0)
    } else if der[0] != DER_SEQUENCE {
        Err("expected SEQUENCE at top level"@)
    } else if tlv_error(outer) is Some {
        Err("PKIStatusInfo: "@ + tlv_error(outer)->0)
    } else if outer[0] != DER_SEQUENCE {
        Err("expected SEQUENCE for PKIStatusInfo"@)
    } else if tlv_error(info) is Some {
        Err("PKIStatus integer: "@ + tlv_error(info)->0)
    } else if info[0] != DER_INTEGER {
        Err("expected INTEGER for PKIStatus"@)
    } else if v > u64::MAX {
        Err("unknown PKI status: out of range"@)
    } else if status_of(v as u64) is None {
        Err("unknown PKI status: "@ + decimal(v))
    } else if !granted(status_of(v as u64)->0) && rest.len() > 0 {
        Err("token present for a status that grants none"@)
    } else {
        Ok((status_of(v as u64)->0, rest))
    }
}

/// Decode an unsigned integer from DER INTEGER content bytes, when it fits
/// in 64 bits.
fn der_decode_u64(bytes: &[u8]) -> (r: Option<u64>)
    ensures
        match r {
            Some(v) => v as nat == be_value(bytes@),
            None => be_value(bytes@) > u64::MAX,
        },
{
    let mut value: u64 = 0;
    let n = bytes.len();
    assert(bytes@.take(0) =~= Seq::<u8>::empty());
    for i in 0..n
        invariant
            n == bytes@.len(),
            value as nat == be_value(bytes@.take(i as int)),
    {
        let b = bytes[i];
        assert(bytes@.take(i + 1).drop_last() =~= bytes@.take(i as int));
        let next = match value.checked_mul(256) {
            Some(x) => x.checked_add(b as u64),
            None => None,
        };
        match next {
            Some(y) => {
                value = y;
            },
            None => {
                proof {
                    lemma_be_value_prefix(bytes@, i + 1);
                }
                return None;
            },
        }
    }
    assert(bytes@.take(n as int) =~= bytes@);
    Some(value)
}

/// The DER error carrying `prefix` followed by a parse message.
fn der_error(prefix: &str, e: &str) -> (err: LibroError)
    ensures
        err matches LibroError::Der(m) && m@ == prefix@ + e@,
{
    let mut m = String::new();
    push_str(&mut m, prefix);
    push_str(&mut m, e);
    LibroError::Der(m)
}

/// The DER error carrying `msg`.
fn der_message(msg: &str) -> (err: LibroError)
    ensures
        err matches LibroError::Der(m) && m@ == msg@,
{
    LibroError::Der(string_of(msg))
}

impl TimestampResponse {
    /// Parse a DER-encoded RFC 3161 `TimeStampResp`
    /// (`SEQUENCE { PKIStatusInfo, timeStampToken OPTIONAL }`): the status
    /// from the leading INTEGER of the status info, and the bytes after the
    /// status info, hex-encoded, as the token. Any input is accepted: what
    /// does not parse, a status outside the six RFC 3161 numbers, and a
    /// token after a status that grants none are `Der` errors.
    pub fn from_der(der: &[u8]) -> (r: crate::error::Result<Self>)
        ensures
            match response_spec(der@) {
                Ok((status, rest)) => r matches Ok(resp) && {
                    &&& resp.status == status
                    &&& resp.status_string is None
                    &&& rest.len() == 0 ==> resp.token is None
                    &&& rest.len() > 0 ==> (resp.token matches Some(t) && t@ == hex_spec(rest))
                },
                Err(msg) => r matches Err(LibroError::Der(m)) && m@ == msg,
            },
    {
        let outer_content = match der_parse_tlv(der) {
            Ok((_, v)) => v,
            Err(e) => {
                return Err(der_error("outer sequence: ", e));
            },
        };
        if der[0] != DER_SEQUENCE {
            return Err(der_message("expected SEQUENCE at top level"));
        }
        let (status_info_len, status_info_content) = match der_parse_tlv(outer_content) {
            Ok(p) => p,
            Err(e) => {
                return Err(der_error("PKIStatusInfo: ", e));
            },
        };
        if outer_content[0] != DER_SEQUENCE {
            return Err(der_message("expected SEQUENCE for PKIStatusInfo"));
        }
        let status_value_bytes = match der_parse_tlv(status_info_content) {
            Ok((_, v)) => v,
            Err(e) => {
                return Err(der_error("PKIStatus integer: ", e));
            },
        };
        if status_info_content[0] != DER_INTEGER {
            return Err(der_message("expected INTEGER for PKIStatus"));
        }
        let status_value = match der_decode_u64(status_value_bytes) {
            Some(v) => v,
            None => {
                return Err(der_message("unknown PKI status: out of range"));
            },
        };
        let status = match TimestampStatus::from_value(status_value) {
            Some(s) => s,
            None => {
                let mut m = String::new();
                push_str(&mut m, "unknown PKI status: ");
                push_decimal(&mut m, status_value);
                return Err(LibroError::Der(m));
            },
        };
        let n = outer_content.len();
        let remaining = &outer_content[status_info_len..n];
        assert(remaining@ =~= tlv_value(der@).skip(status_info_len as int));
        let token = if remaining.len() == 0 {
            None
        } else {
            match status {
                TimestampStatus::Granted | TimestampStatus::GrantedWithMods => {},
                _ => {
                    return Err(der_message("token present for a status that grants none"));
                },
            }
            Some(hex_encode(remaining))
        };
        Ok(TimestampResponse { status, token, status_string: None })
    }

    /// Whether the timestamp was granted (with or without modifications).
    pub fn is_granted(&self) -> (r: bool)
        ensures
            r == (self.status == TimestampStatus::Granted || self.status
                == TimestampStatus::GrantedWithMods),
    {
        match self.status {
            TimestampStatus::Granted | TimestampStatus::GrantedWithMods => true,
            _ => false,
        }
    }
}

/// A stored timestamp attestation binding a hash to a point in time.
#[derive(Clone, Debug, PartialEq, Eq)]
pub struct TimestampAttestation {
    /// The hex-encoded hash that was timestamped.
    pub hash: String,
    /// What kind of hash this is.
    pub hash_subject: TimestampSubject,
    /// The hash algorithm used in the request.
    pub hash_algorithm: TimestampHashAlgorithm,
    /// The raw DER-encoded timestamp token from the TSA, hex-encoded.
    pub token_der: String,
    /// The TSA URL used (informational, for re-verification).
    pub tsa_url: Option<String>,
    /// When the attestation was created (local time, not TSA time).
    pub created_at: Timestamp,
}

/// Whether a response grants a timestamp.
pub open spec fn granted(s: TimestampStatus) -> bool {
    s == TimestampStatus::Granted || s == TimestampStatus::GrantedWithMods
}

/// What creating an attestation of `hash` from `response` gives: a
/// timestamp error when the response was not granted or carries no token,
/// else the attestation with the response's token and no TSA URL.
pub open spec fn attestation_outcome(
    r: crate::error::Result<TimestampAttestation>,
    hash: Seq<char>,
    subject: TimestampSubject,
    algorithm: TimestampHashAlgorithm,
    response: TimestampResponse,
) -> bool {
    if !granted(response.status) {
        r matches Err(LibroError::Timestamp(m)) && m@ == "TSA did not grant timestamp: "@
            + status_name(response.status)
    } else if response.token is None {
        r matches Err(LibroError::Timestamp(m)) && m@ == "granted response has no token"@
    } else {
        r matches Ok(a) && {
            &&& a.hash@ == hash
            &&& a.hash_subject == subject
            &&& a.hash_algorithm == algorithm
            &&& a.token_der@ == response.token->0@
            &&& a.tsa_url is None
        }
    }
}

impl TimestampAttestation {
    /// An attestation of `hash` from a granted response; a timestamp error
    /// when the response was not granted or carries no token.
    pub fn new(
        hash: &str,
        subject: TimestampSubject,
        algorithm: TimestampHashAlgorithm,
        response: &TimestampResponse,
    ) -> (r: crate::error::Result<Self>)
        ensures
            attestation_outcome(r, hash@, subject, algorithm, *response),
    {
        if !response.is_granted() {
            let mut m = String::new();
            push_str(&mut m, "TSA did not grant timestamp: ");
            push_str(&mut m, response.status.name());
            return Err(LibroError::Timestamp(m));
        }
        let token_der = match &response.token {
            Some(t) => t.clone(),
            None => {
                return Err(LibroError::Timestamp(string_of("granted response has no token")));
            },
        };
        Ok(
            TimestampAttestation {
                hash: string_of(hash),
                hash_subject: subject,
                hash_algorithm: algorithm,
                token_der,
                tsa_url: None,
                created_at: Timestamp::now(),
            },
        )
    }

    /// An attestation for a Merkle root (SHA-256).
    pub fn for_merkle_root(tree: &MerkleTree, response: &TimestampResponse) -> (r:
        crate::error::Result<Self>)
        ensures
            attestation_outcome(r, tree_root(tree.leaves()), TimestampSubject::MerkleRoot, TimestampHashAlgorithm::Sha256, *response),
    {
        Self::new(tree.root(), TimestampSubject::MerkleRoot, TimestampHashAlgorithm::Sha256, response)
    }

    /// An attestation for an entry hash (SHA-256).
    pub fn for_entry(entry: &AuditEntry, response: &TimestampResponse) -> (r: crate::error::Result<
        Self,
    >)
        ensures
            attestation_outcome(r, entry.hash@, TimestampSubject::EntryHash, TimestampHashAlgorithm::Sha256, *response),
    {
        Self::new(entry.hash(), TimestampSubject::EntryHash, TimestampHashAlgorithm::Sha256, response)
    }

    /// Set the TSA URL (informational, for re-verification).
    pub fn with_tsa_url(self, url: &str) -> (r: Self)
        ensures
            r.tsa_url matches Some(u) && u@ == url@,
            r.hash == self.hash,
            r.hash_subject == self.hash_subject,
            r.hash_algorithm == self.hash_algorithm,
            r.token_der == self.token_der,
            r.created_at == self.created_at,
    {
        let mut r = self;
        r.tsa_url = Some(string_of(url));
        r
    }

    /// Whether this attestation's hash equals `hash`. A local check: the
    /// TSA's signature is not verified.
    pub fn verify_hash(&self, hash: &str) -> (r: bool)
        ensures
            r == (self.hash@ == hash@),
    {
        constant_time_eq(self.hash.as_str(), hash)
    }
}


/// DER round trip: a TLV that `der_tlv` encodes parses back to its value,
/// taking all of the encoding, for a value of any length a machine word
/// holds.
pub proof fn lemma_der_tlv_roundtrip(tag: u8, value: Seq<u8>)
    requires
        value.len() <= usize::MAX,
    ensures
        tlv_error(der_tlv_spec(tag, value)) is None,
        tlv_header_size(der_tlv_spec(tag, value)) + tlv_length(der_tlv_spec(tag, value))
            == der_tlv_spec(tag, value).len(),
        tlv_value(der_tlv_spec(tag, value)) == value,
{
    let len = value.len();
    let d = der_tlv_spec(tag, value);
    let lb = der_length_spec(len);
    assert(d == seq![tag] + lb + value);
    if len < 128 {
        assert(d[1] == len);
    } else {
        let k = byte_count(len);
        reveal_with_fuel(pow256, 9);
        assert(pow256(8) == 0x1_0000_0000_0000_0000);
        lemma_byte_count_le(len, 8);
        lemma_be_bytes_value(len, k);
        assert(k >= 1);
        assert(d[1] == 0x80 + k);
        assert(tlv_len_bytes(d) == k);
        assert(d.subrange(2, 2 + k as int) =~= be_bytes(len, k));
    }
    assert(tlv_length(d) == len);
    assert(d.subrange(tlv_header_size(d) as int, d.len() as int) =~= value);
}

/// certReq is encoded only when it is set: a request asking for the
/// TSA's certificate encodes as the same request without it, its content
/// followed by the DER BOOLEAN TRUE (`01 01 FF`).
pub proof fn lemma_cert_req_appends_true(r: TimestampRequest)
    ensures
        request_der_spec(TimestampRequest { cert_req: false, ..r }) == der_tlv_spec(
            DER_SEQUENCE,
            request_body_spec(TimestampRequest { cert_req: false, ..r }),
        ),
        request_der_spec(TimestampRequest { cert_req: true, ..r }) == der_tlv_spec(
            DER_SEQUENCE,
            request_body_spec(TimestampRequest { cert_req: false, ..r }) + seq![0x01u8, 0x01u8, 0xFFu8],
        ),
{
    let f = TimestampRequest { cert_req: false, ..r };
    let t = TimestampRequest { cert_req: true, ..r };
    assert(der_tlv_spec(DER_BOOLEAN, seq![0xFFu8]) =~= seq![0x01u8, 0x01u8, 0xFFu8]);
    assert(request_body_spec(t) =~= request_body_spec(f) + seq![0x01u8, 0x01u8, 0xFFu8]);
}

/// The continuation bytes of an OID arc's leading digits: base 128, most
/// significant first, each with its high bit set.
pub open spec fn base128_lead(n: nat) -> Seq<u8>
    decreases n,
{
    if n == 0 {
        Seq::empty()
    } else {
        base128_lead(n / 128).push((n % 128 + 128) as u8)
    }
}

/// The X.690 encoding of one OID arc: base 128, most significant digit
/// first, the high bit set on every byte but the last.
pub open spec fn oid_arc(n: nat) -> Seq<u8> {
    base128_lead(n / 128).push((n % 128) as u8)
}

/// The encoding of the arcs after the first two.
pub open spec fn oid_arcs(arcs: Seq<nat>) -> Seq<u8>
    decreases arcs.len(),
{
    if arcs.len() == 0 {
        Seq::empty()
    } else {
        oid_arc(arcs[0]) + oid_arcs(arcs.drop_first())
    }
}

/// The X.690 content bytes of an object identifier: the first two arcs
/// joined as `40 * first + second`, then each further arc.
pub open spec fn oid_encoding(arcs: Seq<nat>) -> Seq<u8> {
    oid_arc(40 * arcs[0] + arcs[1]) + oid_arcs(arcs.skip(2))
}

/// The NIST object identifiers of the SHA-2 hash algorithms:
/// 2.16.840.1.101.3.4.2.1 (SHA-256), .2 (SHA-384) and .3 (SHA-512).
pub open spec fn nist_hash_oid(a: TimestampHashAlgorithm) -> Seq<nat> {
    let last: nat = match a {
        TimestampHashAlgorithm::Sha256 => 1,
        TimestampHashAlgorithm::Sha384 => 2,
        TimestampHashAlgorithm::Sha512 => 3,
    };
    seq![2nat, 16, 840, 1, 101, 3, 4, 2, last]
}

/// Each algorithm is identified by its NIST object identifier: the bytes a
/// request carries are the X.690 encoding of 2.16.840.1.101.3.4.2.1 for
/// SHA-256, .2 for SHA-384 and .3 for SHA-512.
pub proof fn lemma_oid_is_nist(a: TimestampHashAlgorithm)
    ensures
        oid_spec(a) == oid_encoding(nist_hash_oid(a)),
{
    let arcs = nist_hash_oid(a);
    reveal_with_fuel(oid_arcs, 8);
    reveal_with_fuel(base128_lead, 3);
    assert(oid_arc(96) =~= seq![0x60u8]);
    assert(base128_lead(6) =~= seq![0x86u8]);
    assert(oid_arc(840) =~= seq![0x86u8, 0x48u8]);
    assert(arcs.skip(2) =~= seq![840nat, 1, 101, 3, 4, 2, arcs[8]]);
    let tail = arcs.skip(2);
    assert(tail.drop_first() =~= seq![1nat, 101, 3, 4, 2, arcs[8]]);
    assert(tail.drop_first().drop_first() =~= seq![101nat, 3, 4, 2, arcs[8]]);
    assert(tail.drop_first().drop_first().drop_first() =~= seq![3nat, 4, 2, arcs[8]]);
    assert(tail.drop_first().drop_first().drop_first().drop_first() =~= seq![4nat, 2, arcs[8]]);
    assert(tail.drop_first().drop_first().drop_first().drop_first().drop_first() =~= seq![
        2nat,
        arcs[8],
    ]);
    assert(tail.drop_first().drop_first().drop_first().drop_first().drop_first().drop_first()
        =~= seq![arcs[8]]);
    assert(oid_spec(a) =~= oid_encoding(arcs));
}

} // verus!
