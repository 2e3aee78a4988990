//! Hashing: SHA-256 digests, lowercase hex encoding and decoding,
//! length-prefixed field hashing and constant-time comparison.

use sha2::{Digest, Sha256};
use vstd::bytes::*;
use vstd::prelude::*;

use crate::text::push_char;

verus! {

/// The name of the hash algorithm used throughout the library.
pub const HASH_ALGORITHM: &'static str = "sha256";

/// The SHA-256 digest (FIPS 180-4) of `data`.
pub uninterp spec fn sha256_spec(data: Seq<u8>) -> Seq<u8>;

/// Calls `sha2::Sha256::digest`. Claims that the 32-byte result is the
/// SHA-256 digest of `data`, which is given a name here and not defined.
#[verifier::external_body]
pub(crate) fn sha256(data: &[u8]) -> (out: Vec<u8>)
    ensures
        out@ == sha256_spec(data@),
        out@.len() == 32,
{
    Sha256::digest(data).to_vec()
}

/// The lowercase hex digit for `n < 16`.
pub open spec fn hex_digit(n: u8) -> char {
    if n < 10 {
        ((48 + n) as u8) as char
    } else {
        ((87 + n) as u8) as char
    }
}

/// The lowercase hex encoding of `b`: two characters per byte, high nibble first.
pub open spec fn hex_spec(b: Seq<u8>) -> Seq<char> {
    Seq::new(
        2 * b.len(),
        |i: int|
            if i % 2 == 0 {
                hex_digit(b[i / 2] / 16)
            } else {
                hex_digit(b[i / 2] % 16)
            },
    )
}

/// The hex encoding of the SHA-256 digest of `data`.
pub open spec fn digest_hex(data: Seq<u8>) -> Seq<char> {
    hex_spec(sha256_spec(data))
}

fn hex_char(n: u8) -> (c: char)
    requires
        n < 16,
    ensures
        c == hex_digit(n),
{
    if n < 10 {
        (48u8 + n) as char
    } else {
        (87u8 + n) as char
    }
}

/// Appends the lowercase hex encoding of `bytes` to `s`.
pub fn push_hex(s: &mut String, bytes: &[u8])
    ensures
        final(s)@ == old(s)@ + hex_spec(bytes@),
{
    let ghost start = s@;
    let n = bytes.len();
    for i in 0..n
        invariant
            n == bytes@.len(),
            s@ == start + hex_spec(bytes@.take(i as int)),
    {
        let b = bytes[i];
        push_char(s, hex_char(b / 16));
        push_char(s, hex_char(b % 16));
        assert(hex_spec(bytes@.take(i + 1)) =~= hex_spec(bytes@.take(i as int)).push(
            hex_digit(b / 16),
        ).push(hex_digit(b % 16)));
    }
    assert(bytes@.take(n as int) =~= bytes@);
}

/// The lowercase hex encoding of `bytes`.
pub fn hex_encode(bytes: &[u8]) -> (s: String)
    ensures
        s@ == hex_spec(bytes@),
{
    let mut s = String::new();
    push_hex(&mut s, bytes);
    s
}

/// The hex encoding of the SHA-256 digest of `data`.
pub fn sha256_hex(data: &[u8]) -> (s: String)
    ensures
        s@ == digest_hex(data@),
        s@.len() == 64,
{
    let d = sha256(data);
    hex_encode(d.as_slice())
}

/// The value of an ASCII hex digit (either case), if `b` is one.
pub open spec fn hex_value(b: u8) -> Option<u8> {
    if 48 <= b <= 57 {
        Some((b - 48) as u8)
    } else if 97 <= b <= 102 {
        Some((b - 87) as u8)
    } else if 65 <= b <= 70 {
        Some((b - 55) as u8)
    } else {
        None
    }
}

/// Decoding of hex text given as bytes: `None` unless the length is even and
/// every byte is a hex digit; otherwise one byte per pair of digits.
pub open spec fn hex_decode_spec(t: Seq<u8>) -> Option<Seq<u8>> {
    if t.len() % 2 == 0 && forall|i: int| 0 <= i < t.len() ==> (#[trigger] hex_value(t[i])) is Some {
        Some(
            Seq::new(
                t.len() / 2,
                |i: int| (hex_value(t[2 * i])->0 * 16 + hex_value(t[2 * i + 1])->0) as u8,
            ),
        )
    } else {
        None
    }
}

fn hex_value_of(b: u8) -> (r: Option<u8>)
    ensures
        r == hex_value(b),
{
    if 48 <= b && b <= 57 {
        Some(b - 48)
    } else if 97 <= b && b <= 102 {
        Some(b - 87)
    } else if 65 <= b && b <= 70 {
        Some(b - 55)
    } else {
        None
    }
}

/// Decodes hex text (either case) into bytes; `None` for an odd length or
/// any character that is not a hex digit.
pub fn hex_decode(s: &str) -> (r: Option<Vec<u8>>)
    ensures
        r matches Some(v) ==> hex_decode_spec(vstd::utf8::encode_utf8(s@)) == Some(v@),
        r is None ==> hex_decode_spec(vstd::utf8::encode_utf8(s@)) is None,
{
    let t = s.as_bytes();
    let n = t.len();
    assert(t@ == vstd::utf8::encode_utf8(s@));
    if n % 2 != 0 {
        return None;
    }
    let mut out: Vec<u8> = Vec::new();
    let mut i: usize = 0;
    while i < n
        invariant
            n == t@.len(),
            t@ == vstd::utf8::encode_utf8(s@),
            n % 2 == 0,
            i % 2 == 0,
            i <= n,
            out@.len() == i / 2,
            forall|j: int| 0 <= j < i ==> (#[trigger] hex_value(t@[j])) is Some,
            forall|j: int|
                0 <= j < i / 2 ==> #[trigger] out@[j] == (hex_value(t@[2 * j])->0 * 16
                    + hex_value(t@[2 * j + 1])->0) as u8,
        decreases n - i,
    {
        let hi = hex_value_of(t[i]);
        let lo = hex_value_of(t[i + 1]);
        match (hi, lo) {
            (Some(h), Some(l)) => {
                out.push(h * 16 + l);
            },
            _ => {
                proof {
                    if hi is None {
                        assert(hex_value(t@[i as int]) is None);
                    } else {
                        assert(hex_value(t@[i + 1]) is None);
                    }
                    assert(!(forall|j: int| 0 <= j < t@.len() ==> (#[trigger] hex_value(t@[j])) is Some));
                }
                return None;
            },
        }
        i = i + 2;
    }
    assert(out@ =~= hex_decode_spec(t@)->0);
    Some(out)
}

/// Compares two strings without an early exit on the first differing byte.
pub fn constant_time_eq(a: &str, b: &str) -> (r: bool)
    ensures
        r == (a@ == b@),
{
    broadcast use vstd::utf8::encode_utf8_decode_utf8;

    let x = a.as_bytes();
    let y = b.as_bytes();
    if x.len() != y.len() {
        proof {
            if a@ == b@ {
                assert(x@ == y@);
            }
        }
        return false;
    }
    let n = x.len();
    let mut acc: u8 = 0;
    for i in 0..n
        invariant
            n == x@.len(),
            n == y@.len(),
            acc == 0 <==> forall|j: int| 0 <= j < i ==> x@[j] == y@[j],
    {
        let p = x[i];
        let q = y[i];
        let next = acc | (p ^ q);
        assert(next == 0 <==> (acc == 0 && p == q)) by (bit_vector)
            requires
                next == acc | (p ^ q),
        ;
        acc = next;
    }
    let r = acc == 0;
    proof {
        if r {
            assert(x@ =~= y@);
            assert(vstd::utf8::decode_utf8(x@) == a@);
        } else {
            if a@ == b@ {
                assert(x@ == y@);
            }
        }
    }
    r
}

/// A hasher that is fed data in pieces; its digest is the SHA-256 digest
/// of everything fed to it, in order.
pub struct ChainHasher {
    buf: Vec<u8>,
}

impl View for ChainHasher {
    type V = Seq<u8>;

    /// The bytes fed so far.
    closed spec fn view(&self) -> Seq<u8> {
        self.buf@
    }
}

impl ChainHasher {
    /// A hasher that has been fed nothing.
    pub fn new() -> (h: Self)
        ensures
            h@ == Seq::<u8>::empty(),
    {
        ChainHasher { buf: Vec::new() }
    }

    /// Feeds `data`.
    pub fn update(&mut self, data: &[u8])
        ensures
            final(self)@ == old(self)@ + data@,
    {
        crate::text::extend_bytes(&mut self.buf, data);
    }

    /// The lowercase hex SHA-256 digest of everything fed.
    pub fn finalize_hex(self) -> (s: String)
        ensures
            s@ == digest_hex(self@),
    {
        sha256_hex(self.buf.as_slice())
    }
}

/// A field as it is fed to a hasher: its length as 8 little-endian bytes,
/// then its bytes, so that adjacent fields cannot shift their boundary.
pub open spec fn field_bytes(data: Seq<u8>) -> Seq<u8> {
    spec_u64_to_le_bytes(data.len() as u64) + data
}

/// Feeds `data` to `hasher` as a length-prefixed field.
pub fn hash_field(hasher: &mut ChainHasher, data: &[u8])
    ensures
        final(hasher)@ == old(hasher)@ + field_bytes(data@),
{
    let len = u64_to_le_bytes(data.len() as u64);
    hasher.update(len.as_slice());
    hasher.update(data);
    assert(final(hasher)@ =~= old(hasher)@ + field_bytes(data@)) by {
        assert(old(hasher)@ + len@ + data@ =~= old(hasher)@ + (len@ + data@));
    }
}


proof fn lemma_hex_digit_value(n: u8)
    requires
        n < 16,
    ensures
        '\0' <= hex_digit(n) <= '\u{7f}',
        hex_value(hex_digit(n) as u8) == Some(n),
{
    if n < 10 {
        let b: u8 = (48 + n) as u8;
        assert((b as char) as u8 == b);
    } else {
        let b: u8 = (87 + n) as u8;
        assert((b as char) as u8 == b);
    }
}

/// Hex round trip: decoding the hex text of any bytes gives those bytes.
pub proof fn lemma_hex_decode_encode(b: Seq<u8>)
    ensures
        hex_decode_spec(vstd::utf8::encode_utf8(hex_spec(b))) == Some(b),
{
    let h = hex_spec(b);
    assert forall|i: int| 0 <= i < h.len() implies '\0' <= #[trigger] h[i] <= '\u{7f}' && hex_value(
        h[i] as u8,
    ) == Some(if i % 2 == 0 {
        b[i / 2] / 16
    } else {
        b[i / 2] % 16
    }) by {
        if i % 2 == 0 {
            lemma_hex_digit_value(b[i / 2] / 16);
        } else {
            lemma_hex_digit_value(b[i / 2] % 16);
        }
    }
    assert(vstd::utf8::is_ascii_chars(h));
    vstd::utf8::is_ascii_chars_encode_utf8(h);
    let t = vstd::utf8::encode_utf8(h);
    assert(t.len() == 2 * b.len());
    assert forall|i: int| 0 <= i < t.len() implies (#[trigger] hex_value(t[i])) is Some by {
        assert(t[i] == h[i] as u8);
    }
    let d = hex_decode_spec(t)->0;
    assert forall|i: int| 0 <= i < b.len() implies #[trigger] d[i] == b[i] by {
        assert(t[2 * i] == h[2 * i] as u8);
        assert(t[2 * i + 1] == h[2 * i + 1] as u8);
        assert((2 * i) / 2 == i);
        assert((2 * i + 1) / 2 == i);
        assert((2 * i) % 2 == 0);
        assert((2 * i + 1) % 2 == 1);
        assert(b[i] == (b[i] / 16) * 16 + b[i] % 16);
    }
    assert(d =~= b);
}

} // verus!
