//! Content digests: SHA3-512 of a blob, written as lower-case hex.
use sha3::Digest;
use vstd::prelude::*;
use vstd::utf8::*;
use crate::text::{lemma_ascii_valid_utf8, string_from_utf8};

verus! {

/// The SHA3-512 digest of a byte string.
pub uninterp spec fn sha3_512_of(b: Seq<u8>) -> Seq<u8>;

/// Relies on `sha3::Sha3_512::digest`: a 64-byte digest that depends on the
/// input bytes alone.
#[verifier::external_body]
fn sha3_512(b: &[u8]) -> (r: Vec<u8>)
    ensures
        r@ == sha3_512_of(b@),
        r@.len() == 64,
{
    sha3::Sha3_512::digest(b).to_vec()
}

/// The ASCII code of the lower-case hex digit for `n` (below 16).
pub open spec fn hex_digit(n: u8) -> u8 {
    if n < 10 { (48 + n) as u8 } else { (87 + n) as u8 }
}

/// Two lower-case hex digits for each byte, high nibble first.
pub open spec fn hex_bytes(d: Seq<u8>) -> Seq<u8> {
    Seq::new(
        2 * d.len(),
        |i: int| if i % 2 == 0 { hex_digit(d[i / 2] / 16) } else { hex_digit(d[i / 2] % 16) },
    )
}

/// The hex form of a digest, as characters.
pub open spec fn hex_string(d: Seq<u8>) -> Seq<char> {
    decode_utf8(hex_bytes(d))
}

/// The key of a blob: the hex form of its SHA3-512 digest.
pub open spec fn content_hash(blob: Seq<u8>) -> Seq<char> {
    hex_string(sha3_512_of(blob))
}

proof fn lemma_hex_bytes_ascii(d: Seq<u8>)
    ensures
        valid_utf8(hex_bytes(d)),
        encode_utf8(hex_string(d)) == hex_bytes(d),
{
    lemma_ascii_valid_utf8(hex_bytes(d));
    decode_utf8_encode_utf8(hex_bytes(d));
}

fn hex_nibble(n: u8) -> (r: u8)
    requires
        n < 16,
    ensures
        r == hex_digit(n),
{
    if n < 10 { 48 + n } else { 87 + n }
}

/// Writes `d` as lower-case hex.
pub fn to_hex(d: &[u8]) -> (r: String)
    requires
        d@.len() <= usize::MAX / 2,
    ensures
        r@ == hex_string(d@),
        encode_utf8(r@) == hex_bytes(d@),
{
    let mut out: Vec<u8> = Vec::new();
    let mut i: usize = 0;
    while i < d.len()
        invariant
            i <= d@.len() <= usize::MAX / 2,
            out@ =~= hex_bytes(d@.subrange(0, i as int)),
        decreases d@.len() - i,
    {
        let x = d[i];
        out.push(hex_nibble(x / 16));
        out.push(hex_nibble(x % 16));
        i = i + 1;
        assert(out@ =~= hex_bytes(d@.subrange(0, i as int)));
    }
    assert(d@.subrange(0, d@.len() as int) =~= d@);
    proof {
        lemma_hex_bytes_ascii(d@);
    }
    let r = string_from_utf8(out);
    match r {
        Some(s) => s,
        None => String::new(),
    }
}

/// Digests a blob: the lower-case hex form of its SHA3-512 digest.
pub fn compute_hash(blob: &[u8]) -> (r: String)
    ensures
        r@ == content_hash(blob@),
        r@.len() == 128,
        encode_utf8(r@) == hex_bytes(sha3_512_of(blob@)),
{
    let d = sha3_512(blob);
    let r = to_hex(d.as_slice());
    proof {
        lemma_hex_len(d@);
    }
    r
}

proof fn lemma_hex_len(d: Seq<u8>)
    ensures
        hex_string(d).len() == 2 * d.len(),
{
    lemma_hex_bytes_ascii(d);
    lemma_decode_ascii_len(hex_bytes(d));
}

proof fn lemma_decode_ascii_len(b: Seq<u8>)
    requires
        forall|i: int| 0 <= i < b.len() ==> b[i] < 0x80,
    ensures
        valid_utf8(b),
        decode_utf8(b).len() == b.len(),
    decreases b.len(),
{
    lemma_ascii_valid_utf8(b);
    if b.len() > 0 {
        let rest = pop_first_scalar(b);
        assert(rest =~= b.subrange(1, b.len() as int));
        lemma_decode_ascii_len(rest);
    }
}

/// The same blob always gets the same key, and blobs whose digests differ get
/// different keys.
pub proof fn lemma_hash_deterministic(a: Seq<u8>, b: Seq<u8>)
    ensures
        a == b ==> content_hash(a) == content_hash(b),
        sha3_512_of(a) != sha3_512_of(b) ==> content_hash(a) != content_hash(b),
{
    if sha3_512_of(a) != sha3_512_of(b) && content_hash(a) == content_hash(b) {
        lemma_hex_bytes_ascii(sha3_512_of(a));
        lemma_hex_bytes_ascii(sha3_512_of(b));
        lemma_hex_injective(sha3_512_of(a), sha3_512_of(b));
    }
}

proof fn lemma_hex_digit_injective(m: u8, n: u8)
    requires
        m < 16,
        n < 16,
        hex_digit(m) == hex_digit(n),
    ensures
        m == n,
{
}

/// Distinct byte strings have distinct hex forms.
pub proof fn lemma_hex_injective(x: Seq<u8>, y: Seq<u8>)
    requires
        hex_bytes(x) == hex_bytes(y),
    ensures
        x == y,
{
    assert(hex_bytes(x).len() == 2 * x.len());
    assert forall|k: int| 0 <= k < x.len() implies x[k] == y[k] by {
        assert((2 * k) / 2 == k && (2 * k) % 2 == 0 && (2 * k + 1) / 2 == k && (2 * k + 1) % 2 == 1);
        let a = x[k];
        let b = y[k];
        assert(hex_bytes(x)[2 * k] == hex_digit(a / 16));
        assert(hex_bytes(y)[2 * k] == hex_digit(b / 16));
        assert(hex_bytes(x)[2 * k + 1] == hex_digit(a % 16));
        assert(hex_bytes(y)[2 * k + 1] == hex_digit(b % 16));
        lemma_hex_digit_injective(a / 16, b / 16);
        lemma_hex_digit_injective(a % 16, b % 16);
        assert(a == 16 * (a / 16) + a % 16);
        assert(b == 16 * (b / 16) + b % 16);
    }
    assert(x =~= y);
}

} // verus!
