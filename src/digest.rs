//! SHA-256 digests and their canonical text form `sha256:<64 lower-case hex digits>`.

use vstd::prelude::*;
use vstd::string::{StrSliceExecFns, StringSliceAdditionalSpecFns};

verus! {

/// The digits of lower-case hexadecimal, by value.
pub open spec fn hex_digits() -> Seq<char> {
    seq!['0', '1', '2', '3', '4', '5', '6', '7', '8', '9', 'a', 'b', 'c', 'd', 'e', 'f']
}

/// Lower-case hexadecimal text of a byte sequence: two digits per byte, high nibble first.
pub open spec fn hex_lower(b: Seq<u8>) -> Seq<char> {
    Seq::new(
        2 * b.len(),
        |i: int|
            if i % 2 == 0 {
                hex_digits()[(b[i / 2] / 16) as int]
            } else {
                hex_digits()[(b[i / 2] % 16) as int]
            },
    )
}

/// A lower-case hexadecimal digit.
pub open spec fn is_hex_char(c: char) -> bool {
    ('0' <= c && c <= '9') || ('a' <= c && c <= 'f')
}

/// The hash part of a SHA-256 digest: 64 lower-case hexadecimal digits.
pub open spec fn is_hash(h: Seq<char>) -> bool {
    &&& h.len() == 64
    &&& forall|i: int| 0 <= i < h.len() ==> is_hex_char(#[trigger] h[i])
}

/// The only digest algorithm this store knows.
pub open spec fn algorithm() -> Seq<char> {
    seq!['s', 'h', 'a', '2', '5', '6']
}

/// Canonical text of a digest with hash part `h`.
pub open spec fn format_digest(h: Seq<char>) -> Seq<char> {
    algorithm() + seq![':'] + h
}

/// A well-formed digest string.
pub open spec fn is_digest(d: Seq<char>) -> bool {
    &&& d.len() == 71
    &&& d.subrange(0, 7) == algorithm() + seq![':']
    &&& is_hash(d.subrange(7, 71))
}

/// The hash part of a digest string.
pub open spec fn hash_part(d: Seq<char>) -> Seq<char> {
    d.subrange(7, d.len() as int)
}

/// The SHA-256 hash of `data`, as the sha2 crate computes it.
pub uninterp spec fn sha256_of(data: Seq<u8>) -> Seq<u8>;

/// The digest string of `data`.
pub open spec fn digest_of(data: Seq<u8>) -> Seq<char> {
    format_digest(hex_lower(sha256_of(data)))
}

/// Relies on `sha2::Sha256::digest` for the SHA-256 hash of `data` (32 bytes), and
/// on the `LowerHex` impl of its `GenericArray` output for the text: two lower-case
/// digits per byte, high nibble first.
#[verifier::external_body]
pub(crate) fn sha256_hex(data: &[u8]) -> (r: String)
    ensures
        r@ == hex_lower(sha256_of(data@)),
        r@.len() == 64,
{
    format!("{:x}", <sha2::Sha256 as sha2::Digest>::digest(data))
}

/// Relies on `sha256::digest`, whose body is `hex::encode(Sha256::digest(bytes))`
/// over the UTF-8 bytes of `s`: the sha2 hash, in lower-case hex.
#[verifier::external_body]
pub(crate) fn sha256_hex_of_str(s: &str) -> (r: String)
    ensures
        r@ == hex_lower(sha256_of(s.spec_bytes())),
        r@.len() == 64,
{
    sha256::digest(s)
}

pub proof fn lemma_hex_lower_is_hash(b: Seq<u8>)
    requires
        b.len() == 32,
    ensures
        is_hash(hex_lower(b)),
{
    let h = hex_lower(b);
    assert forall|i: int| 0 <= i < h.len() implies is_hex_char(#[trigger] h[i]) by {
        let n: int = if i % 2 == 0 { (b[i / 2] / 16) as int } else { (b[i / 2] % 16) as int };
        assert(0 <= n < 16);
        assert(h[i] == hex_digits()[n]);
    }
}

pub proof fn lemma_format_is_digest(h: Seq<char>)
    requires
        is_hash(h),
    ensures
        is_digest(format_digest(h)),
        hash_part(format_digest(h)) == h,
{
    let d = format_digest(h);
    assert(d.subrange(0, 7) =~= algorithm() + seq![':']);
    assert(d.subrange(7, 71) =~= h);
}

/// The digest string of a byte sequence: `sha256:` followed by the lower-case hex
/// of its SHA-256 hash.
pub fn compute(data: &[u8]) -> (r: String)
    ensures
        r@ == digest_of(data@),
        is_digest(r@),
        hash_part(r@) == hex_lower(sha256_of(data@)),
{
    let hex = sha256_hex(data);
    proof {
        lemma_hex_lower_is_hash(sha256_of(data@));
        lemma_format_is_digest(hex@);
    }
    format_digest_text(hex.as_str())
}

/// The canonical text of a digest whose hash part is `hash`.
pub fn format_digest_text(hash: &str) -> (r: String)
    ensures
        r@ == format_digest(hash@),
{
    let mut r = String::new();
    r.append("sha256:");
    r.append(hash);
    proof {
        reveal_strlit("sha256:");
        assert(r@ =~= format_digest(hash@));
    }
    r
}

/// Whether `h` is the hash part of a digest: 64 lower-case hexadecimal digits.
pub fn is_hash_text(h: &str) -> (r: bool)
    ensures
        r == is_hash(h@),
{
    if h.unicode_len() != 64 {
        return false;
    }
    let mut i: usize = 0;
    while i < 64
        invariant
            h@.len() == 64,
            i <= 64,
            forall|j: int| 0 <= j < i ==> is_hex_char(#[trigger] h@[j]),
        decreases 64 - i,
    {
        let c = h.get_char(i);
        if !(('0' <= c && c <= '9') || ('a' <= c && c <= 'f')) {
            return false;
        }
        i = i + 1;
    }
    true
}

} // verus!
