//! The caller digest: a short, stable, irreversible identifier derived from a
//! credential, used as the caller part of an affinity key.
use vstd::prelude::*;
use vstd::utf8::encode_utf8;

verus! {

/// The SHA-256 digest of a byte sequence.
pub uninterp spec fn sha256_of(data: Seq<u8>) -> Seq<u8>;

/// The lowercase hexadecimal digit of a value below sixteen.
pub open spec fn hex_digit(n: u8) -> char {
    if n < 10 {
        (n + 48) as char
    } else {
        (n + 87) as char
    }
}

/// Lowercase hexadecimal text of a byte sequence: two digits per byte, the
/// high nibble first.
pub open spec fn hex_text(b: Seq<u8>) -> Seq<char>
    decreases b.len(),
{
    if b.len() == 0 {
        Seq::empty()
    } else {
        hex_text(b.drop_last()) + seq![hex_digit(b.last() / 16), hex_digit(b.last() % 16)]
    }
}

/// The identifier of a credential: the first eight bytes of its SHA-256
/// digest (of its UTF-8 bytes), in lowercase hexadecimal.
pub open spec fn digest_text(s: Seq<char>) -> Seq<char> {
    hex_text(sha256_of(encode_utf8(s)).subrange(0, 8))
}

/// Bytes in the identifier's digest prefix.
pub const DIGEST_PREFIX_BYTES: usize = 8;

proof fn lemma_hex_text_len(b: Seq<u8>)
    ensures
        hex_text(b).len() == 2 * b.len(),
    decreases b.len(),
{
    if b.len() > 0 {
        lemma_hex_text_len(b.drop_last());
    }
}

/// Relies on sha2's `Sha256` through `Digest::digest`: the SHA-256 digest of
/// the bytes, which is 32 bytes long.
#[verifier::external_body]
fn sha256(data: &[u8]) -> (r: Vec<u8>)
    ensures
        r@ == sha256_of(data@),
        r@.len() == 32,
{
    <sha2::Sha256 as sha2::Digest>::digest(data).to_vec()
}

/// Relies on hex's `encode`: lowercase digits, two per byte, high nibble
/// first.
#[verifier::external_body]
fn to_hex(data: &[u8]) -> (r: String)
    ensures
        r@ == hex_text(data@),
{
    hex::encode(data)
}

/// The identifier of a credential: sixteen lowercase hexadecimal digits,
/// the same for the same input.
pub fn hash_string(input: &str) -> (r: String)
    ensures
        r@ == digest_text(input@),
        r@.len() == 16,
{
    let digest = sha256(input.as_bytes());
    let mut prefix: Vec<u8> = Vec::new();
    let mut i: usize = 0;
    while i < DIGEST_PREFIX_BYTES
        invariant
            i <= 8,
            digest@.len() == 32,
            prefix@ == digest@.subrange(0, i as int),
        decreases 8 - i,
    {
        prefix.push(digest[i]);
        i += 1;
        assert(prefix@ =~= digest@.subrange(0, i as int));
    }
    proof {
        lemma_hex_text_len(prefix@);
    }
    to_hex(prefix.as_slice())
}

} // verus!
