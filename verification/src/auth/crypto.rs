//! Digests and encodings. The hashing and the base64 alphabet are sha2's and base64's;
//! what is hashed, and in what framing, is decided here.
use vstd::prelude::*;

use base64::engine::general_purpose::URL_SAFE_NO_PAD;
use base64::Engine;
use sha2::{Digest, Sha256};

verus! {

/// The SHA-256 digest of `data`, as sha2 computes it.
pub uninterp spec fn sha256_of(data: Seq<u8>) -> Seq<u8>;

/// The unpadded base64url encoding of `data`, as base64's `URL_SAFE_NO_PAD` computes it.
pub uninterp spec fn base64url_of(data: Seq<u8>) -> Seq<char>;

/// `Sha256::digest` (sha2). Claimed: the result is the digest of exactly `data`, and a
/// SHA-256 digest is 32 bytes long.
#[verifier::external_body]
pub fn sha256(data: &[u8]) -> (r: Vec<u8>)
    ensures
        r@ == sha256_of(data@),
        r@.len() == 32,
{
    Sha256::digest(data).to_vec()
}

/// A character of the URL-safe base64 alphabet: letters, digits, `-` and `_`.
pub open spec fn base64url_char(c: char) -> bool {
    ('A' <= c <= 'Z') || ('a' <= c <= 'z') || ('0' <= c <= '9') || c == '-' || c == '_'
}

/// `URL_SAFE_NO_PAD.encode` (base64). Claimed: the result is the encoding of exactly
/// `data`, written in the URL-safe alphabet without padding, so each three bytes take
/// four characters and a final one or two bytes take two or three.
#[verifier::external_body]
pub fn base64url(data: &[u8]) -> (r: String)
    ensures
        r@ == base64url_of(data@),
        r@.len() == (4 * data@.len() + 2) / 3,
        forall|i: int| 0 <= i < r@.len() ==> base64url_char(#[trigger] r@[i]),
{
    URL_SAFE_NO_PAD.encode(data)
}

/// The bytes hashed for a signature: each part's UTF-8 encoding followed by a zero
/// byte, so that no two different lists of parts frame into the same input.
pub open spec fn signature_input(parts: Seq<Seq<char>>) -> Seq<u8>
    decreases parts.len(),
{
    if parts.len() == 0 {
        Seq::empty()
    } else {
        signature_input(parts.drop_last()) + vstd::utf8::encode_utf8(parts.last()) + seq![0u8]
    }
}

pub open spec fn signature_digest_spec(parts: Seq<Seq<char>>) -> Seq<char> {
    base64url_of(sha256_of(signature_input(parts)))
}

pub open spec fn string_views(v: Seq<String>) -> Seq<Seq<char>> {
    v.map_values(|s: String| s@)
}

/// Stable short digest used to key per-viewer caches by ACL signature.
pub fn signature_digest(parts: &Vec<String>) -> (r: String)
    ensures
        r@ == signature_digest_spec(string_views(parts@)),
{
    let mut buffer: Vec<u8> = Vec::new();
    let mut i: usize = 0;
    while i < parts.len()
        invariant
            i <= parts@.len(),
            buffer@ == signature_input(string_views(parts@).take(i as int)),
        decreases parts.len() - i,
    {
        let bytes = parts[i].as_str().as_bytes();
        let mut j: usize = 0;
        let ghost start = buffer@;
        while j < bytes.len()
            invariant
                j <= bytes@.len(),
                buffer@ == start + bytes@.take(j as int),
            decreases bytes.len() - j,
        {
            buffer.push(bytes[j]);
            j += 1;
            assert(buffer@ =~= start + bytes@.take(j as int));
        }
        buffer.push(0u8);
        assert(bytes@.take(bytes@.len() as int) =~= bytes@);
        assert(string_views(parts@).take(i + 1).drop_last() =~= string_views(parts@).take(i as int));
        i += 1;
    }
    assert(string_views(parts@).take(parts@.len() as int) =~= string_views(parts@));
    let digest = sha256(buffer.as_slice());
    base64url(digest.as_slice())
}

/// The S256 PKCE challenge for a verifier: the base64url encoding of the SHA-256 of
/// its UTF-8 bytes.
pub fn pkce_challenge(verifier: &str) -> (r: String)
    ensures
        r@ == base64url_of(sha256_of(vstd::utf8::encode_utf8(verifier@))),
{
    let digest = sha256(verifier.as_bytes());
    base64url(digest.as_slice())
}

/// A random token of `bytes` bytes from the OS CSPRNG, base64url-encoded.
pub fn random_token(bytes: usize) -> (r: String)
    ensures
        exists|b: Seq<u8>| b.len() == bytes && r@ == base64url_of(b),
        r@.len() == (4 * bytes + 2) / 3,
        forall|i: int| 0 <= i < r@.len() ==> base64url_char(#[trigger] r@[i]),
{
    let mut buf: Vec<u8> = Vec::new();
    let mut i: usize = 0;
    while i < bytes
        invariant
            i <= bytes,
            buf.len() == i,
        decreases bytes - i,
    {
        buf.push(0u8);
        i += 1;
    }
    crate::links::fill_random(&mut buf);
    base64url(buf.as_slice())
}

} // verus!
