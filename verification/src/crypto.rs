//! Trusted boundary to the outside cryptographic and encoding crates.
//!
//! Each function here is believed, not proved: its contract states what the
//! outside crate's source and documentation show. Results that are functions
//! of the arguments alone but have no short statement (a base64 form, an
//! HMAC tag, a digest) are given opaque names.

use vstd::prelude::*;
use base64::Engine;

verus! {

/// Upper bound on the character count of any text handed to the outside
/// calls below; keeps the base64 output-size computation within `usize` on
/// every platform and stays far under the hash functions' input limits.
pub const TEXT_LIMIT: u64 = 0x1000_0000;

/// The URL-safe, unpadded base64 form of the UTF-8 bytes of a text.
pub uninterp spec fn b64_of(s: Seq<char>) -> Seq<char>;

/// The URL-safe base64 form of the HMAC-SHA256 tag of the UTF-8 bytes of a
/// text under a secret.
pub uninterp spec fn hmac_sig(secret: Seq<u8>, data: Seq<char>) -> Seq<char>;

/// The URL-safe base64 form of the SHA-256 digest of the UTF-8 bytes of a
/// text.
pub uninterp spec fn content_id(data: Seq<char>) -> Seq<char>;

/// Relies on base64's `URL_SAFE_NO_PAD` engine: `encode` maps the UTF-8
/// bytes of the text to their URL-safe, unpadded base64 form, a function of
/// the text alone.
#[verifier::external_body]
pub fn b64_encode(s: &str) -> (r: String)
    requires
        s@.len() <= TEXT_LIMIT,
    ensures
        r@ == b64_of(s@),
{
    base64::engine::general_purpose::URL_SAFE_NO_PAD.encode(s.as_bytes())
}

/// Relies on base64's `URL_SAFE_NO_PAD` engine: `decode` accepts exactly the
/// strings that `encode` produces (it rejects padding and non-zero trailing
/// bits) and inverts it; and on std's `String::from_utf8`, which restores
/// the text whose UTF-8 bytes were decoded. Both the UTF-8 encoding and the
/// base64 encoding are injective, so the decoded text is unique.
#[verifier::external_body]
pub fn b64_decode(s: &str) -> (r: Option<String>)
    ensures
        match r {
            Some(p) => b64_of(p@) == s@ && (forall|q: Seq<char>| b64_of(q) == s@ ==> q == p@),
            None => forall|q: Seq<char>| b64_of(q) != s@,
        },
{
    match base64::engine::general_purpose::URL_SAFE_NO_PAD.decode(s.as_bytes()) {
        Ok(bytes) => match String::from_utf8(bytes) {
            Ok(p) => Some(p),
            Err(_) => None,
        },
        Err(_) => None,
    }
}

/// Relies on ring's `hmac::sign` with an HMAC-SHA256 key: the tag is a
/// function of the secret and the UTF-8 bytes of the data alone, and is 32
/// bytes long, so its unpadded base64 form has 43 characters; and on
/// base64's `URL_SAFE_NO_PAD` `encode` for the tag's textual form.
#[verifier::external_body]
pub fn hmac_sign(secret: &[u8], data: &str) -> (r: String)
    requires
        data@.len() <= TEXT_LIMIT,
    ensures
        r@ == hmac_sig(secret@, data@),
        r@.len() == 43,
{
    let key = ring::hmac::Key::new(ring::hmac::HMAC_SHA256, secret);
    let tag = ring::hmac::sign(&key, data.as_bytes());
    base64::engine::general_purpose::URL_SAFE_NO_PAD.encode(tag.as_ref())
}

/// Relies on ring's `hmac::verify`: it recomputes the tag of the UTF-8 bytes
/// of `data` under `secret` and compares in constant time; and on base64's
/// `URL_SAFE_NO_PAD` `decode`, which accepts exactly the strings `encode`
/// produces, so the comparison succeeds exactly on the encoded true tag. A
/// true result therefore also means the signature has the canonical shape:
/// the 43-character unpadded base64 form of a 32-byte tag.
#[verifier::external_body]
pub fn hmac_check(secret: &[u8], data: &str, sig: &str) -> (r: bool)
    requires
        data@.len() <= TEXT_LIMIT,
    ensures
        r == (sig@ == hmac_sig(secret@, data@)),
        r ==> sig@.len() == 43,
{
    let sig_bytes = match base64::engine::general_purpose::URL_SAFE_NO_PAD.decode(sig.as_bytes()) {
        Ok(bytes) => bytes,
        Err(_) => return false,
    };
    let key = ring::hmac::Key::new(ring::hmac::HMAC_SHA256, secret);
    ring::hmac::verify(&key, data.as_bytes(), &sig_bytes).is_ok()
}

/// Relies on ring's `digest::digest` with SHA-256: the digest is a function
/// of the UTF-8 bytes of the text alone; and on base64's `URL_SAFE_NO_PAD`
/// `encode` for its textual form.
#[verifier::external_body]
pub fn digest_id(data: &str) -> (r: String)
    requires
        data@.len() <= TEXT_LIMIT,
    ensures
        r@ == content_id(data@),
{
    let hash = ring::digest::digest(&ring::digest::SHA256, data.as_bytes());
    base64::engine::general_purpose::URL_SAFE_NO_PAD.encode(hash.as_ref())
}

} // verus!
