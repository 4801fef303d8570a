use vstd::prelude::*;
use sha2::Digest;

verus! {

/// The bytes that base64's standard decoder yields for a text, or `None`
/// where the decoder rejects it.
pub uninterp spec fn b64_decoded(s: Seq<char>) -> Option<Seq<u8>>;

/// The text that base64's standard encoder (with padding) yields for bytes.
pub uninterp spec fn b64_encoded(b: Seq<u8>) -> Seq<char>;

/// The SHA-256 digest of bytes.
pub uninterp spec fn sha256_of(b: Seq<u8>) -> Seq<u8>;

/// A character of the standard base64 alphabet, or its padding.
pub open spec fn is_b64_char(c: char) -> bool {
    ('A' <= c && c <= 'Z') || ('a' <= c && c <= 'z') || ('0' <= c && c <= '9') || c == '+'
        || c == '/' || c == '='
}

/// Relies on `base64::decode` (standard alphabet): it either rejects the
/// text or returns its bytes, as a function of the text alone.
#[verifier::external_body]
pub(crate) fn b64_decode(s: &str) -> (r: Option<Vec<u8>>)
    ensures
        match r {
            Some(v) => b64_decoded(s@) == Some(v@),
            None => b64_decoded(s@) is None,
        },
{
    base64::decode(s).ok()
}

/// Relies on `base64::encode` (standard alphabet, padded): four alphabet
/// characters for each started group of three bytes, and `base64::decode`
/// gives the bytes back.
#[verifier::external_body]
pub(crate) fn b64_encode(b: &[u8]) -> (r: String)
    ensures
        r@ == b64_encoded(b@),
        r@.len() == 4 * ((b@.len() + 2) / 3),
        forall|i: int| 0 <= i < r@.len() ==> is_b64_char(#[trigger] r@[i]),
        b64_decoded(r@) == Some(b@),
{
    base64::encode(b)
}

/// Relies on `sha2::Sha256`: the 32-byte digest of the input.
#[verifier::external_body]
pub(crate) fn sha256(b: &[u8]) -> (r: Vec<u8>)
    ensures
        r@ == sha256_of(b@),
        r@.len() == 32,
{
    sha2::Sha256::digest(b).to_vec()
}

} // verus!
