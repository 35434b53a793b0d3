//! Identity fingerprints: a presented public credential is named by the hex
//! encoding of its SHA-256 digest.

use vstd::prelude::*;

verus! {

/// The SHA-256 digest of a byte sequence, named but not written out: the
/// digest is a pure function of the input alone.
pub uninterp spec fn sha256_of(bytes: Seq<u8>) -> Seq<u8>;

/// Relies on `sha2::Sha256` (via the `Digest` trait): the SHA-256 digest
/// depends on the input bytes alone and is 32 bytes long.
#[verifier::external_body]
fn sha256_digest(data: &[u8]) -> (r: Vec<u8>)
    ensures
        r@ == sha256_of(data@),
        r@.len() == 32,
{
    let digest = <sha2::Sha256 as sha2::Digest>::digest(data);
    digest.to_vec()
}

/// Lowercase hex digit for a nibble.
pub open spec fn hex_digit(d: u8) -> char {
    if d < 10 {
        ((48 + d) as char)
    } else {
        ((87 + d) as char)
    }
}

/// Lowercase hex encoding, two digits per byte, high nibble first.
pub open spec fn hex_seq(bytes: Seq<u8>) -> Seq<char>
    decreases bytes.len(),
{
    if bytes.len() == 0 {
        Seq::empty()
    } else {
        seq![hex_digit(bytes.first() / 16), hex_digit(bytes.first() % 16)] + hex_seq(
            bytes.drop_first(),
        )
    }
}

/// Relies on `hex::encode`: lowercase hex, two digits per byte, high nibble
/// first.
#[verifier::external_body]
fn hex_encode(data: &[u8]) -> (r: String)
    ensures
        r@ == hex_seq(data@),
{
    hex::encode(data)
}

/// The stable identity derived from a presented public credential.
pub fn fingerprint_of_key(key_bytes: &[u8]) -> (r: String)
    ensures
        r@ == "key_"@ + hex_seq(sha256_of(key_bytes@)),
{
    let digest = sha256_digest(key_bytes);
    let hexed = hex_encode(digest.as_slice());
    let mut r = String::from_str("key_");
    r.append(hexed.as_str());
    r
}

} // verus!
