use vstd::prelude::*;

use sha2::Digest;

use crate::json::hex_digit;
use crate::span::utf8_of;

verus! {

/// The SHA-256 digest that sha2 computes of a byte string.
pub uninterp spec fn sha256_of(bytes: Seq<u8>) -> Seq<u8>;

/// SHA-256 of a byte string (`sha2::Sha256::digest`).
///
/// The contract claims that the digest is sha2's SHA-256 of the bytes, named
/// by `sha256_of` (a deterministic function of them), and that it is 32 bytes
/// long, the output size of `Sha256`.
#[verifier::external_body]
fn sha256(bytes: &[u8]) -> (digest: Vec<u8>)
    ensures
        digest@ == sha256_of(bytes@),
        digest@.len() == 32,
{
    sha2::Sha256::digest(bytes).to_vec()
}

/// Two lower-case hexadecimal digits per byte, high nibble first.
pub open spec fn hex_text(bytes: Seq<u8>) -> Seq<char>
    decreases bytes.len(),
{
    if bytes.len() == 0 {
        Seq::empty()
    } else {
        hex_text(bytes.drop_last()) + seq![
            hex_digit((bytes.last() / 16) as u32),
            hex_digit((bytes.last() % 16) as u32),
        ]
    }
}

/// Hexadecimal text has two digits per byte.
pub proof fn lemma_hex_text_len(bytes: Seq<u8>)
    ensures
        hex_text(bytes).len() == 2 * bytes.len(),
    decreases bytes.len(),
{
    if bytes.len() > 0 {
        lemma_hex_text_len(bytes.drop_last());
    }
}

/// Lower-case hexadecimal encoding (`hex::encode`).
///
/// The contract claims hex's documented encoding: each byte in order as two
/// lower-case hexadecimal digits, high nibble first.
#[verifier::external_body]
fn hex_encode(bytes: &[u8]) -> (text: String)
    ensures
        text@ == hex_text(bytes@),
{
    hex::encode(bytes)
}

/// Lower-case hexadecimal SHA-256 of a text's UTF-8 bytes.
pub fn sha256_hex(text: &str) -> (digest: String)
    ensures
        digest@ == hex_text(sha256_of(utf8_of(text@))),
        digest@.len() == 64,
{
    let bytes = text.as_bytes();
    let digest = sha256(bytes);
    proof {
        lemma_hex_text_len(digest@);
    }
    hex_encode(digest.as_slice())
}

} // verus!
