//! Digests and the text form of topic digests.
use vstd::prelude::*;

verus! {

/// The BLAKE3 digest of a message.
pub uninterp spec fn blake3_digest(message: Seq<u8>) -> [u8; 32];

/// The SHA-512 digest of a message.
pub uninterp spec fn sha512_digest(message: Seq<u8>) -> [u8; 64];

/// The SHA-256 digest of a message.
pub uninterp spec fn sha256_digest(message: Seq<u8>) -> [u8; 32];

/// The `n`-th group of five bits of some bytes, which zeros follow.
pub open spec fn quintet(bytes: Seq<u8>, n: int) -> int {
    let at = 5 * n / 8;
    let next = if at + 1 < bytes.len() {
        bytes[at + 1]
    } else {
        0
    };
    (256 * bytes[at] + next) / vstd::arithmetic::power2::pow2((11 - 5 * n % 8) as nat) as int % 32
}

/// The z-base-32 text of some bytes: a character for each group of five bits.
pub open spec fn z32_text(bytes: Seq<u8>) -> Seq<char> {
    Seq::new(
        ((8 * bytes.len() + 4) / 5) as nat,
        |n: int| "ybndrfg8ejkmcpqxot1uwisza345h769"@[quintet(bytes, n)],
    )
}

/// Feeds two parts to blake3's `Hasher` and takes `finalize`: the digest of the parts
/// put together.
#[verifier::external_body]
pub(crate) fn blake3_of(first: &[u8], second: &[u8]) -> (r: [u8; 32])
    ensures
        r == blake3_digest(first@ + second@),
{
    let mut hasher = blake3::Hasher::new();
    hasher.update(first);
    hasher.update(second);
    *hasher.finalize().as_bytes()
}

/// Calls `Sha512::digest` of sha2.
#[verifier::external_body]
pub(crate) fn sha512_of(message: &[u8]) -> (r: [u8; 64])
    ensures
        r == sha512_digest(message@),
{
    <sha2::Sha512 as sha2::Digest>::digest(message).into()
}

/// Calls `Sha256::digest` of sha2.
#[verifier::external_body]
pub(crate) fn sha256_of(message: &[u8]) -> (r: [u8; 32])
    ensures
        r == sha256_digest(message@),
{
    <sha2::Sha256 as sha2::Digest>::digest(message).into()
}

/// Calls `z32::encode`, which writes a character for each group of five bits.
#[verifier::external_body]
pub(crate) fn z32_of(bytes: &[u8]) -> (r: String)
    ensures
        r@ == z32_text(bytes@),
{
    z32::encode(bytes)
}

} // verus!
