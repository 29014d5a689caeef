//! SHA-256 digests and their hexadecimal text.

use sha2::Digest;
use vstd::prelude::*;
use crate::text;

verus! {

/// The hasher of the `sha2` crate.
#[verifier::external_type_specification]
#[verifier::external_body]
pub struct ExSha256(sha2::Sha256);

/// The SHA-256 digest of `data`, as `sha2` computes it.
pub uninterp spec fn sha256_of(data: Seq<u8>) -> Seq<u8>;

/// The bytes that a hasher has taken in so far.
pub uninterp spec fn hashed(h: sha2::Sha256) -> Seq<u8>;

/// Two hexadecimal digits for each byte, the high half first, in lower case.
pub open spec fn hex_text(data: Seq<u8>) -> Seq<char> {
    Seq::new(
        2 * data.len(),
        |i: int|
            if i % 2 == 0 {
                text::hex_digit(data[i / 2] as int / 16)
            } else {
                text::hex_digit(data[i / 2] as int % 16)
            },
    )
}

/// Calls `sha2::Sha256::digest`: the digest of `data`, of 32 bytes.
#[verifier::external_body]
pub(crate) fn sha256(data: &[u8]) -> (r: Vec<u8>)
    ensures
        r@ == sha256_of(data@),
        r@.len() == 32,
{
    sha2::Sha256::digest(data).to_vec()
}

/// Calls `sha2::Sha256::new`: a hasher that has taken in nothing.
#[verifier::external_body]
pub(crate) fn hasher() -> (r: sha2::Sha256)
    ensures
        hashed(r) == Seq::<u8>::empty(),
{
    sha2::Sha256::new()
}

/// Calls `sha2::Digest::update`: the hasher takes in `data` after what it had.
#[verifier::external_body]
pub(crate) fn hash_more(h: &mut sha2::Sha256, data: &[u8])
    ensures
        hashed(*final(h)) == hashed(*old(h)) + data@,
{
    h.update(data);
}

/// Calls `sha2::Digest::finalize`: the digest of all that the hasher took in.
#[verifier::external_body]
pub(crate) fn hash_finish(h: sha2::Sha256) -> (r: Vec<u8>)
    ensures
        r@ == sha256_of(hashed(h)),
        r@.len() == 32,
{
    h.finalize().to_vec()
}

/// Calls `hex::encode`: the lower-case hexadecimal text of `data`.
#[verifier::external_body]
pub(crate) fn hex_encode(data: &Vec<u8>) -> (r: String)
    ensures
        r@ == hex_text(data@),
{
    hex::encode(data)
}

/// The text of a digest has two hexadecimal digits for every byte, in their order:
/// the high half first.
pub proof fn every_byte_has_two_digits(data: Seq<u8>, i: int)
    requires
        0 <= i < data.len(),
    ensures
        hex_text(data).len() == 2 * data.len(),
        data[i] / 16 < 10 ==> hex_text(data)[2 * i] as int == 48 + data[i] / 16,
        data[i] / 16 >= 10 ==> hex_text(data)[2 * i] as int == 87 + data[i] / 16,
        data[i] % 16 < 10 ==> hex_text(data)[2 * i + 1] as int == 48 + data[i] % 16,
        data[i] % 16 >= 10 ==> hex_text(data)[2 * i + 1] as int == 87 + data[i] % 16,
{
    assert((2 * i) / 2 == i && (2 * i) % 2 == 0);
    assert((2 * i + 1) / 2 == i && (2 * i + 1) % 2 == 1);
}

} // verus!
