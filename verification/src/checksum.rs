//! Content checksums: an MD5 digest of a byte buffer, and its hexadecimal
//! rendering. Reading the hashed file is the caller's business.

use vstd::prelude::*;
use crate::numtext::hex_of;
use crate::numtext::bytes_to_hex;

verus! {

/// The MD5 digest (sixteen bytes) of a byte sequence.
pub uninterp spec fn md5_of(b: Seq<u8>) -> Seq<u8>;

/// Relies on `md5::compute`: the digest is sixteen bytes and depends on the
/// hashed contents alone.
#[verifier::external_body]
pub fn generate_md5sum(data: &Vec<u8>) -> (r: Vec<u8>)
    ensures
        r@ == md5_of(data@),
        r@.len() == 16,
{
    md5::compute(data.as_slice()).0.to_vec()
}

/// Renders a digest as lowercase hexadecimal, two digits per byte.
pub fn digest_to_hex(digest: &Vec<u8>) -> (r: String)
    ensures
        r@ == hex_of(digest@),
{
    bytes_to_hex(digest.as_slice())
}

/// The hexadecimal MD5 digest of a byte buffer.
pub fn md5sum_hex(data: &Vec<u8>) -> (r: String)
    ensures
        r@ == hex_of(md5_of(data@)),
{
    let digest = generate_md5sum(data);
    digest_to_hex(&digest)
}

/// Checksum stability: the digest is a function of the hashed bytes alone, so
/// equal contents yield equal digests, wherever the bytes were read from.
pub proof fn lemma_checksum_stable(a: Seq<u8>, b: Seq<u8>)
    requires
        a == b,
    ensures
        md5_of(a) == md5_of(b),
{
}

} // verus!
