//! Trusted digests: the MD5 digest behind offline identity derivation and
//! the HMAC-SHA256 tag behind proxy-forwarding verification.  Each digest is
//! a pure function of its input, named by an uninterpreted spec function;
//! only its length is stated beyond that.

use vstd::prelude::*;

verus! {

/// The 16-byte MD5 digest of `data`: a function of the bytes alone.
pub uninterp spec fn md5_of(data: Seq<u8>) -> Seq<u8>;

/// Relies on `md5::compute`: a 16-byte digest determined by the input
/// alone.
#[verifier::external_body]
pub(crate) fn md5_digest(data: &[u8]) -> (r: Vec<u8>)
    ensures
        r@ == md5_of(data@),
        r@.len() == 16,
{
    md5::compute(data).0.to_vec()
}

/// The 32-byte HMAC-SHA256 tag of `msg` under `key`: a function of key and
/// message alone.
pub uninterp spec fn hmac_sha256_of(key: Seq<u8>, msg: Seq<u8>) -> Seq<u8>;

/// Relies on hmac's `Hmac<Sha256>`: a 32-byte tag determined by key and
/// message alone; a key of any length is accepted.
#[verifier::external_body]
pub(crate) fn hmac_sha256(key: &[u8], msg: &[u8]) -> (r: Vec<u8>)
    ensures
        r@ == hmac_sha256_of(key@, msg@),
        r@.len() == 32,
{
    let mut mac = <hmac::Hmac<sha2::Sha256> as hmac::Mac>::new_from_slice(key).unwrap();
    hmac::Mac::update(&mut mac, msg);
    hmac::Mac::finalize(mac).into_bytes().to_vec()
}

} // verus!
