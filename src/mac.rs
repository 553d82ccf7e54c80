//! The keyed hashes, computed by the `hmac`, `sha1` and `sha2` crates.

use crypto_common::InvalidLength;
use hmac::{Hmac, Mac};
use sha1::Sha1;
use sha2::{Sha256, Sha512};
use vstd::prelude::*;

verus! {

/// The error of crypto-common that hmac's key constructor declares.
#[verifier::external_type_specification]
#[verifier::external_body]
pub struct ExInvalidLength(InvalidLength);

/// HMAC-SHA1 of a message under a key.
pub uninterp spec fn hmac_sha1_of(key: Seq<u8>, msg: Seq<u8>) -> Seq<u8>;

/// HMAC-SHA256 of a message under a key.
pub uninterp spec fn hmac_sha256_of(key: Seq<u8>, msg: Seq<u8>) -> Seq<u8>;

/// HMAC-SHA512 of a message under a key.
pub uninterp spec fn hmac_sha512_of(key: Seq<u8>, msg: Seq<u8>) -> Seq<u8>;

/// Relies on hmac's `Hmac::<Sha1>::new_from_slice`, whose core constructor
/// returns `Ok` for a key of any length (a long key is hashed, a short one
/// padded to the block), then `update` and `finalize`: the 20-byte SHA-1 tag,
/// which depends on key and message alone.
#[verifier::external_body]
pub(crate) fn hmac_sha1(key: &[u8], msg: &[u8]) -> (r: Result<Vec<u8>, InvalidLength>)
    ensures
        r is Ok,
        r matches Ok(d) ==> d@ == hmac_sha1_of(key@, msg@) && d@.len() == 20,
{
    let mut mac = <Hmac<Sha1> as Mac>::new_from_slice(key)?;
    mac.update(msg);
    Ok(mac.finalize().into_bytes().to_vec())
}

/// Relies on hmac's `Hmac::<Sha256>::new_from_slice`, which returns `Ok` for a
/// key of any length, then `update` and `finalize`: the 32-byte SHA-256 tag,
/// which depends on key and message alone.
#[verifier::external_body]
pub(crate) fn hmac_sha256(key: &[u8], msg: &[u8]) -> (r: Result<Vec<u8>, InvalidLength>)
    ensures
        r is Ok,
        r matches Ok(d) ==> d@ == hmac_sha256_of(key@, msg@) && d@.len() == 32,
{
    let mut mac = <Hmac<Sha256> as Mac>::new_from_slice(key)?;
    mac.update(msg);
    Ok(mac.finalize().into_bytes().to_vec())
}

/// Relies on hmac's `Hmac::<Sha512>::new_from_slice`, which returns `Ok` for a
/// key of any length, then `update` and `finalize`: the 64-byte SHA-512 tag,
/// which depends on key and message alone.
#[verifier::external_body]
pub(crate) fn hmac_sha512(key: &[u8], msg: &[u8]) -> (r: Result<Vec<u8>, InvalidLength>)
    ensures
        r is Ok,
        r matches Ok(d) ==> d@ == hmac_sha512_of(key@, msg@) && d@.len() == 64,
{
    let mut mac = <Hmac<Sha512> as Mac>::new_from_slice(key)?;
    mac.update(msg);
    Ok(mac.finalize().into_bytes().to_vec())
}

} // verus!
