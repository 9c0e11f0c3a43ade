//! The dispatcher: routes a setting to its scheme by prefix.
use crate::error::CryptError;
use crate::hash::Algorithm;
use crate::md5_crypt::{md5_crypt, md5_crypt_spec, md5_prefix};
use crate::setting::{has_prefix, starts_with, text_matches};
use crate::sha_crypt::{sha_crypt, sha_crypt_spec, sha_prefix};
use vstd::prelude::*;

verus! {

/// The prefix `$2$` of bcrypt, which is recognised only to be refused.
pub open spec fn bcrypt_prefix() -> Seq<u8> {
    seq![36u8, 50u8, 36u8]
}

/// The hash string derived from `key` under `setting`, or why none is.
#[verifier::opaque]
pub open spec fn crypt_spec(key: Seq<u8>, setting: Seq<u8>) -> Result<Seq<u8>, CryptError> {
    if has_prefix(setting, md5_prefix()) {
        md5_crypt_spec(key, setting)
    } else if has_prefix(setting, sha_prefix(Algorithm::Sha256)) {
        sha_crypt_spec(Algorithm::Sha256, key, setting)
    } else if has_prefix(setting, sha_prefix(Algorithm::Sha512)) {
        sha_crypt_spec(Algorithm::Sha512, key, setting)
    } else {
        Err(CryptError::UnknownOrUnsupportedScheme)
    }
}

/// bcrypt is not supported: every request is refused.
pub fn bcrypt_crypt(key: &[u8], salt: &[u8]) -> (r: Result<String, CryptError>)
    ensures
        r == Err::<String, CryptError>(CryptError::UnknownOrUnsupportedScheme),
{
    Err(CryptError::UnknownOrUnsupportedScheme)
}

/// Derives the hash string of `key` under `setting`, which is a bare setting
/// or a complete hash string whose digest is ignored.
pub fn crypt(key: &[u8], setting: &[u8]) -> (r: Result<String, CryptError>)
    ensures
        text_matches(r, crypt_spec(key@, setting@)),
{
    reveal(crypt_spec);
    let md5: [u8; 3] = [36u8, 49u8, 36u8];
    let sha256: [u8; 3] = [36u8, 53u8, 36u8];
    let sha512: [u8; 3] = [36u8, 54u8, 36u8];
    let bcrypt: [u8; 3] = [36u8, 50u8, 36u8];
    proof {
        assert(md5@ =~= md5_prefix());
        assert(sha256@ =~= sha_prefix(Algorithm::Sha256));
        assert(sha512@ =~= sha_prefix(Algorithm::Sha512));
    }
    if starts_with(setting, md5.as_slice()) {
        md5_crypt(key, setting)
    } else if starts_with(setting, sha256.as_slice()) {
        sha_crypt(Algorithm::Sha256, key, setting)
    } else if starts_with(setting, sha512.as_slice()) {
        sha_crypt(Algorithm::Sha512, key, setting)
    } else if starts_with(setting, bcrypt.as_slice()) {
        bcrypt_crypt(key, setting)
    } else {
        Err(CryptError::UnknownOrUnsupportedScheme)
    }
}

} // verus!
