//! MD5-crypt: the `$1$` scheme.
use crate::encode::{encode_groups, encode_perm, to64, to64_spec};
use crate::error::CryptError;
use crate::hash::{append_bytes, append_stretch, digest_of, md5_of, stretch, Algorithm};
use crate::kdf::{iterate, run_rounds};
use crate::setting::{as_text, has_prefix, into_text, read_salt, salt_of, starts_with, text_matches};
use vstd::prelude::*;

verus! {

/// The longest key that MD5-crypt accepts.
pub const MD5_KEY_MAX: usize = 30000;

/// The longest salt that MD5-crypt uses.
pub const MD5_SALT_MAX: usize = 8;

/// The fixed number of rounds of MD5-crypt.
pub const MD5_ROUNDS: u64 = 1000;

/// The prefix `$1$`.
pub open spec fn md5_prefix() -> Seq<u8> {
    seq![36u8, 49u8, 36u8]
}

/// The single bytes fed for the bits of `i`, lowest first: a zero byte for a
/// one bit, the key's first byte for a zero bit.
pub open spec fn md5_bits(key: Seq<u8>, i: nat) -> Seq<u8>
    decreases i,
{
    if i == 0 {
        Seq::empty()
    } else {
        seq![if i % 2 == 1 { 0u8 } else { key[0] }] + md5_bits(key, i / 2)
    }
}

/// The digest before the rounds.
pub open spec fn md5_initial(key: Seq<u8>, salt: Seq<u8>) -> Seq<u8> {
    let b = md5_of(key + salt + key);
    md5_of(key + md5_prefix() + salt + stretch(b, key.len()) + md5_bits(key, key.len()))
}

/// The digest after the rounds.
pub open spec fn md5_final(key: Seq<u8>, salt: Seq<u8>) -> Seq<u8> {
    iterate(Algorithm::Md5, md5_initial(key, salt), key, salt, MD5_ROUNDS as nat)
}

/// The order in which the digest bytes are encoded, three per group.
pub open spec fn md5_perm() -> Seq<usize> {
    seq![0usize, 6, 12, 1, 7, 13, 2, 8, 14, 3, 9, 15, 4, 10, 5]
}

/// The text of an MD5-crypt digest: 22 characters.
pub open spec fn md5_encoded(md: Seq<u8>) -> Seq<u8> {
    encode_groups(md, md5_perm(), 5) + to64_spec(md[11] as nat, 2)
}

/// The encoded digest of `key` under `salt`.
#[verifier::opaque]
pub open spec fn md5_crypt_digest(key: Seq<u8>, salt: Seq<u8>) -> Seq<u8> {
    md5_encoded(md5_final(key, salt))
}

/// The hash string that MD5-crypt derives, or why it derives none.
#[verifier::opaque]
pub open spec fn md5_crypt_spec(key: Seq<u8>, setting: Seq<u8>) -> Result<Seq<u8>, CryptError> {
    if key.len() > MD5_KEY_MAX {
        Err(CryptError::KeyTooLong)
    } else if !has_prefix(setting, md5_prefix()) {
        Err(CryptError::UnknownOrUnsupportedScheme)
    } else {
        match salt_of(setting.skip(3), MD5_SALT_MAX as nat) {
            Err(e) => Err(e),
            Ok(salt) => as_text(md5_prefix() + salt + seq![36u8] + md5_crypt_digest(key, salt)),
        }
    }
}

fn md5_perm_table() -> (r: Vec<usize>)
    ensures
        r@ == md5_perm(),
{
    let r: Vec<usize> = vec![0, 6, 12, 1, 7, 13, 2, 8, 14, 3, 9, 15, 4, 10, 5];
    proof {
        assert(r@ =~= md5_perm());
    }
    r
}

/// The encoded MD5-crypt digest of `key` under an already checked `salt`.
pub fn md5_crypt_clean(key: &[u8], salt: &[u8]) -> (r: Vec<u8>)
    ensures
        r@ == md5_crypt_digest(key@, salt@),
{
    reveal(md5_crypt_digest);
    let mut first: Vec<u8> = Vec::new();
    append_bytes(&mut first, key);
    append_bytes(&mut first, salt);
    append_bytes(&mut first, key);
    let b = digest_of(Algorithm::Md5, first.as_slice());

    let mut input: Vec<u8> = Vec::new();
    append_bytes(&mut input, key);
    input.push(36u8);
    input.push(49u8);
    input.push(36u8);
    append_bytes(&mut input, salt);
    append_stretch(&mut input, b.as_slice(), key.len());
    let ghost base = input@;
    let mut i: usize = key.len();
    while i != 0
        invariant
            input@ + md5_bits(key@, i as nat) == base + md5_bits(key@, key@.len()),
            i <= key@.len(),
            i > 0 ==> key@.len() > 0,
        decreases i,
    {
        let c: u8 = if i % 2 == 1 {
            0
        } else {
            key[0]
        };
        proof {
            assert(input@.push(c) + md5_bits(key@, (i / 2) as nat) =~= input@ + md5_bits(
                key@,
                i as nat,
            ));
        }
        input.push(c);
        i = i / 2;
    }
    proof {
        assert(input@ =~= input@ + md5_bits(key@, i as nat));
        assert(input@ =~= key@ + md5_prefix() + salt@ + stretch(b@, key@.len()) + md5_bits(
            key@,
            key@.len(),
        ));
    }
    let md = digest_of(Algorithm::Md5, input.as_slice());
    let md = run_rounds(Algorithm::Md5, md, key, salt, MD5_ROUNDS);
    let mut out = encode_perm(&md, &md5_perm_table());
    let tail = to64(md[11] as u32, 2);
    append_bytes(&mut out, tail.as_slice());
    out
}

/// Derives the MD5-crypt hash of `key` under `setting` (`$1$salt[$...]`).
pub fn md5_crypt(key: &[u8], setting: &[u8]) -> (r: Result<String, CryptError>)
    ensures
        text_matches(r, md5_crypt_spec(key@, setting@)),
{
    reveal(md5_crypt_spec);
    if key.len() > MD5_KEY_MAX {
        return Err(CryptError::KeyTooLong);
    }
    let prefix: [u8; 3] = [36u8, 49u8, 36u8];
    proof {
        assert(prefix@ =~= md5_prefix());
    }
    if !starts_with(setting, prefix.as_slice()) {
        return Err(CryptError::UnknownOrUnsupportedScheme);
    }
    proof {
        assert(setting@.subrange(3, setting@.len() as int) =~= setting@.skip(3));
    }
    let salt = match read_salt(setting, 3, MD5_SALT_MAX) {
        Ok(s) => s,
        Err(e) => return Err(e),
    };
    let digest = md5_crypt_clean(key, salt.as_slice());
    let mut out: Vec<u8> = Vec::new();
    append_bytes(&mut out, prefix.as_slice());
    append_bytes(&mut out, salt.as_slice());
    out.push(36u8);
    append_bytes(&mut out, digest.as_slice());
    proof {
        assert(out@ =~= md5_prefix() + salt@ + seq![36u8] + md5_crypt_digest(key@, salt@));
    }
    into_text(out)
}

} // verus!
