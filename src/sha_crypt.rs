//! SHA-256-crypt (`$5$`) and SHA-512-crypt (`$6$`).
use crate::encode::{encode_groups, encode_perm, to64, to64_spec};
use crate::error::CryptError;
use crate::hash::{
    append_bytes, append_repeat, append_stretch, digest_of, hash_of, repeat, stretch,
    Algorithm,
};
use crate::kdf::{iterate, run_rounds};
use crate::rounds::{
    decimal, lemma_decimal, parse_rounds, push_decimal, rounds_of, rounds_tag, ROUNDS_DEFAULT,
    ROUNDS_MAX, ROUNDS_MIN,
};
use crate::setting::{
    all_safe, as_text, field_end, field_len, first_field, has_prefix, into_text,
    lemma_first_field_joined, lemma_salt_of_joined, read_salt, salt_of, starts_with, text_matches,
    truncate,
};
use vstd::prelude::*;

verus! {

/// The longest key that the SHA-based schemes accept.
pub const SHA_KEY_MAX: usize = 256;

/// The longest salt that the SHA-based schemes use.
pub const SHA_SALT_MAX: usize = 16;

/// The two SHA-based digests.
pub open spec fn is_sha(alg: Algorithm) -> bool {
    alg is Sha256 || alg is Sha512
}

/// The scheme prefix: `$5$` for SHA-256, `$6$` for SHA-512.
pub open spec fn sha_prefix(alg: Algorithm) -> Seq<u8> {
    if alg is Sha256 {
        seq![36u8, 53u8, 36u8]
    } else {
        seq![36u8, 54u8, 36u8]
    }
}

/// Digests or keys, one per bit of `i`, lowest bit first: `b` for a one bit,
/// `key` for a zero bit.
pub open spec fn sha_bits(b: Seq<u8>, key: Seq<u8>, i: nat) -> Seq<u8>
    decreases i,
{
    if i == 0 {
        Seq::empty()
    } else {
        (if i % 2 == 1 {
            b
        } else {
            key
        }) + sha_bits(b, key, i / 2)
    }
}

/// The digest before the rounds.
pub open spec fn sha_initial(alg: Algorithm, key: Seq<u8>, salt: Seq<u8>) -> Seq<u8> {
    let b = hash_of(alg, key + salt + key);
    hash_of(alg, key + salt + stretch(b, key.len()) + sha_bits(b, key, key.len()))
}

/// The key material of the rounds: the digest of the key written as many
/// times as it is long, stretched to the key's length.
pub open spec fn sha_p(alg: Algorithm, key: Seq<u8>) -> Seq<u8> {
    stretch(hash_of(alg, repeat(key, key.len())), key.len())
}

/// The salt material of the rounds: the digest of the salt written
/// `16 + md[0]` times, cut to the salt's length.
pub open spec fn sha_s(alg: Algorithm, key: Seq<u8>, salt: Seq<u8>) -> Seq<u8> {
    let a = sha_initial(alg, key, salt);
    hash_of(alg, repeat(salt, (16 + a[0]) as nat)).take(salt.len() as int)
}

/// The digest after `rounds` rounds.
pub open spec fn sha_final(alg: Algorithm, key: Seq<u8>, salt: Seq<u8>, rounds: nat) -> Seq<u8> {
    iterate(alg, sha_initial(alg, key, salt), sha_p(alg, key), sha_s(alg, key, salt), rounds)
}

/// The order in which SHA-256 digest bytes are encoded, three per group.
pub open spec fn sha256_perm() -> Seq<usize> {
    seq![
        0usize, 10, 20, 21, 1, 11, 12, 22, 2, 3, 13, 23, 24, 4, 14,
        15, 25, 5, 6, 16, 26, 27, 7, 17, 18, 28, 8, 9, 19, 29,
    ]
}

/// The order in which SHA-512 digest bytes are encoded, three per group.
pub open spec fn sha512_perm() -> Seq<usize> {
    seq![
        0usize, 21, 42, 22, 43, 1, 44, 2, 23, 3, 24, 45, 25, 46, 4,
        47, 5, 26, 6, 27, 48, 28, 49, 7, 50, 8, 29, 9, 30, 51,
        31, 52, 10, 53, 11, 32, 12, 33, 54, 34, 55, 13, 56, 14, 35,
        15, 36, 57, 37, 58, 16, 59, 17, 38, 18, 39, 60, 40, 61, 19,
        62, 20, 41,
    ]
}

/// The text of a digest: 43 characters for SHA-256, 86 for SHA-512.
pub open spec fn sha_encoded(alg: Algorithm, md: Seq<u8>) -> Seq<u8> {
    if alg is Sha256 {
        encode_groups(md, sha256_perm(), 10) + to64_spec(md[31] as nat * 256 + md[30] as nat, 3)
    } else {
        encode_groups(md, sha512_perm(), 21) + to64_spec(md[63] as nat, 2)
    }
}

/// The encoded digest of `key` under `salt` and `rounds`.
#[verifier::opaque]
pub open spec fn sha_crypt_digest(alg: Algorithm, key: Seq<u8>, salt: Seq<u8>, rounds: nat) -> Seq<
    u8,
> {
    sha_encoded(alg, sha_final(alg, key, salt, rounds))
}

/// What a setting holds after its prefix: whether it had a rounds clause, the
/// resolved rounds, and the salt; or why it is refused.
pub open spec fn sha_params(rest: Seq<u8>) -> Result<(bool, u64, Seq<u8>), CryptError> {
    let f = first_field(rest);
    if has_prefix(f, rounds_tag()) {
        match rounds_of(f.skip(7)) {
            Err(e) => Err(e),
            Ok(r) => if field_len(rest) == rest.len() {
                Err(CryptError::MissingSalt)
            } else {
                match salt_of(rest.skip(field_len(rest) as int + 1), SHA_SALT_MAX as nat) {
                    Err(e) => Err(e),
                    Ok(salt) => Ok((true, r, salt)),
                }
            },
        }
    } else {
        match salt_of(rest, SHA_SALT_MAX as nat) {
            Err(e) => Err(e),
            Ok(salt) => Ok((false, ROUNDS_DEFAULT, salt)),
        }
    }
}

/// The canonical setting: prefix, the rounds clause if the input had one,
/// and the salt.
pub open spec fn sha_canonical(alg: Algorithm, has_rounds: bool, rounds: u64, salt: Seq<u8>) -> Seq<u8> {
    sha_prefix(alg) + (if has_rounds {
        rounds_tag() + decimal(rounds as nat) + seq![36u8]
    } else {
        Seq::empty()
    }) + salt
}

/// The hash string that the scheme of `alg` derives, or why it derives none.
#[verifier::opaque]
pub open spec fn sha_crypt_spec(alg: Algorithm, key: Seq<u8>, setting: Seq<u8>) -> Result<
    Seq<u8>,
    CryptError,
> {
    if key.len() > SHA_KEY_MAX {
        Err(CryptError::KeyTooLong)
    } else if !has_prefix(setting, sha_prefix(alg)) {
        Err(CryptError::UnknownOrUnsupportedScheme)
    } else {
        match sha_params(setting.skip(3)) {
            Err(e) => Err(e),
            Ok((has_rounds, rounds, salt)) => as_text(
                sha_canonical(alg, has_rounds, rounds, salt) + seq![36u8] + sha_crypt_digest(
                    alg,
                    key,
                    salt,
                    rounds as nat,
                ),
            ),
        }
    }
}

fn perm_table(alg: Algorithm) -> (r: Vec<usize>)
    requires
        is_sha(alg),
    ensures
        alg is Sha256 ==> r@ == sha256_perm(),
        alg is Sha512 ==> r@ == sha512_perm(),
{
    if let Algorithm::Sha256 = alg {
        let r: Vec<usize> = vec![
            0, 10, 20, 21, 1, 11, 12, 22, 2, 3, 13, 23, 24, 4, 14,
            15, 25, 5, 6, 16, 26, 27, 7, 17, 18, 28, 8, 9, 19, 29,
        ];
        proof {
            assert(r@ =~= sha256_perm());
        }
        r
    } else {
        let r: Vec<usize> = vec![
            0, 21, 42, 22, 43, 1, 44, 2, 23, 3, 24, 45, 25, 46, 4,
            47, 5, 26, 6, 27, 48, 28, 49, 7, 50, 8, 29, 9, 30, 51,
            31, 52, 10, 53, 11, 32, 12, 33, 54, 34, 55, 13, 56, 14, 35,
            15, 36, 57, 37, 58, 16, 59, 17, 38, 18, 39, 60, 40, 61, 19,
            62, 20, 41,
        ];
        proof {
            assert(r@ =~= sha512_perm());
        }
        r
    }
}

/// The encoded digest of `key` under an already checked `salt` and resolved
/// `rounds`, for SHA-256 or SHA-512.
pub fn sha_crypt_clean(alg: Algorithm, key: &[u8], salt: &[u8], rounds: u64) -> (r: Vec<u8>)
    requires
        is_sha(alg),
        salt@.len() <= SHA_SALT_MAX,
    ensures
        r@ == sha_crypt_digest(alg, key@, salt@, rounds as nat),
{
    reveal(sha_crypt_digest);
    let klen = key.len();
    let mut first: Vec<u8> = Vec::new();
    append_bytes(&mut first, key);
    append_bytes(&mut first, salt);
    append_bytes(&mut first, key);
    let b = digest_of(alg, first.as_slice());

    let mut input: Vec<u8> = Vec::new();
    append_bytes(&mut input, key);
    append_bytes(&mut input, salt);
    append_stretch(&mut input, b.as_slice(), klen);
    let ghost base = input@;
    let mut i: usize = klen;
    while i > 0
        invariant
            input@ + sha_bits(b@, key@, i as nat) == base + sha_bits(b@, key@, key@.len()),
        decreases i,
    {
        let ghost before = input@;
        if i % 2 == 1 {
            append_bytes(&mut input, b.as_slice());
        } else {
            append_bytes(&mut input, key);
        }
        proof {
            assert(input@ + sha_bits(b@, key@, (i / 2) as nat) =~= before + sha_bits(
                b@,
                key@,
                i as nat,
            ));
        }
        i = i / 2;
    }
    proof {
        assert(input@ =~= input@ + sha_bits(b@, key@, i as nat));
        assert(input@ =~= key@ + salt@ + stretch(b@, key@.len()) + sha_bits(b@, key@, key@.len()));
    }
    let md = digest_of(alg, input.as_slice());

    let mut dp_input: Vec<u8> = Vec::new();
    append_repeat(&mut dp_input, key, klen);
    proof {
        assert(dp_input@ =~= repeat(key@, key@.len()));
    }
    let dp = digest_of(alg, dp_input.as_slice());
    let mut p: Vec<u8> = Vec::new();
    append_stretch(&mut p, dp.as_slice(), klen);

    let mut ds_input: Vec<u8> = Vec::new();
    append_repeat(&mut ds_input, salt, 16 + md[0] as usize);
    proof {
        assert(ds_input@ =~= repeat(salt@, (16 + md@[0]) as nat));
    }
    let ds = digest_of(alg, ds_input.as_slice());
    let mut sv: Vec<u8> = Vec::new();
    append_bytes(&mut sv, &ds.as_slice()[0..salt.len()]);
    proof {
        assert(p@ =~= sha_p(alg, key@));
        assert(sv@ =~= sha_s(alg, key@, salt@));
    }

    let md = run_rounds(alg, md, p.as_slice(), sv.as_slice(), rounds);
    let mut out = encode_perm(&md, &perm_table(alg));
    let tail = if let Algorithm::Sha256 = alg {
        to64((md[31] as u32) * 256 + md[30] as u32, 3)
    } else {
        to64(md[63] as u32, 2)
    };
    append_bytes(&mut out, tail.as_slice());
    out
}

/// Derives the hash of `key` under `setting` (`$5$` or `$6$`, then an
/// optional `rounds=N$`, then the salt) for SHA-256 or SHA-512.
pub fn sha_crypt(alg: Algorithm, key: &[u8], setting: &[u8]) -> (r: Result<String, CryptError>)
    requires
        is_sha(alg),
    ensures
        text_matches(r, sha_crypt_spec(alg, key@, setting@)),
{
    reveal(sha_crypt_spec);
    if key.len() > SHA_KEY_MAX {
        return Err(CryptError::KeyTooLong);
    }
    let prefix: [u8; 3] = if let Algorithm::Sha256 = alg {
        [36u8, 53u8, 36u8]
    } else {
        [36u8, 54u8, 36u8]
    };
    proof {
        assert(prefix@ =~= sha_prefix(alg));
    }
    if !starts_with(setting, prefix.as_slice()) {
        return Err(CryptError::UnknownOrUnsupportedScheme);
    }
    let ghost rest = setting@.skip(3);
    proof {
        assert(setting@.subrange(3, setting@.len() as int) =~= rest);
    }
    let f_end = field_end(setting, 3);
    let first = &setting[3..f_end];
    proof {
        assert(first@ =~= first_field(rest));
    }
    let tag: [u8; 7] = [114u8, 111, 117, 110, 100, 115, 61];
    proof {
        assert(tag@ =~= rounds_tag());
    }
    let has_rounds = starts_with(first, tag.as_slice());
    let mut rounds: u64 = ROUNDS_DEFAULT;
    let salt = if has_rounds {
        proof {
            assert(first_field(rest).skip(7) =~= setting@.subrange(10, f_end as int));
        }
        rounds = match parse_rounds(setting, 10, f_end) {
            Ok(r) => r,
            Err(e) => return Err(e),
        };
        if f_end == setting.len() {
            return Err(CryptError::MissingSalt);
        }
        proof {
            assert(rest.skip(field_len(rest) as int + 1) =~= setting@.subrange(
                f_end + 1,
                setting@.len() as int,
            ));
        }
        match read_salt(setting, f_end + 1, SHA_SALT_MAX) {
            Ok(s) => s,
            Err(e) => return Err(e),
        }
    } else {
        match read_salt(setting, 3, SHA_SALT_MAX) {
            Ok(s) => s,
            Err(e) => return Err(e),
        }
    };
    let digest = sha_crypt_clean(alg, key, salt.as_slice(), rounds);
    let mut out: Vec<u8> = Vec::new();
    append_bytes(&mut out, prefix.as_slice());
    if has_rounds {
        append_bytes(&mut out, tag.as_slice());
        push_decimal(&mut out, rounds);
        out.push(36u8);
    }
    append_bytes(&mut out, salt.as_slice());
    out.push(36u8);
    append_bytes(&mut out, digest.as_slice());
    proof {
        assert(out@ =~= sha_canonical(alg, has_rounds, rounds, salt@) + seq![36u8]
            + sha_crypt_digest(alg, key@, salt@, rounds as nat));
    }
    into_text(out)
}

/// Derives the SHA-256-crypt hash of `key` under `setting`
/// (`$5$[rounds=N$]salt[$...]`).
pub fn sha256_crypt(key: &[u8], setting: &[u8]) -> (r: Result<String, CryptError>)
    ensures
        text_matches(r, sha_crypt_spec(Algorithm::Sha256, key@, setting@)),
{
    sha_crypt(Algorithm::Sha256, key, setting)
}

/// Derives the SHA-512-crypt hash of `key` under `setting`
/// (`$6$[rounds=N$]salt[$...]`).
pub fn sha512_crypt(key: &[u8], setting: &[u8]) -> (r: Result<String, CryptError>)
    ensures
        text_matches(r, sha_crypt_spec(Algorithm::Sha512, key@, setting@)),
{
    sha_crypt(Algorithm::Sha512, key, setting)
}

/// What `sha_params` accepts satisfies what a canonical setting needs.
pub proof fn lemma_sha_params_valid(rest: Seq<u8>)
    requires
        sha_params(rest) is Ok,
    ensures
        ({
            let (has_rounds, rounds, salt) = sha_params(rest)->Ok_0;
            &&& 0 < salt.len() <= SHA_SALT_MAX
            &&& all_safe(salt)
            &&& has_rounds ==> ROUNDS_MIN <= rounds <= ROUNDS_MAX
            &&& !has_rounds ==> rounds == ROUNDS_DEFAULT && !has_prefix(salt, rounds_tag())
        }),
{
    let f = first_field(rest);
    if !has_prefix(f, rounds_tag()) {
        let salt = truncate(f, SHA_SALT_MAX as nat);
        if has_prefix(salt, rounds_tag()) {
            assert(salt.take(7) =~= f.take(7));
        }
    }
}

/// A canonical setting, followed by `$` and anything, is read back as the
/// values it was made from.
pub proof fn lemma_sha_params_canonical(
    alg: Algorithm,
    has_rounds: bool,
    rounds: u64,
    salt: Seq<u8>,
    tail: Seq<u8>,
)
    requires
        0 < salt.len() <= SHA_SALT_MAX,
        all_safe(salt),
        has_rounds ==> ROUNDS_MIN <= rounds <= ROUNDS_MAX,
        !has_rounds ==> rounds == ROUNDS_DEFAULT && !has_prefix(salt, rounds_tag()),
    ensures
        sha_params((sha_canonical(alg, has_rounds, rounds, salt) + seq![36u8] + tail).skip(3))
            == Ok::<(bool, u64, Seq<u8>), CryptError>((has_rounds, rounds, salt)),
{
    let rest = (sha_canonical(alg, has_rounds, rounds, salt) + seq![36u8] + tail).skip(3);
    if has_rounds {
        let dec = decimal(rounds as nat);
        lemma_decimal(rounds as nat);
        let a = rounds_tag() + dec;
        let b = salt + seq![36u8] + tail;
        assert(rest =~= a + seq![36u8] + b);
        assert forall|i: int| 0 <= i < a.len() implies #[trigger] a[i] != 36u8 by {
            if i >= 7 {
                assert(a[i] == dec[i - 7]);
            }
        }
        lemma_first_field_joined(a, b);
        assert(a.take(7) =~= rounds_tag());
        assert(a.skip(7) =~= dec);
        assert(rest.skip(a.len() as int + 1) =~= b);
        lemma_salt_of_joined(salt, SHA_SALT_MAX as nat, tail);
    } else {
        assert(rest =~= salt + seq![36u8] + tail);
        lemma_salt_of_joined(salt, SHA_SALT_MAX as nat, tail);
        assert forall|i: int| 0 <= i < salt.len() implies #[trigger] salt[i] != 36u8 by {
            assert(crate::encode::safe_byte(salt[i]));
        }
        lemma_first_field_joined(salt, tail);
    }
}

} // verus!
