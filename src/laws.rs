//! Properties of `crypt` over all inputs.
use crate::crypt::crypt_spec;
use crate::encode::{lemma_groups_alphabet, lemma_to64_alphabet, safe_byte};
use crate::error::CryptError;
use crate::hash::Algorithm;
use crate::md5_crypt::{
    md5_crypt_digest, md5_crypt_spec, md5_final, md5_perm, md5_prefix, MD5_KEY_MAX,
    MD5_SALT_MAX,
};
use crate::rounds::{
    all_digits, decimal, digits_value, lemma_decimal, rounds_tag, ROUNDS_MAX, ROUNDS_MIN,
};
use crate::setting::{
    all_safe, as_text, field_len, first_field, has_prefix, lemma_salt_of_joined, salt_of,
    text_matches, truncate,
};
use crate::sha_crypt::{
    lemma_sha_params_canonical, lemma_sha_params_valid, sha_canonical, sha_crypt_digest,
    sha256_perm, sha512_perm, sha_crypt_spec, sha_final, sha_params, sha_prefix,
    SHA_KEY_MAX, SHA_SALT_MAX,
};
use vstd::prelude::*;
use vstd::utf8::*;

verus! {

proof fn lemma_same_scheme(a: Seq<u8>, b: Seq<u8>, p: Seq<u8>)
    requires
        a.len() >= 3,
        b.len() >= 3,
        a.take(3) == b.take(3),
        p.len() == 3,
    ensures
        has_prefix(a, p) == has_prefix(b, p),
{
}

proof fn lemma_md5_round_trip(key: Seq<u8>, setting: Seq<u8>)
    requires
        md5_crypt_spec(key, setting) is Ok,
    ensures
        md5_crypt_spec(key, md5_crypt_spec(key, setting)->Ok_0) == md5_crypt_spec(key, setting),
        md5_crypt_spec(key, setting)->Ok_0.take(3) == setting.take(3),
        md5_crypt_spec(key, setting)->Ok_0.len() >= 3,
{
    reveal(md5_crypt_spec);
    let o = md5_crypt_spec(key, setting)->Ok_0;
    let salt = salt_of(setting.skip(3), MD5_SALT_MAX as nat)->Ok_0;
    let d = md5_crypt_digest(key, salt);
    assert(o == md5_prefix() + salt + seq![36u8] + d);
    assert(o.take(3) =~= setting.take(3));
    assert(o.skip(3) =~= salt + seq![36u8] + d);
    lemma_salt_of_joined(salt, MD5_SALT_MAX as nat, d);
}

proof fn lemma_sha_round_trip(alg: Algorithm, key: Seq<u8>, setting: Seq<u8>)
    requires
        alg is Sha256 || alg is Sha512,
        sha_crypt_spec(alg, key, setting) is Ok,
    ensures
        sha_crypt_spec(alg, key, sha_crypt_spec(alg, key, setting)->Ok_0) == sha_crypt_spec(
            alg,
            key,
            setting,
        ),
        sha_crypt_spec(alg, key, setting)->Ok_0.take(3) == setting.take(3),
        sha_crypt_spec(alg, key, setting)->Ok_0.len() >= 3,
{
    reveal(sha_crypt_spec);
    let o = sha_crypt_spec(alg, key, setting)->Ok_0;
    let rest = setting.skip(3);
    lemma_sha_params_valid(rest);
    let (hr, r, salt) = sha_params(rest)->Ok_0;
    let c = sha_canonical(alg, hr, r, salt);
    let d = sha_crypt_digest(alg, key, salt, r as nat);
    assert(o == c + seq![36u8] + d);
    assert(o.take(3) =~= setting.take(3));
    lemma_sha_params_canonical(alg, hr, r, salt, d);
}

proof fn lemma_dispatch(setting: Seq<u8>, key: Seq<u8>)
    ensures
        has_prefix(setting, md5_prefix()) ==> crypt_spec(key, setting) == md5_crypt_spec(
            key,
            setting,
        ),
        !has_prefix(setting, md5_prefix()) && has_prefix(setting, sha_prefix(Algorithm::Sha256))
            ==> crypt_spec(key, setting) == sha_crypt_spec(Algorithm::Sha256, key, setting),
        !has_prefix(setting, md5_prefix()) && !has_prefix(setting, sha_prefix(Algorithm::Sha256))
            && has_prefix(setting, sha_prefix(Algorithm::Sha512)) ==> crypt_spec(key, setting)
            == sha_crypt_spec(Algorithm::Sha512, key, setting),
        !has_prefix(setting, md5_prefix()) && !has_prefix(setting, sha_prefix(Algorithm::Sha256))
            && !has_prefix(setting, sha_prefix(Algorithm::Sha512)) ==> crypt_spec(key, setting)
            is Err,
{
    reveal(crypt_spec);
}

/// Feeding a derived hash string back in as the setting, with the same key,
/// derives that same hash string again.
pub proof fn lemma_round_trip(key: Seq<u8>, setting: Seq<u8>)
    requires
        crypt_spec(key, setting) is Ok,
    ensures
        crypt_spec(key, crypt_spec(key, setting)->Ok_0) == crypt_spec(key, setting),
{
    let o = crypt_spec(key, setting)->Ok_0;
    lemma_dispatch(setting, key);
    if has_prefix(setting, md5_prefix()) {
        lemma_md5_round_trip(key, setting);
        lemma_same_scheme(o, setting, md5_prefix());
        lemma_dispatch(o, key);
    } else if has_prefix(setting, sha_prefix(Algorithm::Sha256)) {
        lemma_sha_round_trip(Algorithm::Sha256, key, setting);
        lemma_same_scheme(o, setting, md5_prefix());
        lemma_same_scheme(o, setting, sha_prefix(Algorithm::Sha256));
        lemma_dispatch(o, key);
    } else {
        assert(has_prefix(setting, sha_prefix(Algorithm::Sha512)));
        lemma_sha_round_trip(Algorithm::Sha512, key, setting);
        lemma_same_scheme(o, setting, md5_prefix());
        lemma_same_scheme(o, setting, sha_prefix(Algorithm::Sha256));
        lemma_same_scheme(o, setting, sha_prefix(Algorithm::Sha512));
        lemma_dispatch(o, key);
    }
}

/// The round trip for the string that `crypt` returns: hashing again under
/// that string's bytes gives the same outcome.
pub proof fn lemma_round_trip_text(key: Seq<u8>, setting: Seq<u8>, s: String)
    requires
        text_matches(Ok(s), crypt_spec(key, setting)),
    ensures
        crypt_spec(key, encode_utf8(s@)) == crypt_spec(key, setting),
{
    reveal(crypt_spec);
    reveal(md5_crypt_spec);
    reveal(sha_crypt_spec);
    let b = crypt_spec(key, setting)->Ok_0;
    assert(as_text(b) is Ok) by {
        if has_prefix(setting, md5_prefix()) {
        } else if has_prefix(setting, sha_prefix(Algorithm::Sha256)) {
        } else {
        }
    }
    decode_utf8_encode_utf8(b);
    lemma_round_trip(key, setting);
}

/// Two results that both meet `crypt`'s contract on the same inputs are the
/// same: the derivation is a function of the key and the setting.
pub proof fn lemma_deterministic(
    key: Seq<u8>,
    setting: Seq<u8>,
    r1: Result<String, CryptError>,
    r2: Result<String, CryptError>,
)
    requires
        text_matches(r1, crypt_spec(key, setting)),
        text_matches(r2, crypt_spec(key, setting)),
    ensures
        r1 is Ok <==> r2 is Ok,
        r1 is Ok ==> r1->Ok_0@ == r2->Ok_0@,
        r1 is Err ==> r1 == r2,
{
}

/// A salt longer than the scheme's maximum is cut to it, both where it is
/// hashed and where it is echoed.
pub proof fn lemma_salt_truncation(key: Seq<u8>, setting: Seq<u8>)
    requires
        crypt_spec(key, setting) is Ok,
    ensures
        has_prefix(setting, md5_prefix()) ==> ({
            let salt = truncate(first_field(setting.skip(3)), MD5_SALT_MAX as nat);
            &&& salt.len() <= MD5_SALT_MAX
            &&& crypt_spec(key, setting)->Ok_0 == md5_prefix() + salt + seq![36u8]
                + md5_crypt_digest(key, salt)
        }),
        forall|alg: Algorithm|
            (alg is Sha256 || alg is Sha512) && #[trigger] has_prefix(setting, sha_prefix(alg))
                ==> ({
                let rest = setting.skip(3);
                let has_rounds = has_prefix(first_field(rest), rounds_tag());
                let field = if has_rounds {
                    first_field(rest.skip(field_len(rest) as int + 1))
                } else {
                    first_field(rest)
                };
                let salt = truncate(field, SHA_SALT_MAX as nat);
                let rounds = sha_params(rest)->Ok_0.1;
                &&& salt.len() <= SHA_SALT_MAX
                &&& sha_params(rest)->Ok_0.2 == salt
                &&& crypt_spec(key, setting)->Ok_0 == sha_canonical(alg, has_rounds, rounds, salt)
                    + seq![36u8] + sha_crypt_digest(alg, key, salt, rounds as nat)
            }),
{
    reveal(crypt_spec);
    reveal(md5_crypt_spec);
    reveal(sha_crypt_spec);
    assert forall|alg: Algorithm|
        (alg is Sha256 || alg is Sha512) && #[trigger] has_prefix(setting, sha_prefix(alg))
            implies ({
            let rest = setting.skip(3);
            let has_rounds = has_prefix(first_field(rest), rounds_tag());
            let field = if has_rounds {
                first_field(rest.skip(field_len(rest) as int + 1))
            } else {
                first_field(rest)
            };
            let salt = truncate(field, SHA_SALT_MAX as nat);
            let rounds = sha_params(rest)->Ok_0.1;
            &&& salt.len() <= SHA_SALT_MAX
            &&& sha_params(rest)->Ok_0.2 == salt
            &&& crypt_spec(key, setting)->Ok_0 == sha_canonical(alg, has_rounds, rounds, salt)
                + seq![36u8] + sha_crypt_digest(alg, key, salt, rounds as nat)
        }) by {
        assert(setting.take(3) == sha_prefix(alg));
        assert(!has_prefix(setting, md5_prefix())) by {
            assert(setting.take(3)[1] != md5_prefix()[1]);
        }
        if alg is Sha512 {
            assert(!has_prefix(setting, sha_prefix(Algorithm::Sha256))) by {
                assert(setting.take(3)[1] != sha_prefix(Algorithm::Sha256)[1]);
            }
        }
    }
}

/// Rounds below the minimum are raised to it in the output; rounds above the
/// maximum are refused, not lowered.
pub proof fn lemma_rounds_clamping(alg: Algorithm, key: Seq<u8>, setting: Seq<u8>)
    requires
        alg is Sha256 || alg is Sha512,
        key.len() <= SHA_KEY_MAX,
        has_prefix(setting, sha_prefix(alg)),
        has_prefix(first_field(setting.skip(3)), rounds_tag()),
        all_digits(first_field(setting.skip(3)).skip(7)),
        first_field(setting.skip(3)).skip(7).len() > 0,
    ensures
        digits_value(first_field(setting.skip(3)).skip(7)) < ROUNDS_MIN && sha_crypt_spec(
            alg,
            key,
            setting,
        ) is Ok ==> sha_params(setting.skip(3))->Ok_0.1 == ROUNDS_MIN && sha_crypt_spec(
            alg,
            key,
            setting,
        )->Ok_0 == sha_canonical(alg, true, ROUNDS_MIN, sha_params(setting.skip(3))->Ok_0.2)
            + seq![36u8] + sha_crypt_digest(
            alg,
            key,
            sha_params(setting.skip(3))->Ok_0.2,
            ROUNDS_MIN as nat,
        ),
        digits_value(first_field(setting.skip(3)).skip(7)) > ROUNDS_MAX ==> sha_crypt_spec(
            alg,
            key,
            setting,
        ) == Err::<Seq<u8>, CryptError>(
            if digits_value(first_field(setting.skip(3)).skip(7)) > u64::MAX {
                CryptError::RoundsOverflow
            } else {
                CryptError::RoundsTooLarge
            },
        ),
{
    reveal(crypt_spec);
    reveal(md5_crypt_spec);
    reveal(sha_crypt_spec);
}

/// A key of the scheme's maximum length is accepted; one byte longer is
/// refused with `KeyTooLong`.
pub proof fn lemma_key_length(key: Seq<u8>, setting: Seq<u8>)
    ensures
        has_prefix(setting, md5_prefix()) ==> (crypt_spec(key, setting) == Err::<
            Seq<u8>,
            CryptError,
        >(CryptError::KeyTooLong) <==> key.len() > MD5_KEY_MAX),
        (has_prefix(setting, sha_prefix(Algorithm::Sha256)) || has_prefix(
            setting,
            sha_prefix(Algorithm::Sha512),
        )) ==> (crypt_spec(key, setting) == Err::<Seq<u8>, CryptError>(CryptError::KeyTooLong)
            <==> key.len() > SHA_KEY_MAX),
{
    reveal(crypt_spec);
    reveal(md5_crypt_spec);
    reveal(sha_crypt_spec);
    if has_prefix(setting, sha_prefix(Algorithm::Sha256)) || has_prefix(
        setting,
        sha_prefix(Algorithm::Sha512),
    ) {
        assert(!has_prefix(setting, md5_prefix())) by {
            assert(setting.take(3)[1] != md5_prefix()[1]);
        }
    }
}

/// A salt holding `$`, `:` or a newline is refused, whatever the key, before
/// anything is hashed.
pub proof fn lemma_unsafe_salt(key: Seq<u8>, setting: Seq<u8>)
    ensures
        has_prefix(setting, md5_prefix()) && key.len() <= MD5_KEY_MAX && ({
            let salt = truncate(first_field(setting.skip(3)), MD5_SALT_MAX as nat);
            salt.len() > 0 && !all_safe(salt)
        }) ==> crypt_spec(key, setting) == Err::<Seq<u8>, CryptError>(
            CryptError::UnsafeSaltCharacter,
        ),
        forall|alg: Algorithm|
            (alg is Sha256 || alg is Sha512) && #[trigger] has_prefix(setting, sha_prefix(alg))
                && key.len() <= SHA_KEY_MAX && sha_params(setting.skip(3)) == Err::<
                (bool, u64, Seq<u8>),
                CryptError,
            >(CryptError::UnsafeSaltCharacter) ==> crypt_spec(key, setting) == Err::<
                Seq<u8>,
                CryptError,
            >(CryptError::UnsafeSaltCharacter),
        forall|alg: Algorithm|
            (alg is Sha256 || alg is Sha512) && #[trigger] has_prefix(setting, sha_prefix(alg))
                && !has_prefix(first_field(setting.skip(3)), rounds_tag()) && ({
                let salt = truncate(first_field(setting.skip(3)), SHA_SALT_MAX as nat);
                salt.len() > 0 && !all_safe(salt)
            }) ==> sha_params(setting.skip(3)) == Err::<(bool, u64, Seq<u8>), CryptError>(
                CryptError::UnsafeSaltCharacter,
            ),
{
    reveal(crypt_spec);
    reveal(md5_crypt_spec);
    reveal(sha_crypt_spec);
    assert forall|alg: Algorithm|
        (alg is Sha256 || alg is Sha512) && #[trigger] has_prefix(setting, sha_prefix(alg))
            && key.len() <= SHA_KEY_MAX && sha_params(setting.skip(3)) == Err::<
            (bool, u64, Seq<u8>),
            CryptError,
        >(CryptError::UnsafeSaltCharacter) implies crypt_spec(key, setting) == Err::<
        Seq<u8>,
        CryptError,
    >(CryptError::UnsafeSaltCharacter) by {
        assert(!has_prefix(setting, md5_prefix())) by {
            assert(setting.take(3)[1] != md5_prefix()[1]);
        }
        if alg is Sha512 {
            assert(!has_prefix(setting, sha_prefix(Algorithm::Sha256))) by {
                assert(setting.take(3)[1] != sha_prefix(Algorithm::Sha256)[1]);
            }
        }
    }
}

/// Exactly the settings that begin with none of `$1$`, `$5$`, `$6$` are
/// refused as an unknown scheme.
pub proof fn lemma_unknown_scheme(key: Seq<u8>, setting: Seq<u8>)
    ensures
        crypt_spec(key, setting) == Err::<Seq<u8>, CryptError>(
            CryptError::UnknownOrUnsupportedScheme,
        ) <==> !(has_prefix(setting, md5_prefix()) || has_prefix(
            setting,
            sha_prefix(Algorithm::Sha256),
        ) || has_prefix(setting, sha_prefix(Algorithm::Sha512))),
{
    reveal(crypt_spec);
    reveal(md5_crypt_spec);
    reveal(sha_crypt_spec);
}

/// No byte of `s` is `:` or a newline.
pub open spec fn fits_in_field(s: Seq<u8>) -> bool {
    forall|i: int| 0 <= i < s.len() ==> #[trigger] s[i] != 58u8 && s[i] != 10u8
}

proof fn lemma_fits_concat(a: Seq<u8>, b: Seq<u8>)
    requires
        fits_in_field(a),
        fits_in_field(b),
    ensures
        fits_in_field(a + b),
{
    assert forall|i: int| 0 <= i < (a + b).len() implies #[trigger] (a + b)[i] != 58u8 && (a
        + b)[i] != 10u8 by {
        if i < a.len() {
            assert((a + b)[i] == a[i]);
        } else {
            assert((a + b)[i] == b[i - a.len()]);
        }
    }
}

proof fn lemma_safe_fits(s: Seq<u8>)
    requires
        all_safe(s),
    ensures
        fits_in_field(s),
{
    assert forall|i: int| 0 <= i < s.len() implies #[trigger] s[i] != 58u8 && s[i] != 10u8 by {
        assert(safe_byte(s[i]));
    }
}

proof fn lemma_md5_digest_fits(key: Seq<u8>, salt: Seq<u8>)
    ensures
        fits_in_field(md5_crypt_digest(key, salt)),
        is_ascii_bytes(md5_crypt_digest(key, salt)),
{
    reveal(md5_crypt_digest);
    let md = md5_final(key, salt);
    lemma_groups_alphabet(md, md5_perm(), 5);
    lemma_to64_alphabet(md[11] as nat, 2);
    lemma_safe_fits(crate::encode::encode_groups(md, md5_perm(), 5));
    lemma_safe_fits(crate::encode::to64_spec(md[11] as nat, 2));
    lemma_fits_concat(
        crate::encode::encode_groups(md, md5_perm(), 5),
        crate::encode::to64_spec(md[11] as nat, 2),
    );
    lemma_ascii_concat(
        crate::encode::encode_groups(md, md5_perm(), 5),
        crate::encode::to64_spec(md[11] as nat, 2),
    );
}

proof fn lemma_sha_digest_fits(alg: Algorithm, key: Seq<u8>, salt: Seq<u8>, rounds: nat)
    ensures
        fits_in_field(sha_crypt_digest(alg, key, salt, rounds)),
        is_ascii_bytes(sha_crypt_digest(alg, key, salt, rounds)),
{
    reveal(sha_crypt_digest);
    let md = sha_final(alg, key, salt, rounds);
    if alg is Sha256 {
        let a = crate::encode::encode_groups(md, sha256_perm(), 10);
        let b = crate::encode::to64_spec(md[31] as nat * 256 + md[30] as nat, 3);
        lemma_groups_alphabet(md, sha256_perm(), 10);
        lemma_to64_alphabet(md[31] as nat * 256 + md[30] as nat, 3);
        lemma_safe_fits(a);
        lemma_safe_fits(b);
        lemma_fits_concat(a, b);
        lemma_ascii_concat(a, b);
    } else {
        let a = crate::encode::encode_groups(md, sha512_perm(), 21);
        let b = crate::encode::to64_spec(md[63] as nat, 2);
        lemma_groups_alphabet(md, sha512_perm(), 21);
        lemma_to64_alphabet(md[63] as nat, 2);
        lemma_safe_fits(a);
        lemma_safe_fits(b);
        lemma_fits_concat(a, b);
        lemma_ascii_concat(a, b);
    }
}

/// A derived hash string holds no `:` and no newline, so it always fits in
/// one field of a colon-separated record.
pub proof fn lemma_hash_fits_in_field(key: Seq<u8>, setting: Seq<u8>)
    requires
        crypt_spec(key, setting) is Ok,
    ensures
        fits_in_field(crypt_spec(key, setting)->Ok_0),
{
    let o = crypt_spec(key, setting)->Ok_0;
    lemma_dispatch(setting, key);
    let dollar = seq![36u8];
    assert(fits_in_field(dollar));
    if has_prefix(setting, md5_prefix()) {
        reveal(md5_crypt_spec);
        let salt = salt_of(setting.skip(3), MD5_SALT_MAX as nat)->Ok_0;
        let d = md5_crypt_digest(key, salt);
        assert(fits_in_field(md5_prefix()));
        lemma_safe_fits(salt);
        lemma_md5_digest_fits(key, salt);
        lemma_fits_concat(md5_prefix(), salt);
        lemma_fits_concat(md5_prefix() + salt, dollar);
        lemma_fits_concat(md5_prefix() + salt + dollar, d);
    } else {
        reveal(sha_crypt_spec);
        let alg = if has_prefix(setting, sha_prefix(Algorithm::Sha256)) {
            Algorithm::Sha256
        } else {
            Algorithm::Sha512
        };
        let rest = setting.skip(3);
        lemma_sha_params_valid(rest);
        let (hr, r, salt) = sha_params(rest)->Ok_0;
        let d = sha_crypt_digest(alg, key, salt, r as nat);
        let p = sha_prefix(alg);
        assert(fits_in_field(p));
        let mid = if hr {
            rounds_tag() + decimal(r as nat) + dollar
        } else {
            Seq::empty()
        };
        if hr {
            lemma_decimal(r as nat);
            assert(fits_in_field(rounds_tag()));
            assert(fits_in_field(decimal(r as nat)));
            lemma_fits_concat(rounds_tag(), decimal(r as nat));
            lemma_fits_concat(rounds_tag() + decimal(r as nat), dollar);
        }
        assert(fits_in_field(mid));
        lemma_safe_fits(salt);
        lemma_sha_digest_fits(alg, key, salt, r as nat);
        lemma_fits_concat(p, mid);
        lemma_fits_concat(p + mid, salt);
        assert(sha_canonical(alg, hr, r, salt) == p + mid + salt);
        lemma_fits_concat(p + mid + salt, dollar);
        lemma_fits_concat(p + mid + salt + dollar, d);
    }
}

/// Every byte of `s` is ASCII.
pub open spec fn is_ascii_bytes(s: Seq<u8>) -> bool {
    forall|i: int| 0 <= i < s.len() ==> #[trigger] s[i] < 128
}

proof fn lemma_ascii_concat(a: Seq<u8>, b: Seq<u8>)
    requires
        is_ascii_bytes(a),
        is_ascii_bytes(b),
    ensures
        is_ascii_bytes(a + b),
{
    assert forall|i: int| 0 <= i < (a + b).len() implies #[trigger] (a + b)[i] < 128 by {
        if i < a.len() {
            assert((a + b)[i] == a[i]);
        } else {
            assert((a + b)[i] == b[i - a.len()]);
        }
    }
}

/// Appending ASCII bytes neither makes nor mends valid UTF-8.
proof fn lemma_ascii_suffix_utf8(c: Seq<u8>, t: Seq<u8>)
    requires
        is_ascii_bytes(t),
        t.len() > 0,
    ensures
        valid_utf8(c + t) <==> valid_utf8(c),
{
    let cs = Seq::new(t.len(), |i: int| t[i] as char);
    assert(is_ascii_chars(cs));
    is_ascii_chars_encode_utf8(cs);
    encode_utf8_valid_utf8(cs);
    assert(encode_utf8(cs) =~= t);
    if valid_utf8(c) {
        valid_utf8_concat(c, t);
    }
    if valid_utf8(c + t) {
        let ct = c + t;
        assert(ct[c.len() as int] == t[0]);
        is_char_boundary_iff_not_is_continuation_byte(ct, c.len() as int);
        valid_utf8_split(ct, c.len() as int);
        assert(ct.subrange(0, c.len() as int) =~= c);
    }
}

proof fn lemma_digest_irrelevant(c: Seq<u8>, d1: Seq<u8>, d2: Seq<u8>)
    requires
        is_ascii_bytes(d1),
        is_ascii_bytes(d2),
    ensures
        as_text(c + seq![36u8] + d1) is Ok <==> as_text(c + seq![36u8] + d2) is Ok,
{
    lemma_ascii_concat(seq![36u8], d1);
    lemma_ascii_concat(seq![36u8], d2);
    assert(c + seq![36u8] + d1 =~= c + (seq![36u8] + d1));
    assert(c + seq![36u8] + d2 =~= c + (seq![36u8] + d2));
    lemma_ascii_suffix_utf8(c, seq![36u8] + d1);
    lemma_ascii_suffix_utf8(c, seq![36u8] + d2);
}

/// Within the scheme's key limit the key has no say in whether a hash is
/// derived: a key of the maximum length succeeds wherever the empty key does.
pub proof fn lemma_key_within_limit(k1: Seq<u8>, k2: Seq<u8>, setting: Seq<u8>)
    requires
        has_prefix(setting, md5_prefix()) ==> k1.len() <= MD5_KEY_MAX && k2.len() <= MD5_KEY_MAX,
        !has_prefix(setting, md5_prefix()) ==> k1.len() <= SHA_KEY_MAX && k2.len() <= SHA_KEY_MAX,
    ensures
        crypt_spec(k1, setting) is Ok <==> crypt_spec(k2, setting) is Ok,
{
    lemma_dispatch(setting, k1);
    lemma_dispatch(setting, k2);
    if has_prefix(setting, md5_prefix()) {
        reveal(md5_crypt_spec);
        if salt_of(setting.skip(3), MD5_SALT_MAX as nat) is Ok {
            let salt = salt_of(setting.skip(3), MD5_SALT_MAX as nat)->Ok_0;
            lemma_md5_digest_fits(k1, salt);
            lemma_md5_digest_fits(k2, salt);
            lemma_digest_irrelevant(
                md5_prefix() + salt,
                md5_crypt_digest(k1, salt),
                md5_crypt_digest(k2, salt),
            );
        }
    } else if has_prefix(setting, sha_prefix(Algorithm::Sha256)) || has_prefix(
        setting,
        sha_prefix(Algorithm::Sha512),
    ) {
        reveal(sha_crypt_spec);
        let alg = if has_prefix(setting, sha_prefix(Algorithm::Sha256)) {
            Algorithm::Sha256
        } else {
            Algorithm::Sha512
        };
        if sha_params(setting.skip(3)) is Ok {
            let (hr, r, salt) = sha_params(setting.skip(3))->Ok_0;
            lemma_sha_digest_fits(alg, k1, salt, r as nat);
            lemma_sha_digest_fits(alg, k2, salt, r as nat);
            lemma_digest_irrelevant(
                sha_canonical(alg, hr, r, salt),
                sha_crypt_digest(alg, k1, salt, r as nat),
                sha_crypt_digest(alg, k2, salt, r as nat),
            );
        }
    }
}

} // verus!
