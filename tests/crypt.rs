use passwd::crypt::bcrypt_crypt;
use passwd::encode::{is_safe, to64};
use passwd::error::CryptError;
use passwd::md5_crypt::md5_crypt;
use passwd::sha_crypt::{sha256_crypt, sha512_crypt};

#[test]
fn crypt() {
    let test_key = b"Xy01@#!";
    let test_setting = b"$1$abcd0123$";
    let test_hash = "$1$abcd0123$qFLW2hU/ia/dRaRxSn1E11";
    let result = md5_crypt(test_key, test_setting).unwrap();
    assert_eq!(test_hash.to_string(), result);
}

#[test]
fn sha256_crypt_hash_test() {
    let key = b"Xy01@#!";
    let setting = b"$5$rounds=1234$abc0123456789$";
    let expected =
        "$5$rounds=1234$abc0123456789$.AApOy/ZKLFQjpW80rPbRI7TD/mXALa4V3ASyXr8FG7".to_string();
    let output = sha256_crypt(key, setting).unwrap();
    let verify_output = sha256_crypt(key, expected.as_bytes()).unwrap();
    assert_eq!(output, expected);
    assert_eq!(verify_output, expected);
}

#[test]
fn sha256_crypt_no_salt_error() {
    let output = sha256_crypt(b"Xy01@#!", b"$5$rounds=1234$");
    assert!(output.is_err());
}

#[test]
fn sha512_crypt_hash_test() {
    let key = b"Xy01@#!";
    let setting = b"$6$rounds=1234$abc0123456789$";
    let expected = "$6$rounds=1234$abc0123456789$GW2GqS6IFl0mQA26RRt3pDnqhQzym4B0Ly7wVLuJZKFmPpOKX4j5zH6Rh4NqdGIf9Kqxcz4KltEh8tXjI.Zec.".to_string();
    let output = sha512_crypt(key, setting).unwrap();
    let verify_output = sha512_crypt(key, expected.as_bytes()).unwrap();
    assert_eq!(output, expected);
    assert_eq!(verify_output, expected);
}

#[test]
fn sha512_crypt_no_salt_error() {
    let output = sha512_crypt(b"Xy01@#!", b"$6$rounds=1234$");
    assert!(output.is_err());
}

#[test]
fn dispatch_vectors() {
    let key = b"Xy01@#!";
    assert_eq!(
        passwd::crypt::crypt(key, b"$1$abcd0123$").unwrap(),
        "$1$abcd0123$qFLW2hU/ia/dRaRxSn1E11"
    );
    assert_eq!(
        passwd::crypt::crypt(key, b"$5$rounds=1234$abc0123456789$").unwrap(),
        "$5$rounds=1234$abc0123456789$.AApOy/ZKLFQjpW80rPbRI7TD/mXALa4V3ASyXr8FG7"
    );
    assert_eq!(passwd::crypt::crypt(key, b"$5$rounds=1234$"), Err(CryptError::MissingSalt));
}

#[test]
fn round_trip_reproduces_hash() {
    let key = b"correct horse";
    for setting in [&b"$1$saltsalt"[..], b"$5$saltsalt", b"$6$rounds=1000$saltsalt$junk"] {
        let first = passwd::crypt::crypt(key, setting).unwrap();
        let second = passwd::crypt::crypt(key, first.as_bytes()).unwrap();
        assert_eq!(first, second);
    }
}

#[test]
fn deterministic_output() {
    let a = passwd::crypt::crypt(b"pw", b"$6$abcdef").unwrap();
    let b = passwd::crypt::crypt(b"pw", b"$6$abcdef").unwrap();
    assert_eq!(a, b);
}

#[test]
fn salt_is_truncated() {
    let h = passwd::crypt::crypt(b"pw", b"$1$0123456789abcdef$").unwrap();
    assert!(h.starts_with("$1$01234567$"));
    assert_eq!(h, passwd::crypt::crypt(b"pw", b"$1$01234567").unwrap());
    let h = passwd::crypt::crypt(b"pw", b"$5$0123456789abcdefXYZ").unwrap();
    assert!(h.starts_with("$5$0123456789abcdef$"));
    assert_eq!(h.len(), "$5$0123456789abcdef$".len() + 43);
}

#[test]
fn rounds_are_clamped_or_rejected() {
    let h = passwd::crypt::crypt(b"pw", b"$5$rounds=10$salt").unwrap();
    assert!(h.starts_with("$5$rounds=1000$salt$"));
    assert_eq!(h, passwd::crypt::crypt(b"pw", b"$5$rounds=1000$salt").unwrap());
    let h = passwd::crypt::crypt(b"pw", b"$6$rounds=01000$salt").unwrap();
    assert!(h.starts_with("$6$rounds=1000$salt$"));
    assert_eq!(
        passwd::crypt::crypt(b"pw", b"$5$rounds=10000000$salt"),
        Err(CryptError::RoundsTooLarge)
    );
    assert_eq!(
        passwd::crypt::crypt(b"pw", b"$6$rounds=99999999999999999999999$salt"),
        Err(CryptError::RoundsOverflow)
    );
    assert_eq!(passwd::crypt::crypt(b"pw", b"$5$rounds=$salt"), Err(CryptError::RoundsMalformed));
    assert_eq!(passwd::crypt::crypt(b"pw", b"$5$rounds=12x$salt"), Err(CryptError::RoundsMalformed));
    assert_eq!(passwd::crypt::crypt(b"pw", b"$5$rounds=+12$salt"), Err(CryptError::RoundsMalformed));
    assert_eq!(passwd::crypt::crypt(b"pw", b"$5$rounds=1200"), Err(CryptError::MissingSalt));
}

#[test]
fn default_rounds_are_not_echoed() {
    let h = passwd::crypt::crypt(b"pw", b"$5$salt$").unwrap();
    assert!(h.starts_with("$5$salt$"));
    assert_eq!(h.len(), "$5$salt$".len() + 43);
    let h = passwd::crypt::crypt(b"pw", b"$6$salt").unwrap();
    assert_eq!(h.len(), "$6$salt$".len() + 86);
}

#[test]
fn key_length_boundary() {
    let k = vec![b'a'; 30000];
    assert!(passwd::crypt::crypt(&k, b"$1$salt").is_ok());
    let k = vec![b'a'; 30001];
    assert_eq!(passwd::crypt::crypt(&k, b"$1$salt"), Err(CryptError::KeyTooLong));
    let k = vec![b'a'; 256];
    assert!(passwd::crypt::crypt(&k, b"$5$salt").is_ok());
    assert!(passwd::crypt::crypt(&k, b"$6$salt").is_ok());
    let k = vec![b'a'; 257];
    assert_eq!(passwd::crypt::crypt(&k, b"$5$salt"), Err(CryptError::KeyTooLong));
    assert_eq!(passwd::crypt::crypt(&k, b"$6$salt"), Err(CryptError::KeyTooLong));
}

#[test]
fn unsafe_salt_rejected() {
    assert_eq!(passwd::crypt::crypt(b"pw", b"$1$ab:cd$"), Err(CryptError::UnsafeSaltCharacter));
    assert_eq!(passwd::crypt::crypt(b"pw", b"$5$ab\ncd"), Err(CryptError::UnsafeSaltCharacter));
    assert_eq!(passwd::crypt::crypt(b"pw", b"$6$rounds=5000$a:b$"), Err(CryptError::UnsafeSaltCharacter));
    assert_eq!(passwd::crypt::crypt(b"pw", b"$1$$"), Err(CryptError::MissingSalt));
    assert_eq!(passwd::crypt::crypt(b"pw", b"$5$"), Err(CryptError::MissingSalt));
}

#[test]
fn unknown_scheme_rejected() {
    for s in [&b"ab"[..], b"$2$salt", b"$2a$10$abc", b"$7$salt", b"", b"$1", b"1$salt"] {
        assert_eq!(passwd::crypt::crypt(b"pw", s), Err(CryptError::UnknownOrUnsupportedScheme));
    }
    assert_eq!(md5_crypt(b"pw", b"$5$salt"), Err(CryptError::UnknownOrUnsupportedScheme));
    assert_eq!(sha256_crypt(b"pw", b"$6$salt"), Err(CryptError::UnknownOrUnsupportedScheme));
    assert_eq!(sha512_crypt(b"pw", b"$1$salt"), Err(CryptError::UnknownOrUnsupportedScheme));
    assert_eq!(bcrypt_crypt(b"pw", b"$2$salt"), Err(CryptError::UnknownOrUnsupportedScheme));
}

#[test]
fn non_utf8_salt_is_an_encoding_failure() {
    assert_eq!(passwd::crypt::crypt(b"pw", b"$1$\xff\xfe$"), Err(CryptError::EncodingFailure));
}

#[test]
fn encoder_values() {
    assert_eq!(to64(0, 2), b"..".to_vec());
    assert_eq!(to64(63, 1), b"z".to_vec());
    assert_eq!(to64(64 + 2, 2), b"0/".to_vec());
    assert_eq!(to64(12, 1), b"A".to_vec());
    assert_eq!(to64(5, 0), Vec::<u8>::new());
    assert!(is_safe(&b'a'));
    assert!(!is_safe(&b'$'));
    assert!(!is_safe(&b':'));
    assert!(!is_safe(&b'\n'));
}

#[test]
fn hash_has_no_field_separators() {
    for setting in [&b"$1$a"[..], b"$5$rounds=2000$b", b"$6$c"] {
        let h = passwd::crypt::crypt(b"k:\n", setting).unwrap();
        assert!(!h.contains(':') && !h.contains('\n'));
    }
}
