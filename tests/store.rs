use passwd::crypt::crypt;
use passwd::error::CryptError;
use passwd::store::{
    delete_password, is_valid_user, lock_account, unlock_account, update_password,
    user_has_password, verify_password, Shadow, StoreError,
};

fn record(name: &str, pw: Option<&str>) -> Shadow {
    Shadow {
        username: name.to_string(),
        hashed_password: pw.map(|s| s.to_string()),
        last_updated: Some(19000),
        min_age: Some(0),
        max_age: Some(99999),
        warning_period: Some(7),
        inactivity_period: None,
        account_exp_date: None,
        reserved: None,
    }
}

fn db() -> Vec<Shadow> {
    let hash = crypt(b"secret", b"$6$saltsalt").unwrap();
    vec![
        record("root", Some(&hash)),
        record("nobody", None),
        record("locked", Some("!$1$abcd0123$qFLW2hU/ia/dRaRxSn1E11")),
    ]
}

#[test]
fn lookup_users() {
    let d = db();
    assert!(is_valid_user(&d, "root"));
    assert!(!is_valid_user(&d, "alice"));
    assert_eq!(user_has_password(&d, "root"), Ok(true));
    assert_eq!(user_has_password(&d, "nobody"), Ok(false));
    assert_eq!(user_has_password(&d, "alice"), Err(StoreError::NoSuchUser));
}

#[test]
fn verify_passwords() {
    let d = db();
    assert_eq!(verify_password(&d, "root", "secret"), Ok(()));
    assert_eq!(verify_password(&d, "root", "wrong"), Err(StoreError::PasswordMismatch));
    assert_eq!(verify_password(&d, "nobody", "anything"), Ok(()));
    assert_eq!(verify_password(&d, "locked", "Xy01@#!"), Err(StoreError::PasswordMismatch));
    assert_eq!(verify_password(&d, "alice", "x"), Err(StoreError::NoSuchUser));
    let bad = vec![record("des", Some("abQ9KY.KfrYrc"))];
    assert_eq!(
        verify_password(&bad, "des", "x"),
        Err(StoreError::Crypt(CryptError::UnknownOrUnsupportedScheme))
    );
}

#[test]
fn change_and_delete_password() {
    let mut d = db();
    assert_eq!(update_password(&mut d, "nobody", "$1$x$y", 20000), Ok(()));
    assert_eq!(d[1].hashed_password.as_deref(), Some("$1$x$y"));
    assert_eq!(d[1].last_updated, Some(20000));
    assert_eq!(d[1].max_age, Some(99999));
    assert_eq!(update_password(&mut d, "alice", "h", 20000), Err(StoreError::NoSuchUser));
    assert_eq!(delete_password(&mut d, "root", 20001), Ok(()));
    assert_eq!(d[0].hashed_password, None);
    assert_eq!(d[0].last_updated, Some(20001));
    assert_eq!(d.len(), 3);
}

#[test]
fn lock_and_unlock() {
    let mut d = db();
    let first_hash = d[0].hashed_password.clone().unwrap();
    assert_eq!(lock_account(&mut d, "root", 1), Ok(()));
    assert_eq!(d[0].hashed_password, Some(format!("!{}", first_hash)));
    assert_eq!(lock_account(&mut d, "root", 2), Ok(()));
    assert_eq!(d[0].hashed_password, Some(format!("!{}", first_hash)));
    assert_eq!(d[0].last_updated, Some(1));
    assert_eq!(verify_password(&d, "root", "secret"), Err(StoreError::PasswordMismatch));
    assert_eq!(unlock_account(&mut d, "root", 3), Ok(()));
    assert_eq!(d[0].hashed_password, Some(first_hash));
    assert_eq!(d[0].last_updated, Some(3));
    assert_eq!(verify_password(&d, "root", "secret"), Ok(()));

    assert_eq!(lock_account(&mut d, "nobody", 4), Ok(()));
    assert_eq!(d[1].hashed_password.as_deref(), Some("!"));
    assert_eq!(unlock_account(&mut d, "nobody", 5), Ok(()));
    assert_eq!(d[1].hashed_password.as_deref(), Some(""));

    let mut e = vec![record("x", Some("!!!abc"))];
    assert_eq!(unlock_account(&mut e, "x", 6), Ok(()));
    assert_eq!(e[0].hashed_password.as_deref(), Some("abc"));
    assert_eq!(unlock_account(&mut e, "x", 7), Ok(()));
    assert_eq!(e[0].last_updated, Some(6));
    assert_eq!(lock_account(&mut e, "y", 8), Err(StoreError::NoSuchUser));
    assert_eq!(unlock_account(&mut e, "y", 8), Err(StoreError::NoSuchUser));
}
