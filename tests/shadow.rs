use passwd::shadow::{parse_record, RecordError, ShadowBuilder};
use passwd::store::Shadow;

#[test]
fn parse_full_record() {
    let r = parse_record("  alice:$6$salt$abc:19521:0:99999:7:30:-5:x \n").unwrap();
    assert_eq!(r.username, "alice");
    assert_eq!(r.hashed_password.as_deref(), Some("$6$salt$abc"));
    assert_eq!(r.last_updated, Some(19521));
    assert_eq!(r.min_age, Some(0));
    assert_eq!(r.max_age, Some(99999));
    assert_eq!(r.warning_period, Some(7));
    assert_eq!(r.inactivity_period, Some(30));
    assert_eq!(r.account_exp_date, Some(-5));
    assert_eq!(r.reserved.as_deref(), Some("x"));
}

#[test]
fn parse_sparse_record() {
    let r = parse_record("bob::::+12:abc:::").unwrap();
    assert_eq!(r.hashed_password, None);
    assert_eq!(r.last_updated, None);
    assert_eq!(r.max_age, Some(12));
    assert_eq!(r.warning_period, None);
    assert_eq!(r.reserved, None);
    assert_eq!(r.to_line(), "bob::::12::::");
}

#[test]
fn parse_errors() {
    assert_eq!(parse_record("a:b:c").unwrap_err(), RecordError::BadFormat);
    assert_eq!(parse_record(":x:1:2:3:4:5:6:7").unwrap_err(), RecordError::MissingUsername);
    let r: Result<Shadow, _> = "carol:!:1:2:3:4:5:6:7".parse();
    assert!(r.is_ok());
}

#[test]
fn format_round_trip() {
    let line = "root:$1$abcd0123$qFLW2hU/ia/dRaRxSn1E11:19521:0:99999:7::-1:";
    let r = parse_record(line).unwrap();
    assert_eq!(r.to_line(), line);
}

#[test]
fn builder_sets_fields() {
    let s = ShadowBuilder::new()
        .username(Some("dave"))
        .hashed_password(Some(""))
        .min_age(Some("18446744073709551615"))
        .max_age(Some("18446744073709551616"))
        .last_updated(Some("-9223372036854775808"))
        .account_exp_date(Some("9223372036854775808"))
        .build()
        .unwrap();
    assert_eq!(s.hashed_password, None);
    assert_eq!(s.min_age, Some(usize::MAX));
    assert_eq!(s.max_age, None);
    assert_eq!(s.last_updated, Some(i64::MIN));
    assert_eq!(s.account_exp_date, None);
    assert!(ShadowBuilder::new().username(Some("")).build().is_none());
    let back: ShadowBuilder = s.clone().into();
    assert_eq!(back.username.as_deref(), Some("dave"));
}

#[test]
fn update_password_stamps_day() {
    let mut s = parse_record("eve:old:1::::::").unwrap();
    s.update_password(Some("new".to_string()), 20000);
    assert_eq!(s.to_line(), "eve:new:20000::::::");
}
