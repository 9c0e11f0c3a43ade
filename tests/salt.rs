use passwd::salt::make_salt;

#[test]
fn salt_maps_draws_to_alphabet() {
    assert_eq!(make_salt(&vec![0, 1, 2, 11, 12, 37, 38, 63, 64, 255]), b"./09AZaz.z".to_vec());
    assert!(make_salt(&vec![]).is_empty());
}
