use zulip_bot::wipe;

#[test]
fn wipe_zeroes_every_byte() {
    let mut secret = b"name-bot@server:key".to_vec();
    let len = secret.len();
    wipe(&mut secret);
    assert_eq!(secret, vec![0u8; len]);
}

#[test]
fn wipe_of_nothing() {
    let mut empty: Vec<u8> = Vec::new();
    wipe(&mut empty);
    assert!(empty.is_empty());
}
