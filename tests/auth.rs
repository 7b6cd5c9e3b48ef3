use hath::auth::{
    constant_time_eq, file_fetch_digest, keystamp_matches, server_command_digest, sha1_digest,
    speed_test_digest,
};

fn hex(b: &[u8]) -> String {
    b.iter().map(|x| format!("{:02x}", x)).collect()
}

#[test]
fn digest_of_refresh_settings_command() {
    let expected = hex(&openssl::sha::sha1(
        b"hentai@home-servercmd-refresh_settings--42-1700000000-secret",
    ));
    let got = server_command_digest(b"refresh_settings", b"", 42, 1700000000, b"secret");
    assert_eq!(String::from_utf8(got).unwrap(), expected);
    let parts: Vec<Vec<u8>> = vec![
        b"hentai@home".to_vec(),
        b"servercmd".to_vec(),
        b"refresh_settings".to_vec(),
        b"".to_vec(),
        b"42".to_vec(),
        b"1700000000".to_vec(),
        b"secret".to_vec(),
    ];
    assert_eq!(String::from_utf8(sha1_digest(&parts)).unwrap(), expected);
}

#[test]
fn sha1_of_known_text() {
    let parts: Vec<Vec<u8>> = vec![b"abc".to_vec()];
    assert_eq!(
        String::from_utf8(sha1_digest(&parts)).unwrap(),
        "a9993e364706816aba3e25717850c26c9cd0d89d"
    );
}

#[test]
fn file_fetch_digest_joins_with_dashes() {
    let expected = hex(&openssl::sha::sha1(b"1700000000-abc-1-2-3-png-key-hotlinkthis"));
    let got = file_fetch_digest(b"1700000000", b"abc-1-2-3-png", b"key");
    assert_eq!(String::from_utf8(got).unwrap(), expected);
}

#[test]
fn speed_test_digest_concatenates() {
    let expected = hex(&openssl::sha::sha1(b"hentai@home-speedtest-1000000-1700000000-42-key"));
    let got = speed_test_digest(1000000, b"1700000000", 42, b"key");
    assert_eq!(String::from_utf8(got).unwrap(), expected);
}

#[test]
fn keystamp_window_edges() {
    let digest = b"0123456789abcdef";
    let now = 1_700_000_000u64;
    assert!(keystamp_matches(now, now - 900, digest, b"0123456789"));
    assert!(keystamp_matches(now, now + 900, digest, b"0123456789"));
    assert!(!keystamp_matches(now, now - 901, digest, b"0123456789"));
    assert!(!keystamp_matches(now, now + 901, digest, b"0123456789"));
    assert!(!keystamp_matches(now, now, digest, b"0123456788"));
    assert!(!keystamp_matches(now, now, digest, b"012345678"));
}

#[test]
fn constant_time_comparison() {
    assert!(constant_time_eq(b"abc", b"abc"));
    assert!(!constant_time_eq(b"abc", b"abd"));
    assert!(!constant_time_eq(b"abc", b"ab"));
    assert!(constant_time_eq(b"", b""));
}
