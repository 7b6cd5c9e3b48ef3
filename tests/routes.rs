use std::collections::HashSet;

use hath::auth::{file_fetch_digest, server_command_digest, speed_test_digest};
use hath::error::Error;
use hath::request::{
    authorize_file_fetch, extra_value, server_command, speed_test, Command, FileFetchExtra,
    STILL_ALIVE,
};

const FILE_ID: &str = "5eb2e462781a2ba02cf435d6baa3573f4551c1a5-37444-1800-1000-png";
const KEY: &[u8] = b"clientkey";
const NOW: u64 = 1_700_000_000;

fn ranges(r: &[u16]) -> HashSet<u16> {
    r.iter().copied().collect()
}

fn extra_for(file_id: &str, time: u64) -> String {
    let t = time.to_string();
    let d = file_fetch_digest(t.as_bytes(), file_id.as_bytes(), KEY);
    let hp = String::from_utf8(d[..10].to_vec()).unwrap();
    format!("keystamp={t}-{hp};fileindex=0;xres=1280")
}

#[test]
fn file_fetch_accepts_valid_request() {
    let extra = extra_for(FILE_ID, NOW);
    let r = authorize_file_fetch(FILE_ID.as_bytes(), extra.as_bytes(), NOW, KEY, &ranges(&[0x5eb2]));
    let req = match r {
        Ok(req) => req,
        Err(e) => panic!("rejected: {:?}", e),
    };
    assert_eq!(req.file.info.size, 37444);
    assert_eq!(req.fileindex, b"0".to_vec());
    assert_eq!(req.xres, b"1280".to_vec());
}

#[test]
fn file_fetch_ignores_trailing_filename() {
    let extra = format!("{}/picture.png", extra_for(FILE_ID, NOW));
    let r = authorize_file_fetch(FILE_ID.as_bytes(), extra.as_bytes(), NOW, KEY, &ranges(&[0x5eb2]));
    assert!(r.is_ok());
}

#[test]
fn file_fetch_bad_hash_is_bad_request() {
    let bad = "5eb2e462781a2ba02cf435d6baa3573f4551c1-37444-1800-1000-png";
    let extra = extra_for(bad, NOW);
    let r = authorize_file_fetch(bad.as_bytes(), extra.as_bytes(), NOW, KEY, &ranges(&[0x5eb2]));
    assert!(matches!(r, Err(Error::BadRequest)));
}

#[test]
fn file_fetch_outside_served_ranges_is_bad_request() {
    let extra = extra_for(FILE_ID, NOW);
    let r = authorize_file_fetch(FILE_ID.as_bytes(), extra.as_bytes(), NOW, KEY, &ranges(&[0x0001]));
    assert!(matches!(r, Err(Error::BadRequest)));
}

#[test]
fn file_fetch_keystamp_window() {
    let ok = extra_for(FILE_ID, NOW - 900);
    assert!(authorize_file_fetch(FILE_ID.as_bytes(), ok.as_bytes(), NOW, KEY, &ranges(&[0x5eb2])).is_ok());
    let late = extra_for(FILE_ID, NOW - 901);
    assert!(matches!(
        authorize_file_fetch(FILE_ID.as_bytes(), late.as_bytes(), NOW, KEY, &ranges(&[0x5eb2])),
        Err(Error::BadRequest)
    ));
}

#[test]
fn file_fetch_forged_or_missing_keys() {
    let forged = format!("keystamp={NOW}-0000000000;fileindex=0;xres=1280");
    assert!(authorize_file_fetch(FILE_ID.as_bytes(), forged.as_bytes(), NOW, KEY, &ranges(&[0x5eb2])).is_err());
    let missing = "keystamp=1-0000000000;xres=1280";
    assert!(authorize_file_fetch(FILE_ID.as_bytes(), missing.as_bytes(), NOW, KEY, &ranges(&[0x5eb2])).is_err());
}

#[test]
fn extras_last_value_wins() {
    assert_eq!(extra_value(b"a=1;b=2;a=3", b"a"), Some(b"3".to_vec()));
    assert_eq!(extra_value(b"a=1;junk;b=2", b"b"), Some(b"2".to_vec()));
    assert_eq!(extra_value(b"a=1", b"c"), None);
    assert_eq!(extra_value(b"k=v=w", b"k"), Some(b"v=w".to_vec()));
    let x = FileFetchExtra::from_path_parts(b"xres=1;fileindex=2;keystamp=3").expect("all keys");
    assert_eq!(x.keystamp, b"3".to_vec());
    assert!(FileFetchExtra::from_path_parts(b"xres=1;fileindex=2").is_none());
}

fn command_key(cmd: &str, extra: &str, time: u64) -> Vec<u8> {
    server_command_digest(cmd.as_bytes(), extra.as_bytes(), 42, time, KEY)
}

#[test]
fn still_alive_command() {
    let key = command_key("still_alive", "", NOW);
    let r = server_command(b"still_alive", b"", NOW, &key, NOW, 42, KEY);
    assert!(matches!(r, Ok(Command::StillAlive)));
    assert_eq!(STILL_ALIVE, "I feel FANTASTIC and I'm still alive");
}

#[test]
fn command_window_and_forgery() {
    let key = command_key("still_alive", "", NOW - 300);
    assert!(server_command(b"still_alive", b"", NOW - 300, &key, NOW, 42, KEY).is_ok());
    let key = command_key("still_alive", "", NOW - 301);
    assert!(matches!(
        server_command(b"still_alive", b"", NOW - 301, &key, NOW, 42, KEY),
        Err(Error::BadRequest)
    ));
    let key = command_key("still_alive", "", NOW + 301);
    assert!(server_command(b"still_alive", b"", NOW + 301, &key, NOW, 42, KEY).is_err());
    assert!(server_command(b"still_alive", b"", NOW, b"0000", NOW, 42, KEY).is_err());
}

#[test]
fn unknown_command_is_bad_request() {
    let key = command_key("dance", "", NOW);
    assert!(matches!(server_command(b"dance", b"", NOW, &key, NOW, 42, KEY), Err(Error::BadRequest)));
}

#[test]
fn speed_test_command_size() {
    let key = command_key("speed_test", "testsize=1234", NOW);
    match server_command(b"speed_test", b"testsize=1234", NOW, &key, NOW, 42, KEY) {
        Ok(Command::SpeedTest(t)) => assert_eq!(t.total, 1234),
        _ => panic!("expected speed test"),
    }
    let key = command_key("speed_test", "", NOW);
    match server_command(b"speed_test", b"", NOW, &key, NOW, 42, KEY) {
        Ok(Command::SpeedTest(t)) => assert_eq!(t.total, 1000000),
        _ => panic!("expected speed test"),
    }
}

#[test]
fn threaded_proxy_test_parameters() {
    let extra = "hostname=h;port=1;testsize=2;testtime=3;testkey=k;testcount=4";
    let key = command_key("threaded_proxy_test", extra, NOW);
    match server_command(b"threaded_proxy_test", extra.as_bytes(), NOW, &key, NOW, 42, KEY) {
        Ok(Command::ThreadedProxyTest(p)) => {
            assert_eq!(p.testcount, 4);
            assert_eq!(p.hostname, b"h".to_vec());
            assert!(p.protocol.is_none());
        }
        _ => panic!("expected proxy test"),
    }
    let extra = "hostname=h;port=1";
    let key = command_key("threaded_proxy_test", extra, NOW);
    assert!(server_command(b"threaded_proxy_test", extra.as_bytes(), NOW, &key, NOW, 42, KEY).is_err());
}

#[test]
fn speed_test_route() {
    let key = speed_test_digest(1000000, b"123", 42, KEY);
    let t = speed_test(1000000, b"123", &key, 42, KEY).expect("accepted");
    assert_eq!(t.total, 1000000);
    assert!(speed_test(1000000, b"123", b"bogus", 42, KEY).is_none());
}

#[test]
fn error_status_codes() {
    assert_eq!(Error::BadRequest.into_status(), 400);
    assert_eq!(Error::NotFound.into_status(), 404);
    assert_eq!(Error::IO.into_status(), 500);
}
