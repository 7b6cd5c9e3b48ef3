use hath::fetch::{plan, FetchPlan, FillAction, FillEvent, FillWriter};
use hath::rpc::{body_size_ok, parse_response, rpc_query};
use hath::settings::{parse_settings, MutContext, SpeedLimit};

fn lines(v: &[&str]) -> Vec<Vec<u8>> {
    v.iter().map(|s| s.as_bytes().to_vec()).collect()
}

#[test]
fn settings_static_ranges_and_limits() {
    let u = parse_settings(
        &lines(&["static_ranges=5eb2;00ff;", "throttle_bytes=100", "diskremaining_bytes=12345", "foo=bar", "noequals"]),
        false,
        false,
    )
    .expect("parses");
    assert_eq!(u.static_ranges, Some(vec![0x5eb2, 0x00ff]));
    assert_eq!(u.speed_limit, SpeedLimit::KibPerSec(100));
    assert_eq!(u.max_size, Some(12345));
}

#[test]
fn settings_disable_bwm_wins_over_later_throttle() {
    let u = parse_settings(&lines(&["disable_bwm=true", "throttle_bytes=100"]), false, false).unwrap();
    assert_eq!(u.speed_limit, SpeedLimit::Unlimited);
    let u = parse_settings(&lines(&["throttle_bytes=100", "disable_bwm=true"]), false, false).unwrap();
    assert_eq!(u.speed_limit, SpeedLimit::Unlimited);
}

#[test]
fn settings_local_overrides_stay() {
    let u = parse_settings(&lines(&["throttle_bytes=100", "diskremaining_bytes=5"]), true, true).unwrap();
    assert_eq!(u.speed_limit, SpeedLimit::Unchanged);
    assert_eq!(u.max_size, None);
}

#[test]
fn settings_errors() {
    assert!(parse_settings(&lines(&["static_ranges=zz"]), false, false).is_none());
    assert!(parse_settings(&lines(&["static_ranges=10000"]), false, false).is_none());
    assert!(parse_settings(&lines(&["throttle_bytes=x"]), false, false).is_none());
    assert!(parse_settings(&lines(&["diskremaining_bytes=-1"]), false, false).is_none());
    let u = parse_settings(&lines(&["static_ranges=FFFF;+1"]), false, false).unwrap();
    assert_eq!(u.static_ranges, Some(vec![0xffff, 1]));
}

#[test]
fn static_range_membership() {
    let mut c = MutContext::new();
    assert!(!c.in_static_range(1));
    c.set_static_ranges(&vec![1, 2]);
    assert!(c.in_static_range(1));
    c.set_static_ranges(&vec![3]);
    assert!(!c.in_static_range(1));
    assert!(c.in_static_range(3));
}

#[test]
fn fetch_plan_hit_only_on_exact_length() {
    assert_eq!(plan(1234, 1234), FetchPlan::Hit);
    assert_eq!(plan(0, 1234), FetchPlan::Fill);
    assert_eq!(plan(100, 1234), FetchPlan::Fill);
}

#[test]
fn fill_failure_truncates_and_refills() {
    let mut w = FillWriter::new();
    assert_eq!(w.on_event(FillEvent::Data(500)), FillAction::Forward);
    assert_eq!(w.on_event(FillEvent::UpstreamFailed), FillAction::TruncateAndStop);
    assert_eq!(w.written, 0);
    assert_eq!(w.on_event(FillEvent::Data(10)), FillAction::Stop);
    assert_eq!(plan(w.written, 1234), FetchPlan::Fill);
}

#[test]
fn fill_success_then_hit() {
    let mut w = FillWriter::new();
    assert_eq!(w.on_event(FillEvent::Data(1000)), FillAction::Forward);
    assert_eq!(w.on_event(FillEvent::Data(234)), FillAction::Forward);
    assert_eq!(w.on_event(FillEvent::Finished), FillAction::Stop);
    assert_eq!(w.written, 1234);
    assert_eq!(plan(w.written, 1234), FetchPlan::Hit);
    let mut w = FillWriter::new();
    w.on_event(FillEvent::Data(1));
    assert_eq!(w.on_event(FillEvent::WriteFailed), FillAction::TruncateAndStop);
}

#[test]
fn dispatcher_response_lines() {
    let v = parse_response(b"OK\nstatic_ranges=0001\nfoo=bar").unwrap();
    assert_eq!(v, lines(&["static_ranges=0001", "foo=bar"]));
    assert!(parse_response(b"KEY_EXPIRED\n").is_err());
    assert!(parse_response(b"").is_err());
    assert!(body_size_ok(Some(10 * 1024 * 1024)));
    assert!(!body_size_ok(Some(10 * 1024 * 1024 + 1)));
    assert!(!body_size_ok(None));
}

#[test]
fn dispatcher_query_format() {
    let q = rpc_query(b"rpc", b"still_alive", b"", 42, 1700000000, b"key");
    let text = String::from_utf8(q).unwrap();
    let digest = hex(&openssl::sha::sha1(b"hentai@home-still_alive--42-1700000000-key"));
    assert_eq!(
        text,
        format!("/15/rpc?clientbuild=169&act=still_alive&add=&cid=42&acttime=1700000000&actkey={digest}")
    );
}

fn hex(b: &[u8]) -> String {
    b.iter().map(|x| format!("{:02x}", x)).collect()
}
