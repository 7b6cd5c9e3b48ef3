use vstd::prelude::*;

use crate::auth::{
    command_holds, command_matches, file_fetch_digest, file_fetch_elements, join_dash,
    keystamp_holds, keystamp_matches, server_command_digest, server_command_elements, sha1_of,
    speed_test_digest, speed_test_elements, concat, constant_time_eq,
};
use crate::error::Error;
use crate::file::{parse_wire_name, CacheFile};
use crate::hex::hex_of;
use crate::speedtest::SpeedTest;
use crate::text::{
    copy_all, copy_range, find_first, parse_uint, parse_uint_bytes, segments, split, split_once,
};

verus! {

broadcast use vstd::std_specs::hash::group_hash_axioms;

/// Whether two byte strings are equal.
pub fn bytes_eq(a: &[u8], b: &[u8]) -> (r: bool)
    ensures
        r == (a@ == b@),
{
    if a.len() != b.len() {
        return false;
    }
    let mut i: usize = 0;
    while i < a.len()
        invariant
            i <= a@.len(),
            a@.len() == b@.len(),
            forall|j: int| 0 <= j < i ==> a@[j] == b@[j],
        decreases a@.len() - i,
    {
        if a[i] != b[i] {
            return false;
        }
        i = i + 1;
    }
    assert(a@ =~= b@);
    true
}

/// The part of `s` before its first `/`, or all of it.
pub open spec fn before_slash(s: Seq<u8>) -> Seq<u8> {
    match split_once(s, 47) {
        Some((a, _)) => a,
        None => s,
    }
}

pub fn strip_after_slash(s: &[u8]) -> (r: Vec<u8>)
    ensures
        r@ == before_slash(s@),
{
    match find_first(s, 47) {
        Some(i) => copy_range(s, 0, i),
        None => copy_all(s),
    }
}

/// The value of the last `key=value` piece with this key; pieces without `=` are skipped.
pub open spec fn lookup_last(pieces: Seq<Seq<u8>>, key: Seq<u8>) -> Option<Seq<u8>>
    decreases pieces.len(),
{
    if pieces.len() == 0 {
        None
    } else {
        match split_once(pieces.last(), 61) {
            Some((k, v)) => if k == key {
                Some(v)
            } else {
                lookup_last(pieces.drop_last(), key)
            },
            None => lookup_last(pieces.drop_last(), key),
        }
    }
}

/// The value that `key` has in `;`-separated `key=value` pairs, the last one winning.
pub open spec fn extra_lookup(extra: Seq<u8>, key: Seq<u8>) -> Option<Seq<u8>> {
    lookup_last(segments(extra, 59), key)
}

/// The value that `key` has in `;`-separated `key=value` pairs, the last one winning.
pub fn extra_value(extra: &[u8], key: &[u8]) -> (r: Option<Vec<u8>>)
    ensures
        r matches Some(v) ==> extra_lookup(extra@, key@) == Some(v@),
        r is None ==> extra_lookup(extra@, key@) is None,
{
    let parts = split(extra, 59);
    let ghost all = parts@.map_values(|v: Vec<u8>| v@);
    let mut i: usize = parts.len();
    assert(all.subrange(0, i as int) =~= all);
    while i > 0
        invariant
            i <= parts@.len(),
            all == parts@.map_values(|v: Vec<u8>| v@),
            all == segments(extra@, 59),
            lookup_last(all, key@) == lookup_last(all.subrange(0, i as int), key@),
        decreases i,
    {
        let piece = &parts[i - 1];
        let ghost pre = all.subrange(0, i as int);
        assert(pre.last() == piece@);
        assert(pre.drop_last() =~= all.subrange(0, i - 1));
        match find_first(piece.as_slice(), 61) {
            Some(j) => {
                let k = copy_range(piece.as_slice(), 0, j);
                if bytes_eq(k.as_slice(), key) {
                    let v = copy_range(piece.as_slice(), j + 1, piece.len());
                    return Some(v);
                }
            },
            None => {},
        }
        i = i - 1;
    }
    None
}

pub open spec fn lit_keystamp() -> Seq<u8> {
    seq![107u8, 101, 121, 115, 116, 97, 109, 112]
}

pub open spec fn lit_fileindex() -> Seq<u8> {
    seq![102u8, 105, 108, 101, 105, 110, 100, 101, 120]
}

pub open spec fn lit_xres() -> Seq<u8> {
    seq![120u8, 114, 101, 115]
}

/// The `keystamp`, `fileindex` and `xres` values of a file request.
pub struct FileFetchExtra {
    pub keystamp: Vec<u8>,
    pub fileindex: Vec<u8>,
    pub xres: Vec<u8>,
}

impl FileFetchExtra {
    /// Reads `;`-separated `key=value` pairs; all three keys are required.
    pub fn from_path_parts(extra: &[u8]) -> (r: Option<FileFetchExtra>)
        ensures
            r is Some <==> extra_lookup(extra@, lit_keystamp()) is Some && extra_lookup(
                extra@,
                lit_fileindex(),
            ) is Some && extra_lookup(extra@, lit_xres()) is Some,
            r matches Some(x) ==> {
                &&& extra_lookup(extra@, lit_keystamp()) == Some(x.keystamp@)
                &&& extra_lookup(extra@, lit_fileindex()) == Some(x.fileindex@)
                &&& extra_lookup(extra@, lit_xres()) == Some(x.xres@)
            },
    {
        let k1 = vec![107u8, 101, 121, 115, 116, 97, 109, 112];
        assert(k1@ =~= lit_keystamp());
        let k2 = vec![102u8, 105, 108, 101, 105, 110, 100, 101, 120];
        assert(k2@ =~= lit_fileindex());
        let k3 = vec![120u8, 114, 101, 115];
        assert(k3@ =~= lit_xres());
        let keystamp = match extra_value(extra, k1.as_slice()) {
            Some(v) => v,
            None => return None,
        };
        let fileindex = match extra_value(extra, k2.as_slice()) {
            Some(v) => v,
            None => return None,
        };
        let xres = match extra_value(extra, k3.as_slice()) {
            Some(v) => v,
            None => return None,
        };
        Some(FileFetchExtra { keystamp, fileindex, xres })
    }
}

/// The 16-bit static range of a hash: its first two bytes, big-endian.
pub open spec fn range_of(hash: Seq<u8>) -> int {
    hash[0] * 256 + hash[1]
}

/// Whether a file request passes: its file id is a wire name, its pairs hold the three keys,
/// the hash lies in a served static range, and the keystamp `{time}-{hash part}` holds for
/// the digest of the time, the file id and the client key.
pub open spec fn file_fetch_accepted(
    file_id: Seq<u8>,
    extra: Seq<u8>,
    now: u64,
    key: Seq<u8>,
    ranges: Set<u16>,
) -> bool {
    let ex = before_slash(extra);
    &&& parse_wire_name(file_id) is Some
    &&& extra_lookup(ex, lit_keystamp()) is Some
    &&& extra_lookup(ex, lit_fileindex()) is Some
    &&& extra_lookup(ex, lit_xres()) is Some
    &&& ranges.contains(range_of(parse_wire_name(file_id)->0.hash) as u16)
    &&& match split_once(extra_lookup(ex, lit_keystamp())->0, 45) {
        Some((t, hp)) => {
            &&& parse_uint(t, u64::MAX as nat) is Some
            &&& keystamp_holds(
                now,
                parse_uint(t, u64::MAX as nat)->0 as u64,
                hex_of(sha1_of(join_dash(file_fetch_elements(t, file_id, key)))),
                hp,
            )
        },
        None => false,
    }
}

/// An authorised file request.
pub struct FileRequest {
    pub file: CacheFile,
    pub fileindex: Vec<u8>,
    pub xres: Vec<u8>,
}

/// Decides a file request `/h/{file_id}/{extra}` at time `now` (Unix seconds).
pub fn authorize_file_fetch(
    file_id: &[u8],
    extra: &[u8],
    now: u64,
    key: &[u8],
    ranges: &std::collections::HashSet<u16>,
) -> (r: Result<FileRequest, Error>)
    ensures
        r is Ok <==> file_fetch_accepted(file_id@, extra@, now, key@, ranges@),
        r matches Ok(req) ==> {
            &&& parse_wire_name(file_id@) == Some(req.file@)
            &&& req.file.wf()
            &&& extra_lookup(before_slash(extra@), lit_fileindex()) == Some(req.fileindex@)
            &&& extra_lookup(before_slash(extra@), lit_xres()) == Some(req.xres@)
        },
        r matches Err(e) ==> e == Error::BadRequest,
{
    let ex = strip_after_slash(extra);
    let file = match CacheFile::from_wire_bytes(file_id) {
        Ok(f) => f,
        Err(_) => return Err(Error::BadRequest),
    };
    let data = match FileFetchExtra::from_path_parts(ex.as_slice()) {
        Some(d) => d,
        None => return Err(Error::BadRequest),
    };
    let range = file.static_range();
    if !ranges.contains(&range) {
        return Err(Error::BadRequest);
    }
    let ks = data.keystamp.as_slice();
    let dash = match find_first(ks, 45) {
        Some(i) => i,
        None => return Err(Error::BadRequest),
    };
    let time_str = copy_range(ks, 0, dash);
    let n = ks.len();
    let hash_part = copy_range(ks, dash + 1, n);
    let time = match parse_uint_bytes(time_str.as_slice(), u64::MAX) {
        Some(t) => t,
        None => return Err(Error::BadRequest),
    };
    let digest = file_fetch_digest(time_str.as_slice(), file_id, key);
    if !keystamp_matches(now, time, digest.as_slice(), hash_part.as_slice()) {
        return Err(Error::BadRequest);
    }
    Ok(FileRequest { file, fileindex: data.fileindex, xres: data.xres })
}

} // verus!

verus! {

pub open spec fn lit_speed_test() -> Seq<u8> {
    seq![115u8, 112, 101, 101, 100, 95, 116, 101, 115, 116]
}

pub open spec fn lit_still_alive() -> Seq<u8> {
    seq![115u8, 116, 105, 108, 108, 95, 97, 108, 105, 118, 101]
}

pub open spec fn lit_threaded_proxy_test() -> Seq<u8> {
    seq![116u8, 104, 114, 101, 97, 100, 101, 100, 95, 112, 114, 111, 120, 121, 95, 116, 101, 115, 116]
}

pub open spec fn lit_refresh_settings() -> Seq<u8> {
    seq![114u8, 101, 102, 114, 101, 115, 104, 95, 115, 101, 116, 116, 105, 110, 103, 115]
}

pub open spec fn lit_refresh_certs() -> Seq<u8> {
    seq![114u8, 101, 102, 114, 101, 115, 104, 95, 99, 101, 114, 116, 115]
}

pub open spec fn lit_start_downloader() -> Seq<u8> {
    seq![115u8, 116, 97, 114, 116, 95, 100, 111, 119, 110, 108, 111, 97, 100, 101, 114]
}

pub open spec fn lit_testsize() -> Seq<u8> {
    seq![116u8, 101, 115, 116, 115, 105, 122, 101]
}

pub open spec fn lit_testcount() -> Seq<u8> {
    seq![116u8, 101, 115, 116, 99, 111, 117, 110, 116]
}

pub open spec fn lit_testtime() -> Seq<u8> {
    seq![116u8, 101, 115, 116, 116, 105, 109, 101]
}

pub open spec fn lit_testkey() -> Seq<u8> {
    seq![116u8, 101, 115, 116, 107, 101, 121]
}

pub open spec fn lit_hostname() -> Seq<u8> {
    seq![104u8, 111, 115, 116, 110, 97, 109, 101]
}

pub open spec fn lit_port() -> Seq<u8> {
    seq![112u8, 111, 114, 116]
}

pub open spec fn lit_protocol() -> Seq<u8> {
    seq![112u8, 114, 111, 116, 111, 99, 111, 108]
}

/// Reply to the `still_alive` command.
pub const STILL_ALIVE: &'static str = "I feel FANTASTIC and I'm still alive";

/// Speed-test size used where a command names none that parses.
pub const DEFAULT_TEST_SIZE: usize = 1000000;

/// Where and how to run a threaded proxy test.
pub struct ProxyTest {
    pub hostname: Vec<u8>,
    pub port: Vec<u8>,
    pub testsize: Vec<u8>,
    pub testtime: Vec<u8>,
    pub testkey: Vec<u8>,
    pub testcount: usize,
    pub protocol: Option<Vec<u8>>,
}

/// What an authenticated server command asks for.
pub enum Command {
    SpeedTest(SpeedTest),
    StillAlive,
    ThreadedProxyTest(ProxyTest),
    RefreshSettings,
    RefreshCerts,
    StartDownloader,
}

/// The parameters of a threaded proxy test, where all the required ones are present.
pub open spec fn proxy_test_present(extra: Seq<u8>) -> bool {
    &&& extra_lookup(extra, lit_hostname()) is Some
    &&& extra_lookup(extra, lit_port()) is Some
    &&& extra_lookup(extra, lit_testsize()) is Some
    &&& extra_lookup(extra, lit_testtime()) is Some
    &&& extra_lookup(extra, lit_testkey()) is Some
    &&& extra_lookup(extra, lit_testcount()) is Some
    &&& parse_uint(extra_lookup(extra, lit_testcount())->0, usize::MAX as nat) is Some
}

/// One of the commands that the node knows.
pub open spec fn known_command(c: Seq<u8>) -> bool {
    c == lit_speed_test() || c == lit_still_alive() || c == lit_threaded_proxy_test() || c
        == lit_refresh_settings() || c == lit_refresh_certs() || c == lit_start_downloader()
}

fn lit(v: Vec<u8>) -> (r: Vec<u8>)
    ensures
        r == v,
{
    v
}

fn required(extra: &[u8], key: Vec<u8>) -> (r: Result<Vec<u8>, Error>)
    ensures
        r matches Ok(v) ==> extra_lookup(extra@, key@) == Some(v@),
        r is Err ==> extra_lookup(extra@, key@) is None,
        r matches Err(e) ==> e == Error::BadRequest,
{
    match extra_value(extra, key.as_slice()) {
        Some(v) => Ok(v),
        None => Err(Error::BadRequest),
    }
}

impl ProxyTest {
    /// Reads the parameters of a threaded proxy test from a command's `extra`.
    pub fn from_extra(extra: &[u8]) -> (r: Result<ProxyTest, Error>)
        ensures
            r is Ok <==> proxy_test_present(extra@),
            r matches Ok(p) ==> {
                &&& extra_lookup(extra@, lit_hostname()) == Some(p.hostname@)
                &&& extra_lookup(extra@, lit_port()) == Some(p.port@)
                &&& extra_lookup(extra@, lit_testsize()) == Some(p.testsize@)
                &&& extra_lookup(extra@, lit_testtime()) == Some(p.testtime@)
                &&& extra_lookup(extra@, lit_testkey()) == Some(p.testkey@)
                &&& parse_uint(extra_lookup(extra@, lit_testcount())->0, usize::MAX as nat) == Some(
                    p.testcount as nat,
                )
                &&& match extra_lookup(extra@, lit_protocol()) {
                    Some(v) => p.protocol matches Some(q) && q@ == v,
                    None => p.protocol is None,
                }
            },
            r matches Err(e) ==> e == Error::BadRequest,
    {
        let k = vec![104u8, 111, 115, 116, 110, 97, 109, 101];
        assert(k@ =~= lit_hostname());
        let hostname = required(extra, k)?;
        let k = vec![112u8, 111, 114, 116];
        assert(k@ =~= lit_port());
        let port = required(extra, k)?;
        let k = vec![116u8, 101, 115, 116, 115, 105, 122, 101];
        assert(k@ =~= lit_testsize());
        let testsize = required(extra, k)?;
        let k = vec![116u8, 101, 115, 116, 116, 105, 109, 101];
        assert(k@ =~= lit_testtime());
        let testtime = required(extra, k)?;
        let k = vec![116u8, 101, 115, 116, 107, 101, 121];
        assert(k@ =~= lit_testkey());
        let testkey = required(extra, k)?;
        let k = vec![116u8, 101, 115, 116, 99, 111, 117, 110, 116];
        assert(k@ =~= lit_testcount());
        let count = required(extra, k)?;
        let testcount = match parse_uint_bytes(count.as_slice(), usize::MAX as u64) {
            Some(n) => n as usize,
            None => return Err(Error::BadRequest),
        };
        let k = vec![112u8, 114, 111, 116, 111, 99, 111, 108];
        assert(k@ =~= lit_protocol());
        let protocol = extra_value(extra, k.as_slice());
        Ok(ProxyTest { hostname, port, testsize, testtime, testkey, testcount, protocol })
    }
}

/// Size of the speed test that a command's `extra` asks for.
pub open spec fn test_size(extra: Seq<u8>) -> usize {
    match extra_lookup(extra, lit_testsize()) {
        Some(v) => match parse_uint(v, usize::MAX as nat) {
            Some(n) => n as usize,
            None => DEFAULT_TEST_SIZE,
        },
        None => DEFAULT_TEST_SIZE,
    }
}

/// Whether a server command passes: its time lies within the window of `now` and its key
/// (up to any `/`) is the digest of the command, its argument, the client id, the time and
/// the client key.
pub open spec fn command_accepted(
    command: Seq<u8>,
    extra: Seq<u8>,
    time: u64,
    key: Seq<u8>,
    now: u64,
    client_id: u32,
    client_key: Seq<u8>,
) -> bool {
    command_holds(
        now,
        time,
        before_slash(key),
        hex_of(
            sha1_of(join_dash(server_command_elements(command, extra, client_id, time, client_key))),
        ),
    )
}

/// Decides a server command `/servercmd/{command}/{extra}/{time}/{key}` at time `now`.
pub fn server_command(
    command: &[u8],
    extra: &[u8],
    time: u64,
    key: &[u8],
    now: u64,
    client_id: u32,
    client_key: &[u8],
) -> (r: Result<Command, Error>)
    ensures
        r is Ok <==> command_accepted(command@, extra@, time, key@, now, client_id, client_key@)
            && known_command(command@) && (command@ == lit_threaded_proxy_test()
            ==> proxy_test_present(extra@)),
        r matches Err(e) ==> e == Error::BadRequest,
        r matches Ok(c) ==> match c {
            Command::SpeedTest(t) => command@ == lit_speed_test() && t.total == test_size(extra@)
                && t.to_fill == t.total,
            Command::StillAlive => command@ == lit_still_alive(),
            Command::ThreadedProxyTest(_) => command@ == lit_threaded_proxy_test(),
            Command::RefreshSettings => command@ == lit_refresh_settings(),
            Command::RefreshCerts => command@ == lit_refresh_certs(),
            Command::StartDownloader => command@ == lit_start_downloader(),
        },
{
    let key = strip_after_slash(key);
    let digest = server_command_digest(command, extra, client_id, time, client_key);
    if !command_matches(now, time, key.as_slice(), digest.as_slice()) {
        return Err(Error::BadRequest);
    }
    let c1 = lit(vec![115u8, 112, 101, 101, 100, 95, 116, 101, 115, 116]);
    assert(c1@ =~= lit_speed_test());
    let c2 = lit(vec![115u8, 116, 105, 108, 108, 95, 97, 108, 105, 118, 101]);
    assert(c2@ =~= lit_still_alive());
    let c3 = lit(vec![116u8, 104, 114, 101, 97, 100, 101, 100, 95, 112, 114, 111, 120, 121, 95, 116, 101, 115, 116]);
    assert(c3@ =~= lit_threaded_proxy_test());
    let c4 = lit(vec![114u8, 101, 102, 114, 101, 115, 104, 95, 115, 101, 116, 116, 105, 110, 103, 115]);
    assert(c4@ =~= lit_refresh_settings());
    let c5 = lit(vec![114u8, 101, 102, 114, 101, 115, 104, 95, 99, 101, 114, 116, 115]);
    assert(c5@ =~= lit_refresh_certs());
    let c6 = lit(vec![115u8, 116, 97, 114, 116, 95, 100, 111, 119, 110, 108, 111, 97, 100, 101, 114]);
    assert(c6@ =~= lit_start_downloader());
    if bytes_eq(command, c1.as_slice()) {
        let k = vec![116u8, 101, 115, 116, 115, 105, 122, 101];
        assert(k@ =~= lit_testsize());
        let size = match extra_value(extra, k.as_slice()) {
            Some(v) => match parse_uint_bytes(v.as_slice(), usize::MAX as u64) {
                Some(n) => n as usize,
                None => DEFAULT_TEST_SIZE,
            },
            None => DEFAULT_TEST_SIZE,
        };
        Ok(Command::SpeedTest(SpeedTest::new(size)))
    } else if bytes_eq(command, c2.as_slice()) {
        Ok(Command::StillAlive)
    } else if bytes_eq(command, c3.as_slice()) {
        let p = ProxyTest::from_extra(extra)?;
        Ok(Command::ThreadedProxyTest(p))
    } else if bytes_eq(command, c4.as_slice()) {
        Ok(Command::RefreshSettings)
    } else if bytes_eq(command, c5.as_slice()) {
        Ok(Command::RefreshCerts)
    } else if bytes_eq(command, c6.as_slice()) {
        Ok(Command::StartDownloader)
    } else {
        Err(Error::BadRequest)
    }
}

/// Whether a speed-test request carries the digest for its size, time and the client.
pub open spec fn speed_test_accepted(
    size: u64,
    time: Seq<u8>,
    key: Seq<u8>,
    client_id: u32,
    client_key: Seq<u8>,
) -> bool {
    key == hex_of(sha1_of(concat(speed_test_elements(size, time, client_id, client_key))))
}

/// Decides a speed-test request `/t/{size}/{time}/{key}/...`: a body of `size` zero bytes
/// where the key holds, else none.
pub fn speed_test(size: usize, time: &[u8], key: &[u8], client_id: u32, client_key: &[u8]) -> (r:
    Option<SpeedTest>)
    ensures
        r is Some <==> speed_test_accepted(size as u64, time@, key@, client_id, client_key@),
        r matches Some(t) ==> t.total == size && t.to_fill == size,
{
    let digest = speed_test_digest(size as u64, time, client_id, client_key);
    if constant_time_eq(digest.as_slice(), key) {
        Some(SpeedTest::new(size))
    } else {
        None
    }
}

} // verus!
