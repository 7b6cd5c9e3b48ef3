use vstd::prelude::*;

use crate::hex::{hex_of, slice_to_hex};
use crate::text::{dec_of, push_dec};

verus! {

/// The SHA-1 digest of a byte string.
pub uninterp spec fn sha1_of(data: Seq<u8>) -> Seq<u8>;

/// Relies on openssl::sha::sha1: the 20-byte SHA-1 digest of `data`, a function of the
/// bytes alone.
#[verifier::external_body]
fn sha1(data: &[u8]) -> (r: [u8; 20])
    ensures
        r@ == sha1_of(data@),
{
    openssl::sha::sha1(data)
}

/// The pieces joined with `-` between neighbours.
pub open spec fn join_dash(parts: Seq<Seq<u8>>) -> Seq<u8>
    decreases parts.len(),
{
    if parts.len() == 0 {
        Seq::empty()
    } else if parts.len() == 1 {
        parts[0]
    } else {
        join_dash(parts.drop_last()) + seq![45u8] + parts.last()
    }
}

/// The pieces one after another.
pub open spec fn concat(parts: Seq<Seq<u8>>) -> Seq<u8>
    decreases parts.len(),
{
    if parts.len() == 0 {
        Seq::empty()
    } else {
        concat(parts.drop_last()) + parts.last()
    }
}

pub open spec fn views(v: Seq<Vec<u8>>) -> Seq<Seq<u8>> {
    v.map_values(|x: Vec<u8>| x@)
}

fn append(out: &mut Vec<u8>, b: &[u8])
    ensures
        final(out)@ == old(out)@ + b@,
{
    let ghost base = out@;
    let mut i: usize = 0;
    while i < b.len()
        invariant
            i <= b@.len(),
            out@ =~= base + b@.subrange(0, i as int),
        decreases b@.len() - i,
    {
        out.push(b[i]);
        i = i + 1;
        assert(out@ =~= base + b@.subrange(0, i as int));
    }
    assert(b@.subrange(0, b@.len() as int) =~= b@);
}

/// Joins the pieces with `-`.
pub fn join_with_dash(parts: &Vec<Vec<u8>>) -> (r: Vec<u8>)
    ensures
        r@ == join_dash(views(parts@)),
{
    let mut out: Vec<u8> = Vec::new();
    let mut i: usize = 0;
    while i < parts.len()
        invariant
            i <= parts@.len(),
            out@ == join_dash(views(parts@.subrange(0, i as int))),
        decreases parts@.len() - i,
    {
        if i > 0 {
            out.push(45);
        }
        append(&mut out, parts[i].as_slice());
        let ghost next = views(parts@.subrange(0, i + 1));
        assert(next.drop_last() =~= views(parts@.subrange(0, i as int)));
        assert(next.last() == parts@[i as int]@);
        i = i + 1;
        assert(out@ =~= join_dash(views(parts@.subrange(0, i as int))));
    }
    assert(parts@.subrange(0, parts@.len() as int) =~= parts@);
    out
}

/// Concatenates the pieces.
pub fn concat_all(parts: &Vec<Vec<u8>>) -> (r: Vec<u8>)
    ensures
        r@ == concat(views(parts@)),
{
    let mut out: Vec<u8> = Vec::new();
    let mut i: usize = 0;
    while i < parts.len()
        invariant
            i <= parts@.len(),
            out@ == concat(views(parts@.subrange(0, i as int))),
        decreases parts@.len() - i,
    {
        append(&mut out, parts[i].as_slice());
        let ghost next = views(parts@.subrange(0, i + 1));
        assert(next.drop_last() =~= views(parts@.subrange(0, i as int)));
        i = i + 1;
    }
    assert(parts@.subrange(0, parts@.len() as int) =~= parts@);
    out
}

/// Lowercase hexadecimal SHA-1 digest of the pieces joined with `-`.
pub fn sha1_digest(data: &Vec<Vec<u8>>) -> (r: Vec<u8>)
    ensures
        r@ == hex_of(sha1_of(join_dash(views(data@)))),
{
    let joined = join_with_dash(data);
    let d = sha1(joined.as_slice());
    slice_to_hex(&d)
}

/// Lowercase hexadecimal SHA-1 digest of the pieces one after another.
pub fn sha1_hex_concat(data: &Vec<Vec<u8>>) -> (r: Vec<u8>)
    ensures
        r@ == hex_of(sha1_of(concat(views(data@)))),
{
    let joined = concat_all(data);
    let d = sha1(joined.as_slice());
    slice_to_hex(&d)
}

/// Compares two byte strings in time that depends on their lengths only.
pub fn constant_time_eq(a: &[u8], b: &[u8]) -> (r: bool)
    ensures
        r == (a@ == b@),
{
    if a.len() != b.len() {
        return false;
    }
    let mut acc: u8 = 0;
    let mut i: usize = 0;
    while i < a.len()
        invariant
            i <= a@.len(),
            a@.len() == b@.len(),
            (acc == 0) == (forall|j: int| 0 <= j < i ==> a@[j] == b@[j]),
        decreases a@.len() - i,
    {
        let x = a[i];
        let y = b[i];
        let next = acc | (x ^ y);
        assert((next == 0) == (acc == 0 && x == y)) by (bit_vector)
            requires
                next == acc | (x ^ y),
        ;
        acc = next;
        i = i + 1;
    }
    if acc == 0 {
        assert(a@ =~= b@);
        true
    } else {
        false
    }
}

/// `|now - time| <= window`.
pub open spec fn within(now: u64, time: u64, window: u64) -> bool {
    if now >= time {
        now - time <= window
    } else {
        time - now <= window
    }
}

/// Seconds a file-fetch keystamp stays valid on either side of the present.
pub const KEYSTAMP_WINDOW: u64 = 900;

/// Seconds a server command stays valid on either side of the present.
pub const COMMAND_WINDOW: u64 = 300;

/// `|now - time| <= window`.
pub fn is_within(now: u64, time: u64, window: u64) -> (r: bool)
    ensures
        r == within(now, time, window),
{
    if now >= time {
        now - time <= window
    } else {
        time - now <= window
    }
}

/// A keystamp holds where its time lies within the window of `now` and its hash part is
/// the first ten digits of the digest.
pub open spec fn keystamp_holds(now: u64, time: u64, digest: Seq<u8>, hash_part: Seq<u8>) -> bool {
    &&& within(now, time, KEYSTAMP_WINDOW)
    &&& digest.len() >= 10
    &&& hash_part == digest.subrange(0, 10)
}

/// Checks a keystamp against the digest computed for it.
pub fn keystamp_matches(now: u64, time: u64, digest: &[u8], hash_part: &[u8]) -> (r: bool)
    ensures
        r == keystamp_holds(now, time, digest@, hash_part@),
{
    if !is_within(now, time, KEYSTAMP_WINDOW) || digest.len() < 10 {
        return false;
    }
    let prefix = crate::text::copy_range(digest, 0, 10);
    constant_time_eq(prefix.as_slice(), hash_part)
}

/// The pieces whose digest authenticates a file fetch.
pub open spec fn file_fetch_elements(time: Seq<u8>, file_id: Seq<u8>, key: Seq<u8>) -> Seq<
    Seq<u8>,
> {
    seq![time, file_id, key, seq![104u8, 111, 116, 108, 105, 110, 107, 116, 104, 105, 115]]
}

/// The pieces whose digest authenticates a server command.
pub open spec fn server_command_elements(
    command: Seq<u8>,
    extra: Seq<u8>,
    client_id: u32,
    time: u64,
    key: Seq<u8>,
) -> Seq<Seq<u8>> {
    seq![
        seq![104u8, 101, 110, 116, 97, 105, 64, 104, 111, 109, 101],
        seq![115u8, 101, 114, 118, 101, 114, 99, 109, 100],
        command,
        extra,
        dec_of(client_id as nat),
        dec_of(time as nat),
        key,
    ]
}

/// The pieces, in order, whose concatenation authenticates a speed test.
pub open spec fn speed_test_elements(size: u64, time: Seq<u8>, client_id: u32, key: Seq<u8>) -> Seq<
    Seq<u8>,
> {
    seq![
        seq![
            104u8, 101, 110, 116, 97, 105, 64, 104, 111, 109, 101, 45, 115, 112, 101, 101, 100,
            116, 101, 115, 116, 45,
        ],
        dec_of(size as nat),
        seq![45u8],
        time,
        seq![45u8],
        dec_of(client_id as nat),
        seq![45u8],
        key,
    ]
}

/// The pieces whose digest authenticates a request to the dispatcher.
pub open spec fn rpc_elements(act: Seq<u8>, add: Seq<u8>, client_id: u32, time: u64, key: Seq<u8>) -> Seq<
    Seq<u8>,
> {
    seq![
        seq![104u8, 101, 110, 116, 97, 105, 64, 104, 111, 109, 101],
        act,
        add,
        dec_of(client_id as nat),
        dec_of(time as nat),
        key,
    ]
}

fn dec_bytes(n: u64) -> (r: Vec<u8>)
    ensures
        r@ == dec_of(n as nat),
{
    let mut v: Vec<u8> = Vec::new();
    push_dec(&mut v, n);
    assert(v@ =~= dec_of(n as nat));
    v
}

fn lit_hentai_at_home() -> (r: Vec<u8>)
    ensures
        r@ == seq![104u8, 101, 110, 116, 97, 105, 64, 104, 111, 109, 101],
{
    let r = vec![104u8, 101, 110, 116, 97, 105, 64, 104, 111, 109, 101];
    assert(r@ =~= seq![104u8, 101, 110, 116, 97, 105, 64, 104, 111, 109, 101]);
    r
}

/// Digest that authenticates a file fetch of `file_id` with keystamp time `time`.
pub fn file_fetch_digest(time: &[u8], file_id: &[u8], key: &[u8]) -> (r: Vec<u8>)
    ensures
        r@ == hex_of(sha1_of(join_dash(file_fetch_elements(time@, file_id@, key@)))),
{
    let tail = vec![104u8, 111, 116, 108, 105, 110, 107, 116, 104, 105, 115];
    assert(tail@ =~= seq![104u8, 111, 116, 108, 105, 110, 107, 116, 104, 105, 115]);
    let mut parts: Vec<Vec<u8>> = Vec::new();
    let piece0 = crate::text::copy_all(time);
    let piece1 = crate::text::copy_all(file_id);
    let piece2 = crate::text::copy_all(key);
    let piece3 = tail;
    let ghost g0 = piece0@;
    parts.push(piece0);
    let ghost g1 = piece1@;
    parts.push(piece1);
    let ghost g2 = piece2@;
    parts.push(piece2);
    let ghost g3 = piece3@;
    parts.push(piece3);

    assert(views(parts@)[0] == g0);
    assert(views(parts@)[1] == g1);
    assert(views(parts@)[2] == g2);
    assert(views(parts@)[3] == g3);
    assert(views(parts@) =~= file_fetch_elements(time@, file_id@, key@));
    sha1_digest(&parts)
}

/// Digest that authenticates the server command `command` with argument `extra`.
pub fn server_command_digest(
    command: &[u8],
    extra: &[u8],
    client_id: u32,
    time: u64,
    key: &[u8],
) -> (r: Vec<u8>)
    ensures
        r@ == hex_of(
            sha1_of(join_dash(server_command_elements(command@, extra@, client_id, time, key@))),
        ),
{
    let servercmd = vec![115u8, 101, 114, 118, 101, 114, 99, 109, 100];
    assert(servercmd@ =~= seq![115u8, 101, 114, 118, 101, 114, 99, 109, 100]);
    let mut parts: Vec<Vec<u8>> = Vec::new();
    let piece0 = lit_hentai_at_home();
    let piece1 = servercmd;
    let piece2 = crate::text::copy_all(command);
    let piece3 = crate::text::copy_all(extra);
    let piece4 = dec_bytes(client_id as u64);
    let piece5 = dec_bytes(time);
    let piece6 = crate::text::copy_all(key);
    let ghost g0 = piece0@;
    parts.push(piece0);
    let ghost g1 = piece1@;
    parts.push(piece1);
    let ghost g2 = piece2@;
    parts.push(piece2);
    let ghost g3 = piece3@;
    parts.push(piece3);
    let ghost g4 = piece4@;
    parts.push(piece4);
    let ghost g5 = piece5@;
    parts.push(piece5);
    let ghost g6 = piece6@;
    parts.push(piece6);

    assert(views(parts@)[0] == g0);
    assert(views(parts@)[1] == g1);
    assert(views(parts@)[2] == g2);
    assert(views(parts@)[3] == g3);
    assert(views(parts@)[4] == g4);
    assert(views(parts@)[5] == g5);
    assert(views(parts@)[6] == g6);
    assert(views(parts@) =~= server_command_elements(command@, extra@, client_id, time, key@));
    sha1_digest(&parts)
}

/// Digest that authenticates a speed test of `size` bytes.
pub fn speed_test_digest(size: u64, time: &[u8], client_id: u32, key: &[u8]) -> (r: Vec<u8>)
    ensures
        r@ == hex_of(sha1_of(concat(speed_test_elements(size, time@, client_id, key@)))),
{
    let head = vec![
        104u8, 101, 110, 116, 97, 105, 64, 104, 111, 109, 101, 45, 115, 112, 101, 101, 100, 116,
        101, 115, 116, 45,
    ];
    assert(head@ =~= seq![
        104u8, 101, 110, 116, 97, 105, 64, 104, 111, 109, 101, 45, 115, 112, 101, 101, 100, 116,
        101, 115, 116, 45,
    ]);
    let mut parts: Vec<Vec<u8>> = Vec::new();
    let piece0 = head;
    let piece1 = dec_bytes(size);
    let piece2 = vec![45u8];
    assert(piece2@ =~= seq![45u8]);
    let piece3 = crate::text::copy_all(time);
    let piece4 = vec![45u8];
    assert(piece4@ =~= seq![45u8]);
    let piece5 = dec_bytes(client_id as u64);
    let piece6 = vec![45u8];
    assert(piece6@ =~= seq![45u8]);
    let piece7 = crate::text::copy_all(key);
    let ghost g0 = piece0@;
    parts.push(piece0);
    let ghost g1 = piece1@;
    parts.push(piece1);
    let ghost g2 = piece2@;
    parts.push(piece2);
    let ghost g3 = piece3@;
    parts.push(piece3);
    let ghost g4 = piece4@;
    parts.push(piece4);
    let ghost g5 = piece5@;
    parts.push(piece5);
    let ghost g6 = piece6@;
    parts.push(piece6);
    let ghost g7 = piece7@;
    parts.push(piece7);

    assert(views(parts@)[0] == g0);
    assert(views(parts@)[1] == g1);
    assert(views(parts@)[2] == g2);
    assert(views(parts@)[3] == g3);
    assert(views(parts@)[4] == g4);
    assert(views(parts@)[5] == g5);
    assert(views(parts@)[6] == g6);
    assert(views(parts@)[7] == g7);
    assert(views(parts@) =~= speed_test_elements(size, time@, client_id, key@));
    sha1_hex_concat(&parts)
}

/// Digest that authenticates the request `act` with argument `add` to the dispatcher.
pub fn rpc_digest(act: &[u8], add: &[u8], client_id: u32, time: u64, key: &[u8]) -> (r: Vec<u8>)
    ensures
        r@ == hex_of(sha1_of(join_dash(rpc_elements(act@, add@, client_id, time, key@)))),
{
    let mut parts: Vec<Vec<u8>> = Vec::new();
    let piece0 = lit_hentai_at_home();
    let piece1 = crate::text::copy_all(act);
    let piece2 = crate::text::copy_all(add);
    let piece3 = dec_bytes(client_id as u64);
    let piece4 = dec_bytes(time);
    let piece5 = crate::text::copy_all(key);
    let ghost g0 = piece0@;
    parts.push(piece0);
    let ghost g1 = piece1@;
    parts.push(piece1);
    let ghost g2 = piece2@;
    parts.push(piece2);
    let ghost g3 = piece3@;
    parts.push(piece3);
    let ghost g4 = piece4@;
    parts.push(piece4);
    let ghost g5 = piece5@;
    parts.push(piece5);

    assert(views(parts@)[0] == g0);
    assert(views(parts@)[1] == g1);
    assert(views(parts@)[2] == g2);
    assert(views(parts@)[3] == g3);
    assert(views(parts@)[4] == g4);
    assert(views(parts@)[5] == g5);
    assert(views(parts@) =~= rpc_elements(act@, add@, client_id, time, key@));
    sha1_digest(&parts)
}

/// A server command is accepted where its time lies within the window of `now` and its key
/// equals the digest computed for it.
pub open spec fn command_holds(now: u64, time: u64, key: Seq<u8>, digest: Seq<u8>) -> bool {
    within(now, time, COMMAND_WINDOW) && key == digest
}

/// Checks a server command's key against the digest computed for it.
pub fn command_matches(now: u64, time: u64, key: &[u8], digest: &[u8]) -> (r: bool)
    ensures
        r == command_holds(now, time, key@, digest@),
{
    is_within(now, time, COMMAND_WINDOW) && constant_time_eq(key, digest)
}

} // verus!

verus! {

/// A keystamp whose time is exactly 900 seconds from `now`, on either side, is judged by its
/// hash part alone; one 901 seconds away is rejected whatever its hash part.
pub proof fn law_keystamp_window(now: u64, digest: Seq<u8>, hash_part: Seq<u8>)
    ensures
        now >= 900 ==> (keystamp_holds(now, (now - 900) as u64, digest, hash_part) <==> (
        digest.len() >= 10 && hash_part == digest.subrange(0, 10))),
        now + 900 <= u64::MAX ==> (keystamp_holds(now, (now + 900) as u64, digest, hash_part)
            <==> (digest.len() >= 10 && hash_part == digest.subrange(0, 10))),
        now >= 901 ==> !keystamp_holds(now, (now - 901) as u64, digest, hash_part),
        now + 901 <= u64::MAX ==> !keystamp_holds(now, (now + 901) as u64, digest, hash_part),
{
}

} // verus!
