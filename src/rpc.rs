use vstd::prelude::*;

use crate::auth::{join_dash, rpc_digest, rpc_elements, sha1_of};
use crate::error::Error;
use crate::hex::hex_of;
use crate::text::{dec_of, push_dec, segments, split};

verus! {

/// Client build number sent with every request to the dispatcher.
pub const CLIENT_VER: u16 = 169;

/// Largest response body accepted from the dispatcher: 10 MiB.
pub const MAX_RESPONSE: u64 = 10485760;

/// A response body is read only where its length is known and at most [`MAX_RESPONSE`].
pub fn body_size_ok(upper: Option<u64>) -> (r: bool)
    ensures
        r == (upper matches Some(n) && n <= MAX_RESPONSE),
{
    match upper {
        Some(n) => n <= MAX_RESPONSE,
        None => false,
    }
}

pub open spec fn lit_ok() -> Seq<u8> {
    seq![79u8, 75]
}

/// The lines of a dispatcher response after its first line, which must be `OK`.
pub open spec fn response_lines(body: Seq<u8>) -> Option<Seq<Seq<u8>>> {
    let p = segments(body, 10);
    if p[0] == lit_ok() {
        Some(p.drop_first())
    } else {
        None
    }
}

/// Splits a dispatcher response into lines; the first must be `OK`, the others are returned.
pub fn parse_response(body: &[u8]) -> (r: Result<Vec<Vec<u8>>, Error>)
    ensures
        match response_lines(body@) {
            Some(lines) => r matches Ok(v) && v@.map_values(|x: Vec<u8>| x@) == lines,
            None => r == Err::<Vec<Vec<u8>>, Error>(Error::BadResponse),
        },
{
    let mut parts = split(body, 10);
    proof {
        crate::text::lemma_segments_nonempty(body@, 10);
    }
    let ghost all = parts@.map_values(|x: Vec<u8>| x@);
    assert(all[0] == parts@[0]@);
    let ok = vec![79u8, 75];
    assert(ok@ =~= lit_ok());
    if !crate::request::bytes_eq(parts[0].as_slice(), ok.as_slice()) {
        return Err(Error::BadResponse);
    }
    let _first = parts.remove(0);
    assert(parts@.map_values(|x: Vec<u8>| x@) =~= all.drop_first());
    Ok(parts)
}

/// The path and query of a dispatcher request: `/15/{endpoint}?clientbuild=169&act={act}`
/// `&add={add}&cid={id}&acttime={time}&actkey={digest}`.
pub open spec fn query_of(
    endpoint: Seq<u8>,
    act: Seq<u8>,
    add: Seq<u8>,
    client_id: u32,
    time: u64,
    digest: Seq<u8>,
) -> Seq<u8> {
    seq![47u8, 49, 53, 47] + endpoint + seq![
        63u8, 99, 108, 105, 101, 110, 116, 98, 117, 105, 108, 100, 61, 49, 54, 57, 38, 97, 99,
        116, 61,
    ] + act + seq![38u8, 97, 100, 100, 61] + add + seq![38u8, 99, 105, 100, 61] + dec_of(
        client_id as nat,
    ) + seq![38u8, 97, 99, 116, 116, 105, 109, 101, 61] + dec_of(time as nat) + seq![
        38u8, 97, 99, 116, 107, 101, 121, 61,
    ] + digest
}

fn lit(v: Vec<u8>) -> (r: Vec<u8>)
    ensures
        r == v,
{
    v
}

fn dec(n: u64) -> (r: Vec<u8>)
    ensures
        r@ == dec_of(n as nat),
{
    let mut v: Vec<u8> = Vec::new();
    push_dec(&mut v, n);
    assert(v@ =~= dec_of(n as nat));
    v
}

/// Path and query of the request `act` with argument `add`, sent at `time` to `endpoint`
/// (`rpc` or `dl`), with the digest that authenticates it.
pub fn rpc_query(endpoint: &[u8], act: &[u8], add: &[u8], client_id: u32, time: u64, key: &[u8]) -> (r:
    Vec<u8>)
    ensures
        r@ == query_of(
            endpoint@,
            act@,
            add@,
            client_id,
            time,
            hex_of(sha1_of(join_dash(rpc_elements(act@, add@, client_id, time, key@)))),
        ),
{
    let digest = rpc_digest(act, add, client_id, time, key);
    let a = lit(vec![47u8, 49, 53, 47]);
    assert(a@ =~= seq![47u8, 49, 53, 47]);
    let b = lit(
        vec![
            63u8, 99, 108, 105, 101, 110, 116, 98, 117, 105, 108, 100, 61, 49, 54, 57, 38, 97, 99,
            116, 61,
        ],
    );
    assert(b@ =~= seq![
        63u8, 99, 108, 105, 101, 110, 116, 98, 117, 105, 108, 100, 61, 49, 54, 57, 38, 97, 99,
        116, 61,
    ]);
    let c = lit(vec![38u8, 97, 100, 100, 61]);
    assert(c@ =~= seq![38u8, 97, 100, 100, 61]);
    let d = lit(vec![38u8, 99, 105, 100, 61]);
    assert(d@ =~= seq![38u8, 99, 105, 100, 61]);
    let e = lit(vec![38u8, 97, 99, 116, 116, 105, 109, 101, 61]);
    assert(e@ =~= seq![38u8, 97, 99, 116, 116, 105, 109, 101, 61]);
    let f = lit(vec![38u8, 97, 99, 116, 107, 101, 121, 61]);
    assert(f@ =~= seq![38u8, 97, 99, 116, 107, 101, 121, 61]);
    let mut out: Vec<u8> = Vec::new();
    append(&mut out, a.as_slice());
    append(&mut out, endpoint);
    append(&mut out, b.as_slice());
    append(&mut out, act);
    append(&mut out, c.as_slice());
    append(&mut out, add);
    append(&mut out, d.as_slice());
    let id = dec(client_id as u64);
    append(&mut out, id.as_slice());
    append(&mut out, e.as_slice());
    let t = dec(time);
    append(&mut out, t.as_slice());
    append(&mut out, f.as_slice());
    append(&mut out, digest.as_slice());
    out
}

fn append(out: &mut Vec<u8>, b: &[u8])
    ensures
        final(out)@ == old(out)@ + b@,
{
    let ghost base = out@;
    let mut i: usize = 0;
    while i < b.len()
        invariant
            i <= b@.len(),
            out@ =~= base + b@.subrange(0, i as int),
        decreases b@.len() - i,
    {
        out.push(b[i]);
        i = i + 1;
        assert(out@ =~= base + b@.subrange(0, i as int));
    }
    assert(b@.subrange(0, b@.len() as int) =~= b@);
}

} // verus!
