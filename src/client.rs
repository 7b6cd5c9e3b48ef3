use vstd::prelude::*;

use crate::error::Error;
use crate::request::bytes_eq;

verus! {

/// How to reach an upstream server.
#[derive(Clone, Copy, Debug, PartialEq, Eq, Structural)]
pub struct ConnectTarget {
    pub tls: bool,
    pub port: u16,
}

pub open spec fn lit_http() -> Seq<u8> {
    seq![104u8, 116, 116, 112]
}

pub open spec fn lit_https() -> Seq<u8> {
    seq![104u8, 116, 116, 112, 115]
}

/// Decides how to connect for a URI with this scheme, host presence and port: `http` (the
/// default) in plain text on port 80, `https` over TLS on port 443, unless a port is given.
pub fn connection_target(scheme: Option<&[u8]>, has_host: bool, port: Option<u16>) -> (r: Result<
    ConnectTarget,
    Error,
>)
    ensures
        match scheme {
            Some(s) if s@ != lit_http() && s@ != lit_https() => r == Err::<ConnectTarget, Error>(
                Error::UnsupportedProtocol,
            ),
            _ => if !has_host {
                r == Err::<ConnectTarget, Error>(Error::InvalidUri)
            } else {
                let tls = scheme matches Some(s) && s@ == lit_https();
                r == Ok::<ConnectTarget, Error>(
                    ConnectTarget {
                        tls,
                        port: match port {
                            Some(p) => p,
                            None => if tls {
                                443
                            } else {
                                80
                            },
                        },
                    },
                )
            },
        },
{
    let http = vec![104u8, 116, 116, 112];
    assert(http@ =~= lit_http());
    let https = vec![104u8, 116, 116, 112, 115];
    assert(https@ =~= lit_https());
    let tls = match scheme {
        Some(s) => if bytes_eq(s, https.as_slice()) {
            true
        } else if bytes_eq(s, http.as_slice()) {
            false
        } else {
            return Err(Error::UnsupportedProtocol);
        },
        None => false,
    };
    if !has_host {
        return Err(Error::InvalidUri);
    }
    let port = match port {
        Some(p) => p,
        None => if tls {
            443
        } else {
            80
        },
    };
    Ok(ConnectTarget { tls, port })
}

} // verus!
