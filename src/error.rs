use vstd::prelude::*;

verus! {

/// What can go wrong while serving or fetching.
#[derive(Debug, Clone, Copy, PartialEq, Eq, Structural)]
pub enum Error {
    IO,
    ParseInt,
    Hyper,
    OpenSSL,
    SSL,
    BadResponse,
    BadRequest,
    NotFound,
    UnsupportedProtocol,
    InvalidUri,
    IncompleteCertFile,
    Infallible,
}

impl Error {
    /// HTTP status code served for the error.
    pub fn into_status(&self) -> (r: u16)
        ensures
            *self == Error::BadRequest ==> r == 400,
            *self == Error::NotFound ==> r == 404,
            *self != Error::BadRequest && *self != Error::NotFound ==> r == 500,
    {
        match self {
            Error::BadRequest => 400,
            Error::NotFound => 404,
            _ => 500,
        }
    }
}

} // verus!
