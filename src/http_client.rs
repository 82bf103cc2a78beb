//! How failures of an HTTP exchange are classified.

use vstd::prelude::*;

verus! {

/// The status of a failed response.
#[derive(Clone, Copy, PartialEq, Eq, Debug, Structural)]
pub enum ErrorStatus {
    NotFound,
    InternalServer,
    Other(u16),
}

/// A failed exchange.
#[derive(Clone, Copy, PartialEq, Eq, Debug, Structural)]
pub enum Error {
    /// The request's URL could not be built.
    InvalidURL,
    /// The server answered with an error status.
    Network(ErrorStatus),
    /// Anything else.
    Unknown,
    /// The body is not the JSON that was expected.
    JsonDeserialize,
}

impl ErrorStatus {
    /// The class of an HTTP status code.
    pub fn from(code: u16) -> (r: ErrorStatus)
        ensures
            r == (if code == 404 {
                ErrorStatus::NotFound
            } else if code == 500 {
                ErrorStatus::InternalServer
            } else {
                ErrorStatus::Other(code)
            }),
    {
        match code {
            404 => ErrorStatus::NotFound,
            500 => ErrorStatus::InternalServer,
            other => ErrorStatus::Other(other),
        }
    }
}

impl Error {
    /// The class of a failure of the HTTP client, from what the failure reports:
    /// whether it comes from an error status (and which, if known), and whether
    /// it comes from decoding the body.
    pub fn from_failure(is_status: bool, status: Option<u16>, is_decode: bool) -> (r: Error)
        ensures
            r == (if is_status {
                match status {
                    Some(code) => Error::Network(
                        if code == 404 {
                            ErrorStatus::NotFound
                        } else if code == 500 {
                            ErrorStatus::InternalServer
                        } else {
                            ErrorStatus::Other(code)
                        },
                    ),
                    None => Error::Unknown,
                }
            } else if is_decode {
                Error::JsonDeserialize
            } else {
                Error::Unknown
            }),
    {
        if is_status {
            match status {
                Some(code) => Error::Network(ErrorStatus::from(code)),
                None => Error::Unknown,
            }
        } else if is_decode {
            Error::JsonDeserialize
        } else {
            Error::Unknown
        }
    }
}

} // verus!
