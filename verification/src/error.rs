//! The error taxonomy of the subsystem's entry points.
//!
//! Validation errors — a bad route, a malformed request — are client
//! faults, rejected before any I/O. Store-transaction and
//! detection-provider errors are dependency faults, carried verbatim as
//! text and reported as internal conditions. The mapping to a response
//! status and wire error type is fixed here; turning it into an actual
//! HTTP response is the surrounding process's duty.

use vstd::prelude::*;
use vstd::string::StringExecFns;

verus! {

/// What went wrong while serving a request.
#[derive(Debug)]
pub enum Error {
    /// No route matches the requested path.
    InvalidRoute { route: String },
    /// The request is malformed: wrong method, bad body, invalid
    /// identifier.
    InvalidRequest { info: String },
    /// An internal failure of this system.
    InternalError { info: String },
    /// The persistent store refused or failed a transaction; prior
    /// batches of the same operation may already be applied.
    StoreError { info: String },
    /// The label-detection provider failed; carried through unchanged.
    ProviderError { info: String },
}

/// The response status an error maps to: a missing route is not-found, a
/// malformed request a client fault, everything else an internal error.
pub open spec fn status_code_of(e: Error) -> u16 {
    match e {
        Error::InvalidRoute { .. } => 404,
        Error::InvalidRequest { .. } => 400,
        _ => 500,
    }
}

/// The wire error type an error reports under.
pub open spec fn error_type_of(e: Error) -> Seq<char> {
    match e {
        Error::InvalidRoute { .. } => "invalid_route"@,
        Error::InvalidRequest { .. } => "invalid_request"@,
        _ => "internal_error"@,
    }
}

impl Error {
    /// The error for a path no route matches.
    pub fn invalid_route(route: String) -> (e: Error)
        ensures
            e == (Error::InvalidRoute { route }),
    {
        Error::InvalidRoute { route }
    }

    /// The error for a malformed request.
    pub fn invalid_request(info: String) -> (e: Error)
        ensures
            e == (Error::InvalidRequest { info }),
    {
        Error::InvalidRequest { info }
    }

    /// The error for an internal failure.
    pub fn internal_error(info: String) -> (e: Error)
        ensures
            e == (Error::InternalError { info }),
    {
        Error::InternalError { info }
    }

    /// The response status this error maps to.
    pub fn status_code(&self) -> (c: u16)
        ensures
            c == status_code_of(*self),
    {
        match self {
            Error::InvalidRoute { .. } => 404,
            Error::InvalidRequest { .. } => 400,
            Error::InternalError { .. } => 500,
            Error::StoreError { .. } => 500,
            Error::ProviderError { .. } => 500,
        }
    }

    /// The wire error type this error reports under.
    pub fn error_type(&self) -> (t: String)
        ensures
            t@ == error_type_of(*self),
    {
        match self {
            Error::InvalidRoute { .. } => String::from_str("invalid_route"),
            Error::InvalidRequest { .. } => String::from_str("invalid_request"),
            Error::InternalError { .. } => String::from_str("internal_error"),
            Error::StoreError { .. } => String::from_str("internal_error"),
            Error::ProviderError { .. } => String::from_str("internal_error"),
        }
    }

    /// The detail an error carries: the offending route or the fault's
    /// description.
    pub fn info(&self) -> (s: &String)
        ensures
            s@ == match *self {
                Error::InvalidRoute { route } => route@,
                Error::InvalidRequest { info } => info@,
                Error::InternalError { info } => info@,
                Error::StoreError { info } => info@,
                Error::ProviderError { info } => info@,
            },
    {
        match self {
            Error::InvalidRoute { route } => route,
            Error::InvalidRequest { info } => info,
            Error::InternalError { info } => info,
            Error::StoreError { info } => info,
            Error::ProviderError { info } => info,
        }
    }
}

} // verus!
