//! An illustrative custom error kind showing how a domain error is turned
//! into an HTTP response. Nothing on a live request path constructs it; it
//! stands as a pattern sample only.

use vstd::prelude::*;

verus! {

/// The sample error: one demonstration variant.
#[derive(Clone, Copy, PartialEq, Eq, Structural, Debug)]
pub enum ApiError {
    CustomOne,
}

impl ApiError {
    /// The demonstration variant maps to an internal-server-error status.
    pub fn status_code(&self) -> (r: u16)
        ensures
            r == 500,
    {
        match self {
            ApiError::CustomOne => 500,
        }
    }

    /// The demonstration response carries no body.
    pub fn error_response(&self) -> (r: String)
        ensures
            r@ == Seq::<char>::empty(),
    {
        String::new()
    }
}

} // verus!
