//! HTTP status codes that the backend answers with.

use vstd::prelude::*;

verus! {

/// An HTTP status.
#[derive(Clone, Copy, Debug, PartialEq, Eq, Structural)]
pub enum StatusCode {
    Success,
    Created,
    Accepted,
    NoContent,
    BadRequest,
    NotFound,
    PayloadTooLarge,
    InternalServerError,
}

impl StatusCode {
    /// The number of a status.
    pub open spec fn number(self) -> u16 {
        match self {
            StatusCode::Success => 200,
            StatusCode::Created => 201,
            StatusCode::Accepted => 202,
            StatusCode::NoContent => 204,
            StatusCode::BadRequest => 400,
            StatusCode::NotFound => 404,
            StatusCode::PayloadTooLarge => 413,
            StatusCode::InternalServerError => 500,
        }
    }

    /// The number of a status.
    pub fn as_u16(&self) -> (number: u16)
        ensures
            number == self.number(),
    {
        match self {
            StatusCode::Success => 200,
            StatusCode::Created => 201,
            StatusCode::Accepted => 202,
            StatusCode::NoContent => 204,
            StatusCode::BadRequest => 400,
            StatusCode::NotFound => 404,
            StatusCode::PayloadTooLarge => 413,
            StatusCode::InternalServerError => 500,
        }
    }
}

/// Different statuses have different numbers, in the hundred of their class.
pub proof fn lemma_status_numbers(a: StatusCode, b: StatusCode)
    ensures
        a.number() == b.number() ==> a == b,
        200 <= a.number() < 300 <==> a == StatusCode::Success || a == StatusCode::Created || a
            == StatusCode::Accepted || a == StatusCode::NoContent,
        400 <= a.number() < 500 <==> a == StatusCode::BadRequest || a == StatusCode::NotFound || a
            == StatusCode::PayloadTooLarge,
        500 <= a.number() < 600 <==> a == StatusCode::InternalServerError,
{
}

} // verus!
