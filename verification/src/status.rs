//! The outcomes the request handlers report, one per HTTP status they use.
use vstd::prelude::*;

verus! {

/// Why a request was refused.
#[derive(Debug, Clone, Copy, PartialEq, Eq, Structural)]
pub enum Refusal {
    /// 400
    BadRequest,
    /// 401
    Unauthorized,
    /// 403
    Forbidden,
    /// 404
    NotFound,
    /// 409
    Conflict,
    /// 413
    PayloadTooLarge,
    /// 415
    UnsupportedMediaType,
    /// 416
    RangeNotSatisfiable,
    /// 500
    Internal,
}

impl Refusal {
    /// The HTTP status code of the refusal.
    pub fn code(&self) -> (r: u16)
        ensures
            r == refusal_code(*self),
    {
        match self {
            Refusal::BadRequest => 400,
            Refusal::Unauthorized => 401,
            Refusal::Forbidden => 403,
            Refusal::NotFound => 404,
            Refusal::Conflict => 409,
            Refusal::PayloadTooLarge => 413,
            Refusal::UnsupportedMediaType => 415,
            Refusal::RangeNotSatisfiable => 416,
            Refusal::Internal => 500,
        }
    }
}

pub open spec fn refusal_code(r: Refusal) -> u16 {
    match r {
        Refusal::BadRequest => 400,
        Refusal::Unauthorized => 401,
        Refusal::Forbidden => 403,
        Refusal::NotFound => 404,
        Refusal::Conflict => 409,
        Refusal::PayloadTooLarge => 413,
        Refusal::UnsupportedMediaType => 415,
        Refusal::RangeNotSatisfiable => 416,
        Refusal::Internal => 500,
    }
}

} // verus!
