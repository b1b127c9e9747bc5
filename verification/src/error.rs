//! The errors that the operations of the library report.
use vstd::prelude::*;

use crate::auth::Capability;
use crate::json::{Json, JsonV};

verus! {

/// Why a request is not carried out.
#[derive(Debug)]
pub enum ApiError {
    /// The request itself cannot be accepted.
    Invalid { message: String },
    /// The request is at odds with what the workspace holds.
    Conflict { code: String, message: String, details: Json },
    /// What the request names does not exist.
    NotFound { code: String, reference: String },
    /// A request that is answered with a status and a code of its own.
    Public { status: u16, code: String, message: String },
    /// The credential lacks a capability.
    Capability { capability: Capability },
    /// The service is not set up for the request.
    Configuration { message: String },
    /// A fault of the service.
    Internal { message: String },
}

/// What an error says.
#[verifier::ext_equal]
pub enum ApiErrorV {
    Invalid(Seq<char>),
    Conflict(Seq<char>, Seq<char>, JsonV),
    NotFound(Seq<char>, Seq<char>),
    Public(int, Seq<char>, Seq<char>),
    Capability(Capability),
    Configuration(Seq<char>),
    Internal(Seq<char>),
}

impl View for ApiError {
    type V = ApiErrorV;

    open spec fn view(&self) -> ApiErrorV {
        match self {
            ApiError::Invalid { message } => ApiErrorV::Invalid(message@),
            ApiError::Conflict { code, message, details } => ApiErrorV::Conflict(
                code@,
                message@,
                details@,
            ),
            ApiError::NotFound { code, reference } => ApiErrorV::NotFound(code@, reference@),
            ApiError::Public { status, code, message } => ApiErrorV::Public(
                *status as int,
                code@,
                message@,
            ),
            ApiError::Capability { capability } => ApiErrorV::Capability(*capability),
            ApiError::Configuration { message } => ApiErrorV::Configuration(message@),
            ApiError::Internal { message } => ApiErrorV::Internal(message@),
        }
    }
}

impl ApiError {
    pub fn invalid(message: &str) -> (r: ApiError)
        ensures
            r@ == ApiErrorV::Invalid(message@),
    {
        ApiError::Invalid { message: message.to_owned() }
    }

    pub fn conflict(code: &str, message: &str, details: Json) -> (r: ApiError)
        ensures
            r@ == ApiErrorV::Conflict(code@, message@, details@),
    {
        ApiError::Conflict { code: code.to_owned(), message: message.to_owned(), details }
    }

    pub fn not_found(code: &str, reference: &str) -> (r: ApiError)
        ensures
            r@ == ApiErrorV::NotFound(code@, reference@),
    {
        ApiError::NotFound { code: code.to_owned(), reference: reference.to_owned() }
    }

    pub fn public(status: u16, code: &str, message: &str) -> (r: ApiError)
        ensures
            r@ == ApiErrorV::Public(status as int, code@, message@),
    {
        ApiError::Public { status, code: code.to_owned(), message: message.to_owned() }
    }

    pub fn capability(capability: Capability) -> (r: ApiError)
        ensures
            r@ == ApiErrorV::Capability(capability),
    {
        ApiError::Capability { capability }
    }

    pub fn internal(message: &str) -> (r: ApiError)
        ensures
            r@ == ApiErrorV::Internal(message@),
    {
        ApiError::Internal { message: message.to_owned() }
    }

    pub fn configuration(message: &str) -> (r: ApiError)
        ensures
            r@ == ApiErrorV::Configuration(message@),
    {
        ApiError::Configuration { message: message.to_owned() }
    }
}

/// The outcome of an operation without a result: `None` where it succeeds, the
/// error otherwise.
pub open spec fn refusal<T>(r: Result<T, ApiError>) -> Option<ApiErrorV> {
    match r {
        Ok(_) => None,
        Err(e) => Some(e@),
    }
}

}
