//! Errors that a client sees.
use crate::text::{cat5, decimal, decimal_text};
use vstd::prelude::*;

verus! {

/// The `code` of a client-facing error. The wire spelling is the variant name.
#[derive(Debug, Clone, Copy, PartialEq, Eq, Structural)]
pub enum ErrorCode {
    AuthenticationFailed,
    ResourceNotFound,
    InternalError,
    InvalidQuery,
    InvalidIndex,
    InvalidIndexName,
    InvalidRequest,
    InvalidDocuments,
    InvalidAlias,
    InvalidSynonymMap,
    InvalidKnowledgeSource,
    InvalidKnowledgeBase,
    IndexAlreadyExists,
    SynonymMapAlreadyExists,
    AliasAlreadyExists,
    KnowledgeSourceAlreadyExists,
    KnowledgeBaseAlreadyExists,
    UnsupportedQuery,
    UnsupportedAction,
    ApiVersionMissing,
    ApiVersionUnsupported,
}

impl ErrorCode {
    /// The wire spelling of the code.
    pub open spec fn name(self) -> Seq<char> {
        match self {
            ErrorCode::AuthenticationFailed => "AuthenticationFailed"@,
            ErrorCode::ResourceNotFound => "ResourceNotFound"@,
            ErrorCode::InternalError => "InternalError"@,
            ErrorCode::InvalidQuery => "InvalidQuery"@,
            ErrorCode::InvalidIndex => "InvalidIndex"@,
            ErrorCode::InvalidIndexName => "InvalidIndexName"@,
            ErrorCode::InvalidRequest => "InvalidRequest"@,
            ErrorCode::InvalidDocuments => "InvalidDocuments"@,
            ErrorCode::InvalidAlias => "InvalidAlias"@,
            ErrorCode::InvalidSynonymMap => "InvalidSynonymMap"@,
            ErrorCode::InvalidKnowledgeSource => "InvalidKnowledgeSource"@,
            ErrorCode::InvalidKnowledgeBase => "InvalidKnowledgeBase"@,
            ErrorCode::IndexAlreadyExists => "IndexAlreadyExists"@,
            ErrorCode::SynonymMapAlreadyExists => "SynonymMapAlreadyExists"@,
            ErrorCode::AliasAlreadyExists => "AliasAlreadyExists"@,
            ErrorCode::KnowledgeSourceAlreadyExists => "KnowledgeSourceAlreadyExists"@,
            ErrorCode::KnowledgeBaseAlreadyExists => "KnowledgeBaseAlreadyExists"@,
            ErrorCode::UnsupportedQuery => "UnsupportedQuery"@,
            ErrorCode::UnsupportedAction => "UnsupportedAction"@,
            ErrorCode::ApiVersionMissing => "ApiVersionMissing"@,
            ErrorCode::ApiVersionUnsupported => "ApiVersionUnsupported"@,
        }
    }

    pub fn as_str(self) -> (r: &'static str)
        ensures
            r@ == self.name(),
    {
        match self {
            ErrorCode::AuthenticationFailed => "AuthenticationFailed",
            ErrorCode::ResourceNotFound => "ResourceNotFound",
            ErrorCode::InternalError => "InternalError",
            ErrorCode::InvalidQuery => "InvalidQuery",
            ErrorCode::InvalidIndex => "InvalidIndex",
            ErrorCode::InvalidIndexName => "InvalidIndexName",
            ErrorCode::InvalidRequest => "InvalidRequest",
            ErrorCode::InvalidDocuments => "InvalidDocuments",
            ErrorCode::InvalidAlias => "InvalidAlias",
            ErrorCode::InvalidSynonymMap => "InvalidSynonymMap",
            ErrorCode::InvalidKnowledgeSource => "InvalidKnowledgeSource",
            ErrorCode::InvalidKnowledgeBase => "InvalidKnowledgeBase",
            ErrorCode::IndexAlreadyExists => "IndexAlreadyExists",
            ErrorCode::SynonymMapAlreadyExists => "SynonymMapAlreadyExists",
            ErrorCode::AliasAlreadyExists => "AliasAlreadyExists",
            ErrorCode::KnowledgeSourceAlreadyExists => "KnowledgeSourceAlreadyExists",
            ErrorCode::KnowledgeBaseAlreadyExists => "KnowledgeBaseAlreadyExists",
            ErrorCode::UnsupportedQuery => "UnsupportedQuery",
            ErrorCode::UnsupportedAction => "UnsupportedAction",
            ErrorCode::ApiVersionMissing => "ApiVersionMissing",
            ErrorCode::ApiVersionUnsupported => "ApiVersionUnsupported",
        }
    }
}

/// A client-facing error: an HTTP status, a code, and a message.
#[derive(Debug, PartialEq)]
pub struct ApiError {
    pub status: u16,
    pub code: ErrorCode,
    pub message: String,
}

/// The mathematical value of an [`ApiError`].
pub struct ApiErrorV {
    pub status: u16,
    pub code: ErrorCode,
    pub message: Seq<char>,
}

impl View for ApiError {
    type V = ApiErrorV;

    open spec fn view(&self) -> ApiErrorV {
        ApiErrorV { status: self.status, code: self.code, message: self.message@ }
    }
}

pub open spec fn bad_request_v(code: ErrorCode, message: Seq<char>) -> ApiErrorV {
    ApiErrorV { status: 400, code, message }
}

pub open spec fn invalid_query_v(message: Seq<char>) -> ApiErrorV {
    bad_request_v(ErrorCode::InvalidQuery, message)
}

pub open spec fn invalid_index_v(message: Seq<char>) -> ApiErrorV {
    bad_request_v(ErrorCode::InvalidIndex, message)
}

pub open spec fn not_found_v(message: Seq<char>) -> ApiErrorV {
    ApiErrorV { status: 404, code: ErrorCode::ResourceNotFound, message }
}

pub open spec fn conflict_v(code: ErrorCode, message: Seq<char>) -> ApiErrorV {
    ApiErrorV { status: 409, code, message }
}

pub open spec fn internal_v(message: Seq<char>) -> ApiErrorV {
    ApiErrorV { status: 500, code: ErrorCode::InternalError, message }
}

/// A result without a value.
pub open spec fn unit_result(r: Result<(), ApiError>) -> Result<(), ApiErrorV> {
    match r {
        Ok(()) => Ok(()),
        Err(e) => Err(e@),
    }
}

/// The reason phrase of the statuses that errors have.
pub open spec fn reason(status: u16) -> Seq<char> {
    if status == 400 {
        "400 Bad Request"@
    } else if status == 401 {
        "401 Unauthorized"@
    } else if status == 404 {
        "404 Not Found"@
    } else if status == 409 {
        "409 Conflict"@
    } else if status == 500 {
        "500 Internal Server Error"@
    } else {
        decimal(status as nat)
    }
}

impl ApiError {
    pub fn authentication_failed(message: &str) -> (r: ApiError)
        ensures
            r@ == (ApiErrorV {
                status: 401,
                code: ErrorCode::AuthenticationFailed,
                message: message@,
            }),
    {
        ApiError {
            status: 401,
            code: ErrorCode::AuthenticationFailed,
            message: message.to_owned(),
        }
    }

    pub fn bad_request(code: ErrorCode, message: &str) -> (r: ApiError)
        ensures
            r@ == bad_request_v(code, message@),
    {
        ApiError { status: 400, code, message: message.to_owned() }
    }

    pub fn invalid_query(message: &str) -> (r: ApiError)
        ensures
            r@ == invalid_query_v(message@),
    {
        ApiError::bad_request(ErrorCode::InvalidQuery, message)
    }

    pub fn invalid_index(message: &str) -> (r: ApiError)
        ensures
            r@ == invalid_index_v(message@),
    {
        ApiError::bad_request(ErrorCode::InvalidIndex, message)
    }

    pub fn not_found(message: &str) -> (r: ApiError)
        ensures
            r@ == not_found_v(message@),
    {
        ApiError { status: 404, code: ErrorCode::ResourceNotFound, message: message.to_owned() }
    }

    pub fn conflict(code: ErrorCode, message: &str) -> (r: ApiError)
        ensures
            r@ == conflict_v(code, message@),
    {
        ApiError { status: 409, code, message: message.to_owned() }
    }

    pub fn unsupported(code: ErrorCode, message: &str) -> (r: ApiError)
        ensures
            r@ == bad_request_v(code, message@),
    {
        ApiError { status: 400, code, message: message.to_owned() }
    }

    pub fn internal(message: &str) -> (r: ApiError)
        ensures
            r@ == internal_v(message@),
    {
        ApiError { status: 500, code: ErrorCode::InternalError, message: message.to_owned() }
    }

    /// The error as one line of text.
    pub fn to_text(&self) -> (r: String)
        ensures
            r@ == reason(self@.status) + " ("@ + self@.code.name() + "): "@ + self@.message,
    {
        let status = if self.status == 400 {
            "400 Bad Request".to_owned()
        } else if self.status == 401 {
            "401 Unauthorized".to_owned()
        } else if self.status == 404 {
            "404 Not Found".to_owned()
        } else if self.status == 409 {
            "409 Conflict".to_owned()
        } else if self.status == 500 {
            "500 Internal Server Error".to_owned()
        } else {
            decimal_text(self.status as u64)
        };
        cat5(status.as_str(), " (", self.code.as_str(), "): ", self.message.as_str())
    }
}

} // verus!
