//! How a failure is answered.
use crate::text::join;
use vstd::prelude::*;

verus! {

/// An error that an engine chose to answer with.
#[derive(Debug, Clone)]
pub struct HttpError {
    pub code: u16,
    pub message: String,
}

/// Why an engine did not answer.
#[derive(Debug, Clone)]
pub enum EngineError {
    /// The service has more to do than it can take; the text says so.
    ServiceOverloaded(String),
    /// The engine chose an error to answer with.
    Http(HttpError),
    /// Anything else, as text.
    Other(String),
}

/// What an error tells the client.
#[derive(Debug, Clone)]
pub struct ErrorMessage {
    pub message: String,
    pub error_type: String,
    pub code: u16,
}

/// An error and the status that it is answered with.
#[derive(Debug, Clone)]
pub struct ErrorResponse {
    pub status: u16,
    pub body: ErrorMessage,
}

pub const BAD_REQUEST: u16 = 400;

pub const NOT_FOUND: u16 = 404;

pub const UNPROCESSABLE_ENTITY: u16 = 422;

pub const INTERNAL_SERVER_ERROR: u16 = 500;

pub const NOT_IMPLEMENTED: u16 = 501;

pub const SERVICE_UNAVAILABLE: u16 = 503;

/// Whether a number can be a status: it has three digits.
pub open spec fn is_status(code: u16) -> bool {
    100 <= code <= 999
}

/// A number as a status, or that of an internal error where it cannot be one.
pub open spec fn status_or_internal(code: u16) -> u16 {
    if is_status(code) {
        code
    } else {
        INTERNAL_SERVER_ERROR
    }
}

/// Takes a number for a status where it can be one.
pub fn status_of(code: u16) -> (status: u16)
    ensures
        status == status_or_internal(code),
        is_status(status),
{
    if 100 <= code && code <= 999 {
        code
    } else {
        INTERNAL_SERVER_ERROR
    }
}

/// The standard phrase for a status, as `http::StatusCode::canonical_reason` gives it.
pub uninterp spec fn reason_phrase(code: u16) -> Option<Seq<char>>;

/// `axum::http::StatusCode::canonical_reason` gives the standard phrase for a status, or nothing
/// where there is none. `axum::http::StatusCode::from_u16` makes the status, which it does for
/// every number of three digits.
#[verifier::external_body]
fn canonical_reason(code: u16) -> (reason: Option<&'static str>)
    requires
        is_status(code),
    ensures
        reason_phrase(code) == (match reason {
            Some(text) => Some(text@),
            None => None,
        }),
{
    axum::http::StatusCode::from_u16(code).unwrap().canonical_reason()
}

/// The type of an error with a given status: the status in words.
pub open spec fn error_type(code: u16) -> Seq<char> {
    match reason_phrase(code) {
        Some(text) => text,
        None => "UnknownError"@,
    }
}

/// The type of an error whose status has a given phrase, or none.
pub fn error_type_of_reason(reason: Option<&'static str>) -> (text: String)
    ensures
        text@ == (match reason {
            Some(phrase) => phrase@,
            None => "UnknownError"@,
        }),
{
    match reason {
        Some(phrase) => String::from_str(phrase),
        None => String::from_str("UnknownError"),
    }
}

fn map_error_code_to_error_type(code: u16) -> (text: String)
    requires
        is_status(code),
    ensures
        text@ == error_type(code),
{
    error_type_of_reason(canonical_reason(code))
}

impl ErrorResponse {
    /// Whether this answers with a status and a message.
    pub open spec fn tells(self, status: u16, message: Seq<char>) -> bool {
        &&& self.status == status
        &&& self.body.code == status
        &&& self.body.error_type@ == error_type(status)
        &&& self.body.message@ == message
    }

    /// Answers with a status and a message.
    pub fn new(status: u16, message: String) -> (response: Self)
        requires
            is_status(status),
        ensures
            response.tells(status, message@),
    {
        ErrorResponse {
            status,
            body: ErrorMessage {
                message,
                error_type: map_error_code_to_error_type(status),
                code: status,
            },
        }
    }
}

/// The status for the number that an engine chose: engines may only blame the client.
pub open spec fn engine_status(code: u16) -> u16 {
    if 400 <= code < 500 {
        code
    } else {
        INTERNAL_SERVER_ERROR
    }
}

/// What is answered for an engine's failure: the status and the message.
pub open spec fn failure(error: EngineError, alt_msg: Seq<char>) -> (u16, Seq<char>) {
    match error {
        EngineError::ServiceOverloaded(text) => (SERVICE_UNAVAILABLE, text@),
        EngineError::Http(error) => (engine_status(error.code), error.message@),
        EngineError::Other(text) => (INTERNAL_SERVER_ERROR, alt_msg + ": "@ + text@),
    }
}

impl ErrorMessage {
    /// There is no such model.
    pub fn model_not_found() -> (response: ErrorResponse)
        ensures
            response.tells(NOT_FOUND, "Model not found"@),
    {
        ErrorResponse::new(NOT_FOUND, String::from_str("Model not found"))
    }

    /// The service is live, but not ready.
    pub fn _service_unavailable() -> (response: ErrorResponse)
        ensures
            response.tells(SERVICE_UNAVAILABLE, "Service is not ready"@),
    {
        ErrorResponse::new(SERVICE_UNAVAILABLE, String::from_str("Service is not ready"))
    }

    /// The service failed by itself.
    pub fn internal_server_error(msg: &str) -> (response: ErrorResponse)
        ensures
            response.tells(INTERNAL_SERVER_ERROR, msg@),
    {
        ErrorResponse::new(INTERNAL_SERVER_ERROR, String::from_str(msg))
    }

    /// The client asked for something that the service does not do yet.
    pub fn not_implemented_error(msg: &str) -> (response: ErrorResponse)
        ensures
            response.tells(NOT_IMPLEMENTED, msg@),
    {
        ErrorResponse::new(NOT_IMPLEMENTED, String::from_str(msg))
    }

    /// Answers for an engine's failure; `alt_msg` introduces a failure that says nothing of HTTP.
    pub fn from_anyhow(err: EngineError, alt_msg: &str) -> (response: ErrorResponse)
        ensures
            response.tells(failure(err, alt_msg@).0, failure(err, alt_msg@).1),
    {
        match err {
            EngineError::ServiceOverloaded(text) => ErrorResponse::new(SERVICE_UNAVAILABLE, text),
            EngineError::Http(error) => Self::from_http_error(error),
            EngineError::Other(text) => {
                let start = join(alt_msg, ": ");
                let message = join(start.as_str(), text.as_str());
                Self::internal_server_error(message.as_str())
            },
        }
    }

    /// Answers with the error that an engine chose, unless it blames the service: then with an
    /// internal error.
    pub fn from_http_error(err: HttpError) -> (response: ErrorResponse)
        ensures
            response.tells(engine_status(err.code), err.message@),
    {
        if err.code < 400 || err.code >= 500 {
            return Self::internal_server_error(err.message.as_str());
        }
        ErrorResponse::new(err.code, err.message)
    }

    /// The message for an error, with its number kept, whatever it is.
    pub fn from_error(err: HttpError) -> (message: ErrorMessage)
        ensures
            message.code == err.code,
            message.message@ == err.message@,
            message.error_type@ == error_type(status_or_internal(err.code)),
    {
        ErrorMessage {
            error_type: map_error_code_to_error_type(status_of(err.code)),
            code: err.code,
            message: err.message,
        }
    }
}

/// Answers in place of an answer that says the body could not be understood: clients expect that
/// to be a bad request. Any other answer stands.
pub fn smart_json_error(status: u16, body: String) -> (response: Option<ErrorResponse>)
    ensures
        match response {
            Some(response) => status == UNPROCESSABLE_ENTITY && response.tells(
                BAD_REQUEST,
                body@,
            ),
            None => status != UNPROCESSABLE_ENTITY,
        },
{
    if status == UNPROCESSABLE_ENTITY {
        Some(ErrorResponse::new(BAD_REQUEST, body))
    } else {
        None
    }
}

/// Whatever an engine fails with, the client sees a client error that the engine chose, an
/// overload or an internal error.
pub proof fn law_engines_only_blame_the_client(error: EngineError, alt_msg: Seq<char>)
    ensures
        400 <= failure(error, alt_msg).0 < 500 ==> error is Http,
        failure(error, alt_msg).0 == SERVICE_UNAVAILABLE <==> error is ServiceOverloaded,
        400 <= failure(error, alt_msg).0 < 500 || failure(error, alt_msg).0
            == INTERNAL_SERVER_ERROR || failure(error, alt_msg).0 == SERVICE_UNAVAILABLE,
{
}

} // verus!
