//! Errors that reach the service inside the stream of an answer.
use crate::http::service::errors::{
    is_status, status_of, status_or_internal, ErrorResponse, INTERNAL_SERVER_ERROR,
};
use crate::text::{join_all, joined, same_text, views};
use vstd::prelude::*;

verus! {

/// An item of an answer's stream, with what is said about it.
#[derive(Debug, Clone)]
pub struct Annotated<T> {
    pub data: Option<T>,
    pub id: Option<String>,
    pub event: Option<String>,
    pub comment: Option<Vec<String>>,
}

/// An error that was written as JSON: what of it was there.
#[derive(Debug, Clone)]
pub struct ErrorPayload {
    pub message: Option<String>,
    pub code: Option<u16>,
}

/// What is known of an item's data: whether there is any, and, where it can be read as an error,
/// the error and the data as text.
#[derive(Debug, Clone)]
pub struct DataView {
    pub present: bool,
    pub error: Option<(ErrorPayload, String)>,
}

/// An error that was found in a stream.
#[derive(Debug, Clone)]
pub struct BackendError {
    pub message: String,
    pub status: u16,
}

/// An error with a message and a number that says whose fault it is.
pub open spec fn serious(payload: Option<ErrorPayload>) -> bool {
    payload matches Some(payload) && payload.code matches Some(code) && code >= 400
}

/// The message of an error, or what it was read from.
pub open spec fn message_or(payload: ErrorPayload, source: Seq<char>) -> Seq<char> {
    match payload.message {
        Some(message) => message@,
        None => source,
    }
}

/// What the comments of an item say, in one line.
pub open spec fn comment_line(comment: Option<Vec<String>>) -> Option<Seq<char>> {
    match comment {
        Some(lines) => Some(joined(views(lines@), ", "@)),
        None => None,
    }
}

/// The line that is read as an error: what the comments say, and where an error event has none,
/// that the error is unknown.
pub open spec fn error_line<T>(event: Annotated<T>) -> Seq<char> {
    match comment_line(event.comment) {
        Some(line) => line,
        None => "Unknown error"@,
    }
}

/// Whether an item is an error by its own name.
pub open spec fn is_error_event<T>(event: Annotated<T>) -> bool {
    event.event matches Some(name) && name@ == "error"@
}

/// The error in an item, as its message and its status, if there is one.
///
/// `line_error` is what the item's line of comments reads as, `data` what its data is.
pub open spec fn error_in<T>(
    event: Annotated<T>,
    line_error: Option<ErrorPayload>,
    data: DataView,
) -> Option<(Seq<char>, u16)> {
    let line = error_line(event);
    if is_error_event(event) {
        match line_error {
            Some(payload) => Some(
                (
                    message_or(payload, line),
                    match payload.code {
                        Some(code) => status_or_internal(code),
                        None => INTERNAL_SERVER_ERROR,
                    },
                ),
            ),
            None => Some((line, INTERNAL_SERVER_ERROR)),
        }
    } else if data.present && (data.error matches Some((payload, text)) && serious(Some(payload))) {
        let (payload, text) = data.error->Some_0;
        Some((message_or(payload, text@), status_or_internal(payload.code->Some_0)))
    } else if event.comment matches Some(lines) && lines@.len() > 0 {
        if serious(line_error) {
            let payload = line_error->Some_0;
            Some((message_or(payload, line), status_or_internal(payload.code->Some_0)))
        } else if !data.present && event.event is None {
            Some((line, INTERNAL_SERVER_ERROR))
        } else {
            None
        }
    } else {
        None
    }
}

/// The line of an item that is to be read as an error.
pub fn line_of<T>(event: &Annotated<T>) -> (line: String)
    ensures
        line@ == error_line(*event),
{
    match &event.comment {
        Some(lines) => join_all(lines.as_slice(), ", "),
        None => String::from_str("Unknown error"),
    }
}

fn payload_error(payload: ErrorPayload, source: String) -> (error: BackendError)
    ensures
        error.message@ == message_or(payload, source@),
        error.status == (match payload.code {
            Some(code) => status_or_internal(code),
            None => INTERNAL_SERVER_ERROR,
        }),
        is_status(error.status),
{
    let status: u16 = match payload.code {
        Some(code) => status_of(code),
        None => INTERNAL_SERVER_ERROR,
    };
    match payload.message {
        Some(message) => BackendError { message, status },
        None => BackendError { message: source, status },
    }
}

fn is_serious(payload: &Option<ErrorPayload>) -> (is: bool)
    ensures
        is == serious(*payload),
{
    match payload {
        Some(payload) => match payload.code {
            Some(code) => code >= 400,
            None => false,
        },
        None => false,
    }
}

/// Looks for an error in an item: one that is called so, one in its data, or one in its comments.
/// Comments that come with nothing else are taken for an error too.
pub fn extract_backend_error_if_present<T>(
    event: &Annotated<T>,
    line_error: Option<ErrorPayload>,
    data: DataView,
) -> (error: Option<BackendError>)
    ensures
        match error {
            Some(error) => error_in(*event, line_error, data) == Some((error.message@, error.status))
                && is_status(error.status),
            None => error_in(*event, line_error, data) is None,
        },
{
    let named_error = match &event.event {
        Some(name) => same_text(name.as_str(), "error"),
        None => false,
    };
    if named_error {
        let line = line_of(event);
        return match line_error {
            Some(payload) => Some(payload_error(payload, line)),
            None => Some(BackendError { message: line, status: INTERNAL_SERVER_ERROR }),
        };
    }
    if data.present {
        if let Some((payload, text)) = data.error {
            let found = match payload.code {
                Some(code) => code >= 400,
                None => false,
            };
            if found {
                return Some(payload_error(payload, text));
            }
        }
    }
    let commented = match &event.comment {
        Some(lines) => lines.len() > 0,
        None => false,
    };
    if commented {
        let line = line_of(event);
        if is_serious(&line_error) {
            if let Some(payload) = line_error {
                return Some(payload_error(payload, line));
            }
        }
        if !data.present && event.event.is_none() {
            return Some(BackendError { message: line, status: INTERNAL_SERVER_ERROR });
        }
    }
    None
}

/// Decides by the first item of a stream, if there is one, whether the stream is answered at all.
/// If it is, the item is given back, to stand before the others.
pub fn check_for_backend_error<T>(
    first: Option<Annotated<T>>,
    line_error: Option<ErrorPayload>,
    data: DataView,
) -> (checked: Result<Option<Annotated<T>>, ErrorResponse>)
    ensures
        match checked {
            Ok(given) => {
                &&& given == first
                &&& first matches Some(event) ==> error_in(event, line_error, data) is None
            },
            Err(response) => {
                &&& first is Some
                &&& error_in(first->Some_0, line_error, data) matches Some((message, status))
                    && response.tells(status, message)
            },
        },
{
    match first {
        Some(event) => match extract_backend_error_if_present(&event, line_error, data) {
            Some(error) => Err(ErrorResponse::new(error.status, error.message)),
            None => Ok(Some(event)),
        },
        None => Ok(None),
    }
}

/// An item that brings data and neither calls itself an error nor says anything more is never
/// taken for one, unless its data is.
pub proof fn law_plain_items_are_no_errors<T>(
    event: Annotated<T>,
    line_error: Option<ErrorPayload>,
    data: DataView,
)
    requires
        data.present,
        data.error is None,
        event.event is None,
        event.comment is None,
    ensures
        error_in(event, line_error, data) is None,
{
}

} // verus!
