//! The course of a request, from finding its engine to its answer.
use crate::http::service::errors::{
    failure, EngineError, ErrorMessage, ErrorResponse, INTERNAL_SERVER_ERROR, NOT_FOUND,
    NOT_IMPLEMENTED,
};
use crate::http::service::metrics::Endpoint;
use crate::text::join;
use vstd::prelude::*;

verus! {

/// The endpoints that ask an engine for an answer.
#[derive(Clone, Copy, Debug, PartialEq, Eq, Structural)]
pub enum Operation {
    Completions,
    ChatCompletions,
    Embeddings,
    Responses,
}

impl Operation {
    /// The endpoint under which the operation is measured.
    pub fn endpoint(self) -> (endpoint: Endpoint)
        ensures
            endpoint == (match self {
                Operation::Completions => Endpoint::Completions,
                Operation::ChatCompletions => Endpoint::ChatCompletions,
                Operation::Embeddings => Endpoint::Embeddings,
                Operation::Responses => Endpoint::Responses,
            }),
    {
        match self {
            Operation::Completions => Endpoint::Completions,
            Operation::ChatCompletions => Endpoint::ChatCompletions,
            Operation::Embeddings => Endpoint::Embeddings,
            Operation::Responses => Endpoint::Responses,
        }
    }

    /// What is said where the engine does not take the request.
    pub open spec fn generate_failure(self) -> Seq<char> {
        match self {
            Operation::Embeddings => "Failed to generate embeddings"@,
            _ => "Failed to generate completions"@,
        }
    }

    /// What is said where the items of the answer do not make one.
    pub open spec fn fold_failure(self, request_id: Seq<char>, problem: FoldProblem) -> Seq<char> {
        match self {
            Operation::Completions => "Failed to fold completions stream for "@ + request_id
                + ": "@ + problem.detail@,
            Operation::ChatCompletions => "Failed to parse chat completion response: "@
                + problem.text@,
            Operation::Embeddings => "Failed to fold embeddings stream"@,
            Operation::Responses => "Failed to fold chat completions stream: "@ + problem.text@,
        }
    }
}

/// Why the items of an answer do not make one: as text, and with all its details.
#[derive(Debug, Clone)]
pub struct FoldProblem {
    pub text: String,
    pub detail: String,
}

/// What happened on the way to an answer.
#[derive(Debug)]
pub enum ServeEvent {
    /// The request could not be made into one for a chat.
    NotConverted(String),
    /// The engine for the model was looked up.
    EngineLookedUp { found: bool },
    /// The engine was asked.
    Asked(Result<(), EngineError>),
    /// The first item of the answer was looked at.
    FirstChecked(Result<(), ErrorResponse>),
    /// The items of the answer were put together.
    Folded(Result<(), FoldProblem>),
    /// The answer was brought into the form of the endpoint.
    Converted { done: bool },
    /// The task that serves the request did not come to its end.
    TaskLost(String),
}

/// What is done next.
#[derive(Debug)]
pub enum ServeAction {
    /// Ask the engine.
    Ask,
    /// Answer at once with the stream of items.
    Stream,
    /// Look at the first item.
    CheckFirst,
    /// Put the items together.
    Fold,
    /// Bring the answer into the form of the endpoint.
    Convert,
    /// Count the request as a success and answer.
    Answer,
    /// Answer with an error.
    Fail(ErrorResponse),
}

impl ServeAction {
    /// Whether this answers with an error, of a status and a message.
    pub open spec fn fails_with(self, status: u16, message: Seq<char>) -> bool {
        self matches ServeAction::Fail(response) && response.tells(status, message)
    }
}

/// Whether an action is the one that an event calls for.
pub open spec fn calls_for(
    operation: Operation,
    streaming: bool,
    request_id: Seq<char>,
    event: ServeEvent,
    action: ServeAction,
) -> bool {
    match event {
        ServeEvent::NotConverted(problem) => action.fails_with(
            NOT_IMPLEMENTED,
            "Only Input::Text(_) is currently supported: "@ + problem@,
        ),
        ServeEvent::EngineLookedUp { found } => if found {
            action is Ask
        } else {
            action.fails_with(NOT_FOUND, "Model not found"@)
        },
        ServeEvent::Asked(outcome) => match outcome {
            Ok(()) => if streaming && (operation == Operation::Completions || operation
                == Operation::ChatCompletions) {
                action is Stream
            } else if operation == Operation::ChatCompletions {
                action is CheckFirst
            } else {
                action is Fold
            },
            Err(error) => action.fails_with(
                failure(error, operation.generate_failure()).0,
                failure(error, operation.generate_failure()).1,
            ),
        },
        ServeEvent::FirstChecked(outcome) => match outcome {
            Ok(()) => action is Fold,
            Err(response) => action matches ServeAction::Fail(answer) && answer == response,
        },
        ServeEvent::Folded(outcome) => match outcome {
            Ok(()) => if operation == Operation::Responses {
                action is Convert
            } else {
                action is Answer
            },
            Err(problem) => action.fails_with(
                INTERNAL_SERVER_ERROR,
                operation.fold_failure(request_id, problem),
            ),
        },
        ServeEvent::Converted { done } => if done {
            action is Answer
        } else {
            action.fails_with(INTERNAL_SERVER_ERROR, "Failed to convert internal response"@)
        },
        ServeEvent::TaskLost(detail) => action.fails_with(
            INTERNAL_SERVER_ERROR,
            "Failed to await chat completions task: "@ + detail@,
        ),
    }
}

fn fold_message(operation: Operation, request_id: &str, problem: FoldProblem) -> (message: String)
    ensures
        message@ == operation.fold_failure(request_id@, problem),
{
    match operation {
        Operation::Completions => {
            let mut message = join("Failed to fold completions stream for ", request_id);
            message.append(": ");
            message.append(problem.detail.as_str());
            message
        },
        Operation::ChatCompletions => join(
            "Failed to parse chat completion response: ",
            problem.text.as_str(),
        ),
        Operation::Embeddings => String::from_str("Failed to fold embeddings stream"),
        Operation::Responses => join(
            "Failed to fold chat completions stream: ",
            problem.text.as_str(),
        ),
    }
}

/// Decides what is done next for a request. An answer that is streamed has begun before its first
/// item is known, so only one that is not is checked for an error first.
pub fn next_action(
    operation: Operation,
    streaming: bool,
    request_id: &str,
    event: ServeEvent,
) -> (action: ServeAction)
    ensures
        calls_for(operation, streaming, request_id@, event, action),
{
    match event {
        ServeEvent::NotConverted(problem) => {
            let message = join("Only Input::Text(_) is currently supported: ", problem.as_str());
            ServeAction::Fail(ErrorMessage::not_implemented_error(message.as_str()))
        },
        ServeEvent::EngineLookedUp { found } => if found {
            ServeAction::Ask
        } else {
            ServeAction::Fail(ErrorMessage::model_not_found())
        },
        ServeEvent::Asked(outcome) => match outcome {
            Ok(()) => match operation {
                Operation::Completions => if streaming {
                    ServeAction::Stream
                } else {
                    ServeAction::Fold
                },
                Operation::ChatCompletions => if streaming {
                    ServeAction::Stream
                } else {
                    ServeAction::CheckFirst
                },
                Operation::Embeddings | Operation::Responses => ServeAction::Fold,
            },
            Err(error) => {
                let alt_msg = match operation {
                    Operation::Embeddings => "Failed to generate embeddings",
                    _ => "Failed to generate completions",
                };
                ServeAction::Fail(ErrorMessage::from_anyhow(error, alt_msg))
            },
        },
        ServeEvent::FirstChecked(outcome) => match outcome {
            Ok(()) => ServeAction::Fold,
            Err(response) => ServeAction::Fail(response),
        },
        ServeEvent::Folded(outcome) => match outcome {
            Ok(()) => match operation {
                Operation::Responses => ServeAction::Convert,
                _ => ServeAction::Answer,
            },
            Err(problem) => {
                let message = fold_message(operation, request_id, problem);
                ServeAction::Fail(ErrorMessage::internal_server_error(message.as_str()))
            },
        },
        ServeEvent::Converted { done } => if done {
            ServeAction::Answer
        } else {
            ServeAction::Fail(
                ErrorMessage::internal_server_error("Failed to convert internal response"),
            )
        },
        ServeEvent::TaskLost(detail) => {
            let message = join("Failed to await chat completions task: ", detail.as_str());
            ServeAction::Fail(ErrorMessage::internal_server_error(message.as_str()))
        },
    }
}

/// Nothing that happens to an embedding or a response makes it a stream.
pub proof fn law_only_completions_are_streamed(
    operation: Operation,
    streaming: bool,
    request_id: Seq<char>,
    event: ServeEvent,
    action: ServeAction,
)
    requires
        calls_for(operation, streaming, request_id, event, action),
        action is Stream,
    ensures
        streaming,
        operation == Operation::Completions || operation == Operation::ChatCompletions,
{
}

} // verus!
