//! Requests to the responses endpoint, most fields of which are refused.
use crate::http::service::errors::{ErrorMessage, ErrorResponse, NOT_IMPLEMENTED};
use crate::http::service::openai::{
    fill_model, fill_tokens, filled_model, filled_tokens, RequestTemplate,
};
use vstd::prelude::*;

verus! {

/// What the service reads of a request for a response. Of most fields only whether they are there
/// matters.
#[derive(Debug, Clone)]
pub struct ResponseFields {
    pub model: String,
    pub input_is_text: bool,
    pub background: Option<bool>,
    pub include_set: bool,
    pub instructions: bool,
    pub max_output_tokens: Option<u32>,
    pub max_tool_calls: bool,
    pub parallel_tool_calls: Option<bool>,
    pub previous_response_id: bool,
    pub prompt: bool,
    pub reasoning: bool,
    pub service_tier: bool,
    pub store: Option<bool>,
    pub stream: Option<bool>,
    pub text: bool,
    pub tool_choice: bool,
    pub tools: bool,
    pub truncation: bool,
    pub user: bool,
}

/// The fields that are refused, in the order in which they are looked at: whether each is used,
/// and what is said of it.
pub open spec fn refused_fields(request: ResponseFields) -> Seq<(bool, Seq<char>)> {
    seq![
        (request.background == Some(true), "`background: true` is not supported."@),
        (request.include_set, "`include` is not supported."@),
        (request.instructions, "`instructions` is not supported."@),
        (request.max_tool_calls, "`max_tool_calls` is not supported."@),
        (request.previous_response_id, "`previous_response_id` is not supported."@),
        (request.prompt, "`prompt` is not supported."@),
        (request.reasoning, "`reasoning` is not supported."@),
        (request.service_tier, "`service_tier` is not supported."@),
        (request.store == Some(true), "`store: true` is not supported."@),
        (request.stream == Some(true), "`stream: true` is not supported."@),
        (request.text, "`text` is not supported."@),
        (request.tool_choice, "`tool_choice` is not supported."@),
        (request.tools, "`tools` is not supported."@),
        (request.truncation, "`truncation` is not supported."@),
        (request.user, "`user` is not supported."@),
    ]
}

/// What is said of the first field in a list that is used, if one is.
pub open spec fn first_refusal(fields: Seq<(bool, Seq<char>)>) -> Option<Seq<char>>
    decreases fields.len(),
{
    if fields.len() == 0 {
        None
    } else if fields[0].0 {
        Some(fields[0].1)
    } else {
        first_refusal(fields.drop_first())
    }
}

/// What is said of the first refused field that a request uses, if it uses one.
pub open spec fn refusal(request: ResponseFields) -> Option<Seq<char>> {
    first_refusal(refused_fields(request))
}

fn is_true(flag: Option<bool>) -> (is: bool)
    ensures
        is == (flag == Some(true)),
{
    match flag {
        Some(flag) => flag,
        None => false,
    }
}

/// The first used field of those after some that are not used.
proof fn lemma_first_refusal(fields: Seq<(bool, Seq<char>)>, used: int)
    requires
        0 <= used <= fields.len(),
        forall|i: int| 0 <= i < used ==> !(#[trigger] fields[i]).0,
    ensures
        used == fields.len() ==> first_refusal(fields) is None,
        used < fields.len() && fields[used].0 ==> first_refusal(fields) == Some(fields[used].1),
    decreases used,
{
    if used > 0 {
        let rest = fields.drop_first();
        assert forall|i: int| 0 <= i < used - 1 implies !(#[trigger] rest[i]).0 by {
            assert(rest[i] == fields[i + 1]);
        }
        lemma_first_refusal(rest, used - 1);
        if used < fields.len() {
            assert(rest[used - 1] == fields[used]);
        }
    }
}

fn refused(request: &ResponseFields) -> (message: Option<&'static str>)
    ensures
        refusal(*request) == (match message {
            Some(text) => Some(text@),
            None => None,
        }),
{
    let ghost fields = refused_fields(*request);
    if is_true(request.background) {
        proof {
            lemma_first_refusal(fields, 0);
        }
        return Some("`background: true` is not supported.");
    }
    if request.include_set {
        proof {
            lemma_first_refusal(fields, 1);
        }
        return Some("`include` is not supported.");
    }
    if request.instructions {
        proof {
            lemma_first_refusal(fields, 2);
        }
        return Some("`instructions` is not supported.");
    }
    if request.max_tool_calls {
        proof {
            lemma_first_refusal(fields, 3);
        }
        return Some("`max_tool_calls` is not supported.");
    }
    if request.previous_response_id {
        proof {
            lemma_first_refusal(fields, 4);
        }
        return Some("`previous_response_id` is not supported.");
    }
    if request.prompt {
        proof {
            lemma_first_refusal(fields, 5);
        }
        return Some("`prompt` is not supported.");
    }
    if request.reasoning {
        proof {
            lemma_first_refusal(fields, 6);
        }
        return Some("`reasoning` is not supported.");
    }
    if request.service_tier {
        proof {
            lemma_first_refusal(fields, 7);
        }
        return Some("`service_tier` is not supported.");
    }
    if is_true(request.store) {
        proof {
            lemma_first_refusal(fields, 8);
        }
        return Some("`store: true` is not supported.");
    }
    if is_true(request.stream) {
        proof {
            lemma_first_refusal(fields, 9);
        }
        return Some("`stream: true` is not supported.");
    }
    if request.text {
        proof {
            lemma_first_refusal(fields, 10);
        }
        return Some("`text` is not supported.");
    }
    if request.tool_choice {
        proof {
            lemma_first_refusal(fields, 11);
        }
        return Some("`tool_choice` is not supported.");
    }
    if request.tools {
        proof {
            lemma_first_refusal(fields, 12);
        }
        return Some("`tools` is not supported.");
    }
    if request.truncation {
        proof {
            lemma_first_refusal(fields, 13);
        }
        return Some("`truncation` is not supported.");
    }
    if request.user {
        proof {
            lemma_first_refusal(fields, 14);
        }
        return Some("`user` is not supported.");
    }
    proof {
        lemma_first_refusal(fields, 15);
    }
    None
}

/// Refuses a request that uses a field that is not supported.
pub fn validate_response_unsupported_fields(request: &ResponseFields) -> (refused: Option<
    ErrorResponse,
>)
    ensures
        match refused {
            Some(response) => refusal(*request) matches Some(message) && response.tells(
                NOT_IMPLEMENTED,
                message,
            ),
            None => refusal(*request) is None,
        },
{
    match self::refused(request) {
        Some(message) => Some(ErrorMessage::not_implemented_error(message)),
        None => None,
    }
}

/// Refuses any input but text.
pub fn validate_response_input_is_text_only(request: &ResponseFields) -> (refused: Option<
    ErrorResponse,
>)
    ensures
        match refused {
            Some(response) => !request.input_is_text && response.tells(
                NOT_IMPLEMENTED,
                "Only `Input::Text` is supported. Structured, multimedia, or custom input types are not yet implemented."@,
            ),
            None => request.input_is_text,
        },
{
    if request.input_is_text {
        None
    } else {
        Some(
            ErrorMessage::not_implemented_error(
                "Only `Input::Text` is supported. Structured, multimedia, or custom input types are not yet implemented.",
            ),
        )
    }
}

/// How a request for a response is served: as a chat completion that is never streamed.
#[derive(Debug, Clone)]
pub struct ResponsePlan {
    /// The model whose engine is used and under which the request is measured.
    pub engine_model: String,
    /// The model that the engine is asked for.
    pub model: String,
    pub max_output_tokens: Option<u32>,
}

/// Checks a request for a response and fills it in. The engine is looked up by the model that the
/// request itself names.
pub fn plan_response(
    request: ResponseFields,
    template: Option<RequestTemplate>,
) -> (planned: Result<ResponsePlan, ErrorResponse>)
    ensures
        match planned {
            Ok(plan) => {
                &&& refusal(request) is None
                &&& request.input_is_text
                &&& plan.engine_model@ == request.model@
                &&& plan.model@ == filled_model(request.model@, template)
                &&& plan.max_output_tokens == filled_tokens(request.max_output_tokens, template)
            },
            Err(response) => match refusal(request) {
                Some(message) => response.tells(NOT_IMPLEMENTED, message),
                None => !request.input_is_text && response.tells(
                    NOT_IMPLEMENTED,
                    "Only `Input::Text` is supported. Structured, multimedia, or custom input types are not yet implemented."@,
                ),
            },
        },
{
    if let Some(response) = validate_response_unsupported_fields(&request) {
        return Err(response);
    }
    if let Some(response) = validate_response_input_is_text_only(&request) {
        return Err(response);
    }
    Ok(
        ResponsePlan {
            engine_model: String::from_str(request.model.as_str()),
            model: fill_model(request.model, &template),
            max_output_tokens: fill_tokens(request.max_output_tokens, &template),
        },
    )
}

} // verus!
