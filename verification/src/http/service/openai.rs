//! Requests for completions, chat completions and lists of models: what is checked, what is
//! filled in, and how a batch of prompts is taken apart.
use crate::http::service::errors::{
    ErrorMessage, ErrorResponse, HttpError, BAD_REQUEST, NOT_IMPLEMENTED,
};
use crate::http::service::request_ids::ANNOTATION_REQUEST_ID;
use crate::seqs::lemma_take_next;
use crate::text::{decimal, decimal_text, join, same_text};
use vstd::prelude::*;

verus! {

/// The bytes in a mebibyte.
pub const MEBIBYTE: usize = 1048576;

/// The mebibytes that a request may have, unless something else is configured.
pub const DEFAULT_BODY_LIMIT_MB: usize = 45;

/// How long a request may be, in bytes; the configuration is in mebibytes.
pub fn get_body_limit(configured_mb: Option<usize>) -> (limit: usize)
    requires
        configured_mb matches Some(mb) ==> mb * 1048576 <= usize::MAX,
    ensures
        limit == (match configured_mb {
            Some(mb) => mb * 1048576,
            None => 47185920,
        }),
{
    match configured_mb {
        Some(mb) => mb * MEBIBYTE,
        None => DEFAULT_BODY_LIMIT_MB * MEBIBYTE,
    }
}

/// What the service reads of a request for a chat completion.
#[derive(Debug, Clone)]
pub struct ChatCompletionFields {
    pub model: String,
    /// How many messages there are.
    pub messages: usize,
    /// Whether the old fields for tools are used.
    pub function_call: bool,
    pub functions: bool,
    pub max_completion_tokens: Option<u32>,
    pub stream: Option<bool>,
    pub annotations: Option<Vec<String>>,
}

/// What is filled in where a request leaves it out. The temperature is kept elsewhere.
#[derive(Debug, Clone)]
pub struct RequestTemplate {
    pub model: String,
    pub max_completion_tokens: u32,
}

/// Refuses the old fields for tools.
pub fn validate_chat_completion_unsupported_fields(
    request: &ChatCompletionFields,
) -> (checked: Result<(), ErrorResponse>)
    ensures
        match checked {
            Ok(()) => !request.function_call && !request.functions,
            Err(response) => {
                ||| request.function_call && response.tells(
                    NOT_IMPLEMENTED,
                    "`function_call` is deprecated. Please migrate to use `tool_choice` instead."@,
                )
                ||| !request.function_call && request.functions && response.tells(
                    NOT_IMPLEMENTED,
                    "`functions` is deprecated. Please migrate to use `tools` instead."@,
                )
            },
        },
{
    if request.function_call {
        return Err(
            ErrorMessage::not_implemented_error(
                "`function_call` is deprecated. Please migrate to use `tool_choice` instead.",
            ),
        );
    }
    if request.functions {
        return Err(
            ErrorMessage::not_implemented_error(
                "`functions` is deprecated. Please migrate to use `tools` instead.",
            ),
        );
    }
    Ok(())
}

/// Refuses a chat without messages.
pub fn validate_chat_completion_required_fields(
    request: &ChatCompletionFields,
) -> (checked: Result<(), ErrorResponse>)
    ensures
        match checked {
            Ok(()) => request.messages > 0,
            Err(response) => request.messages == 0 && response.tells(
                BAD_REQUEST,
                "The 'messages' field cannot be empty. At least one message is required."@,
            ),
        },
{
    if request.messages == 0 {
        return Err(
            ErrorMessage::from_http_error(
                HttpError {
                    code: BAD_REQUEST,
                    message: String::from_str(
                        "The 'messages' field cannot be empty. At least one message is required.",
                    ),
                },
            ),
        );
    }
    Ok(())
}

/// Whether the outcome of a check is answered as it should be: what the check found wrong is a
/// bad request.
pub open spec fn answers_validation(
    validation: Result<(), String>,
    checked: Result<(), ErrorResponse>,
) -> bool {
    match validation {
        Ok(()) => checked is Ok,
        Err(problem) => checked matches Err(response) && response.tells(BAD_REQUEST, problem@),
    }
}

/// Answers for what the request's own check found.
pub fn validate_chat_completion_fields_generic(
    validation: Result<(), String>,
) -> (checked: Result<(), ErrorResponse>)
    ensures
        answers_validation(validation, checked),
{
    match validation {
        Ok(()) => Ok(()),
        Err(problem) => Err(
            ErrorMessage::from_http_error(HttpError { code: BAD_REQUEST, message: problem }),
        ),
    }
}

/// Answers for what the request's own check found.
pub fn validate_completion_fields_generic(
    validation: Result<(), String>,
) -> (checked: Result<(), ErrorResponse>)
    ensures
        answers_validation(validation, checked),
{
    match validation {
        Ok(()) => Ok(()),
        Err(problem) => Err(
            ErrorMessage::from_http_error(HttpError { code: BAD_REQUEST, message: problem }),
        ),
    }
}

/// The model that a request is for: its own, or the template's where it names none.
pub open spec fn filled_model(model: Seq<char>, template: Option<RequestTemplate>) -> Seq<char> {
    match template {
        Some(template) if model.len() == 0 => template.model@,
        _ => model,
    }
}

/// How many tokens a request may make: its own number, or the template's where it gives none, or
/// zero.
pub open spec fn filled_tokens(tokens: Option<u32>, template: Option<RequestTemplate>) -> Option<
    u32,
> {
    match template {
        Some(template) if tokens is None || tokens == Some(0u32) => Some(
            template.max_completion_tokens,
        ),
        _ => tokens,
    }
}

/// Fills in the model.
pub fn fill_model(model: String, template: &Option<RequestTemplate>) -> (filled: String)
    ensures
        filled@ == filled_model(model@, *template),
{
    match template {
        Some(template) => if model.as_str().unicode_len() == 0 {
            String::from_str(template.model.as_str())
        } else {
            model
        },
        None => model,
    }
}

/// Fills in the number of tokens.
pub fn fill_tokens(tokens: Option<u32>, template: &Option<RequestTemplate>) -> (filled: Option<u32>)
    ensures
        filled == filled_tokens(tokens, *template),
{
    match template {
        Some(template) => match tokens {
            Some(number) => if number == 0 {
                Some(template.max_completion_tokens)
            } else {
                tokens
            },
            None => Some(template.max_completion_tokens),
        },
        None => tokens,
    }
}

/// How often a list of annotations asks for the name of the request.
pub open spec fn asks_for_id(annotations: Seq<String>) -> nat {
    annotations.filter(|annotation: String| annotation@ == "request_id"@).len()
}

/// How often the name of the request is put in front of its answer.
pub open spec fn id_annotations(annotations: Option<Vec<String>>) -> nat {
    match annotations {
        Some(list) => asks_for_id(list@),
        None => 0,
    }
}

fn count_id_annotations(list: &[String]) -> (count: usize)
    ensures
        count == asks_for_id(list@),
{
    let mut count: usize = 0;
    let mut index: usize = 0;
    while index < list.len()
        invariant
            index <= list@.len(),
            count <= index,
            count == asks_for_id(list@.take(index as int)),
        decreases list@.len() - index,
    {
        proof {
            lemma_take_next(list@, index as int);
            reveal(Seq::filter);
            assert(list@.take(index + 1).drop_last() =~= list@.take(index as int));
        }
        if same_text(list[index].as_str(), ANNOTATION_REQUEST_ID) {
            count += 1;
        }
        index += 1;
    }
    assert(list@.take(index as int) =~= list@);
    count
}

/// Counts how often the name of the request is put in front of its answer.
pub fn request_id_annotations(annotations: &Option<Vec<String>>) -> (count: usize)
    ensures
        count == id_annotations(*annotations),
{
    match annotations {
        Some(list) => count_id_annotations(list.as_slice()),
        None => 0,
    }
}

/// How a request for a chat completion is served.
#[derive(Debug, Clone)]
pub struct ChatPlan {
    pub model: String,
    pub max_completion_tokens: Option<u32>,
    pub streaming: bool,
    /// How often the name of the request is put in front of the answer.
    pub id_annotations: usize,
}

/// Checks a request for a chat completion and fills it in. The old fields are refused first, then
/// an empty chat, then what the request's own check found.
pub fn plan_chat_completion(
    request: ChatCompletionFields,
    validation: Result<(), String>,
    template: Option<RequestTemplate>,
) -> (planned: Result<ChatPlan, ErrorResponse>)
    ensures
        match planned {
            Ok(plan) => {
                &&& !request.function_call && !request.functions && request.messages > 0
                &&& validation is Ok
                &&& plan.model@ == filled_model(request.model@, template)
                &&& plan.max_completion_tokens == filled_tokens(
                    request.max_completion_tokens,
                    template,
                )
                &&& plan.streaming == (request.stream == Some(true))
                &&& plan.id_annotations == id_annotations(request.annotations)
            },
            Err(response) => {
                ||| request.function_call && response.tells(
                    NOT_IMPLEMENTED,
                    "`function_call` is deprecated. Please migrate to use `tool_choice` instead."@,
                )
                ||| !request.function_call && request.functions && response.tells(
                    NOT_IMPLEMENTED,
                    "`functions` is deprecated. Please migrate to use `tools` instead."@,
                )
                ||| !request.function_call && !request.functions && request.messages == 0
                    && response.tells(
                    BAD_REQUEST,
                    "The 'messages' field cannot be empty. At least one message is required."@,
                )
                ||| !request.function_call && !request.functions && request.messages > 0
                    && (validation matches Err(problem) && response.tells(
                    BAD_REQUEST,
                    problem@,
                ))
            },
        },
{
    match validate_chat_completion_unsupported_fields(&request) {
        Ok(()) => {},
        Err(response) => {
            return Err(response);
        },
    }
    match validate_chat_completion_required_fields(&request) {
        Ok(()) => {},
        Err(response) => {
            return Err(response);
        },
    }
    match validate_chat_completion_fields_generic(validation) {
        Ok(()) => {},
        Err(response) => {
            return Err(response);
        },
    }
    Ok(
        ChatPlan {
            model: fill_model(request.model, &template),
            max_completion_tokens: fill_tokens(request.max_completion_tokens, &template),
            streaming: match request.stream {
                Some(streaming) => streaming,
                None => false,
            },
            id_annotations: request_id_annotations(&request.annotations),
        },
    )
}

/// One prompt of a batch: the name under which it is sent, and by how much the numbers of its
/// choices are moved up.
#[derive(Debug, Clone)]
pub struct PromptRequest {
    pub request_id: String,
    pub choice_offset: u32,
}

/// The name of one prompt of a batch.
pub open spec fn prompt_request_id(request_id: Seq<char>, prompt: int) -> Seq<char> {
    request_id + "-"@ + decimal_text(prompt as nat)
}

/// How many choices are made for each prompt.
pub open spec fn choices_per_prompt(n: Option<u8>) -> int {
    match n {
        Some(n) => n as int,
        None => 1,
    }
}

/// Takes a batch of prompts apart. A single prompt goes under the name of the request itself.
pub fn plan_completions(request_id: &str, batch_size: usize, n: Option<u8>) -> (prompts: Vec<
    PromptRequest,
>)
    requires
        1 <= batch_size,
        (batch_size - 1) * choices_per_prompt(n) <= u32::MAX,
    ensures
        prompts@.len() == batch_size,
        batch_size == 1 ==> prompts@[0].request_id@ == request_id@ && prompts@[0].choice_offset
            == 0,
        batch_size > 1 ==> forall|i: int|
            0 <= i < batch_size ==> (#[trigger] prompts@[i]).request_id@ == prompt_request_id(
                request_id@,
                i,
            ) && prompts@[i].choice_offset == i * choices_per_prompt(n),
{
    let n: usize = match n {
        Some(n) => n as usize,
        None => 1,
    };
    let mut prompts: Vec<PromptRequest> = Vec::new();
    if batch_size == 1 {
        prompts.push(PromptRequest { request_id: String::from_str(request_id), choice_offset: 0 });
        return prompts;
    }
    let mut index: usize = 0;
    while index < batch_size
        invariant
            index <= batch_size,
            (batch_size - 1) * n <= u32::MAX,
            prompts@.len() == index,
            forall|i: int|
                0 <= i < index ==> (#[trigger] prompts@[i]).request_id@ == prompt_request_id(
                    request_id@,
                    i,
                ) && prompts@[i].choice_offset == i * n,
        decreases batch_size - index,
    {
        assert(index * n <= u32::MAX) by (nonlinear_arith)
            requires
                index <= batch_size - 1,
                (batch_size - 1) * n <= u32::MAX,
                0 <= n,
        ;
        let start = join(request_id, "-");
        let name = join(start.as_str(), decimal(index as u64).as_str());
        prompts.push(PromptRequest { request_id: name, choice_offset: (index * n) as u32 });
        index += 1;
    }
    prompts
}

/// The number of a choice in the answer to the whole batch.
pub fn remap_choice(index: u32, offset: u32) -> (remapped: u32)
    requires
        index + offset <= u32::MAX,
    ensures
        remapped == index + offset,
{
    index + offset
}

/// Choices of different prompts of a batch never get the same number, nor do different choices of
/// one prompt.
pub proof fn law_choices_stay_apart(
    n: Option<u8>,
    first_prompt: int,
    first_choice: int,
    second_prompt: int,
    second_choice: int,
)
    requires
        0 <= first_prompt,
        0 <= second_prompt,
        0 <= first_choice < choices_per_prompt(n),
        0 <= second_choice < choices_per_prompt(n),
        first_choice + first_prompt * choices_per_prompt(n) == second_choice + second_prompt
            * choices_per_prompt(n),
    ensures
        first_prompt == second_prompt,
        first_choice == second_choice,
{
    let n = choices_per_prompt(n);
    assert(first_prompt == second_prompt) by (nonlinear_arith)
        requires
            0 <= first_choice < n,
            0 <= second_choice < n,
            first_choice + first_prompt * n == second_choice + second_prompt * n,
    ;
}

/// A model, as it is listed.
#[derive(Debug, Clone)]
pub struct ModelListing {
    pub id: String,
    pub object: &'static str,
    pub created: u64,
    pub owned_by: String,
}

/// The list of the models.
#[derive(Debug, Clone)]
pub struct ListModelOpenAI {
    pub object: &'static str,
    pub data: Vec<ModelListing>,
}

/// Lists the models; `created` is the time now, in seconds since the epoch.
pub fn list_models_openai(models: Vec<String>, created: u64) -> (list: ListModelOpenAI)
    ensures
        list.object@ == "list"@,
        list.data@.len() == models@.len(),
        forall|i: int|
            0 <= i < models@.len() ==> {
                &&& (#[trigger] list.data@[i]).id@ == models@[i]@
                &&& list.data@[i].object@ == "model"@
                &&& list.data@[i].created == created
                &&& list.data@[i].owned_by@ == "nvidia"@
            },
{
    let mut data: Vec<ModelListing> = Vec::new();
    let mut index: usize = 0;
    while index < models.len()
        invariant
            index <= models@.len(),
            data@.len() == index,
            forall|i: int|
                0 <= i < index ==> {
                    &&& (#[trigger] data@[i]).id@ == models@[i]@
                    &&& data@[i].object@ == "model"@
                    &&& data@[i].created == created
                    &&& data@[i].owned_by@ == "nvidia"@
                },
        decreases models@.len() - index,
    {
        data.push(
            ModelListing {
                id: String::from_str(models[index].as_str()),
                object: "model",
                created,
                owned_by: String::from_str("nvidia"),
            },
        );
        index += 1;
    }
    ListModelOpenAI { object: "list", data }
}

} // verus!
