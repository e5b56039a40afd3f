//! What requests are checked for, how failures are answered and how answers take their course.
use crate::http::service::backend_errors::{
    check_for_backend_error, extract_backend_error_if_present, line_of, Annotated, BackendError,
    DataView, ErrorPayload,
};
use crate::http::service::buckets::{
    bucket_config, deduped, log_buckets, validate_bucket_config, Buckets, LogBuckets,
};
use crate::http::service::busy_threshold::{
    check_stored, check_threshold, RequestedThreshold, ThresholdError,
};
use crate::http::service::errors::{
    smart_json_error, status_of, EngineError, ErrorMessage, ErrorResponse, HttpError,
};
use crate::http::service::metrics::Endpoint;
use crate::http::service::openai::{
    fill_model, fill_tokens, get_body_limit, list_models_openai, plan_chat_completion,
    plan_completions, remap_choice, request_id_annotations,
    validate_chat_completion_fields_generic, validate_chat_completion_required_fields,
    validate_chat_completion_unsupported_fields, validate_completion_fields_generic,
    ChatCompletionFields, ChatPlan, ListModelOpenAI, PromptRequest, RequestTemplate,
};
use crate::http::service::request_ids::{get_or_create_request_id, known_request_id};
use crate::http::service::responses::{
    plan_response, validate_response_input_is_text_only, validate_response_unsupported_fields,
    ResponseFields, ResponsePlan,
};
use crate::http::service::serving::{next_action, Operation, ServeAction, ServeEvent};
use crate::http::service::{RouteDoc, Routes};
use crate::text::{decimal_text, join_all};
use vstd::prelude::*;

verus! {

/// A chat completion is planned exactly where it sets nothing that is no longer supported, has a
/// message and passes validation. What is wrong is told in that order: the first two are not
/// implemented, the others are bad requests.
pub proof fn law_chat_completions_are_checked_in_order(
    request: ChatCompletionFields,
    validation: Result<(), String>,
    template: Option<RequestTemplate>,
    planned: Result<ChatPlan, ErrorResponse>,
)
    requires
        call_ensures(plan_chat_completion, (request, validation, template), planned),
    ensures
        planned is Ok <==> !request.function_call && !request.functions && request.messages > 0
            && validation is Ok,
        planned matches Err(response) ==> {
            &&& response.body.code == response.status
            &&& response.status == (if request.function_call || request.functions {
                501u16
            } else {
                400u16
            })
            &&& request.function_call ==> response.body.message@
                == "`function_call` is deprecated. Please migrate to use `tool_choice` instead."@
            &&& !request.function_call && request.functions ==> response.body.message@
                == "`functions` is deprecated. Please migrate to use `tools` instead."@
            &&& !request.function_call && !request.functions && request.messages == 0
                ==> response.body.message@
                == "The 'messages' field cannot be empty. At least one message is required."@
            &&& !request.function_call && !request.functions && request.messages > 0 ==> (
            validation matches Err(problem) && response.body.message@ == problem@)
        },
{
}

/// What a request for a chat completion leaves open is filled in from the template, if there is
/// one: the model where it names none, and the number of tokens where it gives none or zero. What
/// it says stays.
pub proof fn law_templates_fill_in_what_is_left_open(
    request: ChatCompletionFields,
    validation: Result<(), String>,
    template: Option<RequestTemplate>,
    plan: ChatPlan,
)
    requires
        call_ensures(plan_chat_completion, (request, validation, template), Ok(plan)),
    ensures
        request.model@.len() > 0 || template is None ==> plan.model@ == request.model@,
        template matches Some(usual) ==> (request.model@.len() == 0 ==> plan.model@ == usual.model@),
        template is None || (request.max_completion_tokens is Some && request.max_completion_tokens
            != Some(0u32)) ==> plan.max_completion_tokens == request.max_completion_tokens,
        template matches Some(usual) ==> (request.max_completion_tokens is None
            || request.max_completion_tokens == Some(0u32) ==> plan.max_completion_tokens == Some(
            usual.max_completion_tokens,
        )),
        plan.streaming <==> request.stream == Some(true),
        request.annotations is None ==> plan.id_annotations == 0,
        request.annotations matches Some(list) ==> plan.id_annotations == list@.filter(
            |annotation: String| annotation@ == "request_id"@,
        ).len(),
{
}

/// Filling in a model or a number of tokens by itself does the same.
pub proof fn law_filling_in_keeps_what_is_said(
    model: String,
    tokens: Option<u32>,
    template: &Option<RequestTemplate>,
    filled: String,
    filled_count: Option<u32>,
)
    requires
        call_ensures(fill_model, (model, template), filled),
        call_ensures(fill_tokens, (tokens, template), filled_count),
    ensures
        model@.len() > 0 || *template is None ==> filled@ == model@,
        *template matches Some(usual) ==> (model@.len() == 0 ==> filled@ == usual.model@),
        *template is None || (tokens is Some && tokens != Some(0u32)) ==> filled_count == tokens,
        *template matches Some(usual) ==> (tokens is None || tokens == Some(0u32) ==> filled_count
            == Some(usual.max_completion_tokens)),
{
}

/// The request id is annotated as often as it is asked for.
pub proof fn law_ids_are_annotated_as_often_as_asked(
    annotations: &Option<Vec<String>>,
    count: usize,
)
    requires
        call_ensures(request_id_annotations, (annotations,), count),
    ensures
        *annotations is None ==> count == 0,
        *annotations matches Some(list) ==> count == list@.filter(
            |annotation: String| annotation@ == "request_id"@,
        ).len(),
{
}

/// A batch is taken apart into one request for each prompt. A single prompt keeps the name of the
/// request; of several each has its number behind the name, and its choices come behind those of
/// all prompts before it.
pub proof fn law_prompts_of_a_batch_follow_each_other(
    request_id: &str,
    batch_size: usize,
    n: Option<u8>,
    prompts: Vec<PromptRequest>,
    i: int,
)
    requires
        call_ensures(plan_completions, (request_id, batch_size, n), prompts),
        0 <= i < batch_size,
    ensures
        prompts@.len() == batch_size,
        batch_size == 1 ==> prompts@[0].request_id@ == request_id@,
        batch_size > 1 ==> prompts@[i].request_id@ == request_id@ + "-"@ + decimal_text(i as nat),
        prompts@[0].choice_offset == 0,
        i > 0 ==> prompts@[i].choice_offset - prompts@[i - 1].choice_offset == (match n {
            Some(n) => n as int,
            None => 1,
        }),
{
    if batch_size > 1 {
        let per = crate::http::service::openai::choices_per_prompt(n);
        assert(prompts@[0].choice_offset == 0 * per);
        assert(prompts@[i].choice_offset == i * per);
        if i > 0 {
            assert(prompts@[i - 1].choice_offset == (i - 1) * per);
            assert(i * per - (i - 1) * per == per) by (nonlinear_arith);
        }
    }
}

/// A choice is numbered behind the choices of the prompts before it.
pub proof fn law_choices_are_renumbered(index: u32, offset: u32, remapped: u32)
    requires
        call_ensures(remap_choice, (index, offset), remapped),
    ensures
        remapped - offset == index,
{
}

/// Every model is listed, in the order given, under its name.
pub proof fn law_models_are_listed_by_name(
    models: Vec<String>,
    created: u64,
    list: ListModelOpenAI,
    i: int,
)
    requires
        call_ensures(list_models_openai, (models, created), list),
    ensures
        list.object@ == "list"@,
        list.data@.len() == models@.len(),
        0 <= i < models@.len() ==> {
            &&& list.data@[i].id@ == models@[i]@
            &&& list.data@[i].object@ == "model"@
            &&& list.data@[i].created == created
            &&& list.data@[i].owned_by@ == "nvidia"@
        },
{
}

/// The limit on bodies is given in mebibytes; it is 45 of them where none is given.
pub proof fn law_body_limits_are_in_mebibytes(configured: Option<usize>, limit: usize)
    requires
        call_ensures(get_body_limit, (configured,), limit),
    ensures
        configured matches Some(mebibytes) ==> limit == mebibytes * 1024 * 1024,
        configured is None ==> limit == 45 * 1024 * 1024,
{
}

/// A request to the responses endpoint is refused exactly where it sets something that is not
/// supported, or its input is not plain text. What is told is the first thing of all that it sets;
/// whatever it is, it is not implemented.
pub proof fn law_unsupported_responses_are_refused(
    request: ResponseFields,
    template: Option<RequestTemplate>,
    planned: Result<ResponsePlan, ErrorResponse>,
    unsupported: Option<ErrorResponse>,
)
    requires
        call_ensures(plan_response, (request, template), planned),
        call_ensures(validate_response_unsupported_fields, (&request,), unsupported),
    ensures
        unsupported is Some <==> (request.background == Some(true))
            || request.include_set
            || request.instructions
            || request.max_tool_calls
            || request.previous_response_id
            || request.prompt
            || request.reasoning
            || request.service_tier
            || (request.store == Some(true))
            || (request.stream == Some(true))
            || request.text
            || request.tool_choice
            || request.tools
            || request.truncation
            || request.user,
        unsupported matches Some(response) ==> response.status == 501 && ({
            let told = response.body.message@;
            if request.background == Some(true) {
                told == "`background: true` is not supported."@
            } else if request.include_set {
                told == "`include` is not supported."@
            } else if request.instructions {
                told == "`instructions` is not supported."@
            } else if request.max_tool_calls {
                told == "`max_tool_calls` is not supported."@
            } else if request.previous_response_id {
                told == "`previous_response_id` is not supported."@
            } else if request.prompt {
                told == "`prompt` is not supported."@
            } else if request.reasoning {
                told == "`reasoning` is not supported."@
            } else if request.service_tier {
                told == "`service_tier` is not supported."@
            } else if request.store == Some(true) {
                told == "`store: true` is not supported."@
            } else if request.stream == Some(true) {
                told == "`stream: true` is not supported."@
            } else if request.text {
                told == "`text` is not supported."@
            } else if request.tool_choice {
                told == "`tool_choice` is not supported."@
            } else if request.tools {
                told == "`tools` is not supported."@
            } else if request.truncation {
                told == "`truncation` is not supported."@
            } else if request.user {
                told == "`user` is not supported."@
            } else {
                false
            }
        }),
        planned is Ok <==> unsupported is None && request.input_is_text,
        planned matches Err(response) ==> response.status == 501,
        planned matches Err(response) ==> (unsupported matches Some(refusal)
            ==> response.body.message@ == refusal.body.message@),
        planned matches Ok(plan) ==> {
            &&& plan.engine_model@ == request.model@
            &&& request.model@.len() > 0 || template is None ==> plan.model@ == request.model@
            &&& template matches Some(usual) ==> (request.model@.len() == 0 ==> plan.model@
                == usual.model@)
            &&& template is None || (request.max_output_tokens is Some
                && request.max_output_tokens != Some(0u32)) ==> plan.max_output_tokens
                == request.max_output_tokens
            &&& template matches Some(usual) ==> (request.max_output_tokens is None
                || request.max_output_tokens == Some(0u32) ==> plan.max_output_tokens == Some(
                usual.max_completion_tokens,
            ))
        },
{
    let fields = crate::http::service::responses::refused_fields(request);
    reveal_with_fuel(crate::http::service::responses::first_refusal, 16);
}

/// Whatever an engine fails with is answered: an overload as such, with its own words; an error for
/// the client with its code and its words, any other code as an internal error; and anything else
/// as an internal error, with what was tried and what went wrong. Body and status agree.
pub proof fn law_failures_are_answered_with_their_status(
    error: EngineError,
    tried: &str,
    response: ErrorResponse,
)
    requires
        call_ensures(ErrorMessage::from_anyhow, (error, tried), response),
    ensures
        response.body.code == response.status,
        error matches EngineError::ServiceOverloaded(text) ==> response.status == 503
            && response.body.message@ == text@,
        error matches EngineError::Http(failed) ==> response.body.message@ == failed.message@ && (
        400 <= failed.code <= 499 ==> response.status == failed.code) && (!(400 <= failed.code
            <= 499) ==> response.status == 500),
        error matches EngineError::Other(text) ==> response.status == 500
            && response.body.message@ == tried@ + ": "@ + text@,
{
}

/// The other answers have the status of what they say.
pub proof fn law_answers_have_their_status(
    message: &str,
    failed: HttpError,
    not_found: ErrorResponse,
    not_ready: ErrorResponse,
    internal: ErrorResponse,
    not_implemented: ErrorResponse,
    answered: ErrorResponse,
    written: ErrorMessage,
)
    requires
        call_ensures(ErrorMessage::model_not_found, (), not_found),
        call_ensures(ErrorMessage::_service_unavailable, (), not_ready),
        call_ensures(ErrorMessage::internal_server_error, (message,), internal),
        call_ensures(ErrorMessage::not_implemented_error, (message,), not_implemented),
        call_ensures(ErrorMessage::from_http_error, (failed,), answered),
        call_ensures(ErrorMessage::from_error, (failed,), written),
    ensures
        not_found.status == 404 && not_found.body.message@ == "Model not found"@,
        not_ready.status == 503 && not_ready.body.message@ == "Service is not ready"@,
        internal.status == 500 && internal.body.message@ == message@,
        not_implemented.status == 501 && not_implemented.body.message@ == message@,
        answered.body.message@ == failed.message@,
        answered.status == (if 400 <= failed.code <= 499 {
            failed.code
        } else {
            500u16
        }),
        written.code == failed.code && written.message@ == failed.message@,
{
}

/// A body that cannot be processed is a bad request; any other answer stays as it is.
pub proof fn law_unprocessable_bodies_are_bad_requests(
    status: u16,
    body: String,
    response: Option<ErrorResponse>,
)
    requires
        call_ensures(smart_json_error, (status, body), response),
    ensures
        response is Some <==> status == 422,
        response matches Some(response) ==> response.status == 400 && response.body.message@
            == body@,
{
}

/// A code that is no status is an internal error.
pub proof fn law_codes_that_are_no_status(code: u16, status: u16)
    requires
        call_ensures(status_of, (code,), status),
    ensures
        100 <= code <= 999 ==> status == code,
        !(100 <= code <= 999) ==> status == 500,
{
}

/// An item is an error exactly where it calls itself one, where its data is an error of 400 or
/// more, where its comment is, or where it has nothing but a comment.
pub proof fn law_errors_in_a_stream_are_found<T>(
    event: &Annotated<T>,
    line_error: Option<ErrorPayload>,
    data: DataView,
    error: Option<BackendError>,
    line: String,
)
    requires
        call_ensures(extract_backend_error_if_present::<T>, (event, line_error, data), error),
        call_ensures(line_of::<T>, (event,), line),
    ensures
        ({
            let named = event.event is Some && event.event->Some_0@ == "error"@;
            let in_data = data.present && data.error is Some && data.error->Some_0.0.code is Some
                && data.error->Some_0.0.code->Some_0 >= 400;
            let commented = event.comment is Some && event.comment->Some_0@.len() > 0;
            let in_line = line_error is Some && line_error->Some_0.code is Some
                && line_error->Some_0.code->Some_0 >= 400;
            let only_comment = !data.present && event.event is None;
            &&& error is Some <==> named || in_data || (commented && (in_line || only_comment))
            &&& error matches Some(error) ==> {
                &&& line_error matches Some(payload) ==> (named ==> {
                    &&& payload.message matches Some(text) ==> error.message@ == text@
                    &&& payload.message is None ==> error.message@ == line@
                    &&& payload.code matches Some(code) ==> (100 <= code <= 999 ==> error.status
                        == code) && (!(100 <= code <= 999) ==> error.status == 500)
                    &&& payload.code is None ==> error.status == 500
                })
                &&& named && line_error is None ==> error.status == 500 && error.message@ == line@
                &&& !named && in_data ==> ({
                    let payload = data.error->Some_0.0;
                    &&& payload.message matches Some(text) ==> error.message@ == text@
                    &&& payload.message is None ==> error.message@ == data.error->Some_0.1@
                    &&& payload.code->Some_0 <= 999 ==> error.status == payload.code->Some_0
                })
                &&& !named && !in_data && in_line ==> ({
                    let payload = line_error->Some_0;
                    &&& payload.message matches Some(text) ==> error.message@ == text@
                    &&& payload.message is None ==> error.message@ == line@
                    &&& payload.code->Some_0 <= 999 ==> error.status == payload.code->Some_0
                })
                &&& !named && !in_data && !in_line ==> error.status == 500 && error.message@
                    == line@
            }
        }),
{
}

/// What an item says of its error is its comment, or that the error is unknown.
pub proof fn law_comments_tell_of_errors<T>(
    event: &Annotated<T>,
    line: String,
    lines: &[String],
    separator: &str,
    together: String,
)
    requires
        call_ensures(line_of::<T>, (event,), line),
        event.comment matches Some(comment) ==> lines@ == comment@,
        separator@ == ", "@,
        call_ensures(join_all, (lines, separator), together),
    ensures
        event.comment is None ==> line@ == "Unknown error"@,
        event.comment is Some ==> line@ == together@,
{
}

/// A stream whose first item is an error is refused with that error; any other one is handed on
/// with that item.
pub proof fn law_streams_that_begin_with_an_error_are_refused<T>(
    first: Option<Annotated<T>>,
    line_error: Option<ErrorPayload>,
    data: DataView,
    checked: Result<Option<Annotated<T>>, ErrorResponse>,
    error: Option<BackendError>,
)
    requires
        call_ensures(check_for_backend_error::<T>, (first, line_error, data), checked),
        first matches Some(event) ==> call_ensures(
            extract_backend_error_if_present::<T>,
            (&event, line_error, data),
            error,
        ),
    ensures
        checked is Err <==> first is Some && error is Some,
        checked matches Ok(given) ==> given == first,
        checked matches Err(response) ==> (error matches Some(error) ==> response.status
            == error.status && response.body.message@ == error.message@),
{
}

/// The course of a request: a model that is not there ends it; only completions are streamed; chat
/// completions are looked at before they are folded; responses are converted; and whatever fails is
/// answered with its status.
pub proof fn law_requests_take_their_course(
    operation: Operation,
    streaming: bool,
    request_id: &str,
    event: ServeEvent,
    action: ServeAction,
)
    requires
        call_ensures(next_action, (operation, streaming, request_id, event), action),
    ensures
        action is Ask <==> (event matches ServeEvent::EngineLookedUp { found } && found),
        event matches ServeEvent::EngineLookedUp { found } ==> (!found ==> (
        action matches ServeAction::Fail(response) && response.status == 404)),
        action is Stream <==> (event matches ServeEvent::Asked(Ok(())) && streaming && (
        operation == Operation::Completions || operation == Operation::ChatCompletions)),
        action is CheckFirst <==> (event matches ServeEvent::Asked(Ok(())) && !streaming
            && operation == Operation::ChatCompletions),
        action is Convert <==> (event matches ServeEvent::Folded(Ok(())) && operation
            == Operation::Responses),
        action is Fold <==> (event matches ServeEvent::FirstChecked(Ok(()))) || (
        event matches ServeEvent::Asked(Ok(())) && (operation == Operation::Embeddings || operation
            == Operation::Responses || (operation == Operation::Completions && !streaming))),
        action is Answer <==> (event matches ServeEvent::Folded(Ok(())) && operation
            != Operation::Responses) || (event matches ServeEvent::Converted { done } && done),
        event matches ServeEvent::Asked(Err(EngineError::ServiceOverloaded(text))) ==> (
        action matches ServeAction::Fail(response) && response.status == 503),
        event matches ServeEvent::Folded(Err(problem)) ==> (action matches ServeAction::Fail(
            response,
        ) && response.status == 500),
        event is NotConverted ==> (action matches ServeAction::Fail(response) && response.status
            == 501),
        event is TaskLost ==> (action matches ServeAction::Fail(response) && response.status == 500),
        event matches ServeEvent::FirstChecked(Err(came)) ==> (action matches ServeAction::Fail(
            response,
        ) && response == came),
        event matches ServeEvent::Converted { done } ==> (!done ==> (action matches ServeAction::Fail(
            response,
        ) && response.status == 500)),
        event matches ServeEvent::Asked(Err(EngineError::Other(text))) ==> (
        action matches ServeAction::Fail(response) && response.status == 500
            && response.body.message@ == (if operation == Operation::Embeddings {
            "Failed to generate embeddings"@
        } else {
            "Failed to generate completions"@
        }) + ": "@ + text@),
        event matches ServeEvent::Asked(Err(EngineError::Http(failed))) ==> (
        action matches ServeAction::Fail(response) && response.body.message@ == failed.message@
            && response.status == (if 400 <= failed.code <= 499 {
            failed.code
        } else {
            500u16
        })),
        event matches ServeEvent::Folded(Err(problem)) ==> (action matches ServeAction::Fail(
            response,
        ) && response.body.message@ == (match operation {
            Operation::Completions => "Failed to fold completions stream for "@ + request_id@
                + ": "@ + problem.detail@,
            Operation::ChatCompletions => "Failed to parse chat completion response: "@
                + problem.text@,
            Operation::Embeddings => "Failed to fold embeddings stream"@,
            Operation::Responses => "Failed to fold chat completions stream: "@ + problem.text@,
        })),
        event matches ServeEvent::NotConverted(problem) ==> (action matches ServeAction::Fail(
            response,
        ) && response.body.message@ == "Only Input::Text(_) is currently supported: "@ + problem@),
        event matches ServeEvent::TaskLost(detail) ==> (action matches ServeAction::Fail(response)
            && response.body.message@ == "Failed to await chat completions task: "@ + detail@),
        event matches ServeEvent::EngineLookedUp { found } ==> (!found ==> (
        action matches ServeAction::Fail(response) && response.body.message@
            == "Model not found"@)),
        event matches ServeEvent::Converted { done } ==> (!done ==> (
        action matches ServeAction::Fail(response) && response.body.message@
            == "Failed to convert internal response"@)),
        event matches ServeEvent::Asked(Err(EngineError::ServiceOverloaded(text))) ==> (
        action matches ServeAction::Fail(response) && response.body.message@ == text@),
{
}

/// A threshold is taken exactly where it lies between zero and one; where none is given there is
/// nothing to check.
pub proof fn law_thresholds_are_fractions(
    requested: &Option<RequestedThreshold>,
    checked: Result<(), ThresholdError>,
)
    requires
        call_ensures(check_threshold, (requested,), checked),
    ensures
        checked is Err <==> (*requested matches Some(threshold) && (threshold.rank < 0
            || threshold.rank > 0x3ff0_0000_0000_0000)),
        checked matches Err(error) ==> error.status == 400 && error.body.error@
            == "Threshold must be between 0.0 and 1.0, got "@ + requested->Some_0.text@,
{
}

/// A threshold cannot be set for a model that was not found.
pub proof fn law_thresholds_need_their_model(
    model: &str,
    requested: bool,
    stored: bool,
    checked: Result<(), ThresholdError>,
)
    requires
        call_ensures(check_stored, (model, requested, stored), checked),
    ensures
        checked is Err <==> requested && !stored,
        checked matches Err(error) ==> error.status == 404,
{
}

/// Buckets are valid where their bounds are greater than zero, finite and in order, and their number
/// is at least one and at most 512.
pub proof fn law_valid_buckets_have_room(buckets: Buckets, valid: bool)
    requires
        call_ensures(validate_bucket_config, (buckets,), valid),
    ensures
        valid <==> buckets.min > 0 && buckets.max > buckets.min && buckets.max
            < 0x7ff0_0000_0000_0000 && buckets.count >= 1 && buckets.count <= 512,
{
}

/// Settings replace what is usual, each what it sets, as long as the whole stays valid; otherwise
/// all of them are ignored.
pub proof fn law_bucket_settings_count_together(
    usual: Buckets,
    min: Option<i64>,
    max: Option<i64>,
    count: Option<usize>,
    buckets: Buckets,
    set: Buckets,
    usual_valid: bool,
    set_valid: bool,
)
    requires
        call_ensures(bucket_config, (usual, min, max, count), buckets),
        call_ensures(validate_bucket_config, (usual,), usual_valid),
        call_ensures(validate_bucket_config, (set,), set_valid),
        min is Some ==> set.min == min->Some_0,
        min is None ==> set.min == usual.min,
        max is Some ==> set.max == max->Some_0,
        max is None ==> set.max == usual.max,
        count is Some ==> set.count == count->Some_0,
        count is None ==> set.count == usual.count,
    ensures
        usual_valid && set_valid ==> buckets == set,
        usual_valid && !set_valid ==> buckets == usual,
        !usual_valid ==> buckets.min == 0x3ff0_0000_0000_0000 && buckets.max
            == 0x4024_0000_0000_0000 && buckets.count == 10,
{
}

proof fn lemma_deduped(list: Seq<i64>, value: i64)
    ensures
        deduped(list).contains(value) <==> list.contains(value),
        deduped(list).len() <= list.len(),
        list.len() > 0 ==> deduped(list).len() > 0 && deduped(list).last() == list.last()
            && deduped(list)[0] == list[0],
    decreases list.len(),
{
    if list.len() > 1 {
        let before = list.drop_last();
        lemma_deduped(before, value);
        crate::seqs::lemma_push_contains(before, list.last(), value);
        assert(before.push(list.last()) =~= list);
        if list.last() == list[list.len() - 2] {
            assert(before[before.len() - 1] == list.last());
            assert(before.contains(list.last()));
        } else {
            crate::seqs::lemma_push_contains(deduped(before), list.last(), value);
        }
    }
}

/// The bounds of buckets begin with zero and hold what was spaced out, without repetitions; none
/// are asked for where there are no buckets.
pub proof fn law_bounds_hold_what_was_spaced_out(
    count: usize,
    spaced: &Vec<i64>,
    buckets: LogBuckets,
    bound: i64,
)
    requires
        call_ensures(log_buckets, (count, spaced), buckets),
    ensures
        count == 0 ==> buckets.bounds@.len() == 0,
        count == 1 ==> buckets.bounds@ == seq![0i64],
        count > 1 ==> buckets.bounds@.len() > 0 && buckets.bounds@[0] == 0
            && buckets.bounds@.len() <= spaced@.len() + 1,
        count > 1 ==> (buckets.bounds@.contains(bound) <==> bound == 0 || spaced@.contains(bound)),
{
    if count > 1 {
        let list = seq![0i64] + spaced@;
        lemma_deduped(list, bound);
        if spaced@.contains(bound) {
            let i = choose|i: int| 0 <= i < spaced@.len() && spaced@[i] == bound;
            assert(list[i + 1] == bound);
        }
        if list.contains(bound) && bound != 0 {
            let i = choose|i: int| 0 <= i < list.len() && list[i] == bound;
            assert(spaced@[i - 1] == bound);
        }
        assert(list[0] == 0);
    }
}

/// A request is known by what it was traced under, or else by what it was named first, or else by
/// its header.
pub proof fn law_requests_are_known_by_their_first_name(
    traced: Option<String>,
    primary: Option<String>,
    header: Option<String>,
    id: Option<String>,
)
    requires
        call_ensures(known_request_id, (traced, primary, header), id),
    ensures
        id is Some <==> traced is Some || primary is Some || header is Some,
        traced matches Some(name) ==> (id matches Some(id) && id@ == name@),
        traced is None ==> (primary matches Some(name) ==> (id matches Some(id) && id@ == name@)),
        traced is None && primary is None ==> (header matches Some(name) ==> (id matches Some(id)
            && id@ == name@)),
{
}

/// A route lies where it is asked to, and else at its usual place.
pub proof fn law_routes_lie_where_they_are_asked_to(
    route: Routes,
    asked: Option<String>,
    path: String,
)
    requires
        call_ensures(Routes::path, (route, asked), path),
    ensures
        asked matches Some(wanted) ==> path@ == wanted@,
        asked is None ==> path@ == (match route {
            Routes::Completions => "/v1/completions"@,
            Routes::ChatCompletions => "/v1/chat/completions"@,
            Routes::Embeddings => "/v1/embeddings"@,
            Routes::ListModels => "/v1/models"@,
            Routes::Responses => "/v1/responses"@,
            Routes::BusyThreshold => "/busy_threshold"@,
            Routes::Metrics => "/metrics"@,
        }),
{
}

/// What is told of a route is its path and each of its methods: what is only read is got, and
/// everything else is posted; thresholds are both.
pub proof fn law_routes_tell_their_methods(route: Routes, path: &str, docs: Vec<RouteDoc>, i: int)
    requires
        call_ensures(Routes::docs, (route, path), docs),
    ensures
        docs@.len() == (if route is BusyThreshold {
            2nat
        } else {
            1nat
        }),
        0 <= i < docs@.len() ==> docs@[i].path@ == path@,
        docs@[0].method@ == (if route is ListModels || route is Metrics {
            "GET"@
        } else {
            "POST"@
        }),
        route is BusyThreshold ==> docs@[1].method@ == "GET"@,
{
    assert(docs@.len() >= 1);
    assert(docs@[0].method@ == route.methods()[0]);
    if route is BusyThreshold {
        assert(docs@[1].method@ == route.methods()[1]);
    }
    if 0 <= i < docs@.len() {
        assert(docs@[i].path@ == path@);
    }
}

/// Each check by itself refuses what it is for, and nothing else.
pub proof fn law_checks_refuse_what_they_are_for(
    request: &ChatCompletionFields,
    supported: Result<(), ErrorResponse>,
    required: Result<(), ErrorResponse>,
    validation: Result<(), String>,
    chat: Result<(), ErrorResponse>,
    completion: Result<(), ErrorResponse>,
    response: &ResponseFields,
    text_only: Option<ErrorResponse>,
)
    requires
        call_ensures(validate_chat_completion_unsupported_fields, (request,), supported),
        call_ensures(validate_chat_completion_required_fields, (request,), required),
        call_ensures(validate_chat_completion_fields_generic, (validation,), chat),
        call_ensures(validate_completion_fields_generic, (validation,), completion),
        call_ensures(validate_response_input_is_text_only, (response,), text_only),
    ensures
        supported is Err <==> request.function_call || request.functions,
        supported matches Err(refused) ==> refused.status == 501,
        required is Err <==> request.messages == 0,
        required matches Err(refused) ==> refused.status == 400,
        chat is Err <==> validation is Err,
        chat matches Err(refused) ==> refused.status == 400 && refused.body.message@
            == validation->Err_0@,
        completion is Err <==> validation is Err,
        completion matches Err(refused) ==> refused.status == 400 && refused.body.message@
            == validation->Err_0@,
        text_only is Some <==> !response.input_is_text,
        text_only matches Some(refused) ==> refused.status == 501,
{
}

/// A request that was traced keeps that name.
pub proof fn law_traced_requests_keep_their_name(
    traced: String,
    primary: Option<&str>,
    header: Option<&str>,
    id: String,
)
    requires
        call_ensures(get_or_create_request_id, (Some(traced), primary, header), id),
    ensures
        id@ == traced@,
{
}

/// What a request does is measured under its own endpoint, and a route tells its method and path.
pub proof fn law_operations_have_their_endpoint(
    operation: Operation,
    endpoint: Endpoint,
    doc: &RouteDoc,
    text: String,
)
    requires
        call_ensures(Operation::endpoint, (operation,), endpoint),
        call_ensures(RouteDoc::text, (doc,), text),
    ensures
        endpoint is Completions <==> operation is Completions,
        endpoint is ChatCompletions <==> operation is ChatCompletions,
        endpoint is Embeddings <==> operation is Embeddings,
        endpoint is Responses <==> operation is Responses,
        text@ == doc.method@ + " "@ + doc.path@,
{
}

} // verus!
