//! What answering with made-up tokens keeps to.
use crate::mocker::engine::{
    plan_request, publishes_events, RunEvent, RunOutput, RunPlan, TokenStream, WorkerType,
};
use crate::model_card::hf_config::TokenIdType;
use vstd::prelude::*;

verus! {

/// A request is planned exactly where its rank, the first where it names none, is one of the
/// engine's. It may make as many tokens as it asks for, and one where the worker only fills the
/// cache.
pub proof fn law_requests_run_on_their_rank(
    dp_rank: Option<u32>,
    dp_size: u32,
    request_id: &str,
    worker_type: WorkerType,
    max_tokens: Option<u32>,
    plan: Result<RunPlan, String>,
)
    requires
        worker_type != WorkerType::Prefill ==> max_tokens is Some,
        call_ensures(plan_request, (dp_rank, dp_size, request_id, worker_type, max_tokens), plan),
    ensures
        dp_rank matches Some(rank) ==> (plan is Ok <==> rank < dp_size),
        dp_rank is None ==> (plan is Ok <==> dp_size > 0),
        plan matches Ok(plan) ==> {
            &&& dp_rank matches Some(rank) ==> plan.dp_rank == rank
            &&& dp_rank is None ==> plan.dp_rank == 0
            &&& plan.is_prefill <==> worker_type == WorkerType::Prefill
            &&& worker_type == WorkerType::Prefill ==> plan.max_output_tokens == 1
            &&& worker_type != WorkerType::Prefill ==> plan.max_output_tokens == max_tokens->Some_0
        },
{
}

/// Events are published where prefixes are cached, but not by workers that only make tokens.
pub proof fn law_decode_workers_publish_nothing(
    prefix_caching: bool,
    worker_type: WorkerType,
    publishes: bool,
)
    requires
        call_ensures(publishes_events, (prefix_caching, worker_type), publishes),
    ensures
        publishes <==> prefix_caching && (worker_type == WorkerType::Aggregated || worker_type
            == WorkerType::Prefill),
{
}

/// Every token is counted and sent, the last one as such. A last token before as many as were asked
/// for is an error, and so is the end of all tokens; who stops the answer is told so. Nothing but a
/// token is counted.
pub proof fn law_tokens_are_counted_and_sent(
    stream: &mut TokenStream,
    event: RunEvent,
    token: TokenIdType,
    output: RunOutput,
)
    requires
        old(stream).token_count < usize::MAX,
        call_ensures(TokenStream::on_event_with, (stream, event, token), output),
    ensures
        final(stream).max_output_tokens == old(stream).max_output_tokens,
        event is Token ==> final(stream).token_count == old(stream).token_count + 1,
        !(event is Token) ==> final(stream).token_count == old(stream).token_count,
        output is Cancelled <==> event is Stopped,
        event matches RunEvent::Token { completed } ==> {
            &&& !completed ==> output == RunOutput::Token(token)
            &&& completed && final(stream).token_count >= old(stream).max_output_tokens ==> output
                == RunOutput::Last(token)
            &&& completed && final(stream).token_count < old(stream).max_output_tokens ==> (
            output matches RunOutput::Error(text) && text@
                == "Completion signal received before max tokens reached"@)
        },
        event is Closed ==> (output matches RunOutput::Error(text) && text@
            == "All output transmitters closed"@),
{
}

/// Tokens that are made up are sent as others are, and lie between one thousand and two thousand.
pub proof fn law_made_up_tokens_are_sent(
    stream: &mut TokenStream,
    event: RunEvent,
    output: RunOutput,
    other: &mut TokenStream,
    token: TokenIdType,
    sent: RunOutput,
)
    requires
        old(stream).token_count < usize::MAX,
        *old(other) == *old(stream),
        call_ensures(TokenStream::on_event, (stream, event), output),
        call_ensures(TokenStream::on_event_with, (other, event, token), sent),
    ensures
        *final(stream) == *final(other),
        output is Token <==> sent is Token,
        output is Last <==> sent is Last,
        output is Cancelled <==> sent is Cancelled,
        output is Error <==> sent is Error,
        output matches RunOutput::Token(token) ==> 1000 <= token < 2000,
        output matches RunOutput::Last(token) ==> 1000 <= token < 2000,
{
}

} // verus!
