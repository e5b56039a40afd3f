//! Answering requests with made-up tokens.
use crate::http::service::request_ids::{is_uuid, new_uuid, parse_uuid, uuid_text};
use crate::model_card::hf_config::TokenIdType;
use crate::text::{decimal, decimal_text, surround};
use crate::chance::random_between;
use vstd::prelude::*;

verus! {

/// The component under which the engine runs.
pub const MOCKER_COMPONENT: &'static str = "mocker";

/// Picks a token by chance.
pub fn generate_random_token() -> (token: TokenIdType)
    ensures
        1000 <= token < 2000,
{
    random_between(1000, 1999) as TokenIdType
}

/// What a worker does.
#[derive(Clone, Copy, Debug, PartialEq, Eq, Structural)]
pub enum WorkerType {
    /// Everything.
    Aggregated,
    /// It only puts tokens into the cache.
    Prefill,
    /// It only makes tokens.
    Decode,
}

/// Whether a worker tells others what is in its cache.
pub fn publishes_events(enable_prefix_caching: bool, worker_type: WorkerType) -> (publishes: bool)
    ensures
        publishes == (enable_prefix_caching && worker_type != WorkerType::Decode),
{
    enable_prefix_caching && worker_type != WorkerType::Decode
}

/// How a request is run.
#[derive(Clone, Debug)]
pub struct RunPlan {
    pub dp_rank: u32,
    pub request_id: String,
    pub max_output_tokens: usize,
    pub is_prefill: bool,
}

/// Plans how a request is run. A request that names no rank runs on the first one; a worker that
/// only fills the cache makes one token. The name of the request is kept where it is a UUID.
pub fn plan_request(
    dp_rank: Option<u32>,
    dp_size: u32,
    request_id: &str,
    worker_type: WorkerType,
    max_tokens: Option<u32>,
) -> (plan: Result<RunPlan, String>)
    requires
        worker_type != WorkerType::Prefill ==> max_tokens is Some,
    ensures
        ({
            let rank = match dp_rank {
                Some(rank) => rank,
                None => 0,
            };
            match plan {
                Ok(plan) => {
                    &&& rank < dp_size
                    &&& plan.dp_rank == rank
                    &&& plan.is_prefill == (worker_type == WorkerType::Prefill)
                    &&& plan.max_output_tokens == (if worker_type == WorkerType::Prefill {
                        1
                    } else {
                        max_tokens->Some_0 as int
                    })
                    &&& match uuid_text(request_id@) {
                        Some(text) => plan.request_id@ == text,
                        None => is_uuid(plan.request_id@),
                    }
                },
                Err(message) => rank >= dp_size && message@ == "dp_rank "@ + decimal_text(
                    rank as nat,
                ) + " is out of bounds for dp_size "@ + decimal_text(dp_size as nat),
            }
        }),
{
    let rank: u32 = match dp_rank {
        Some(rank) => rank,
        None => 0,
    };
    if rank >= dp_size {
        let mut message = surround(
            "dp_rank ",
            decimal(rank as u64).as_str(),
            " is out of bounds for dp_size ",
        );
        message.append(decimal(dp_size as u64).as_str());
        return Err(message);
    }
    let request_id = match parse_uuid(request_id) {
        Some(text) => text,
        None => new_uuid(),
    };
    let is_prefill = worker_type == WorkerType::Prefill;
    let max_output_tokens: usize = if is_prefill {
        1
    } else {
        match max_tokens {
            Some(number) => number as usize,
            None => 0,
        }
    };
    Ok(RunPlan { dp_rank: rank, request_id, max_output_tokens, is_prefill })
}

/// What happens to a request that is run.
#[derive(Clone, Copy, Debug, PartialEq, Eq, Structural)]
pub enum RunEvent {
    /// One more token was made, and it may be the last.
    Token { completed: bool },
    /// Nobody will tell of tokens any more.
    Closed,
    /// The one who asked no longer wants the answer.
    Stopped,
}

/// What is sent to the one who asked.
#[derive(Clone, Debug, PartialEq, Eq)]
pub enum RunOutput {
    /// A token; more may follow.
    Token(TokenIdType),
    /// The last token.
    Last(TokenIdType),
    /// That the answer was stopped.
    Cancelled,
    /// That something went wrong.
    Error(&'static str),
}

/// What is said where nobody will tell of tokens any more.
pub const TRANSMITTERS_CLOSED: &'static str = "All output transmitters closed";

/// What is said where the answer ends too early.
pub const COMPLETED_EARLY: &'static str = "Completion signal received before max tokens reached";

/// An answer as it is made.
#[derive(Clone, Copy, Debug, PartialEq, Eq, Structural)]
pub struct TokenStream {
    pub token_count: usize,
    pub max_output_tokens: usize,
}

/// Whether what is sent is right for what happened, given the token that was made up.
pub open spec fn sends(
    stream: TokenStream,
    event: RunEvent,
    token: TokenIdType,
    output: RunOutput,
) -> bool {
    match event {
        RunEvent::Closed => output matches RunOutput::Error(text) && text@
            == "All output transmitters closed"@,
        RunEvent::Stopped => output is Cancelled,
        RunEvent::Token { completed } => if completed && stream.token_count + 1
            < stream.max_output_tokens {
            output matches RunOutput::Error(text) && text@
                == "Completion signal received before max tokens reached"@
        } else if completed {
            output == RunOutput::Last(token)
        } else {
            output == RunOutput::Token(token)
        },
    }
}

impl TokenStream {
    pub fn new(max_output_tokens: usize) -> (stream: Self)
        ensures
            stream == (TokenStream { token_count: 0, max_output_tokens }),
    {
        TokenStream { token_count: 0, max_output_tokens }
    }

    /// Decides what is sent, given the token that was made up.
    pub fn on_event_with(&mut self, event: RunEvent, token: TokenIdType) -> (output: RunOutput)
        requires
            old(self).token_count < usize::MAX,
        ensures
            sends(*old(self), event, token, output),
            *final(self) == (TokenStream {
                token_count: if event is Token {
                    (old(self).token_count + 1) as usize
                } else {
                    old(self).token_count
                },
                ..*old(self)
            }),
    {
        match event {
            RunEvent::Closed => RunOutput::Error(TRANSMITTERS_CLOSED),
            RunEvent::Stopped => RunOutput::Cancelled,
            RunEvent::Token { completed } => {
                self.token_count = self.token_count + 1;
                if completed && self.token_count < self.max_output_tokens {
                    RunOutput::Error(COMPLETED_EARLY)
                } else if completed {
                    RunOutput::Last(token)
                } else {
                    RunOutput::Token(token)
                }
            },
        }
    }

    /// Decides what is sent; tokens are made up.
    pub fn on_event(&mut self, event: RunEvent) -> (output: RunOutput)
        requires
            old(self).token_count < usize::MAX,
        ensures
            exists|token: TokenIdType|
                1000 <= token < 2000 && #[trigger] sends(*old(self), event, token, output),
            *final(self) == (TokenStream {
                token_count: if event is Token {
                    (old(self).token_count + 1) as usize
                } else {
                    old(self).token_count
                },
                ..*old(self)
            }),
    {
        let token = generate_random_token();
        self.on_event_with(event, token)
    }
}

/// An answer that ends well has as many tokens as were asked for, or more.
pub proof fn law_no_answer_is_short(
    stream: TokenStream,
    event: RunEvent,
    token: TokenIdType,
    output: RunOutput,
)
    requires
        sends(stream, event, token, output),
        output is Last,
    ensures
        stream.token_count + 1 >= stream.max_output_tokens,
{
}

} // verus!
