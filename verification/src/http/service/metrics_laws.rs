//! What is measured of an answer, and what of it is sent on.
use crate::http::service::backend_errors::Annotated;
use crate::http::service::metrics::{
    metric_definitions, metrics_answer, process_response_and_observe_metrics,
    process_response_using_event_converter_and_observe_metrics, update_metrics_from_mdc,
    update_runtime_config_metrics, BucketConfig, BucketSource, Endpoint, EventConverter, InflightGuard, LLMMetricAnnotation,
    Metric, MetricDefinition, MetricKind, Observation, RequestType, ResponseMetricCollector,
    SseItem, Status, StreamObservation,
};
use crate::kv_router::scheduler::ModelRuntimeConfig;
use crate::text::join_all;
use vstd::prelude::*;

verus! {

/// Tokens that come are recorded, with their number; the first of an answer also with the time
/// since its start and the length of the input, and all later ones with the time since those
/// before. Where no token comes, nothing is recorded and nothing changes.
pub proof fn law_tokens_are_timed(
    collector: &mut ResponseMetricCollector,
    isl: usize,
    tokens: usize,
    elapsed: u64,
    recorded: Option<Observation>,
)
    requires
        old(collector).last_response_time matches Some(last) ==> last <= elapsed,
        call_ensures(
            ResponseMetricCollector::observe_response,
            (collector, isl, tokens, elapsed),
            recorded,
        ),
    ensures
        recorded is Some <==> tokens > 0,
        recorded is None ==> *final(collector) == *old(collector),
        recorded matches Some(recorded) ==> {
            &&& recorded.output_tokens == tokens
            &&& recorded.first is Some <==> old(collector).is_first_token
            &&& recorded.first matches Some((time, length)) ==> time == elapsed && length == isl
            &&& recorded.gap is Some <==> old(collector).last_response_time is Some
            &&& recorded.gap matches Some((gap, count)) ==> gap + old(
                collector).last_response_time->Some_0 == elapsed && count == tokens
            &&& !final(collector).is_first_token
            &&& final(collector).last_response_time == Some(elapsed)
            &&& final(collector).osl == old(collector).osl
        },
{
}

/// The gap that is recorded of tokens is the time that passed since the tokens before them came.
pub proof fn law_gaps_lie_between_two_observations(
    collector: &mut ResponseMetricCollector,
    later: &mut ResponseMetricCollector,
    isl: usize,
    tokens: usize,
    elapsed: u64,
    recorded: Option<Observation>,
    later_tokens: usize,
    later_elapsed: u64,
    later_recorded: Option<Observation>,
)
    requires
        tokens > 0,
        later_tokens > 0,
        old(collector).last_response_time matches Some(last) ==> last <= elapsed,
        elapsed <= later_elapsed,
        *old(later) == *final(collector),
        call_ensures(
            ResponseMetricCollector::observe_response,
            (collector, isl, tokens, elapsed),
            recorded,
        ),
        call_ensures(
            ResponseMetricCollector::observe_response,
            (later, isl, later_tokens, later_elapsed),
            later_recorded,
        ),
    ensures
        later_recorded matches Some(found) && found.first is None && found.gap == Some(
            ((later_elapsed - elapsed) as u64, later_tokens),
        ),
{
}

/// Cached tokens are recorded once, the first time that their number is known.
pub proof fn law_cached_tokens_are_recorded_once(
    collector: &mut ResponseMetricCollector,
    cached: Option<usize>,
    recorded: Option<usize>,
)
    requires
        call_ensures(ResponseMetricCollector::observe_cached_tokens, (collector, cached), recorded),
    ensures
        old(collector).cached_tokens_observed ==> recorded is None,
        !old(collector).cached_tokens_observed ==> recorded == cached,
        final(collector).cached_tokens_observed <==> old(collector).cached_tokens_observed
            || cached is Some,
        final(collector).osl == old(collector).osl,
        final(collector).is_first_token == old(collector).is_first_token,
        final(collector).last_response_time == old(collector).last_response_time,
{
}

/// What an item says was measured is recorded as such; its place in the queue is given up with the
/// first tokens, and never before.
pub proof fn law_items_are_measured_as_they_say<G>(
    metrics: Option<LLMMetricAnnotation>,
    collector: &mut ResponseMetricCollector,
    guard: &mut Option<G>,
    elapsed: u64,
    recorded: Option<Observation>,
)
    requires
        old(collector).last_response_time matches Some(last) ==> last <= elapsed,
        call_ensures(
            process_response_and_observe_metrics::<G>,
            (metrics, collector, guard, elapsed),
            recorded,
        ),
    ensures
        metrics is None ==> recorded is None && *final(collector) == *old(collector)
            && *final(guard) == *old(guard),
        metrics matches Some(metrics) ==> {
            &&& final(collector).osl == metrics.output_tokens
            &&& recorded is Some <==> metrics.chunk_tokens > 0
            &&& recorded matches Some(found) ==> found.output_tokens == metrics.chunk_tokens
            &&& recorded matches Some(found) ==> (found.first matches Some((time, length)) ==> time
                == elapsed && length == metrics.input_tokens)
            &&& old(collector).is_first_token && metrics.chunk_tokens > 0 ==> *final(guard)
                == None::<G> && recorded->Some_0.first is Some
            &&& !(old(collector).is_first_token && metrics.chunk_tokens > 0) ==> *final(guard)
                == *old(guard)
            &&& final(collector).is_first_token <==> old(collector).is_first_token
                && metrics.chunk_tokens == 0
        },
{
}

/// What is sent of an item is its data, its event and its comments. An error is sent as a failure;
/// an item that has neither data nor event is not sent; and what was only measured is taken off.
pub proof fn law_items_are_sent_as_they_came<T, G>(
    annotated: EventConverter<T>,
    metrics: Option<LLMMetricAnnotation>,
    collector: &mut ResponseMetricCollector,
    guard: &mut Option<G>,
    elapsed: u64,
    sent: SseItem<T>,
    observed: StreamObservation,
    lines: &[String],
    separator: &str,
    together: String,
)
    requires
        annotated.0.comment matches Some(comment) ==> lines@ == comment@,
        separator@ == " -- "@,
        call_ensures(join_all, (lines, separator), together),
        old(collector).last_response_time matches Some(last) ==> last <= elapsed,
        call_ensures(
            process_response_using_event_converter_and_observe_metrics::<T, G>,
            (annotated, metrics, collector, guard, elapsed),
            (sent, observed),
        ),
    ensures
        ({
            let item = annotated.0;
            let measured = metrics is Some && item.event is Some && item.event->Some_0@
                == "llm_metrics"@;
            let failed = item.event is Some && item.event->Some_0@ == "error"@;
            &&& failed && !measured <==> sent is Failure
            &&& sent matches SseItem::Failure { data, message } ==> data == item.data && (
            item.comment is None ==> message@ == "unspecified error"@) && (
            item.comment is Some ==> message@ == together@)
            &&& sent is Nothing <==> item.data is None && (item.event is None || measured)
            &&& sent matches SseItem::Event { data, event, comments } ==> {
                &&& data == item.data
                &&& measured ==> event is None && comments@.len() == 0
                &&& !measured ==> event == item.event
                &&& !measured ==> (item.comment matches Some(lines) ==> comments@ == lines@)
                &&& item.comment is None ==> comments@.len() == 0
            }
        }),
        metrics is None ==> observed.cached_tokens is None && observed.tokens is None,
        metrics matches Some(metrics) ==> {
            &&& observed.tokens is Some <==> metrics.chunk_tokens > 0
            &&& old(collector).cached_tokens_observed ==> observed.cached_tokens is None
            &&& !old(collector).cached_tokens_observed ==> observed.cached_tokens
                == metrics.cached_tokens
            &&& final(collector).osl == metrics.output_tokens
        },
{
    reveal_strlit("error");
    reveal_strlit("llm_metrics");
    assert("error"@.len() != "llm_metrics"@.len());
}

/// The gauges of a worker show what it reports, each where it is reported, and no more than the
/// greatest number that a gauge can show; those of a model are shown always.
pub proof fn law_gauges_show_what_is_reported(
    config: &ModelRuntimeConfig,
    context_length: u32,
    kv_cache_block_size: u32,
    migration_limit: u32,
    gauges: Vec<(Metric, i64)>,
    all: Vec<(Metric, i64)>,
    value: i64,
)
    requires
        call_ensures(update_runtime_config_metrics, (config,), gauges),
        call_ensures(
            update_metrics_from_mdc,
            (config, context_length, kv_cache_block_size, migration_limit),
            all,
        ),
    ensures
        gauges@.contains((Metric::TotalKvBlocks, value)) <==> (
        config.total_kv_blocks matches Some(number) && value == (if number
            <= 0x7fff_ffff_ffff_ffff {
            number as int
        } else {
            0x7fff_ffff_ffff_ffff
        })),
        gauges@.contains((Metric::MaxNumSeqs, value)) <==> (config.max_num_seqs matches Some(number)
            && value == (if number <= 0x7fff_ffff_ffff_ffff {
            number as int
        } else {
            0x7fff_ffff_ffff_ffff
        })),
        gauges@.contains((Metric::MaxNumBatchedTokens, value)) <==> (
        config.max_num_batched_tokens matches Some(number) && value == (if number
            <= 0x7fff_ffff_ffff_ffff {
            number as int
        } else {
            0x7fff_ffff_ffff_ffff
        })),
        all@.len() == gauges@.len() + 3,
        all@.take(gauges@.len() as int) == gauges@,
        all@[gauges@.len() as int] == (Metric::ContextLength, context_length as i64),
        all@[gauges@.len() as int + 1] == (Metric::KvCacheBlockSize, kv_cache_block_size as i64),
        all@[gauges@.len() as int + 2] == (Metric::MigrationLimit, migration_limit as i64),
{
    let first = match config.total_kv_blocks {
        Some(number) => seq![
            (Metric::TotalKvBlocks, crate::http::service::metrics::clamped(number)),
        ],
        None => Seq::empty(),
    };
    let second = match config.max_num_seqs {
        Some(number) => seq![(Metric::MaxNumSeqs, crate::http::service::metrics::clamped(number))],
        None => Seq::empty(),
    };
    let third = match config.max_num_batched_tokens {
        Some(number) => seq![
            (Metric::MaxNumBatchedTokens, crate::http::service::metrics::clamped(number)),
        ],
        None => Seq::empty(),
    };
    assert(gauges@ == first + second + third);
    if config.total_kv_blocks is Some {
        assert(gauges@[0] == first[0]);
    }
    if config.max_num_seqs is Some {
        assert(gauges@[first.len() as int] == second[0]);
    }
    if config.max_num_batched_tokens is Some {
        assert(gauges@[(first + second).len() as int] == third[0]);
    }
    assert(all@.take(gauges@.len() as int) =~= gauges@);
}

/// A request counts as failed until it is marked; it is told as a stream exactly where it is one.
pub proof fn law_requests_fail_until_they_succeed(
    model: &str,
    endpoint: Endpoint,
    streaming: bool,
    guard: InflightGuard,
    marked: &mut InflightGuard,
    labels: (&'static str, &'static str, &'static str),
)
    requires
        call_ensures(InflightGuard::new, (model, endpoint, streaming), guard),
        call_ensures(InflightGuard::mark_ok, (marked,), ()),
        call_ensures(InflightGuard::labels, (&*final(marked),), labels),
    ensures
        guard.status == Status::Error,
        guard.endpoint == endpoint,
        guard.request_type == RequestType::Stream <==> streaming,
        final(marked).status == Status::Success,
        final(marked).endpoint == old(marked).endpoint,
        final(marked).request_type == old(marked).request_type,
        final(marked).model == old(marked).model,
        labels.2@ == "success"@,
        labels.1@ == (if old(marked).request_type == RequestType::Stream {
            "stream"@
        } else {
            "unary"@
        }),
        labels.0@ == (match old(marked).endpoint {
            Endpoint::Completions => "completions"@,
            Endpoint::ChatCompletions => "chat_completions"@,
            Endpoint::Embeddings => "embeddings"@,
            Endpoint::Responses => "responses"@,
            Endpoint::Tensor => "tensor"@,
        }),
{
}

/// Metrics that can be encoded are answered as they are, and otherwise with an internal error.
pub proof fn law_metrics_are_answered_as_encoded(
    encoded: Option<String>,
    status: u16,
    body: String,
)
    requires
        call_ensures(metrics_answer, (encoded,), (status, body)),
    ensures
        status == 200 <==> encoded is Some,
        status == 500 <==> encoded is None,
        encoded matches Some(text) ==> body@ == text@,
{
}

/// Each metric is defined once, under its name behind the prefix. What is counted never falls, what
/// may fall is a gauge, and what is spread is a histogram.
pub proof fn law_metrics_are_defined_under_their_names(
    prefix: &str,
    definitions: Vec<MetricDefinition>,
)
    requires
        call_ensures(metric_definitions, (prefix,), definitions),
    ensures
        definitions@.len() == 17,
        definitions@[0].name@ == prefix@ + "_"@ + "requests_total"@ && definitions@[0].kind
            == MetricKind::CounterVec,
        definitions@[1].name@ == prefix@ + "_"@ + "inflight_requests"@ && definitions@[1].kind
            == MetricKind::GaugeVec,
        definitions@[2].name@ == prefix@ + "_"@ + "disconnected_clients"@ && definitions@[2].kind
            == MetricKind::Gauge,
        definitions@[3].name@ == prefix@ + "_"@ + "queued_requests"@ && definitions@[3].kind
            == MetricKind::GaugeVec,
        definitions@[4].name@ == prefix@ + "_"@ + "request_duration_seconds"@
            && definitions@[4].kind == MetricKind::HistogramVec(
            BucketConfig {
                source: BucketSource::RequestDuration,
                min_thousandths: 1000,
                max_thousandths: 256000,
                count: 10,
            },
        ),
        definitions@[5].name@ == prefix@ + "_"@ + "input_sequence_tokens"@
            && definitions@[5].kind == MetricKind::HistogramVec(
            BucketConfig {
                source: BucketSource::InputSequence,
                min_thousandths: 50000,
                max_thousandths: 128000000,
                count: 12,
            },
        ),
        definitions@[6].name@ == prefix@ + "_"@ + "output_sequence_tokens"@
            && definitions@[6].kind == MetricKind::HistogramVec(
            BucketConfig {
                source: BucketSource::OutputSequence,
                min_thousandths: 50000,
                max_thousandths: 32000000,
                count: 10,
            },
        ),
        definitions@[7].name@ == prefix@ + "_"@ + "cached_tokens"@
            && definitions@[7].kind == MetricKind::HistogramVec(
            BucketConfig {
                source: BucketSource::InputSequence,
                min_thousandths: 50000,
                max_thousandths: 128000000,
                count: 12,
            },
        ),
        definitions@[8].name@ == prefix@ + "_"@ + "output_tokens_total"@ && definitions@[8].kind
            == MetricKind::CounterVec,
        definitions@[9].name@ == prefix@ + "_"@ + "time_to_first_token_seconds"@
            && definitions@[9].kind == MetricKind::HistogramVec(
            BucketConfig {
                source: BucketSource::TimeToFirstToken,
                min_thousandths: 1,
                max_thousandths: 480000,
                count: 18,
            },
        ),
        definitions@[10].name@ == prefix@ + "_"@ + "inter_token_latency_seconds"@
            && definitions@[10].kind == MetricKind::HistogramVec(
            BucketConfig {
                source: BucketSource::InterTokenLatency,
                min_thousandths: 1,
                max_thousandths: 2000,
                count: 13,
            },
        ),
        forall|i: int| 11 <= i < 17 ==> (#[trigger] definitions@[i]).kind == MetricKind::GaugeVec,
        definitions@[0].labels@.len() == 4 && definitions@[0].labels@[0]@ == "model"@
            && definitions@[0].labels@[1]@ == "endpoint"@ && definitions@[0].labels@[2]@
            == "request_type"@ && definitions@[0].labels@[3]@ == "status"@,
        definitions@[2].labels@.len() == 0,
        forall|i: int|
            0 <= i < 17 && i != 0 && i != 2 ==> (#[trigger] definitions@[i]).labels@.len() == 1
                && definitions@[i].labels@[0]@ == "model"@,
        definitions@[11].name@ == prefix@ + "_"@ + "model_total_kv_blocks"@,
        definitions@[12].name@ == prefix@ + "_"@ + "model_max_num_seqs"@,
        definitions@[13].name@ == prefix@ + "_"@ + "model_max_num_batched_tokens"@,
        definitions@[14].name@ == prefix@ + "_"@ + "model_context_length"@,
        definitions@[15].name@ == prefix@ + "_"@ + "model_kv_cache_block_size"@,
        definitions@[16].name@ == prefix@ + "_"@ + "model_migration_limit"@,
{
    let all = crate::http::service::metrics::registered_metrics();
    assert forall|i: int| 0 <= i < definitions@.len() implies (
    #[trigger] definitions@[i]).labels@.len() == all[i].labels().len() && definitions@[i].name@
        == prefix@ + "_"@ + all[i].suffix() && definitions@[i].kind == all[i].kept_as() by {
        assert(definitions@[i].defines(all[i], prefix@));
        assert(definitions@[i].labels@.map_values(|label: &'static str| label@).len()
            == definitions@[i].labels@.len());
    }
    assert forall|i: int, k: int|
        0 <= i < definitions@.len() && 0 <= k
            < definitions@[i].labels@.len() implies #[trigger] definitions@[i].labels@[k]@
        == all[i].labels()[k] by {
        assert(definitions@[i].defines(all[i], prefix@));
        assert(definitions@[i].labels@.map_values(|label: &'static str| label@)[k]
            == definitions@[i].labels@[k]@);
    }
    assert(definitions@[11].name@ == prefix@ + "_"@ + all[11].suffix());
    assert(definitions@[12].name@ == prefix@ + "_"@ + all[12].suffix());
    assert(definitions@[13].name@ == prefix@ + "_"@ + all[13].suffix());
    assert(definitions@[14].name@ == prefix@ + "_"@ + all[14].suffix());
    assert(definitions@[15].name@ == prefix@ + "_"@ + all[15].suffix());
    assert(definitions@[16].name@ == prefix@ + "_"@ + all[16].suffix());
}

/// What is counted is labelled in words: the endpoint, whether the answer was streamed, and how the
/// request ended.
pub proof fn law_requests_are_labelled_in_words(
    endpoint: &Endpoint,
    endpoint_text: &'static str,
    request_type: &RequestType,
    type_text: &'static str,
    status: &Status,
    status_text: &'static str,
)
    requires
        call_ensures(Endpoint::as_str, (endpoint,), endpoint_text),
        call_ensures(RequestType::as_str, (request_type,), type_text),
        call_ensures(Status::as_str, (status,), status_text),
    ensures
        endpoint_text@ == (match *endpoint {
            Endpoint::Completions => "completions"@,
            Endpoint::ChatCompletions => "chat_completions"@,
            Endpoint::Embeddings => "embeddings"@,
            Endpoint::Responses => "responses"@,
            Endpoint::Tensor => "tensor"@,
        }),
        type_text@ == (match *request_type {
            RequestType::Unary => "unary"@,
            RequestType::Stream => "stream"@,
        }),
        status_text@ == (match *status {
            Status::Success => "success"@,
            Status::Error => "error"@,
        }),
{
}

/// The environment is asked for the buckets of a histogram under the histogram's own name.
pub proof fn law_buckets_are_asked_for_by_name(source: &BucketSource, text: &'static str)
    requires
        call_ensures(BucketSource::as_str, (source,), text),
    ensures
        text@ == (match *source {
            BucketSource::RequestDuration => "DYN_METRICS_REQUEST_DURATION"@,
            BucketSource::InputSequence => "DYN_METRICS_INPUT_SEQUENCE"@,
            BucketSource::OutputSequence => "DYN_METRICS_OUTPUT_SEQUENCE"@,
            BucketSource::TimeToFirstToken => "DYN_METRICS_TTFT"@,
            BucketSource::InterTokenLatency => "DYN_METRICS_ITL"@,
        }),
{
}

/// What is measured explains itself.
pub proof fn law_metrics_explain_themselves(
    prefix: &str,
    definitions: Vec<MetricDefinition>,
    i: int,
)
    requires
        call_ensures(metric_definitions, (prefix,), definitions),
        0 <= i < definitions@.len(),
    ensures
        definitions@[i].help@ == (match definitions@[i].metric {
            Metric::Requests => "Total number of LLM requests processed"@,
            Metric::InflightRequests => "Number of inflight requests"@,
            Metric::DisconnectedClients => "Number of disconnected clients"@,
            Metric::QueuedRequests => "Number of requests in HTTP processing queue"@,
            Metric::RequestDuration => "Duration of LLM requests"@,
            Metric::InputTokens => "Input sequence length in tokens"@,
            Metric::OutputTokens => "Output sequence length in tokens"@,
            Metric::CachedTokens => "Number of cached tokens (prefix cache hits) per request"@,
            Metric::OutputTokensTotal =>
                "Total number of output tokens generated (updates in real-time)"@,
            Metric::TimeToFirstToken => "Time to first token in seconds"@,
            Metric::InterTokenLatency => "Inter-token latency in seconds"@,
            Metric::TotalKvBlocks =>
                "Total KV cache blocks available for a worker serving the model"@,
            Metric::MaxNumSeqs => "Maximum number of sequences for a worker serving the model"@,
            Metric::MaxNumBatchedTokens =>
                "Maximum number of batched tokens for a worker serving the model"@,
            Metric::ContextLength =>
                "Maximum context length in tokens for a worker serving the model"@,
            Metric::KvCacheBlockSize =>
                "KV cache block size in tokens for a worker serving the model"@,
            Metric::MigrationLimit => "Maximum number of request migrations allowed for the model"@,
        }),
{
    let all = crate::http::service::metrics::registered_metrics();
    assert(definitions@[i].defines(all[i], prefix@));
}

} // verus!
