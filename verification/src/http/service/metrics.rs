//! What the service measures.
use crate::http::service::backend_errors::Annotated;
use crate::kv_router::scheduler::ModelRuntimeConfig;
use crate::text::{join, join_all, joined, same_text, views};
use vstd::prelude::*;

verus! {

/// The endpoints under which requests are counted.
#[derive(Clone, Copy, Debug, PartialEq, Eq, Structural)]
pub enum Endpoint {
    Completions,
    ChatCompletions,
    Embeddings,
    Responses,
    Tensor,
}

impl Endpoint {
    pub open spec fn label(self) -> Seq<char> {
        match self {
            Endpoint::Completions => "completions"@,
            Endpoint::ChatCompletions => "chat_completions"@,
            Endpoint::Embeddings => "embeddings"@,
            Endpoint::Responses => "responses"@,
            Endpoint::Tensor => "tensor"@,
        }
    }

    pub fn as_str(&self) -> (text: &'static str)
        ensures
            text@ == self.label(),
    {
        match self {
            Endpoint::Completions => "completions",
            Endpoint::ChatCompletions => "chat_completions",
            Endpoint::Embeddings => "embeddings",
            Endpoint::Responses => "responses",
            Endpoint::Tensor => "tensor",
        }
    }
}

/// Whether an answer comes in one piece or as a stream.
#[derive(Clone, Copy, Debug, PartialEq, Eq, Structural)]
pub enum RequestType {
    Unary,
    Stream,
}

impl RequestType {
    pub open spec fn label(self) -> Seq<char> {
        match self {
            RequestType::Unary => "unary"@,
            RequestType::Stream => "stream"@,
        }
    }

    pub fn as_str(&self) -> (text: &'static str)
        ensures
            text@ == self.label(),
    {
        match self {
            RequestType::Unary => "unary",
            RequestType::Stream => "stream",
        }
    }
}

/// How a request ended.
#[derive(Clone, Copy, Debug, PartialEq, Eq, Structural)]
pub enum Status {
    Success,
    Error,
}

impl Status {
    pub open spec fn label(self) -> Seq<char> {
        match self {
            Status::Success => "success"@,
            Status::Error => "error"@,
        }
    }

    pub fn as_str(&self) -> (text: &'static str)
        ensures
            text@ == self.label(),
    {
        match self {
            Status::Success => "success",
            Status::Error => "error",
        }
    }
}

/// What is measured, in the order in which it is registered.
#[derive(Clone, Copy, Debug, PartialEq, Eq, Structural)]
pub enum Metric {
    Requests,
    InflightRequests,
    DisconnectedClients,
    QueuedRequests,
    RequestDuration,
    InputTokens,
    OutputTokens,
    CachedTokens,
    OutputTokensTotal,
    TimeToFirstToken,
    InterTokenLatency,
    TotalKvBlocks,
    MaxNumSeqs,
    MaxNumBatchedTokens,
    ContextLength,
    KvCacheBlockSize,
    MigrationLimit,
}

/// How a metric is kept.
#[derive(Clone, Copy, Debug, PartialEq, Eq, Structural)]
pub enum MetricKind {
    /// A counter for every set of labels.
    CounterVec,
    /// A gauge for every set of labels.
    GaugeVec,
    /// One gauge.
    Gauge,
    /// A histogram for every set of labels.
    HistogramVec(BucketConfig),
}

/// How the buckets of a histogram are configured: the name under which the environment is asked,
/// and the usual smallest and largest bounds, in thousandths, and number of buckets.
#[derive(Clone, Copy, Debug, PartialEq, Eq, Structural)]
pub struct BucketConfig {
    pub source: BucketSource,
    pub min_thousandths: u64,
    pub max_thousandths: u64,
    pub count: usize,
}

/// The histograms whose buckets can be configured.
#[derive(Clone, Copy, Debug, PartialEq, Eq, Structural)]
pub enum BucketSource {
    RequestDuration,
    InputSequence,
    OutputSequence,
    TimeToFirstToken,
    InterTokenLatency,
}

impl BucketSource {
    pub open spec fn name(self) -> Seq<char> {
        match self {
            BucketSource::RequestDuration => "DYN_METRICS_REQUEST_DURATION"@,
            BucketSource::InputSequence => "DYN_METRICS_INPUT_SEQUENCE"@,
            BucketSource::OutputSequence => "DYN_METRICS_OUTPUT_SEQUENCE"@,
            BucketSource::TimeToFirstToken => "DYN_METRICS_TTFT"@,
            BucketSource::InterTokenLatency => "DYN_METRICS_ITL"@,
        }
    }

    /// The name under which the environment is asked, without what it ends in.
    pub fn as_str(&self) -> (text: &'static str)
        ensures
            text@ == self.name(),
    {
        match self {
            BucketSource::RequestDuration => "DYN_METRICS_REQUEST_DURATION",
            BucketSource::InputSequence => "DYN_METRICS_INPUT_SEQUENCE",
            BucketSource::OutputSequence => "DYN_METRICS_OUTPUT_SEQUENCE",
            BucketSource::TimeToFirstToken => "DYN_METRICS_TTFT",
            BucketSource::InterTokenLatency => "DYN_METRICS_ITL",
        }
    }

    /// The usual buckets.
    pub open spec fn usual(self) -> BucketConfig {
        let (min_thousandths, max_thousandths, count) = match self {
            BucketSource::RequestDuration => (1_000u64, 256_000u64, 10usize),
            BucketSource::InputSequence => (50_000u64, 128_000_000u64, 12usize),
            BucketSource::OutputSequence => (50_000u64, 32_000_000u64, 10usize),
            BucketSource::TimeToFirstToken => (1u64, 480_000u64, 18usize),
            BucketSource::InterTokenLatency => (1u64, 2_000u64, 13usize),
        };
        BucketConfig { source: self, min_thousandths, max_thousandths, count }
    }

    fn usual_buckets(self) -> (config: BucketConfig)
        ensures
            config == self.usual(),
    {
        match self {
            BucketSource::RequestDuration => BucketConfig {
                source: self,
                min_thousandths: 1_000,
                max_thousandths: 256_000,
                count: 10,
            },
            BucketSource::InputSequence => BucketConfig {
                source: self,
                min_thousandths: 50_000,
                max_thousandths: 128_000_000,
                count: 12,
            },
            BucketSource::OutputSequence => BucketConfig {
                source: self,
                min_thousandths: 50_000,
                max_thousandths: 32_000_000,
                count: 10,
            },
            BucketSource::TimeToFirstToken => BucketConfig {
                source: self,
                min_thousandths: 1,
                max_thousandths: 480_000,
                count: 18,
            },
            BucketSource::InterTokenLatency => BucketConfig {
                source: self,
                min_thousandths: 1,
                max_thousandths: 2_000,
                count: 13,
            },
        }
    }
}

impl Metric {
    /// What the name of the metric ends in.
    pub open spec fn suffix(self) -> Seq<char> {
        match self {
            Metric::Requests => "requests_total"@,
            Metric::InflightRequests => "inflight_requests"@,
            Metric::DisconnectedClients => "disconnected_clients"@,
            Metric::QueuedRequests => "queued_requests"@,
            Metric::RequestDuration => "request_duration_seconds"@,
            Metric::InputTokens => "input_sequence_tokens"@,
            Metric::OutputTokens => "output_sequence_tokens"@,
            Metric::CachedTokens => "cached_tokens"@,
            Metric::OutputTokensTotal => "output_tokens_total"@,
            Metric::TimeToFirstToken => "time_to_first_token_seconds"@,
            Metric::InterTokenLatency => "inter_token_latency_seconds"@,
            Metric::TotalKvBlocks => "model_total_kv_blocks"@,
            Metric::MaxNumSeqs => "model_max_num_seqs"@,
            Metric::MaxNumBatchedTokens => "model_max_num_batched_tokens"@,
            Metric::ContextLength => "model_context_length"@,
            Metric::KvCacheBlockSize => "model_kv_cache_block_size"@,
            Metric::MigrationLimit => "model_migration_limit"@,
        }
    }

    fn suffix_text(self) -> (text: &'static str)
        ensures
            text@ == self.suffix(),
    {
        match self {
            Metric::Requests => "requests_total",
            Metric::InflightRequests => "inflight_requests",
            Metric::DisconnectedClients => "disconnected_clients",
            Metric::QueuedRequests => "queued_requests",
            Metric::RequestDuration => "request_duration_seconds",
            Metric::InputTokens => "input_sequence_tokens",
            Metric::OutputTokens => "output_sequence_tokens",
            Metric::CachedTokens => "cached_tokens",
            Metric::OutputTokensTotal => "output_tokens_total",
            Metric::TimeToFirstToken => "time_to_first_token_seconds",
            Metric::InterTokenLatency => "inter_token_latency_seconds",
            Metric::TotalKvBlocks => "model_total_kv_blocks",
            Metric::MaxNumSeqs => "model_max_num_seqs",
            Metric::MaxNumBatchedTokens => "model_max_num_batched_tokens",
            Metric::ContextLength => "model_context_length",
            Metric::KvCacheBlockSize => "model_kv_cache_block_size",
            Metric::MigrationLimit => "model_migration_limit",
        }
    }

    /// What the metric is, for a reader.
    pub open spec fn help(self) -> Seq<char> {
        match self {
            Metric::Requests => "Total number of LLM requests processed"@,
            Metric::InflightRequests => "Number of inflight requests"@,
            Metric::DisconnectedClients => "Number of disconnected clients"@,
            Metric::QueuedRequests => "Number of requests in HTTP processing queue"@,
            Metric::RequestDuration => "Duration of LLM requests"@,
            Metric::InputTokens => "Input sequence length in tokens"@,
            Metric::OutputTokens => "Output sequence length in tokens"@,
            Metric::CachedTokens => "Number of cached tokens (prefix cache hits) per request"@,
            Metric::OutputTokensTotal =>
                "Total number of output tokens generated (updates in real-time)"@,
            Metric::TimeToFirstToken => "Time to first token in seconds"@,
            Metric::InterTokenLatency => "Inter-token latency in seconds"@,
            Metric::TotalKvBlocks =>
                "Total KV cache blocks available for a worker serving the model"@,
            Metric::MaxNumSeqs =>
                "Maximum number of sequences for a worker serving the model"@,
            Metric::MaxNumBatchedTokens =>
                "Maximum number of batched tokens for a worker serving the model"@,
            Metric::ContextLength =>
                "Maximum context length in tokens for a worker serving the model"@,
            Metric::KvCacheBlockSize =>
                "KV cache block size in tokens for a worker serving the model"@,
            Metric::MigrationLimit =>
                "Maximum number of request migrations allowed for the model"@,
        }
    }

    fn help_text(self) -> (text: &'static str)
        ensures
            text@ == self.help(),
    {
        match self {
            Metric::Requests => "Total number of LLM requests processed",
            Metric::InflightRequests => "Number of inflight requests",
            Metric::DisconnectedClients => "Number of disconnected clients",
            Metric::QueuedRequests => "Number of requests in HTTP processing queue",
            Metric::RequestDuration => "Duration of LLM requests",
            Metric::InputTokens => "Input sequence length in tokens",
            Metric::OutputTokens => "Output sequence length in tokens",
            Metric::CachedTokens => "Number of cached tokens (prefix cache hits) per request",
            Metric::OutputTokensTotal =>
                "Total number of output tokens generated (updates in real-time)",
            Metric::TimeToFirstToken => "Time to first token in seconds",
            Metric::InterTokenLatency => "Inter-token latency in seconds",
            Metric::TotalKvBlocks =>
                "Total KV cache blocks available for a worker serving the model",
            Metric::MaxNumSeqs => "Maximum number of sequences for a worker serving the model",
            Metric::MaxNumBatchedTokens =>
                "Maximum number of batched tokens for a worker serving the model",
            Metric::ContextLength =>
                "Maximum context length in tokens for a worker serving the model",
            Metric::KvCacheBlockSize =>
                "KV cache block size in tokens for a worker serving the model",
            Metric::MigrationLimit =>
                "Maximum number of request migrations allowed for the model",
        }
    }

    /// How the metric is kept.
    pub open spec fn kept_as(self) -> MetricKind {
        match self {
            Metric::Requests | Metric::OutputTokensTotal => MetricKind::CounterVec,
            Metric::DisconnectedClients => MetricKind::Gauge,
            Metric::RequestDuration => MetricKind::HistogramVec(
                BucketSource::RequestDuration.usual(),
            ),
            Metric::InputTokens | Metric::CachedTokens => MetricKind::HistogramVec(
                BucketSource::InputSequence.usual(),
            ),
            Metric::OutputTokens => MetricKind::HistogramVec(BucketSource::OutputSequence.usual()),
            Metric::TimeToFirstToken => MetricKind::HistogramVec(
                BucketSource::TimeToFirstToken.usual(),
            ),
            Metric::InterTokenLatency => MetricKind::HistogramVec(
                BucketSource::InterTokenLatency.usual(),
            ),
            _ => MetricKind::GaugeVec,
        }
    }

    /// How the metric is kept.
    pub fn kind(self) -> (kind: MetricKind)
        ensures
            kind == self.kept_as(),
    {
        match self {
            Metric::Requests | Metric::OutputTokensTotal => MetricKind::CounterVec,
            Metric::DisconnectedClients => MetricKind::Gauge,
            Metric::RequestDuration => MetricKind::HistogramVec(
                BucketSource::RequestDuration.usual_buckets(),
            ),
            Metric::InputTokens | Metric::CachedTokens => MetricKind::HistogramVec(
                BucketSource::InputSequence.usual_buckets(),
            ),
            Metric::OutputTokens => MetricKind::HistogramVec(
                BucketSource::OutputSequence.usual_buckets(),
            ),
            Metric::TimeToFirstToken => MetricKind::HistogramVec(
                BucketSource::TimeToFirstToken.usual_buckets(),
            ),
            Metric::InterTokenLatency => MetricKind::HistogramVec(
                BucketSource::InterTokenLatency.usual_buckets(),
            ),
            _ => MetricKind::GaugeVec,
        }
    }

    /// The labels of the metric.
    pub open spec fn labels(self) -> Seq<Seq<char>> {
        match self {
            Metric::Requests => seq!["model"@, "endpoint"@, "request_type"@, "status"@],
            Metric::DisconnectedClients => Seq::empty(),
            _ => seq!["model"@],
        }
    }

    /// The labels of the metric.
    pub fn label_names(self) -> (labels: Vec<&'static str>)
        ensures
            labels@.map_values(|label: &'static str| label@) == self.labels(),
    {
        let mut labels: Vec<&'static str> = Vec::new();
        match self {
            Metric::Requests => {
                labels.push("model");
                labels.push("endpoint");
                labels.push("request_type");
                labels.push("status");
            },
            Metric::DisconnectedClients => {},
            _ => {
                labels.push("model");
            },
        }
        assert(labels@.map_values(|label: &'static str| label@) =~= self.labels());
        labels
    }
}

/// A metric, ready to be registered.
#[derive(Debug, Clone)]
pub struct MetricDefinition {
    pub metric: Metric,
    pub name: String,
    pub help: &'static str,
    pub kind: MetricKind,
    pub labels: Vec<&'static str>,
}

impl MetricDefinition {
    /// Whether this defines a metric whose name starts with a prefix.
    pub open spec fn defines(self, metric: Metric, prefix: Seq<char>) -> bool {
        &&& self.metric == metric
        &&& self.name@ == prefix + "_"@ + metric.suffix()
        &&& self.help@ == metric.help()
        &&& self.kind == metric.kept_as()
        &&& self.labels@.map_values(|label: &'static str| label@) == metric.labels()
    }
}

fn define(metric: Metric, prefix: &str) -> (definition: MetricDefinition)
    ensures
        definition.defines(metric, prefix@),
{
    let start = join(prefix, "_");
    MetricDefinition {
        metric,
        name: join(start.as_str(), metric.suffix_text()),
        help: metric.help_text(),
        kind: metric.kind(),
        labels: metric.label_names(),
    }
}

/// All metrics, in the order in which they are registered.
pub open spec fn registered_metrics() -> Seq<Metric> {
    seq![
        Metric::Requests,
        Metric::InflightRequests,
        Metric::DisconnectedClients,
        Metric::QueuedRequests,
        Metric::RequestDuration,
        Metric::InputTokens,
        Metric::OutputTokens,
        Metric::CachedTokens,
        Metric::OutputTokensTotal,
        Metric::TimeToFirstToken,
        Metric::InterTokenLatency,
        Metric::TotalKvBlocks,
        Metric::MaxNumSeqs,
        Metric::MaxNumBatchedTokens,
        Metric::ContextLength,
        Metric::KvCacheBlockSize,
        Metric::MigrationLimit,
    ]
}

fn all_metrics() -> (metrics: Vec<Metric>)
    ensures
        metrics@ == registered_metrics(),
{
    vec![
        Metric::Requests,
        Metric::InflightRequests,
        Metric::DisconnectedClients,
        Metric::QueuedRequests,
        Metric::RequestDuration,
        Metric::InputTokens,
        Metric::OutputTokens,
        Metric::CachedTokens,
        Metric::OutputTokensTotal,
        Metric::TimeToFirstToken,
        Metric::InterTokenLatency,
        Metric::TotalKvBlocks,
        Metric::MaxNumSeqs,
        Metric::MaxNumBatchedTokens,
        Metric::ContextLength,
        Metric::KvCacheBlockSize,
        Metric::MigrationLimit,
    ]
}

/// Defines everything that the service measures, in the order in which it is registered.
pub fn metric_definitions(prefix: &str) -> (definitions: Vec<MetricDefinition>)
    ensures
        definitions@.len() == registered_metrics().len(),
        forall|i: int|
            0 <= i < definitions@.len() ==> (#[trigger] definitions@[i]).defines(
                registered_metrics()[i],
                prefix@,
            ),
{
    let metrics = all_metrics();
    let mut definitions: Vec<MetricDefinition> = Vec::new();
    let mut index: usize = 0;
    while index < metrics.len()
        invariant
            index <= metrics@.len(),
            metrics@ == registered_metrics(),
            definitions@.len() == index,
            forall|i: int|
                0 <= i < index ==> (#[trigger] definitions@[i]).defines(
                    registered_metrics()[i],
                    prefix@,
                ),
        decreases metrics@.len() - index,
    {
        definitions.push(define(metrics[index], prefix));
        index += 1;
    }
    definitions
}

/// No two metrics share a name.
pub proof fn law_metric_names_differ(first: Metric, second: Metric, prefix: Seq<char>)
    requires
        prefix + "_"@ + first.suffix() == prefix + "_"@ + second.suffix(),
    ensures
        first == second,
{
    let start = prefix + "_"@;
    assert(first.suffix() =~= (start + first.suffix()).skip(start.len() as int));
    assert(second.suffix() =~= (start + second.suffix()).skip(start.len() as int));
    lemma_suffixes_differ(first, second);
}

/// The length of each suffix and the letter by which those of one length are told apart.
proof fn lemma_suffixes_differ(first: Metric, second: Metric)
    requires
        first.suffix() == second.suffix(),
    ensures
        first == second,
{
    reveal_strlit("requests_total");
    reveal_strlit("inflight_requests");
    reveal_strlit("disconnected_clients");
    reveal_strlit("queued_requests");
    reveal_strlit("request_duration_seconds");
    reveal_strlit("input_sequence_tokens");
    reveal_strlit("output_sequence_tokens");
    reveal_strlit("cached_tokens");
    reveal_strlit("output_tokens_total");
    reveal_strlit("time_to_first_token_seconds");
    reveal_strlit("inter_token_latency_seconds");
    reveal_strlit("model_total_kv_blocks");
    reveal_strlit("model_max_num_seqs");
    reveal_strlit("model_max_num_batched_tokens");
    reveal_strlit("model_context_length");
    reveal_strlit("model_kv_cache_block_size");
    reveal_strlit("model_migration_limit");
    assert("requests_total"@.len() == 14);
    assert("inflight_requests"@.len() == 17);
    assert("disconnected_clients"@.len() == 20);
    assert("queued_requests"@.len() == 15);
    assert("request_duration_seconds"@.len() == 24);
    assert("input_sequence_tokens"@.len() == 21);
    assert("output_sequence_tokens"@.len() == 22);
    assert("cached_tokens"@.len() == 13);
    assert("output_tokens_total"@.len() == 19);
    assert("time_to_first_token_seconds"@.len() == 27);
    assert("inter_token_latency_seconds"@.len() == 27);
    assert("model_total_kv_blocks"@.len() == 21);
    assert("model_max_num_seqs"@.len() == 18);
    assert("model_max_num_batched_tokens"@.len() == 28);
    assert("model_context_length"@.len() == 20);
    assert("model_kv_cache_block_size"@.len() == 25);
    assert("model_migration_limit"@.len() == 21);
    assert("time_to_first_token_seconds"@[0] == 't');
    assert("inter_token_latency_seconds"@[0] == 'i');
    assert("input_sequence_tokens"@[0] == 'i');
    assert("model_total_kv_blocks"@[0] == 'm');
    assert("model_migration_limit"@[0] == 'm');
    assert("model_total_kv_blocks"@[6] == 't');
    assert("model_migration_limit"@[6] == 'm');
    assert("disconnected_clients"@[0] == 'd');
    assert("model_context_length"@[0] == 'm');
    assert(first.suffix().len() == second.suffix().len());
    assert(first.suffix()[0] == second.suffix()[0]);
    assert(first.suffix()[6] == second.suffix()[6]);
}

/// A number for a gauge: the largest that a gauge can show where it is too large.
pub open spec fn clamped(number: u64) -> i64 {
    if number <= i64::MAX {
        number as i64
    } else {
        i64::MAX
    }
}

fn clamp_u64_to_i64(number: u64) -> (clamped: i64)
    ensures
        clamped == self::clamped(number),
{
    if number <= i64::MAX as u64 {
        number as i64
    } else {
        i64::MAX
    }
}

/// The gauges that a worker's report sets, with their values, in order.
pub open spec fn runtime_gauges(config: ModelRuntimeConfig) -> Seq<(Metric, i64)> {
    (match config.total_kv_blocks {
        Some(number) => seq![(Metric::TotalKvBlocks, clamped(number))],
        None => Seq::empty(),
    }) + (match config.max_num_seqs {
        Some(number) => seq![(Metric::MaxNumSeqs, clamped(number))],
        None => Seq::empty(),
    }) + (match config.max_num_batched_tokens {
        Some(number) => seq![(Metric::MaxNumBatchedTokens, clamped(number))],
        None => Seq::empty(),
    })
}

/// Tells which gauges a worker's report sets.
pub fn update_runtime_config_metrics(config: &ModelRuntimeConfig) -> (gauges: Vec<(Metric, i64)>)
    ensures
        gauges@ == runtime_gauges(*config),
{
    let mut gauges: Vec<(Metric, i64)> = Vec::new();
    if let Some(number) = config.total_kv_blocks {
        gauges.push((Metric::TotalKvBlocks, clamp_u64_to_i64(number)));
    }
    if let Some(number) = config.max_num_seqs {
        gauges.push((Metric::MaxNumSeqs, clamp_u64_to_i64(number)));
    }
    if let Some(number) = config.max_num_batched_tokens {
        gauges.push((Metric::MaxNumBatchedTokens, clamp_u64_to_i64(number)));
    }
    assert(gauges@ =~= runtime_gauges(*config));
    gauges
}

/// Tells which gauges a model's card sets: those of its worker's report, and three of its own.
pub fn update_metrics_from_mdc(
    config: &ModelRuntimeConfig,
    context_length: u32,
    kv_cache_block_size: u32,
    migration_limit: u32,
) -> (gauges: Vec<(Metric, i64)>)
    ensures
        gauges@ == runtime_gauges(*config) + seq![
            (Metric::ContextLength, context_length as i64),
            (Metric::KvCacheBlockSize, kv_cache_block_size as i64),
            (Metric::MigrationLimit, migration_limit as i64),
        ],
{
    let mut gauges = update_runtime_config_metrics(config);
    gauges.push((Metric::ContextLength, context_length as i64));
    gauges.push((Metric::KvCacheBlockSize, kv_cache_block_size as i64));
    gauges.push((Metric::MigrationLimit, migration_limit as i64));
    assert(gauges@ =~= runtime_gauges(*config) + seq![
        (Metric::ContextLength, context_length as i64),
        (Metric::KvCacheBlockSize, kv_cache_block_size as i64),
        (Metric::MigrationLimit, migration_limit as i64),
    ]);
    gauges
}

/// A text in lower case, as `str::to_lowercase` writes it.
pub uninterp spec fn lowercase_text(text: Seq<char>) -> Seq<char>;

/// `str::to_lowercase` writes a text in lower case.
#[verifier::external_body]
fn lowercase(text: &str) -> (lower: String)
    ensures
        lower@ == lowercase_text(text@),
{
    text.to_lowercase()
}

/// The label under which a model is measured: its name in lower case.
pub fn model_label(model: &str) -> (label: String)
    ensures
        label@ == lowercase_text(model@),
{
    lowercase(model)
}

/// A request that is being served. It counts as failed until it is marked otherwise.
#[derive(Debug)]
pub struct InflightGuard {
    pub model: String,
    pub endpoint: Endpoint,
    pub request_type: RequestType,
    pub status: Status,
}

impl InflightGuard {
    /// Starts to count a request; models are counted in lower case.
    pub fn new(model: &str, endpoint: Endpoint, streaming: bool) -> (guard: Self)
        ensures
            guard.model@ == lowercase_text(model@),
            guard.endpoint == endpoint,
            guard.request_type == (if streaming {
                RequestType::Stream
            } else {
                RequestType::Unary
            }),
            guard.status == Status::Error,
    {
        InflightGuard {
            model: model_label(model),
            endpoint,
            request_type: if streaming {
                RequestType::Stream
            } else {
                RequestType::Unary
            },
            status: Status::Error,
        }
    }

    /// Notes that the request was served.
    pub fn mark_ok(&mut self)
        ensures
            *final(self) == (InflightGuard { status: Status::Success, ..*old(self) }),
    {
        self.status = Status::Success;
    }

    /// The labels under which the request is counted when it ends, next to the model.
    pub fn labels(&self) -> (labels: (&'static str, &'static str, &'static str))
        ensures
            labels.0@ == self.endpoint.label(),
            labels.1@ == self.request_type.label(),
            labels.2@ == self.status.label(),
    {
        (self.endpoint.as_str(), self.request_type.as_str(), self.status.as_str())
    }
}

/// What an item of an answer says of the tokens so far.
#[derive(Clone, Copy, Debug, PartialEq, Eq, Structural)]
pub struct LLMMetricAnnotation {
    pub input_tokens: usize,
    pub output_tokens: usize,
    pub chunk_tokens: usize,
    pub cached_tokens: Option<usize>,
}

/// What is recorded for some new tokens.
#[derive(Clone, Copy, Debug, PartialEq, Eq)]
pub struct Observation {
    /// How much the count of output tokens grows.
    pub output_tokens: usize,
    /// For the first tokens: the time until they came, in nanoseconds, and the length of the
    /// input.
    pub first: Option<(u64, usize)>,
    /// For later tokens: the time since the last ones, in nanoseconds, shared by this many.
    pub gap: Option<(u64, usize)>,
}

/// What is measured while an answer is being made.
#[derive(Clone, Copy, Debug, PartialEq, Eq, Structural)]
pub struct ResponseMetricCollector {
    pub is_first_token: bool,
    /// When the last tokens came, in nanoseconds since the start.
    pub last_response_time: Option<u64>,
    pub osl: usize,
    pub cached_tokens_observed: bool,
}

impl ResponseMetricCollector {
    pub open spec fn started() -> Self {
        ResponseMetricCollector {
            is_first_token: true,
            last_response_time: None,
            osl: 0,
            cached_tokens_observed: false,
        }
    }

    pub fn new() -> (collector: Self)
        ensures
            collector == Self::started(),
    {
        ResponseMetricCollector {
            is_first_token: true,
            last_response_time: None,
            osl: 0,
            cached_tokens_observed: false,
        }
    }

    /// Takes note of how long the answer is so far; it is recorded when the answer ends.
    pub fn observe_current_osl(&mut self, osl: usize)
        ensures
            *final(self) == (ResponseMetricCollector { osl, ..*old(self) }),
    {
        self.osl = osl;
    }

    /// Whether no token has come yet.
    pub fn is_first_token(&self) -> (first: bool)
        ensures
            first == self.is_first_token,
    {
        self.is_first_token
    }

    /// What is recorded of tokens that were already cached: the first number that is reported.
    pub open spec fn newly_cached(self, cached_tokens: Option<usize>) -> Option<usize> {
        if self.cached_tokens_observed {
            None
        } else {
            cached_tokens
        }
    }

    /// Records how many tokens were already cached, once for an answer.
    pub fn observe_cached_tokens(&mut self, cached_tokens: Option<usize>) -> (recorded: Option<
        usize,
    >)
        ensures
            recorded == old(self).newly_cached(cached_tokens),
            *final(self) == (ResponseMetricCollector {
                cached_tokens_observed: old(self).cached_tokens_observed || cached_tokens is Some,
                ..*old(self)
            }),
    {
        if self.cached_tokens_observed {
            return None;
        }
        if cached_tokens.is_some() {
            self.cached_tokens_observed = true;
        }
        cached_tokens
    }

    /// What is recorded when new tokens come, `elapsed` nanoseconds after the start.
    pub open spec fn observation(self, isl: usize, num_tokens: usize, elapsed: u64) -> Option<
        Observation,
    > {
        if num_tokens == 0 {
            None
        } else {
            Some(
                Observation {
                    output_tokens: num_tokens,
                    first: if self.is_first_token {
                        Some((elapsed, isl))
                    } else {
                        None
                    },
                    gap: match self.last_response_time {
                        Some(last) => Some(((elapsed - last) as u64, num_tokens)),
                        None => None,
                    },
                },
            )
        }
    }

    /// The collector after new tokens came.
    pub open spec fn observed(self, num_tokens: usize, elapsed: u64) -> Self {
        if num_tokens == 0 {
            self
        } else {
            ResponseMetricCollector {
                is_first_token: false,
                last_response_time: Some(elapsed),
                ..self
            }
        }
    }

    /// Records new tokens. Time does not run backwards.
    pub fn observe_response(&mut self, isl: usize, num_tokens: usize, elapsed: u64) -> (recorded:
        Option<Observation>)
        requires
            old(self).last_response_time matches Some(last) ==> last <= elapsed,
        ensures
            recorded == old(self).observation(isl, num_tokens, elapsed),
            *final(self) == old(self).observed(num_tokens, elapsed),
    {
        if num_tokens == 0 {
            return None;
        }
        let first = if self.is_first_token {
            Some((elapsed, isl))
        } else {
            None
        };
        let gap = match self.last_response_time {
            Some(last) => Some((elapsed - last, num_tokens)),
            None => None,
        };
        self.is_first_token = false;
        self.last_response_time = Some(elapsed);
        Some(Observation { output_tokens: num_tokens, first, gap })
    }
}

/// The first tokens of an answer are timed from its start, all later ones from those before, and
/// the time to the first token is recorded no more than once.
pub proof fn law_first_token_is_recorded_once(
    collector: ResponseMetricCollector,
    first: (usize, usize, u64),
    second: (usize, usize, u64),
)
    ensures
        ({
            let recorded = collector.observation(first.0, first.1, first.2);
            let later = collector.observed(first.1, first.2).observation(
                second.0,
                second.1,
                second.2,
            );
            &&& recorded is Some && later is Some ==> later->Some_0.first is None
                && later->Some_0.gap is Some
            &&& recorded is Some ==> (recorded->Some_0.first is Some
                <==> collector.is_first_token)
        }),
{
}

/// What an item of an answer makes of the collector and of the place in the queue: the place is
/// given up when the first token comes.
pub open spec fn leaves_queue(
    collector: ResponseMetricCollector,
    metrics: Option<LLMMetricAnnotation>,
) -> bool {
    metrics matches Some(metrics) && collector.is_first_token && metrics.chunk_tokens > 0
}

/// The collector after an item that is not streamed on.
pub open spec fn after_item(
    collector: ResponseMetricCollector,
    metrics: Option<LLMMetricAnnotation>,
    elapsed: u64,
) -> ResponseMetricCollector {
    match metrics {
        Some(metrics) => (ResponseMetricCollector { osl: metrics.output_tokens, ..collector }).observed(
            metrics.chunk_tokens,
            elapsed,
        ),
        None => collector,
    }
}

/// Takes the measures of an item of an answer. `http_queue_guard` is dropped when the first token
/// comes.
pub fn process_response_and_observe_metrics<G>(
    metrics: Option<LLMMetricAnnotation>,
    response_collector: &mut ResponseMetricCollector,
    http_queue_guard: &mut Option<G>,
    elapsed: u64,
) -> (recorded: Option<Observation>)
    requires
        old(response_collector).last_response_time matches Some(last) ==> last <= elapsed,
    ensures
        recorded == (match metrics {
            Some(metrics) => old(response_collector).observation(
                metrics.input_tokens,
                metrics.chunk_tokens,
                elapsed,
            ),
            None => None,
        }),
        *final(response_collector) == after_item(*old(response_collector), metrics, elapsed),
        *final(http_queue_guard) == (if leaves_queue(*old(response_collector), metrics) {
            None
        } else {
            *old(http_queue_guard)
        }),
{
    match metrics {
        Some(metrics) => {
            response_collector.observe_current_osl(metrics.output_tokens);
            if response_collector.is_first_token() && metrics.chunk_tokens > 0 {
                *http_queue_guard = None;
            }
            response_collector.observe_response(metrics.input_tokens, metrics.chunk_tokens, elapsed)
        },
        None => None,
    }
}

/// The event under which an item says what it measured.
pub const ANNOTATION_LLM_METRICS: &'static str = "llm_metrics";

/// An item of an answer on its way to the client.
#[derive(Debug, Clone)]
pub struct EventConverter<T>(pub Annotated<T>);

impl<T> EventConverter<T> {
    pub fn new(annotated: Annotated<T>) -> (converter: Self)
        ensures
            converter.0 == annotated,
    {
        EventConverter(annotated)
    }
}

/// What the client is sent for an item.
#[derive(Debug, Clone)]
pub enum SseItem<T> {
    /// Nothing.
    Nothing,
    /// An event.
    Event { data: Option<T>, event: Option<String>, comments: Vec<String> },
    /// The data, and then an error that ends the stream.
    Failure { data: Option<T>, message: String },
}

/// What was recorded for an item that is streamed on.
#[derive(Clone, Copy, Debug, PartialEq, Eq)]
pub struct StreamObservation {
    pub cached_tokens: Option<usize>,
    pub tokens: Option<Observation>,
}

/// Whether an item only says what was measured, so that nothing of it but its data is sent on.
pub open spec fn is_chomped<T>(
    annotated: Annotated<T>,
    metrics: Option<LLMMetricAnnotation>,
) -> bool {
    metrics is Some && (annotated.event matches Some(name) && name@ == "llm_metrics"@)
}

/// Whether what the client is sent is right for an item.
pub open spec fn converts<T>(
    annotated: Annotated<T>,
    metrics: Option<LLMMetricAnnotation>,
    item: SseItem<T>,
) -> bool {
    let event = if is_chomped(annotated, metrics) {
        None
    } else {
        annotated.event
    };
    let comment = if is_chomped(annotated, metrics) {
        None
    } else {
        annotated.comment
    };
    match event {
        Some(name) if name@ == "error"@ => {
            item matches SseItem::Failure { data, message } && data == annotated.data && message@
                == (match comment {
                Some(lines) => joined(views(lines@), " -- "@),
                None => "unspecified error"@,
            })
        },
        _ => if annotated.data is None && event is None {
            item is Nothing
        } else {
            item matches SseItem::Event { data, event: sent, comments } && data == annotated.data
                && sent == event && comments@ == (match comment {
                Some(lines) => lines@,
                None => Seq::empty(),
            })
        },
    }
}

fn convert<T>(annotated: Annotated<T>, metrics: Option<LLMMetricAnnotation>) -> (item: SseItem<T>)
    ensures
        converts(annotated, metrics, item),
{
    let named_metrics = match &annotated.event {
        Some(name) => same_text(name.as_str(), ANNOTATION_LLM_METRICS),
        None => false,
    };
    let (event, comment) = if metrics.is_some() && named_metrics {
        (None, None)
    } else {
        (annotated.event, annotated.comment)
    };
    let failed = match &event {
        Some(name) => same_text(name.as_str(), "error"),
        None => false,
    };
    if failed {
        let message = match comment {
            Some(lines) => join_all(lines.as_slice(), " -- "),
            None => String::from_str("unspecified error"),
        };
        return SseItem::Failure { data: annotated.data, message };
    }
    if annotated.data.is_none() && event.is_none() {
        return SseItem::Nothing;
    }
    let comments: Vec<String> = match comment {
        Some(lines) => lines,
        None => Vec::new(),
    };
    SseItem::Event { data: annotated.data, event, comments }
}

/// Takes the measures of an item of an answer and tells what the client is sent for it.
/// `http_queue_guard` is dropped when the first token comes.
pub fn process_response_using_event_converter_and_observe_metrics<T, G>(
    annotated: EventConverter<T>,
    metrics: Option<LLMMetricAnnotation>,
    response_collector: &mut ResponseMetricCollector,
    http_queue_guard: &mut Option<G>,
    elapsed: u64,
) -> (processed: (SseItem<T>, StreamObservation))
    requires
        old(response_collector).last_response_time matches Some(last) ==> last <= elapsed,
    ensures
        converts(annotated.0, metrics, processed.0),
        processed.1 == (match metrics {
            Some(metrics) => StreamObservation {
                cached_tokens: old(response_collector).newly_cached(metrics.cached_tokens),
                tokens: old(response_collector).observation(
                    metrics.input_tokens,
                    metrics.chunk_tokens,
                    elapsed,
                ),
            },
            None => StreamObservation { cached_tokens: None, tokens: None },
        }),
        *final(response_collector) == (ResponseMetricCollector {
            cached_tokens_observed: old(response_collector).cached_tokens_observed || (
            metrics matches Some(metrics) && metrics.cached_tokens is Some),
            ..after_item(*old(response_collector), metrics, elapsed)
        }),
        *final(http_queue_guard) == (if leaves_queue(*old(response_collector), metrics) {
            None
        } else {
            *old(http_queue_guard)
        }),
{
    let observed = match metrics {
        Some(metrics) => {
            let cached_tokens = response_collector.observe_cached_tokens(metrics.cached_tokens);
            StreamObservation { cached_tokens, tokens: None }
        },
        None => StreamObservation { cached_tokens: None, tokens: None },
    };
    let tokens = process_response_and_observe_metrics(
        metrics,
        response_collector,
        http_queue_guard,
        elapsed,
    );
    (
        convert(annotated.0, metrics),
        StreamObservation { cached_tokens: observed.cached_tokens, tokens },
    )
}

/// An item that says only what was measured never reaches the client.
pub proof fn law_measures_are_not_sent<T>(
    annotated: Annotated<T>,
    metrics: LLMMetricAnnotation,
    item: SseItem<T>,
)
    requires
        annotated.data is None,
        annotated.event matches Some(name) && name@ == "llm_metrics"@,
        converts(annotated, Some(metrics), item),
    ensures
        item is Nothing,
{
}

/// What is answered where the metrics are asked for: what they are, or that they could not be
/// written.
pub fn metrics_answer(encoded: Option<String>) -> (answer: (u16, String))
    ensures
        match encoded {
            Some(text) => answer.0 == 200 && answer.1@ == text@,
            None => answer.0 == 500 && answer.1@ == "Failed to encode metrics"@,
        },
{
    match encoded {
        Some(text) => (200, text),
        None => (500, String::from_str("Failed to encode metrics")),
    }
}

} // verus!
