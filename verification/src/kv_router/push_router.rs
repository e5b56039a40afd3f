//! Routing a request to the worker that holds most of it.
use crate::kv_router::hashing::{
    block_hashes, compute_block_hash_for_seq, compute_seq_hash_for_block, sequence_hashes,
};
use crate::kv_router::overlap::score_of;
use crate::kv_router::protocols::{
    DpRank, LocalBlockHash, SequenceHash, WorkerId, WorkerWithDpRank,
};
use crate::kv_router::worker_map::WorkerMap;
use crate::text::{contains_text, decimal, decimal_text, holds_text};
use vstd::prelude::*;

verus! {

/// Where load metrics are fetched from.
pub const KV_METRICS_ENDPOINT: &'static str = "load_metrics";

/// The subject of hit rate reports.
pub const KV_HIT_RATE_SUBJECT: &'static str = "kv-hit-rate";

/// The subject of load metrics.
pub const KV_METRICS_SUBJECT: &'static str = "kv_metrics";

/// The subject of prefill events between routers.
pub const PREFILL_SUBJECT: &'static str = "prefill_events";

/// The subject of active sequences between routers.
pub const ACTIVE_SEQUENCES_SUBJECT: &'static str = "active_sequences_events";

/// How the router is set up. How much overlap counts, and how much chance there is in the choice
/// of a worker, are fractions that are kept elsewhere.
#[derive(Clone, Copy, Debug, PartialEq, Eq, Structural)]
pub struct KvRouterConfig {
    pub use_kv_events: bool,
    pub router_replica_sync: bool,
    /// Whether the blocks of running requests are kept track of.
    pub router_track_active_blocks: bool,
    /// After how many events a snapshot is made, if ever.
    pub router_snapshot_threshold: Option<u32>,
    /// Whether what earlier routers knew is forgotten at the start.
    pub router_reset_states: bool,
}

impl Default for KvRouterConfig {
    fn default() -> (config: Self)
        ensures
            config == (KvRouterConfig {
                use_kv_events: true,
                router_replica_sync: false,
                router_track_active_blocks: true,
                router_snapshot_threshold: Some(1_000_000),
                router_reset_states: false,
            }),
    {
        KvRouterConfig {
            use_kv_events: true,
            router_replica_sync: false,
            router_track_active_blocks: true,
            router_snapshot_threshold: Some(1_000_000),
            router_reset_states: false,
        }
    }
}

/// A setting, or what it usually is.
pub open spec fn setting<T>(given: Option<T>, usual: T) -> T {
    match given {
        Some(given) => given,
        None => usual,
    }
}

fn setting_or<T>(given: Option<T>, usual: T) -> (value: T)
    ensures
        value == setting(given, usual),
{
    match given {
        Some(given) => given,
        None => usual,
    }
}

impl KvRouterConfig {
    /// Sets the router up; what is not given is as usual.
    pub fn new(
        use_kv_events: Option<bool>,
        replica_sync: Option<bool>,
        track_active_blocks: Option<bool>,
        router_snapshot_threshold: Option<Option<u32>>,
        router_reset_states: Option<bool>,
    ) -> (config: Self)
        ensures
            config == (KvRouterConfig {
                use_kv_events: setting(use_kv_events, true),
                router_replica_sync: setting(replica_sync, false),
                router_track_active_blocks: setting(track_active_blocks, true),
                router_snapshot_threshold: setting(
                    router_snapshot_threshold,
                    Some(1_000_000u32),
                ),
                router_reset_states: setting(router_reset_states, false),
            }),
    {
        let usual = KvRouterConfig::default();
        KvRouterConfig {
            use_kv_events: setting_or(use_kv_events, usual.use_kv_events),
            router_replica_sync: setting_or(replica_sync, usual.router_replica_sync),
            router_track_active_blocks: setting_or(
                track_active_blocks,
                usual.router_track_active_blocks,
            ),
            router_snapshot_threshold: setting_or(
                router_snapshot_threshold,
                usual.router_snapshot_threshold,
            ),
            router_reset_states: setting_or(router_reset_states, usual.router_reset_states),
        }
    }
}

/// What came of a request to the router.
#[derive(Clone, Copy, Debug, PartialEq, Eq, Structural)]
pub enum RouterOutcome {
    /// A worker was found for new tokens, which holds some of their blocks.
    Found { worker: WorkerWithDpRank, overlap_blocks: u32 },
    /// A request was to be marked as prefilled.
    PrefillMarked { marked: bool },
    /// A request was to be freed.
    FreeMarked { marked: bool },
}

/// What the router answers.
#[derive(Clone, Copy, Debug, PartialEq, Eq, Structural)]
pub enum RouterResponse {
    New { worker_id: WorkerId, dp_rank: DpRank, overlap_blocks: u32 },
    PrefillMarked { success: bool },
    FreeMarked { success: bool },
}

/// Answers a request to the router.
pub fn router_response(outcome: RouterOutcome) -> (response: RouterResponse)
    ensures
        response == (match outcome {
            RouterOutcome::Found { worker, overlap_blocks } => RouterResponse::New {
                worker_id: worker.worker_id,
                dp_rank: worker.dp_rank,
                overlap_blocks,
            },
            RouterOutcome::PrefillMarked { marked } => RouterResponse::PrefillMarked {
                success: marked,
            },
            RouterOutcome::FreeMarked { marked } => RouterResponse::FreeMarked { success: marked },
        }),
{
    match outcome {
        RouterOutcome::Found { worker, overlap_blocks } => RouterResponse::New {
            worker_id: worker.worker_id,
            dp_rank: worker.dp_rank,
            overlap_blocks,
        },
        RouterOutcome::PrefillMarked { marked } => RouterResponse::PrefillMarked {
            success: marked,
        },
        RouterOutcome::FreeMarked { marked } => RouterResponse::FreeMarked { success: marked },
    }
}

/// What the router knows of the workers' caches.
#[derive(Clone, Copy, Debug, PartialEq, Eq, Structural)]
pub enum IndexerKind {
    /// Events of the workers tell.
    Events,
    /// Past routing decisions are believed for a time.
    Approximate,
    /// Overlap does not count, so nothing is kept.
    Nothing,
}

/// Decides how the caches of the workers are kept track of.
pub fn indexer_kind(overlap_counts: bool, use_kv_events: bool) -> (kind: IndexerKind)
    ensures
        kind == (if !overlap_counts {
            IndexerKind::Nothing
        } else if use_kv_events {
            IndexerKind::Events
        } else {
            IndexerKind::Approximate
        }),
{
    if !overlap_counts {
        IndexerKind::Nothing
    } else if use_kv_events {
        IndexerKind::Events
    } else {
        IndexerKind::Approximate
    }
}

/// The hashes of a request.
#[derive(Clone, Debug)]
pub struct RequestHashes {
    pub block_hashes: Vec<LocalBlockHash>,
    /// For an approximate indexer.
    pub indexer_hashes: Option<Vec<SequenceHash>>,
    /// For a scheduler that keeps track of active blocks.
    pub scheduler_hashes: Option<Vec<SequenceHash>>,
}

/// Hashes the tokens of a request for those who need it.
pub fn request_hashes(
    tokens: &[u32],
    block_size: u32,
    kind: IndexerKind,
    track_active_blocks: bool,
) -> (hashes: RequestHashes)
    requires
        block_size > 0,
    ensures
        hashes.block_hashes@ == block_hashes(tokens@, block_size as int),
        hashes.indexer_hashes is Some <==> kind is Approximate,
        hashes.scheduler_hashes is Some <==> track_active_blocks,
        hashes.indexer_hashes matches Some(rolling) ==> rolling@ == sequence_hashes(
            block_hashes(tokens@, block_size as int),
        ),
        hashes.scheduler_hashes matches Some(rolling) ==> rolling@ == sequence_hashes(
            block_hashes(tokens@, block_size as int),
        ),
{
    let blocks = compute_block_hash_for_seq(tokens, block_size);
    let for_indexer = match kind {
        IndexerKind::Approximate => Some(compute_seq_hash_for_block(blocks.as_slice())),
        _ => None,
    };
    let for_scheduler = if track_active_blocks {
        Some(compute_seq_hash_for_block(blocks.as_slice()))
    } else {
        None
    };
    RequestHashes {
        block_hashes: blocks,
        indexer_hashes: for_indexer,
        scheduler_hashes: for_scheduler,
    }
}

/// How many blocks of the request a worker holds.
pub fn overlap_of(scores: &WorkerMap<u32>, worker: &WorkerWithDpRank) -> (overlap: u32)
    ensures
        overlap == score_of(scores@, *worker),
{
    match scores.get(worker) {
        Some(overlap) => *overlap,
        None => 0,
    }
}

/// How the worker of a request is found.
#[derive(Clone, Copy, Debug, PartialEq, Eq, Structural)]
pub enum RoutePlan {
    /// The request names its worker.
    Named { worker: WorkerWithDpRank, update_states: bool },
    /// The best worker is looked for.
    Search { update_states: bool },
}

/// How the worker of a request is found. A named worker without a rank is meant at rank zero.
/// The worker is booked for the request, unless it was only asked for.
pub open spec fn planned_route(
    backend_instance_id: Option<WorkerId>,
    dp_rank: Option<DpRank>,
    query_instance_id: bool,
) -> RoutePlan {
    match backend_instance_id {
        Some(worker_id) => RoutePlan::Named {
            worker: WorkerWithDpRank { worker_id, dp_rank: setting(dp_rank, 0) },
            update_states: !query_instance_id,
        },
        None => RoutePlan::Search { update_states: !query_instance_id },
    }
}

/// Decides how the worker of a request is found.
pub fn route_plan(
    backend_instance_id: Option<WorkerId>,
    dp_rank: Option<DpRank>,
    query_instance_id: bool,
) -> (plan: RoutePlan)
    ensures
        plan == planned_route(backend_instance_id, dp_rank, query_instance_id),
{
    match backend_instance_id {
        Some(worker_id) => RoutePlan::Named {
            worker: WorkerWithDpRank::new(worker_id, setting_or(dp_rank, 0)),
            update_states: !query_instance_id,
        },
        None => RoutePlan::Search { update_states: !query_instance_id },
    }
}

/// A request that only asks which worker it would go to changes nothing that the router knows,
/// whether it names its worker or not; any other one is booked.
pub proof fn law_queries_update_no_states(
    backend_instance_id: Option<WorkerId>,
    dp_rank: Option<DpRank>,
    query_instance_id: bool,
)
    ensures
        query_instance_id == !(match planned_route(backend_instance_id, dp_rank, query_instance_id) {
            RoutePlan::Named { update_states, .. } => update_states,
            RoutePlan::Search { update_states } => update_states,
        }),
{
}

/// What becomes of a request whose worker is known.
#[derive(Clone, Copy, Debug, PartialEq, Eq, Structural)]
pub enum RouteOutcome {
    /// Only the worker was asked for.
    Report { worker_id: WorkerId },
    /// The request goes to the worker.
    Send {
        worker_id: WorkerId,
        dp_rank: DpRank,
        estimated_prefix_hit_num_blocks: u32,
        /// The worker that prefilled the request: the one that decodes it, unless another did.
        prefill_worker_id: WorkerId,
        /// The request asks for both workers to be named.
        populate_worker_id: bool,
    },
}

/// Whether the extra fields ask for the workers.
pub open spec fn asks_for_worker_id(extra_fields: Option<Vec<String>>) -> bool {
    extra_fields matches Some(fields) && holds_text(fields@, "worker_id"@)
}

fn wants_worker_id(extra_fields: &Option<Vec<String>>) -> (wanted: bool)
    ensures
        wanted == asks_for_worker_id(*extra_fields),
{
    match extra_fields {
        None => false,
        Some(fields) => contains_text(fields.as_slice(), "worker_id"),
    }
}

/// Decides what becomes of a request whose worker is known.
pub fn route_outcome(
    worker: WorkerWithDpRank,
    overlap: u32,
    query_instance_id: bool,
    extra_fields: &Option<Vec<String>>,
    prefill_worker_id: Option<WorkerId>,
) -> (outcome: RouteOutcome)
    ensures
        outcome == (if query_instance_id {
            RouteOutcome::Report { worker_id: worker.worker_id }
        } else {
            RouteOutcome::Send {
                worker_id: worker.worker_id,
                dp_rank: worker.dp_rank,
                estimated_prefix_hit_num_blocks: overlap,
                prefill_worker_id: match prefill_worker_id {
                    Some(prefill) => prefill,
                    None => worker.worker_id,
                },
                populate_worker_id: asks_for_worker_id(*extra_fields),
            }
        }),
{
    if query_instance_id {
        return RouteOutcome::Report { worker_id: worker.worker_id };
    }
    RouteOutcome::Send {
        worker_id: worker.worker_id,
        dp_rank: worker.dp_rank,
        estimated_prefix_hit_num_blocks: overlap,
        prefill_worker_id: match prefill_worker_id {
            Some(prefill) => prefill,
            None => worker.worker_id,
        },
        populate_worker_id: wants_worker_id(extra_fields),
    }
}

/// The annotation that names the worker which a request would go to.
pub const ANNOTATION_WORKER_INSTANCE_ID: &'static str = "worker_instance_id";

/// The annotation that holds the tokens of a request.
pub const ANNOTATION_TOKEN_DATA: &'static str = "token_data";

/// An annotation in the answer to a request that only asks for its worker.
#[derive(Clone, Debug, PartialEq, Eq)]
pub enum QueryAnnotation {
    Text { name: &'static str, value: String },
    Tokens { name: &'static str, value: Vec<u32> },
}

impl QueryAnnotation {
    pub open spec fn is_text(self, name: Seq<char>, value: Seq<char>) -> bool {
        self matches QueryAnnotation::Text { name: told, value: text } && told@ == name && text@
            == value
    }

    pub open spec fn is_tokens(self, name: Seq<char>, value: Seq<u32>) -> bool {
        self matches QueryAnnotation::Tokens { name: told, value: tokens } && told@ == name
            && tokens@ == value
    }
}

/// The whole answer to a request that only asks for its worker: the worker's id, then the tokens
/// of the request.
pub fn query_annotations(worker_id: WorkerId, token_ids: &[u32]) -> (annotations: Vec<
    QueryAnnotation,
>)
    ensures
        annotations@.len() == 2,
        annotations@[0].is_text("worker_instance_id"@, decimal_text(worker_id as nat)),
        annotations@[1].is_tokens("token_data"@, token_ids@),
{
    let mut annotations: Vec<QueryAnnotation> = Vec::new();
    annotations.push(
        QueryAnnotation::Text { name: ANNOTATION_WORKER_INSTANCE_ID, value: decimal(worker_id) },
    );
    annotations.push(
        QueryAnnotation::Tokens { name: ANNOTATION_TOKEN_DATA, value: copy_of(token_ids) },
    );
    annotations
}

fn copy_of(tokens: &[u32]) -> (copy: Vec<u32>)
    ensures
        copy@ == tokens@,
{
    let mut copy: Vec<u32> = Vec::new();
    let mut index: usize = 0;
    while index < tokens.len()
        invariant
            index <= tokens@.len(),
            copy@ =~= tokens@.take(index as int),
        decreases tokens@.len() - index,
    {
        copy.push(tokens[index]);
        index += 1;
    }
    assert(copy@ =~= tokens@);
    copy
}

/// The member of an item's parameters that names the workers.
pub const WORKER_ID_MEMBER: &'static str = "worker_id";

/// The workers that a request went to.
#[derive(Clone, Copy, Debug, PartialEq, Eq, Structural)]
pub struct WorkerIds {
    pub prefill_worker_id: WorkerId,
    pub decode_worker_id: WorkerId,
}

/// The parameters of an item on the stream of an answer.
#[derive(Clone, Copy, Debug, PartialEq, Eq, Structural)]
pub enum ItemParams {
    /// The item has no data.
    NoData,
    /// The item has data without parameters.
    Absent,
    /// The parameters are an object.
    Object,
    /// The parameters are something else.
    Other,
}

/// What is written into an item on the stream of an answer.
#[derive(Clone, Copy, Debug, PartialEq, Eq, Structural)]
pub enum WorkerIdWrite {
    Nothing,
    /// Parameters that hold the workers and nothing else.
    NewParams(WorkerIds),
    /// The workers, as a member of the parameters that are there.
    Member(WorkerIds),
}

/// Decides what is written into an item: the first one names the workers where the request asks
/// for that, unless it has no data or its parameters cannot have members.
pub fn worker_id_write(
    first_item: bool,
    populate_worker_id: bool,
    params: ItemParams,
    prefill_worker_id: WorkerId,
    decode_worker_id: WorkerId,
) -> (write: WorkerIdWrite)
    ensures
        write == (if !first_item || !populate_worker_id {
            WorkerIdWrite::Nothing
        } else {
            match params {
                ItemParams::NoData | ItemParams::Other => WorkerIdWrite::Nothing,
                ItemParams::Absent => WorkerIdWrite::NewParams(
                    WorkerIds { prefill_worker_id, decode_worker_id },
                ),
                ItemParams::Object => WorkerIdWrite::Member(
                    WorkerIds { prefill_worker_id, decode_worker_id },
                ),
            }
        }),
{
    if !first_item || !populate_worker_id {
        return WorkerIdWrite::Nothing;
    }
    let ids = WorkerIds { prefill_worker_id, decode_worker_id };
    match params {
        ItemParams::NoData | ItemParams::Other => WorkerIdWrite::Nothing,
        ItemParams::Absent => WorkerIdWrite::NewParams(ids),
        ItemParams::Object => WorkerIdWrite::Member(ids),
    }
}

/// What is done about the next thing on the stream of an answer.
#[derive(Clone, Copy, Debug, PartialEq, Eq, Structural)]
pub enum StreamStep {
    /// Pass the item on; before the first one, prefill is reported as done.
    Pass { mark_prefill: bool },
    /// The stream is over: the request is freed.
    Free,
}

/// The stream of an answer on its way through the router.
#[derive(Clone, Copy, Debug, PartialEq, Eq, Structural)]
pub struct AnswerStream {
    pub prefill_marked: bool,
}

impl AnswerStream {
    pub fn new() -> (stream: Self)
        ensures
            !stream.prefill_marked,
    {
        AnswerStream { prefill_marked: false }
    }

    /// Takes note of an item, or of the end.
    pub fn on_next(&mut self, has_item: bool) -> (step: StreamStep)
        ensures
            step == (if has_item {
                StreamStep::Pass { mark_prefill: !old(self).prefill_marked }
            } else {
                StreamStep::Free
            }),
            final(self).prefill_marked == (old(self).prefill_marked || has_item),
    {
        if !has_item {
            return StreamStep::Free;
        }
        let mark_prefill = !self.prefill_marked;
        self.prefill_marked = true;
        StreamStep::Pass { mark_prefill }
    }
}

} // verus!
