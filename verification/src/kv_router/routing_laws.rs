//! What routing, sharding and keeping in step with events keep to.
use crate::kv_router::hashing::{compute_block_hash_for_seq, compute_seq_hash_for_block};
use crate::kv_router::indexer::KvRouterError;
use crate::kv_router::overlap::OverlapScores;
use crate::kv_router::protocols::{
    DpRank, KvCacheEventData, LocalBlockHash, SequenceHash, WorkerId, WorkerWithDpRank,
};
use crate::kv_router::push_router::{
    indexer_kind, overlap_of, query_annotations, request_hashes, route_outcome, route_plan,
    router_response, worker_id_write, AnswerStream, IndexerKind, ItemParams, KvRouterConfig,
    QueryAnnotation, RequestHashes, RouteOutcome, RoutePlan, RouterOutcome, RouterResponse,
    StreamStep, WorkerIdWrite,
};
use crate::kv_router::radix_state::KvCacheEventError;
use crate::kv_router::radix_tree::RouterEvent;
use crate::kv_router::scheduler::KvSchedulerError;
use crate::kv_router::sharded::{join_dumps, merge_scores, ShardAssignments};
use crate::kv_router::subscriber::{
    background_action, bucket_title, check_interval_ms, dashed_name, law_stale_workers_are_gone,
    next_in_snapshot, orphaned_consumers, snapshot_url, stale_workers, start_action,
    stream_title, BackgroundAction, BackgroundEvent, InstanceChange, SnapshotAction,
    SnapshotEvent, SnapshotReader, StartAction,
};
use crate::kv_router::worker_map::WorkerMap;
use crate::text::decimal_text;
use crate::urls::url_parts;
use vstd::prelude::*;

verus! {

/// A worker that was seen before stays on its shard. A new one goes to a shard on which there are
/// no more workers than on any other, the first such one, and is counted there and nowhere else.
pub proof fn law_new_workers_go_where_the_fewest_are(
    shards: &mut ShardAssignments,
    worker: WorkerId,
    shard: usize,
    other: int,
)
    requires
        call_ensures(ShardAssignments::assign, (shards, worker), shard),
        0 <= other < old(shards).counts().len(),
    ensures
        final(shards).assignments().contains_key(worker),
        final(shards).assignments()[worker] == shard,
        old(shards).assignments().contains_key(worker) ==> shard == old(shards).assignments()[worker] && final(shards).counts() == old(shards).counts(),
        !old(shards).assignments().contains_key(worker) ==> {
            &&& old(shards).counts()[shard as int] <= old(shards).counts()[other]
            &&& other < shard ==> old(shards).counts()[shard as int] < old(shards).counts()[other]
            &&& other != shard ==> final(shards).counts()[other] == old(shards).counts()[other]
            &&& old(shards).counts()[shard as int] < usize::MAX ==> final(shards).counts()[shard as int] == old(shards).counts()[shard as int] + 1
        },
        forall|known: WorkerId|
            known != worker && #[trigger] old(shards).assignments().contains_key(known) ==> final(shards).assignments().contains_key(known) && final(shards).assignments()[known] == old(shards).assignments()[known],
{
    assert(0 <= shard < old(shards).counts().len());
}

/// A worker that is removed is told with its shard, which counts one less; nobody else moves.
pub proof fn law_removed_workers_leave_their_shard(
    shards: &mut ShardAssignments,
    worker: WorkerId,
    shard: Option<usize>,
    known: WorkerId,
)
    requires
        call_ensures(ShardAssignments::remove, (shards, worker), shard),
    ensures
        !final(shards).assignments().contains_key(worker),
        shard is Some <==> old(shards).assignments().contains_key(worker),
        shard matches Some(shard) ==> shard == old(shards).assignments()[worker],
        known != worker ==> final(shards).assignments().contains_key(known) == old(shards).assignments().contains_key(known),
        shard is None ==> final(shards).counts() == old(shards).counts(),
        shard matches Some(shard) ==> (shard < old(shards).counts().len() && old(shards).counts()[shard as int] > 0 ==> final(shards).counts()[shard as int] == old(shards).counts()[shard as int] - 1),
{
}

/// What one shard answers is added to what the others answered: its scores and sizes count for the
/// workers that it knows, the others keep theirs. Of the first answer the frequencies are taken as
/// they are; those of later ones are added place by place.
pub proof fn law_answers_of_shards_add_up(
    merged: &mut OverlapScores,
    response: OverlapScores,
    number: usize,
    worker: WorkerWithDpRank,
    i: int,
)
    requires
        call_ensures(merge_scores, (merged, response, number), ()),
        0 <= i < old(merged).frequencies@.len() && i < response.frequencies@.len() ==> old(merged).frequencies@[i] + response.frequencies@[i] <= usize::MAX,
    ensures
        final(merged).scores@.contains_key(worker) <==> old(merged).scores@.contains_key(worker)
            || response.scores@.contains_key(worker),
        response.scores@.contains_key(worker) ==> final(merged).scores@[worker]
            == response.scores@[worker],
        !response.scores@.contains_key(worker) && old(merged).scores@.contains_key(worker) ==> final(merged).scores@[worker] == old(merged).scores@[worker],
        response.tree_sizes@.contains_key(worker) ==> final(merged).tree_sizes@.contains_key(worker)
            && final(merged).tree_sizes@[worker] == response.tree_sizes@[worker],
        !response.tree_sizes@.contains_key(worker) && old(merged).tree_sizes@.contains_key(worker)
            ==> final(merged).tree_sizes@.contains_key(worker) && final(merged).tree_sizes@[worker]
            == old(merged).tree_sizes@[worker],
        number == 0 ==> final(merged).frequencies@ == response.frequencies@,
        number > 0 ==> {
            let before = old(merged).frequencies@;
            let came = response.frequencies@;
            let after = final(merged).frequencies@;
            &&& after.len() >= before.len() && after.len() >= came.len()
            &&& after.len() == before.len() || after.len() == came.len()
            &&& 0 <= i < before.len() && i < came.len() ==> after[i] == before[i] + came[i]
            &&& before.len() <= i < came.len() ==> after[i] == came[i]
            &&& came.len() <= i < before.len() && 0 <= i ==> after[i] == before[i]
        },
{
}

/// The dumps of shards are put one after the other: the events of the first dump come first, as
/// they were, and then those of the others.
pub proof fn law_joined_dumps_keep_their_order(
    dumps: Vec<Vec<RouterEvent>>,
    events: Vec<RouterEvent>,
    rest: Vec<Vec<RouterEvent>>,
    rest_events: Vec<RouterEvent>,
)
    requires
        call_ensures(join_dumps, (dumps,), events),
        call_ensures(join_dumps, (rest,), rest_events),
        dumps@.len() > 0,
        rest@ == dumps@.drop_first(),
    ensures
        events@ == dumps@[0]@ + rest_events@,
        rest@.len() == 0 ==> rest_events@.len() == 0,
{
    let all = dumps@.map_values(|dump: Vec<RouterEvent>| dump@);
    assert(all.drop_first() =~= rest@.map_values(|dump: Vec<RouterEvent>| dump@));
    assert(all.first() == dumps@[0]@);
    if rest@.len() == 0 {
        assert(rest@.map_values(|dump: Vec<RouterEvent>| dump@).len() == 0);
    }
}

/// A request that names its worker goes to it, at the rank it names or at the first; any other one
/// is searched for. States are updated exactly where the request does not only ask.
pub proof fn law_named_workers_are_taken(
    backend_instance_id: Option<WorkerId>,
    dp_rank: Option<DpRank>,
    query_instance_id: bool,
    plan: RoutePlan,
)
    requires
        call_ensures(route_plan, (backend_instance_id, dp_rank, query_instance_id), plan),
    ensures
        plan is Named <==> backend_instance_id is Some,
        plan matches RoutePlan::Named { worker, update_states } ==> {
            &&& backend_instance_id == Some(worker.worker_id)
            &&& dp_rank is Some ==> dp_rank == Some(worker.dp_rank)
            &&& dp_rank is None ==> worker.dp_rank == 0
            &&& update_states == !query_instance_id
        },
        plan matches RoutePlan::Search { update_states } ==> update_states == !query_instance_id,
{
}

/// A request that only asks is told its worker. Any other one is sent to it, at its rank and with
/// the blocks that it holds; its prefill worker is the one that it names, or that worker too. Worker
/// ids are told where the request asks for them by name.
pub proof fn law_requests_are_sent_to_their_worker(
    worker: WorkerWithDpRank,
    overlap: u32,
    query_instance_id: bool,
    extra_fields: &Option<Vec<String>>,
    prefill: Option<WorkerId>,
    outcome: RouteOutcome,
)
    requires
        call_ensures(
            route_outcome,
            (worker, overlap, query_instance_id, extra_fields, prefill),
            outcome,
        ),
    ensures
        outcome is Report <==> query_instance_id,
        outcome matches RouteOutcome::Report { worker_id } ==> worker_id == worker.worker_id,
        outcome matches RouteOutcome::Send {
            worker_id,
            dp_rank,
            estimated_prefix_hit_num_blocks,
            prefill_worker_id,
            populate_worker_id,
        } ==> {
            &&& worker_id == worker.worker_id
            &&& dp_rank == worker.dp_rank
            &&& estimated_prefix_hit_num_blocks == overlap
            &&& prefill is Some ==> prefill == Some(prefill_worker_id)
            &&& prefill is None ==> prefill_worker_id == worker.worker_id
            &&& populate_worker_id <==> (*extra_fields matches Some(fields) && exists|i: int|
                0 <= i < fields@.len() && (#[trigger] fields@[i])@ == "worker_id"@)
        },
{
}

/// What the router says of a request is what came of it.
pub proof fn law_responses_say_what_came_of_it(outcome: RouterOutcome, response: RouterResponse)
    requires
        call_ensures(router_response, (outcome,), response),
    ensures
        outcome matches RouterOutcome::Found { worker, overlap_blocks } ==> response == (
        RouterResponse::New {
            worker_id: worker.worker_id,
            dp_rank: worker.dp_rank,
            overlap_blocks,
        }),
        outcome matches RouterOutcome::PrefillMarked { marked } ==> (
        response matches RouterResponse::PrefillMarked { success } && success == marked),
        outcome matches RouterOutcome::FreeMarked { marked } ==> (
        response matches RouterResponse::FreeMarked { success } && success == marked),
{
}

/// The hashes of a request are those of its full blocks of tokens; rolling hashes are made of them
/// for an index without events and for tracking blocks, and only then.
pub proof fn law_hashes_of_requests_are_those_of_their_tokens(
    tokens: &[u32],
    block_size: u32,
    kind: IndexerKind,
    track_active_blocks: bool,
    hashes: RequestHashes,
    local: Vec<LocalBlockHash>,
    local_slice: &[LocalBlockHash],
    rolling: Vec<SequenceHash>,
)
    requires
        block_size > 0,
        call_ensures(request_hashes, (tokens, block_size, kind, track_active_blocks), hashes),
        call_ensures(compute_block_hash_for_seq, (tokens, block_size), local),
        local_slice@ == local@,
        call_ensures(compute_seq_hash_for_block, (local_slice,), rolling),
    ensures
        hashes.block_hashes@ == local@,
        hashes.indexer_hashes is Some <==> kind is Approximate,
        hashes.indexer_hashes matches Some(found) ==> found@ == rolling@,
        hashes.scheduler_hashes is Some <==> track_active_blocks,
        hashes.scheduler_hashes matches Some(found) ==> found@ == rolling@,
{
}

/// Nothing is indexed where overlap does not count; otherwise events are used where they are
/// wanted.
pub proof fn law_index_follows_the_settings(
    overlap_counts: bool,
    use_kv_events: bool,
    kind: IndexerKind,
)
    requires
        call_ensures(indexer_kind, (overlap_counts, use_kv_events), kind),
    ensures
        kind is Nothing <==> !overlap_counts,
        kind is Events <==> overlap_counts && use_kv_events,
        kind is Approximate <==> overlap_counts && !use_kv_events,
{
}

/// The overlap of a worker is its score, zero where it has none.
pub proof fn law_overlap_is_the_score(
    scores: &WorkerMap<u32>,
    worker: &WorkerWithDpRank,
    overlap: u32,
)
    requires
        call_ensures(overlap_of, (scores, worker), overlap),
    ensures
        scores@.contains_key(*worker) ==> overlap == scores@[*worker],
        !scores@.contains_key(*worker) ==> overlap == 0,
{
}

/// A request that only asks is answered with its worker's id in decimal and with its tokens.
pub proof fn law_queries_tell_worker_and_tokens(
    worker_id: WorkerId,
    tokens: &[u32],
    annotations: Vec<QueryAnnotation>,
)
    requires
        call_ensures(query_annotations, (worker_id, tokens), annotations),
    ensures
        annotations@.len() == 2,
        annotations@[0] matches QueryAnnotation::Text { name, value } && name@
            == "worker_instance_id"@ && value@ == decimal_text(worker_id as nat),
        annotations@[1] matches QueryAnnotation::Tokens { name, value } && name@ == "token_data"@
            && value@ == tokens@,
{
}

/// Worker ids are written once, into the first item of an answer and where they are asked for; data
/// that has no place for them stays as it is.
pub proof fn law_worker_ids_are_written_once(
    first_item: bool,
    populate: bool,
    params: ItemParams,
    prefill: WorkerId,
    decode: WorkerId,
    write: WorkerIdWrite,
)
    requires
        call_ensures(worker_id_write, (first_item, populate, params, prefill, decode), write),
    ensures
        !(write is Nothing) <==> first_item && populate && (params is Absent || params is Object),
        write matches WorkerIdWrite::NewParams(ids) ==> params is Absent && ids.prefill_worker_id
            == prefill && ids.decode_worker_id == decode,
        write matches WorkerIdWrite::Member(ids) ==> params is Object && ids.prefill_worker_id
            == prefill && ids.decode_worker_id == decode,
{
}

/// Prefill is marked with the first item of an answer and never again; a worker is freed once there
/// is no item.
pub proof fn law_prefill_is_marked_once(
    stream: &mut AnswerStream,
    has_item: bool,
    step: StreamStep,
)
    requires
        call_ensures(AnswerStream::on_next, (stream, has_item), step),
    ensures
        step is Free <==> !has_item,
        step matches StreamStep::Pass { mark_prefill } ==> mark_prefill == !old(stream).prefill_marked && final(stream).prefill_marked,
        old(stream).prefill_marked ==> final(stream).prefill_marked,
        !has_item ==> final(stream).prefill_marked == old(stream).prefill_marked,
{
}

/// Settings that are given are taken; the others are the usual ones.
pub proof fn law_given_settings_are_taken(
    use_kv_events: Option<bool>,
    replica_sync: Option<bool>,
    track_active_blocks: Option<bool>,
    snapshot_threshold: Option<Option<u32>>,
    reset_states: Option<bool>,
    config: KvRouterConfig,
)
    requires
        call_ensures(
            KvRouterConfig::new,
            (
                use_kv_events,
                replica_sync,
                track_active_blocks,
                snapshot_threshold,
                reset_states,
            ),
            config,
        ),
    ensures
        use_kv_events matches Some(given) ==> config.use_kv_events == given,
        use_kv_events is None ==> config.use_kv_events,
        replica_sync matches Some(given) ==> config.router_replica_sync == given,
        replica_sync is None ==> !config.router_replica_sync,
        track_active_blocks matches Some(given) ==> config.router_track_active_blocks == given,
        track_active_blocks is None ==> config.router_track_active_blocks,
        snapshot_threshold matches Some(given) ==> config.router_snapshot_threshold == given,
        snapshot_threshold is None ==> config.router_snapshot_threshold == Some(1_000_000u32),
        reset_states matches Some(given) ==> config.router_reset_states == given,
        reset_states is None ==> !config.router_reset_states,
{
}

/// A worker is stale exactly where it is known and not current.
pub proof fn law_stale_workers_are_known_and_not_current(
    known: &[WorkerId],
    current: &[WorkerId],
    stale: Vec<WorkerId>,
    worker: WorkerId,
)
    requires
        call_ensures(stale_workers, (known, current), stale),
    ensures
        stale@.contains(worker) <==> known@.contains(worker) && !current@.contains(worker),
        stale@ == known@.filter(|known: WorkerId| !current@.contains(known)),
{
    law_stale_workers_are_gone(known@, current@, worker);
}

proof fn lemma_filtered_texts(
    consumers: Seq<String>,
    pred: spec_fn(String) -> bool,
    text: Seq<char>,
)
    ensures
        (exists|i: int|
            0 <= i < consumers.filter(pred).len() && (#[trigger] consumers.filter(pred)[i])@
                == text) <==> (exists|i: int|
            0 <= i < consumers.len() && (#[trigger] consumers[i])@ == text && pred(consumers[i])),
    decreases consumers.len(),
{
    reveal(Seq::filter);
    if consumers.len() > 0 {
        let before = consumers.drop_last();
        let kept = before.filter(pred);
        let all = consumers.filter(pred);
        let last = consumers.len() - 1;
        lemma_filtered_texts(before, pred, text);
        if exists|i: int| 0 <= i < all.len() && (#[trigger] all[i])@ == text {
            let i = choose|i: int| 0 <= i < all.len() && (#[trigger] all[i])@ == text;
            if i < kept.len() {
                assert(kept[i]@ == text);
                let k = choose|k: int|
                    0 <= k < before.len() && (#[trigger] before[k])@ == text && pred(before[k]);
                assert(consumers[k]@ == text && pred(consumers[k]));
            } else {
                assert(consumers[last]@ == text && pred(consumers[last]));
            }
        }
        if exists|i: int|
            0 <= i < consumers.len() && (#[trigger] consumers[i])@ == text && pred(consumers[i]) {
            let i = choose|i: int|
                0 <= i < consumers.len() && (#[trigger] consumers[i])@ == text && pred(
                    consumers[i],
                );
            if i < last {
                assert(before[i]@ == text && pred(before[i]));
                let k = choose|k: int| 0 <= k < kept.len() && (#[trigger] kept[k])@ == text;
                assert(all[k]@ == text);
            } else {
                assert(all[kept.len() as int]@ == text);
            }
        }
    }
}

/// A consumer is orphaned exactly where it is there, is not one's own and belongs to nobody who is
/// active.
pub proof fn law_orphaned_consumers_belong_to_nobody(
    consumers: Vec<String>,
    own: &String,
    active: &[String],
    orphaned: Vec<String>,
    name: Seq<char>,
)
    requires
        call_ensures(orphaned_consumers, (consumers, own, active), orphaned),
    ensures
        (exists|i: int| 0 <= i < orphaned@.len() && (#[trigger] orphaned@[i])@ == name) <==> ((
        exists|i: int| 0 <= i < consumers@.len() && (#[trigger] consumers@[i])@ == name) && name
            != own@ && !(exists|i: int| 0 <= i < active@.len() && (#[trigger] active@[i])@ == name)),
{
    let pred = |consumer: String|
        crate::kv_router::subscriber::is_orphaned(consumer, own@, active@);
    lemma_filtered_texts(consumers@, pred, name);
    let told = orphaned@.map_values(|consumer: String| consumer@);
    let kept = consumers@.filter(pred);
    let wanted = kept.map_values(|consumer: String| consumer@);
    assert(told == wanted);
    if exists|i: int| 0 <= i < orphaned@.len() && (#[trigger] orphaned@[i])@ == name {
        let i = choose|i: int| 0 <= i < orphaned@.len() && (#[trigger] orphaned@[i])@ == name;
        assert(told[i] == name);
        assert(wanted[i] == kept[i]@);
        assert(kept[i]@ == name);
    }
    if exists|i: int| 0 <= i < kept.len() && (#[trigger] kept[i])@ == name {
        let i = choose|i: int| 0 <= i < kept.len() && (#[trigger] kept[i])@ == name;
        assert(wanted[i] == name);
        assert(told[i] == orphaned@[i]@);
    }
}

/// What happens is answered by one thing each: a worker that goes is removed, an event is passed on,
/// a failure is waited out, a router that goes has its consumer deleted, and a stream that has grown
/// beyond its limit is purged by whoever can.
pub proof fn law_what_happens_is_answered(
    event: BackgroundEvent,
    can_get_workers: bool,
    can_dump: bool,
    threshold: Option<u32>,
    action: BackgroundAction,
)
    requires
        call_ensures(background_action, (event, can_get_workers, can_dump, threshold), action),
    ensures
        action is Stop <==> event is Cancelled,
        action matches BackgroundAction::RemoveWorker(worker) ==> event == BackgroundEvent::Worker(
            Some(InstanceChange::Removed(worker)),
        ),
        event matches BackgroundEvent::Worker(Some(InstanceChange::Removed(worker)))
            ==> action is RemoveWorker,
        action matches BackgroundAction::Forward(passed) ==> event == BackgroundEvent::Dequeued(
            Some(passed),
        ),
        event matches BackgroundEvent::Dequeued(Some(came)) ==> action is Forward,
        action matches BackgroundAction::WaitMs(wait) ==> event is DequeueFailed && wait == 100,
        event is DequeueFailed ==> action is WaitMs,
        action is PurgeAndSnapshot <==> (event matches BackgroundEvent::Tick(Some(messages))
            && can_get_workers && can_dump && threshold is Some && messages > threshold->Some_0),
        event matches BackgroundEvent::Router(Some(InstanceChange::Removed(router))) ==> (
        action matches BackgroundAction::DeleteConsumer(name) && name@ == decimal_text(
            router as nat,
        )),
        action is DeleteConsumer ==> (event matches BackgroundEvent::Router(
            Some(InstanceChange::Removed(router)),
        )),
{
}

/// A snapshot goes on step by step: workers are asked for, those that are gone are forgotten and
/// the stream is purged, what is indexed is asked for, and exactly that is uploaded.
pub proof fn law_snapshots_upload_what_was_dumped(
    event: SnapshotEvent,
    current: &[WorkerId],
    address: &str,
    bucket: &str,
    action: SnapshotAction,
    worker: WorkerId,
)
    requires
        call_ensures(next_in_snapshot, (event, current, address, bucket), action),
    ensures
        action is AskWorkers <==> event is Started,
        action is ForgetAndPurge <==> event is Workers,
        action matches SnapshotAction::ForgetAndPurge(stale) ==> {
            &&& event matches SnapshotEvent::Workers(Some(known)) ==> (stale@.contains(worker)
                <==> known@.contains(worker) && !current@.contains(worker))
            &&& event matches SnapshotEvent::Workers(None) ==> stale@.len() == 0
        },
        action is AskDump <==> event == SnapshotEvent::Purged(true),
        action matches SnapshotAction::Upload { url, events } ==> {
            &&& event == SnapshotEvent::Dumped(Some(events))
            &&& url@ == "nats://"@ + address@ + "/"@ + bucket@ + "/"@ + "radix-state"@
        },
        event == SnapshotEvent::Purged(false) ==> action is Fail,
        event matches SnapshotEvent::Dumped(None) ==> action is Fail,
        event matches SnapshotEvent::Dumped(Some(events)) ==> (if url_parts(
            "nats://"@ + address@ + "/"@ + bucket@ + "/"@ + "radix-state"@,
        ) is Ok {
            action is Upload
        } else {
            action is NoPlace
        }),
        action matches SnapshotAction::ForgetAndPurge(stale) ==> (
        event matches SnapshotEvent::Workers(Some(known)) ==> stale@ == known@.filter(
            |known: WorkerId| !current@.contains(known),
        )),
{
    if let SnapshotEvent::Workers(Some(known)) = event {
        law_stale_workers_are_gone(known@, current@, worker);
    }
}

/// A snapshot lies at the file of its bucket at the address given.
pub proof fn law_snapshots_lie_in_their_bucket(address: &str, bucket: &str, url: Option<String>)
    requires
        call_ensures(snapshot_url, (address, bucket), url),
    ensures
        url matches Some(url) ==> url@ == "nats://"@ + address@ + "/"@ + bucket@ + "/"@
            + "radix-state"@,
{
}

/// Names of streams and buckets are made of the subject and what they hold.
pub proof fn law_titles_tell_what_they_hold(
    subject: &str,
    stream: String,
    bucket: String,
    slug: &str,
    name: String,
    i: int,
)
    requires
        call_ensures(stream_title, (subject,), stream),
        call_ensures(bucket_title, (subject,), bucket),
        call_ensures(dashed_name, (slug,), name),
    ensures
        stream@ == subject@ + "."@ + "kv_events"@,
        bucket@ == subject@ + "-"@ + "radix-bucket"@,
        name@.len() == slug@.len(),
        0 <= i < slug@.len() ==> name@[i] == (if slug@[i] == '_' {
            '-'
        } else {
            slug@[i]
        }),
{
}

/// A snapshot is settled once it is read the same twice in a row, once it cannot be read, or at the
/// tenth attempt; what was read last is kept.
pub proof fn law_snapshots_settle_once_they_stay_the_same(
    reader: &mut SnapshotReader,
    read: Option<Vec<RouterEvent>>,
)
    requires
        !old(reader).settled(),
        call_ensures(SnapshotReader::on_read, (reader, read), ()),
    ensures
        final(reader).attempts() == old(reader).attempts() + 1,
        read is None ==> final(reader).settled() && final(reader).events() == old(reader).events(),
        read matches Some(events) ==> final(reader).events() == events@,
        read matches Some(events) ==> (events@.len() != old(reader).events().len() && final(reader).attempts() != 10 ==> !final(reader).settled()),
        read matches Some(events) ==> (events@ == old(reader).events() ==> final(reader).settled()),
        final(reader).attempts() == 10 ==> final(reader).settled(),
        read matches Some(events) ==> (final(reader).settled() && final(reader).attempts() != 10
            ==> {
            &&& events@.len() == old(reader).events().len()
            &&& forall|i: int|
                0 <= i < events@.len() ==> {
                    let before = old(reader).events()[i];
                    let after = #[trigger] events@[i];
                    &&& after.worker_id == before.worker_id
                    &&& after.event.event_id == before.event.event_id
                    &&& after.event.dp_rank == before.event.dp_rank
                    &&& match (before.event.data, after.event.data) {
                        (KvCacheEventData::Stored(first), KvCacheEventData::Stored(second)) =>
                            first.parent_hash == second.parent_hash && first.blocks@
                                == second.blocks@,
                        (KvCacheEventData::Removed(first), KvCacheEventData::Removed(second)) =>
                            first.block_hashes@ == second.block_hashes@,
                        (KvCacheEventData::Cleared, KvCacheEventData::Cleared) => true,
                        _ => false,
                    }
                }
        }),
{
    if let Some(events) = read {
        if events@ == old(reader).events() {
            assert(crate::kv_router::subscriber::same_events(old(reader).events(), events@));
        }
        if final(reader).settled() && final(reader).attempts() != 10 {
            assert forall|i: int| 0 <= i < events@.len() implies #[trigger]
                crate::kv_router::subscriber::same_event(
                old(reader).events()[i],
                events@[i],
            ) by {
                assert(old(reader).events()[i] == old(reader).events()[i]);
            }
        }
    }
}

/// States that are to be reset are deleted, others are read.
pub proof fn law_reset_states_are_deleted(reset_states: bool, action: StartAction)
    requires
        call_ensures(start_action, (reset_states,), action),
    ensures
        action is DeleteBucket <==> reset_states,
{
}

/// The check comes every second, up to a tenth of it earlier or later.
pub proof fn law_checks_come_every_second(jitter: i64, interval: u64)
    requires
        call_ensures(check_interval_ms, (jitter,), interval),
    ensures
        interval == 1000 + jitter,
{
}

/// What goes wrong is told in its own words.
pub proof fn law_errors_are_told_in_their_own_words(
    router: &KvRouterError,
    router_text: String,
    scheduler: &KvSchedulerError,
    scheduler_text: &'static str,
    event: &KvCacheEventError,
    event_text: &'static str,
)
    requires
        call_ensures(KvRouterError::message, (router,), router_text),
        call_ensures(KvSchedulerError::message, (scheduler,), scheduler_text),
        call_ensures(KvCacheEventError::message, (event,), event_text),
    ensures
        router_text@ == (match *router {
            KvRouterError::BlockNotFound => "Block not found"@,
            KvRouterError::IndexerOffline => "Indexer is offline"@,
            KvRouterError::IndexerDroppedRequest => "Indexer is dropped request"@,
            KvRouterError::PruneFailed(reason) => "Prune operation failed: "@ + reason@,
        }),
        scheduler_text@ == (match *scheduler {
            KvSchedulerError::NoEndpoints => "no endpoints available to route work"@,
            KvSchedulerError::AllWorkersBusy => "all workers busy"@,
            KvSchedulerError::SubscriberShutdown => "endpoint subscriber shutdown"@,
        }),
        event_text@ == (match *event {
            KvCacheEventError::ParentBlockNotFound => "Failed to find parent block"@,
            KvCacheEventError::BlockNotFound => "Failed to find block"@,
            KvCacheEventError::InvalidBlockSequence => "Invalid block sequence"@,
        }),
{
}

/// What is kept for a worker is found under that worker and its rank alone, until something else is
/// kept for it or it is removed.
pub proof fn law_workers_are_kept_apart<V>(
    map: &mut WorkerMap<V>,
    worker: WorkerWithDpRank,
    value: V,
    replaced: Option<V>,
    smaller: &mut WorkerMap<V>,
    removed: Option<V>,
    kept: &WorkerMap<V>,
    asked: &WorkerWithDpRank,
    found: Option<&V>,
    known: bool,
    left: &WorkerMap<V>,
    found_left: Option<&V>,
    before: &WorkerMap<V>,
    found_before: Option<&V>,
)
    requires
        call_ensures(WorkerMap::<V>::insert, (map, worker, value), replaced),
        kept@ == final(map)@,
        call_ensures(WorkerMap::<V>::get, (kept, asked), found),
        call_ensures(WorkerMap::<V>::contains_key, (kept, asked), known),
        before@ == old(map)@,
        call_ensures(WorkerMap::<V>::get, (before, asked), found_before),
        old(smaller)@ == final(map)@,
        call_ensures(WorkerMap::<V>::remove, (smaller, &worker), removed),
        left@ == final(smaller)@,
        call_ensures(WorkerMap::<V>::get, (left, asked), found_left),
    ensures
        known <==> found is Some,
        *asked == worker ==> found == Some(&value) && found_left is None,
        *asked == worker ==> (replaced is Some <==> found_before is Some),
        *asked == worker ==> (replaced matches Some(value) ==> found_before == Some(&value)),
        *asked != worker ==> found == found_before && found_left == found_before,
        removed == Some(value),
{
}

/// A map that takes in another one keeps what only it has, and has everything else from the other.
pub proof fn law_taken_in_workers_replace_those_known<V: Copy>(
    map: &mut WorkerMap<V>,
    other: &WorkerMap<V>,
    asked: &WorkerWithDpRank,
    before: &WorkerMap<V>,
    after: &WorkerMap<V>,
    found_before: Option<&V>,
    found_other: Option<&V>,
    found_after: Option<&V>,
    workers: Vec<WorkerWithDpRank>,
    count: usize,
    empty: bool,
)
    requires
        call_ensures(WorkerMap::<V>::extend, (map, other), ()),
        before@ == old(map)@,
        after@ == final(map)@,
        call_ensures(WorkerMap::<V>::get, (before, asked), found_before),
        call_ensures(WorkerMap::<V>::get, (other, asked), found_other),
        call_ensures(WorkerMap::<V>::get, (after, asked), found_after),
        call_ensures(WorkerMap::<V>::keys, (after,), workers),
        call_ensures(WorkerMap::<V>::len, (after,), count),
        call_ensures(WorkerMap::<V>::is_empty, (after,), empty),
    ensures
        found_other is Some ==> found_after == found_other,
        found_other is None ==> found_after == found_before,
        workers@.contains(*asked) <==> found_after is Some,
        workers@.len() == count,
        empty ==> found_after is None,
        empty <==> count == 0,
        forall|i: int, j: int|
            #![trigger workers@[i], workers@[j]]
            0 <= i < j < workers@.len() ==> workers@[i].worker_id < workers@[j].worker_id || (
            workers@[i].worker_id == workers@[j].worker_id && workers@[i].dp_rank
                < workers@[j].dp_rank),
{
    if count == 0 {
        assert(after@.dom() =~= Set::empty());
        assert(after@ =~= Map::empty());
    }
    assert forall|i: int, j: int|
        #![trigger workers@[i], workers@[j]]
        0 <= i < j < workers@.len() implies workers@[i].precedes(workers@[j]) by {}
}

} // verus!
