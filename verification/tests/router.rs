use dynamo_llm::kv_router::hashing::{compute_block_hash, compute_block_hash_for_seq};
use dynamo_llm::kv_router::indexer::{
    event_status, get_event_type, IndexState, KvRouterError, METRIC_EVENT_REMOVED,
    METRIC_EVENT_STORED, METRIC_STATUS_BLOCK_NOT_FOUND, METRIC_STATUS_OK,
    METRIC_STATUS_PARENT_NOT_FOUND,
};
use dynamo_llm::kv_router::overlap::OverlapScores;
use dynamo_llm::kv_router::protocols::{
    ExternalSequenceBlockHash, KvCacheEvent, KvCacheEventData, KvCacheRemoveData,
    KvCacheStoreData, KvCacheStoredBlockData, LocalBlockHash, WorkerWithDpRank,
};
use dynamo_llm::kv_router::push_router::{
    indexer_kind, overlap_of, query_annotations, request_hashes, route_outcome, route_plan,
    router_response, worker_id_write, AnswerStream, IndexerKind, ItemParams, KvRouterConfig,
    QueryAnnotation, RouteOutcome, RoutePlan, RouterOutcome, RouterResponse, StreamStep, WorkerIdWrite,
    WorkerIds,
};
use dynamo_llm::kv_router::radix_state::KvCacheEventError;
use dynamo_llm::kv_router::radix_tree::RouterEvent;
use dynamo_llm::kv_router::scheduler::{
    break_tie, lowest_workers, potential_loads, schedule_step, select_worker, selection_of,
    worker_costs, workers_with_configs,
    KvSchedulerError, ModelRuntimeConfig, ScheduleStep, WorkerSelectionResult,
};
use dynamo_llm::kv_router::sharded::{join_dumps, merge_scores, ShardAssignments};
use dynamo_llm::kv_router::subscriber::{
    background_action, bucket_title, check_interval_ms, dashed_name, next_in_snapshot,
    orphaned_consumers, snapshot_url, stale_workers, start_action, stream_title,
    varied_check_interval_ms, BackgroundAction, BackgroundEvent, InstanceChange, SnapshotAction,
    SnapshotEvent, SnapshotReader, StartAction,
};
use dynamo_llm::kv_router::worker_map::WorkerMap;
use dynamo_llm::ranks::rank_of;
use std::collections::BTreeMap;

fn worker(id: u64, rank: u32) -> WorkerWithDpRank {
    WorkerWithDpRank::new(id, rank)
}

fn stored(worker_id: u64, hash: u64) -> RouterEvent {
    RouterEvent::new(
        worker_id,
        KvCacheEvent {
            event_id: 0,
            data: KvCacheEventData::Stored(KvCacheStoreData {
                parent_hash: None,
                blocks: vec![KvCacheStoredBlockData {
                    block_hash: ExternalSequenceBlockHash(hash * 100),
                    tokens_hash: LocalBlockHash(hash),
                }],
            }),
            dp_rank: 0,
        },
    )
}

fn removed(worker_id: u64, hash: u64) -> RouterEvent {
    RouterEvent::new(
        worker_id,
        KvCacheEvent {
            event_id: 0,
            data: KvCacheEventData::Removed(KvCacheRemoveData {
                block_hashes: vec![ExternalSequenceBlockHash(hash)],
            }),
            dp_rank: 0,
        },
    )
}

#[test]
fn test_increment_event_applied() {
    assert_eq!(METRIC_EVENT_STORED, "stored");
    assert_eq!(event_status(&Ok(())), METRIC_STATUS_OK);
    assert_eq!(
        event_status(&Err(KvCacheEventError::ParentBlockNotFound)),
        METRIC_STATUS_PARENT_NOT_FOUND
    );
    assert_eq!(
        event_status(&Err(KvCacheEventError::BlockNotFound)),
        METRIC_STATUS_BLOCK_NOT_FOUND
    );
    let mut index = IndexState::new(None, None);
    let labels = index.apply_event(stored(1, 1));
    assert_eq!(labels.event_type, METRIC_EVENT_STORED);
    assert_eq!(labels.status, METRIC_STATUS_OK);
    let labels = index.apply_event(removed(1, 7));
    assert_eq!(labels.event_type, METRIC_EVENT_REMOVED);
    assert_eq!(labels.status, METRIC_STATUS_BLOCK_NOT_FOUND);
    assert_eq!(get_event_type(&KvCacheEventData::Cleared), "cleared");
}

#[test]
fn router_errors_say_what_went_wrong() {
    assert_eq!(KvRouterError::IndexerOffline.message(), "Indexer is offline");
    assert_eq!(
        KvRouterError::PruneFailed("no config".to_string()).message(),
        "Prune operation failed: no config"
    );
}

#[test]
fn an_index_tells_its_workers_and_events() {
    let mut index = IndexState::new(None, None);
    index.apply_event(stored(3, 1));
    index.apply_event(stored(2, 1));
    assert_eq!(index.get_workers(), vec![2, 3]);
    assert_eq!(index.dump_events().unwrap().len(), 2);
    assert_eq!(index.next_expiry(), None);
    index.remove_worker(3);
    assert_eq!(index.get_workers(), vec![2]);
}

#[test]
fn costs_are_listed_for_every_rank() {
    let mut configs: BTreeMap<u64, ModelRuntimeConfig> = BTreeMap::new();
    configs.insert(
        7,
        ModelRuntimeConfig { data_parallel_size: 2, ..ModelRuntimeConfig::default() },
    );
    let workers = workers_with_configs(&[7, 5], &configs);
    assert_eq!(workers.len(), 2);
    let mut overlaps: WorkerMap<u32> = WorkerMap::new();
    overlaps.insert(worker(7, 1), 3);
    let mut prefill: WorkerMap<usize> = WorkerMap::new();
    prefill.insert(worker(7, 1), 40);
    let decode: WorkerMap<usize> = WorkerMap::new();
    let costs = worker_costs(&workers, &overlaps, &decode, &prefill, 100, 16).unwrap();
    assert_eq!(costs.len(), 3);
    assert_eq!(costs[0].worker, worker(5, 0));
    assert_eq!(costs[0].prefill_tokens, 100);
    assert_eq!(costs[0].decode_blocks, 6);
    assert_eq!(costs[2].worker, worker(7, 1));
    assert_eq!(costs[2].overlap_blocks, 3);
    assert_eq!(costs[2].decode_blocks, 2);
    let none: BTreeMap<u64, Option<ModelRuntimeConfig>> = BTreeMap::new();
    assert_eq!(
        worker_costs(&none, &overlaps, &decode, &prefill, 100, 16).unwrap_err(),
        KvSchedulerError::NoEndpoints
    );
}

#[test]
fn ties_go_to_the_smallest_tree() {
    let mut sizes: WorkerMap<usize> = WorkerMap::new();
    sizes.insert(worker(1, 0), 5);
    sizes.insert(worker(2, 0), 3);
    sizes.insert(worker(3, 0), 3);
    assert_eq!(
        break_tie(&[worker(1, 0), worker(2, 0), worker(3, 0)], &sizes),
        worker(2, 0)
    );
    assert_eq!(break_tie(&[worker(1, 0), worker(9, 0)], &sizes), worker(9, 0));
}

#[test]
fn a_selection_is_answered_and_booked() {
    let mut overlaps: WorkerMap<u32> = WorkerMap::new();
    overlaps.insert(worker(1, 0), 2);
    let selection = selection_of(worker(1, 0), &overlaps, 33, 16);
    assert_eq!(
        selection,
        WorkerSelectionResult {
            worker: worker(1, 0),
            required_blocks: 3,
            overlap_blocks: 2
        }
    );
    match schedule_step(Ok(selection), true, Some("id".to_string())) {
        ScheduleStep::Answer { event, response, book } => {
            assert_eq!(event.isl_blocks, 3);
            assert_eq!(response.best_worker, worker(1, 0));
            assert_eq!(book.as_deref(), Some("id"));
        }
        _ => panic!("expected an answer"),
    }
    assert!(matches!(
        schedule_step(Err(KvSchedulerError::AllWorkersBusy), true, None),
        ScheduleStep::WaitMs(5)
    ));
    assert!(matches!(
        schedule_step(Err(KvSchedulerError::SubscriberShutdown), true, None),
        ScheduleStep::Stop
    ));
    assert_eq!(
        KvSchedulerError::NoEndpoints.message(),
        "no endpoints available to route work"
    );
}

#[test]
fn loads_are_listed_in_worker_order() {
    let mut decode: WorkerMap<usize> = WorkerMap::new();
    decode.insert(worker(2, 0), 4);
    let mut prefill: WorkerMap<usize> = WorkerMap::new();
    prefill.insert(worker(1, 0), 9);
    let loads = potential_loads(&decode, &prefill, 50);
    assert_eq!(loads.len(), 2);
    assert_eq!(loads[0].worker_id, 1);
    assert_eq!(loads[0].potential_prefill_tokens, 9);
    assert_eq!(loads[0].potential_decode_blocks, 0);
    assert_eq!(loads[1].potential_prefill_tokens, 50);
    assert_eq!(loads[1].potential_decode_blocks, 4);
}

#[test]
fn workers_keep_their_shard() {
    let mut shards = ShardAssignments::new(2);
    assert_eq!(shards.assign(10), 0);
    assert_eq!(shards.assign(11), 1);
    assert_eq!(shards.assign(12), 0);
    assert_eq!(shards.assign(11), 1);
    assert_eq!(shards.remove(10), Some(0));
    assert_eq!(shards.remove(10), None);
    assert_eq!(shards.assign(13), 0);
}

#[test]
fn shards_answer_together() {
    let mut merged = OverlapScores::new();
    let mut first = OverlapScores::new();
    first.update_scores(&[worker(1, 0)]);
    first.add_frequency(2);
    first.add_frequency(1);
    let mut second = OverlapScores::new();
    second.update_scores(&[worker(2, 0)]);
    second.update_scores(&[worker(2, 0)]);
    second.add_frequency(5);
    merge_scores(&mut merged, first, 0);
    merge_scores(&mut merged, second, 1);
    assert_eq!(merged.scores.get(&worker(1, 0)), Some(&1));
    assert_eq!(merged.scores.get(&worker(2, 0)), Some(&2));
    assert_eq!(merged.frequencies, vec![7, 1]);
    let joined = join_dumps(vec![vec![stored(1, 1)], vec![], vec![stored(2, 2)]]);
    assert_eq!(joined.len(), 2);
    assert_eq!(joined[1].worker_id, 2);
}

#[test]
fn names_and_places_are_put_together() {
    assert_eq!(dashed_name("a_b_c"), "a-b-c");
    assert_eq!(stream_title("ns.comp"), "ns.comp.kv_events");
    assert_eq!(bucket_title("ns.comp"), "ns.comp-radix-bucket");
    assert_eq!(
        snapshot_url("localhost:4222", "bucket"),
        Some("nats://localhost:4222/bucket/radix-state".to_string())
    );
    assert_eq!(snapshot_url("local host:x", "bucket"), None);
    assert_eq!(check_interval_ms(-100), 900);
}

#[test]
fn snapshots_are_read_until_two_reads_agree() {
    let mut reader = SnapshotReader::new(vec![stored(1, 1)]);
    reader.on_read(Some(vec![stored(1, 2)]));
    assert!(!reader.is_settled());
    reader.on_read(Some(vec![stored(1, 2)]));
    assert!(reader.is_settled());
    let mut failing = SnapshotReader::new(vec![stored(1, 1)]);
    failing.on_read(None);
    assert!(failing.is_settled());
    assert_eq!(failing.into_events().len(), 1);
}

#[test]
fn what_is_gone_is_found() {
    assert_eq!(stale_workers(&[3, 1, 2], &[2]), vec![3, 1]);
    let names = |list: &[&str]| -> Vec<String> {
        list.iter().map(|name| name.to_string()).collect()
    };
    assert_eq!(
        orphaned_consumers(names(&["a", "b", "c"]), &"a".to_string(), &names(&["c"])),
        names(&["b"])
    );
}

#[test]
fn the_background_task_acts_on_what_happens() {
    assert!(matches!(
        background_action(BackgroundEvent::Tick(Some(11)), true, true, Some(10)),
        BackgroundAction::PurgeAndSnapshot
    ));
    assert!(matches!(
        background_action(BackgroundEvent::Tick(Some(10)), true, true, Some(10)),
        BackgroundAction::Nothing
    ));
    assert!(matches!(
        background_action(BackgroundEvent::Tick(Some(11)), false, true, Some(10)),
        BackgroundAction::Nothing
    ));
    assert!(matches!(
        background_action(
            BackgroundEvent::Worker(Some(InstanceChange::Removed(4))),
            true,
            true,
            None
        ),
        BackgroundAction::RemoveWorker(4)
    ));
    assert!(matches!(
        background_action(BackgroundEvent::Dequeued(Some(stored(1, 1))), true, true, None),
        BackgroundAction::Forward(_)
    ));
    assert!(matches!(
        background_action(BackgroundEvent::DequeueFailed, true, true, None),
        BackgroundAction::WaitMs(100)
    ));
}

#[test]
fn requests_find_their_worker() {
    assert_eq!(indexer_kind(false, true), IndexerKind::Nothing);
    assert_eq!(indexer_kind(true, false), IndexerKind::Approximate);
    assert_eq!(
        route_plan(Some(4), None, true),
        RoutePlan::Named { worker: worker(4, 0), update_states: false }
    );
    assert_eq!(
        route_plan(Some(4), Some(2), false),
        RoutePlan::Named { worker: worker(4, 2), update_states: true }
    );
    assert_eq!(
        route_plan(None, Some(2), false),
        RoutePlan::Search { update_states: true }
    );
    assert_eq!(
        route_outcome(worker(4, 1), 3, true, &None, None),
        RouteOutcome::Report { worker_id: 4 }
    );
    let fields = Some(vec!["x".to_string(), "worker_id".to_string()]);
    assert_eq!(
        route_outcome(worker(4, 1), 3, false, &fields, None),
        RouteOutcome::Send {
            worker_id: 4,
            dp_rank: 1,
            estimated_prefix_hit_num_blocks: 3,
            prefill_worker_id: 4,
            populate_worker_id: true,
        }
    );
    let hashes = request_hashes(&[1, 2, 3, 4, 5], 2, IndexerKind::Approximate, false);
    assert_eq!(hashes.block_hashes.len(), 2);
    assert_eq!(hashes.indexer_hashes.unwrap().len(), 2);
    assert!(hashes.scheduler_hashes.is_none());
    let scores: WorkerMap<u32> = WorkerMap::new();
    assert_eq!(overlap_of(&scores, &worker(1, 0)), 0);
}

#[test]
fn queries_are_answered_with_the_worker_and_the_tokens() {
    assert_eq!(
        query_annotations(42, &[7, 8]),
        vec![
            QueryAnnotation::Text { name: "worker_instance_id", value: "42".to_string() },
            QueryAnnotation::Tokens { name: "token_data", value: vec![7, 8] },
        ]
    );
}

#[test]
fn the_first_item_names_the_workers_where_that_is_asked_for() {
    let ids = WorkerIds { prefill_worker_id: 3, decode_worker_id: 4 };
    assert_eq!(
        worker_id_write(true, true, ItemParams::Absent, 3, 4),
        WorkerIdWrite::NewParams(ids)
    );
    assert_eq!(
        worker_id_write(true, true, ItemParams::Object, 3, 4),
        WorkerIdWrite::Member(ids)
    );
    for params in [ItemParams::NoData, ItemParams::Other] {
        assert_eq!(worker_id_write(true, true, params, 3, 4), WorkerIdWrite::Nothing);
    }
    assert_eq!(worker_id_write(false, true, ItemParams::Absent, 3, 4), WorkerIdWrite::Nothing);
    assert_eq!(worker_id_write(true, false, ItemParams::Absent, 3, 4), WorkerIdWrite::Nothing);
}

#[test]
fn prefill_is_reported_with_the_first_item_only() {
    let mut stream = AnswerStream::new();
    assert_eq!(stream.on_next(true), StreamStep::Pass { mark_prefill: true });
    assert_eq!(stream.on_next(true), StreamStep::Pass { mark_prefill: false });
    assert_eq!(stream.on_next(false), StreamStep::Free);
}

#[test]
fn the_router_is_set_up_and_answers() {
    let usual = KvRouterConfig::default();
    assert_eq!(KvRouterConfig::new(None, None, None, None, None), usual);
    assert_eq!(usual.router_snapshot_threshold, Some(1_000_000));
    let own = KvRouterConfig::new(Some(false), None, None, Some(None), None);
    assert!(!own.use_kv_events);
    assert_eq!(own.router_snapshot_threshold, None);
    assert_eq!(
        router_response(RouterOutcome::Found { worker: worker(4, 1), overlap_blocks: 2 }),
        RouterResponse::New { worker_id: 4, dp_rank: 1, overlap_blocks: 2 }
    );
    assert_eq!(
        router_response(RouterOutcome::FreeMarked { marked: false }),
        RouterResponse::FreeMarked { success: false }
    );
}

fn logits(entries: &[(u64, f64)]) -> WorkerMap<i64> {
    let mut logits: WorkerMap<i64> = WorkerMap::new();
    for (id, logit) in entries {
        logits.insert(worker(*id, 0), rank_of(logit.to_bits()));
    }
    logits
}

#[test]
fn test_softmax_sample_zero_temperature() {
    let result = lowest_workers(&logits(&[(1, 5.0), (2, 3.0), (3, 7.0), (4, 3.5)]));
    assert_eq!(result.len(), 1);
    assert_eq!(result[0], worker(2, 0));
    let result = lowest_workers(&logits(&[(1, 5.0), (2, 3.0), (5, 3.0), (6, 7.0)]));
    assert_eq!(result.len(), 2);
    assert!(result.contains(&worker(2, 0)) && result.contains(&worker(5, 0)));
    let result = lowest_workers(&logits(&[(10, -1.0), (20, -5.0), (30, 0.0)]));
    assert_eq!(result.len(), 1);
    assert_eq!(result[0], worker(20, 0));
}

struct Shards {
    assignments: ShardAssignments,
    shards: Vec<IndexState>,
}

fn make_indexer(num_shards: usize) -> Shards {
    Shards {
        assignments: ShardAssignments::new(num_shards),
        shards: (0..num_shards).map(|_| IndexState::new(None, None)).collect(),
    }
}

fn apply_event(indexer: &mut Shards, event: RouterEvent) {
    let shard = indexer.assignments.assign(event.worker_id);
    indexer.shards[shard].apply_event(event);
}

fn find_matches(indexer: &mut Shards, sequence: Vec<LocalBlockHash>) -> OverlapScores {
    let mut merged = OverlapScores::new();
    for (position, shard) in indexer.shards.iter_mut().enumerate() {
        let found = shard.find_matches(sequence.clone(), false, 0).unwrap();
        merge_scores(&mut merged, found, position);
    }
    merged
}

const SHARDS: [usize; 3] = [1, 3, 8];
const BLOCK_SIZES: [u32; 3] = [11, 32, 64];

#[test]
fn test_kv_indexer_new() {
    for num_shards in SHARDS {
        assert_eq!(make_indexer(num_shards).shards.len(), num_shards);
    }
}

#[test]
fn test_find_matches() {
    for num_shards in SHARDS {
        let sequence = vec![compute_block_hash(b"test data")];
        assert!(find_matches(&mut make_indexer(num_shards), sequence).scores.is_empty());
    }
}

#[test]
fn test_find_matches_for_request() {
    for num_shards in SHARDS {
        for kv_block_size in BLOCK_SIZES {
            let sequence = compute_block_hash_for_seq(&[1, 2, 3, 4], kv_block_size);
            assert!(find_matches(&mut make_indexer(num_shards), sequence).scores.is_empty());
        }
    }
}

#[test]
fn test_apply_event() {
    for num_shards in SHARDS {
        let mut indexer = make_indexer(num_shards);
        apply_event(&mut indexer, stored(0, 1));
        let found = find_matches(&mut indexer, vec![LocalBlockHash(1)]);
        assert_eq!(found.scores.get(&worker(0, 0)), Some(&1));
    }
}

#[test]
fn the_router_starts_from_what_was_kept() {
    assert_eq!(start_action(false), StartAction::ReadSnapshot);
    assert_eq!(start_action(true), StartAction::DeleteBucket);
    for _ in 0..20 {
        assert!((900..=1100).contains(&varied_check_interval_ms()));
    }
    match background_action(
        BackgroundEvent::Router(Some(InstanceChange::Removed(17))),
        true,
        true,
        None,
    ) {
        BackgroundAction::DeleteConsumer(consumer) => assert_eq!(consumer, "17"),
        _ => panic!("expected a consumer to delete"),
    }
}

#[test]
fn the_stream_is_purged_before_the_snapshot_is_taken() {
    let next = |event: SnapshotEvent| next_in_snapshot(event, &[1, 2], "localhost:4222", "bucket");
    assert!(matches!(next(SnapshotEvent::Started), SnapshotAction::AskWorkers));
    match next(SnapshotEvent::Workers(Some(vec![2, 3, 1]))) {
        SnapshotAction::ForgetAndPurge(stale) => assert_eq!(stale, vec![3]),
        _ => panic!("expected the stream to be purged"),
    }
    assert!(matches!(
        next(SnapshotEvent::Workers(None)),
        SnapshotAction::ForgetAndPurge(_)
    ));
    assert!(matches!(next(SnapshotEvent::Purged(true)), SnapshotAction::AskDump));
    assert!(matches!(next(SnapshotEvent::Purged(false)), SnapshotAction::Fail));
    assert!(matches!(next(SnapshotEvent::Dumped(None)), SnapshotAction::Fail));
    match next(SnapshotEvent::Dumped(Some(vec![stored(1, 1)]))) {
        SnapshotAction::Upload { url, events } => {
            assert_eq!(url, "nats://localhost:4222/bucket/radix-state");
            assert_eq!(events.len(), 1);
        }
        _ => panic!("expected an upload"),
    }
}

#[test]
fn the_smallest_tree_is_chosen() {
    let mut overlaps = OverlapScores::new();
    overlaps.scores.insert(worker(2, 0), 4);
    overlaps.tree_sizes.insert(worker(1, 0), 9);
    overlaps.tree_sizes.insert(worker(2, 0), 8);
    let selection = select_worker(&[worker(1, 0), worker(2, 0)], &overlaps, 17, 16);
    assert_eq!(
        selection,
        WorkerSelectionResult { worker: worker(2, 0), required_blocks: 2, overlap_blocks: 4 }
    );
}
