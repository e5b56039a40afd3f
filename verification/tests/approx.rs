use dynamo_llm::kv_router::approx::{BlockEntry, PruneConfig, PruneManager};
use dynamo_llm::kv_router::hashing::compute_block_hash_for_seq;
use dynamo_llm::kv_router::indexer::{IndexState, KvRouterError};
use dynamo_llm::kv_router::overlap::OverlapScores;
use dynamo_llm::kv_router::protocols::{ExternalSequenceBlockHash, WorkerId, WorkerWithDpRank};

const KV_BLOCK_SIZE: u32 = 4;

const MILLIS: u64 = 1_000_000;

fn config(ttl_ms: u64, max_tree_size: usize, target_size: usize) -> PruneConfig {
    PruneConfig { ttl_nanos: ttl_ms * MILLIS, max_tree_size, target_size }
}

fn unlimited(ttl_ms: u64) -> PruneConfig {
    config(ttl_ms, usize::MAX, usize::MAX / 2)
}

fn worker(id: WorkerId) -> WorkerWithDpRank {
    WorkerWithDpRank::from_worker_id(id)
}

fn matches_for(index: &mut IndexState, tokens: &[u32], now: u64) -> OverlapScores {
    index.expire(now);
    let hashes = compute_block_hash_for_seq(tokens, KV_BLOCK_SIZE);
    index.find_matches(hashes, false, now).unwrap()
}

fn route(index: &mut IndexState, tokens: &[u32], id: WorkerId, now: u64) {
    index.process_routing_decision_for_request(tokens, KV_BLOCK_SIZE, worker(id), now);
}

#[test]
fn test_prune_manager_expiry() {
    let mut pm: PruneManager<u32> = PruneManager::new(50, unlimited(50));
    pm.insert(vec![1, 2, 3], 0);
    assert!(pm.get_expiry(&1).is_some());
    assert!(pm.get_expiry(&2).is_some());
    assert!(pm.get_expiry(&3).is_some());

    let expired = pm.pop_expired(70 * MILLIS);
    assert_eq!(expired.len(), 3);
    assert!(pm.get_expiry(&1).is_none());
    assert!(pm.get_expiry(&2).is_none());
    assert!(pm.get_expiry(&3).is_none());
}

#[test]
fn test_prune_manager_update_resets_ttl() {
    let mut pm: PruneManager<u32> = PruneManager::new(50, unlimited(50));
    pm.insert(vec![42], 0);
    let first_expiry = pm.get_expiry(&42).expect("expiry missing after first insert");

    pm.insert(vec![42], 25 * MILLIS);
    let second_expiry = pm.get_expiry(&42).expect("expiry missing after reinsertion");
    assert!(second_expiry > first_expiry);

    let expired = pm.pop_expired(55 * MILLIS);
    assert!(expired.is_empty(), "key expired prematurely despite TTL refresh");

    let expired_after = pm.pop_expired(85 * MILLIS);
    assert_eq!(expired_after, vec![42]);
}

#[test]
fn test_approx_kv_indexer_basic_flow() {
    let mut index = IndexState::new(None, Some(unlimited(200)));
    let tokens: Vec<u32> = vec![1, 2, 3, 4];
    assert!(matches_for(&mut index, &tokens, 0).scores.is_empty());
    route(&mut index, &tokens, 0, MILLIS);
    let scores = matches_for(&mut index, &tokens, 2 * MILLIS);
    assert_eq!(scores.scores.get(&worker(0)).copied(), Some(1));
    assert!(matches_for(&mut index, &tokens, 252 * MILLIS).scores.is_empty());
}

#[test]
fn approx_test_remove_worker() {
    let mut index = IndexState::new(None, Some(unlimited(5000)));
    let tokens: Vec<u32> = vec![10, 11, 12, 13];
    route(&mut index, &tokens, 7, 0);
    assert!(matches_for(&mut index, &tokens, 1).scores.contains_key(&worker(7)));
    index.remove_worker(7);
    assert!(!matches_for(&mut index, &tokens, 2).scores.contains_key(&worker(7)));
}

#[test]
fn test_remove_worker_preserves_other_workers() {
    let mut index = IndexState::new(None, Some(unlimited(5000)));
    let tokens: Vec<u32> = vec![100, 101, 102, 103];
    route(&mut index, &tokens, 30, 0);
    route(&mut index, &tokens, 31, 1);
    let scores = matches_for(&mut index, &tokens, 2);
    assert_eq!(scores.scores.get(&worker(30)).copied(), Some(1));
    assert_eq!(scores.scores.get(&worker(31)).copied(), Some(1));
    index.remove_worker(30);
    let scores = matches_for(&mut index, &tokens, 3);
    assert!(!scores.scores.contains_key(&worker(30)));
    assert_eq!(scores.scores.get(&worker(31)).copied(), Some(1));
}

#[test]
fn test_common_prefix_overlap() {
    let mut index = IndexState::new(None, Some(unlimited(5000)));
    route(&mut index, &[1, 2, 3, 4], 11, 0);
    let overlap = matches_for(&mut index, &[1, 2, 3, 4, 5, 6, 7, 8], 1);
    assert_eq!(overlap.scores.get(&worker(11)), Some(&1));
}

#[test]
fn test_multiple_workers_same_block() {
    let mut index = IndexState::new(None, Some(unlimited(5000)));
    let tokens: Vec<u32> = vec![9, 8, 7, 6];
    route(&mut index, &tokens, 21, 0);
    route(&mut index, &tokens, 22, 1);
    let scores = matches_for(&mut index, &tokens, 2);
    assert_eq!(scores.scores.get(&worker(21)), Some(&1));
    assert_eq!(scores.scores.get(&worker(22)), Some(&1));
}

#[test]
fn test_prune_manager_no_prune_when_within_bounds() {
    let mut pm: PruneManager<u32> = PruneManager::new(50, config(10_000, 100, 50));
    pm.insert((0..50).collect(), 0);
    let pruned = pm.prune(50).unwrap();
    assert!(pruned.is_empty());
    for i in 0..50 {
        assert!(pm.get_expiry(&i).is_some());
    }
}

#[test]
fn test_prune_manager_prune_removes_oldest_first() {
    let mut pm: PruneManager<u32> = PruneManager::new(50, config(10_000, 10, 5));
    for i in 1..=15u32 {
        pm.insert(vec![i], i as u64 * MILLIS);
    }
    let pruned = pm.prune(15).unwrap();
    assert_eq!(pruned.len(), 10);
    for i in 1..=10 {
        assert!(pruned.contains(&i));
    }
    for i in 11..=15 {
        assert!(pm.get_expiry(&i).is_some());
    }
}

#[test]
fn test_prune_manager_prune_fails_without_config() {
    let mut pm: PruneManager<u32> = PruneManager::new(50, unlimited(10_000));
    pm.prune_config = None;
    pm.insert(vec![1, 2, 3], 0);
    let result = pm.prune(150);
    assert!(result.is_err());
    assert!(matches!(result, Err(KvRouterError::PruneFailed(_))));
}

#[test]
fn test_block_entry_ordering() {
    let worker = WorkerWithDpRank::from_worker_id(0);
    let entry1 = BlockEntry {
        key: ExternalSequenceBlockHash(100),
        worker,
        seq_position: 0,
    };
    let entry2 = BlockEntry {
        key: ExternalSequenceBlockHash(50),
        worker,
        seq_position: 1,
    };
    assert!(entry1 < entry2);
}

#[test]
fn test_approx_indexer_e2e_pruning() {
    let mut index = IndexState::new(None, Some(config(60_000, 5, 2)));
    let id = 42;
    for i in 0..5u32 {
        let tokens: Vec<u32> = vec![i * 10, i * 10 + 1, i * 10 + 2, i * 10 + 3];
        route(&mut index, &tokens, id, i as u64 * MILLIS);
    }
    for i in 0..5u32 {
        let tokens: Vec<u32> = vec![i * 10, i * 10 + 1, i * 10 + 2, i * 10 + 3];
        let scores = matches_for(&mut index, &tokens, 5 * MILLIS);
        assert_eq!(scores.scores.get(&worker(id)).copied(), Some(1));
    }
    let tokens: Vec<u32> = vec![50, 51, 52, 53];
    route(&mut index, &tokens, id, 6 * MILLIS);
    for i in 0..4u32 {
        let tokens: Vec<u32> = vec![i * 10, i * 10 + 1, i * 10 + 2, i * 10 + 3];
        let scores = matches_for(&mut index, &tokens, 7 * MILLIS);
        assert_eq!(scores.scores.get(&worker(id)).copied().unwrap_or(0), 0);
    }
    for i in 4..6u32 {
        let tokens: Vec<u32> = vec![i * 10, i * 10 + 1, i * 10 + 2, i * 10 + 3];
        let scores = matches_for(&mut index, &tokens, 7 * MILLIS);
        assert_eq!(scores.scores.get(&worker(id)).copied(), Some(1));
    }
}

#[test]
fn test_prune_manager_prune_reinsertion_updates_position() {
    let mut pm: PruneManager<u32> = PruneManager::new(50, config(10_000, 5, 4));
    for i in 1..=10u32 {
        pm.insert(vec![i], i as u64 * MILLIS);
    }
    pm.insert(vec![1], 11 * MILLIS);
    let pruned = pm.prune(10).unwrap();
    assert_eq!(pruned.len(), 6);
    for i in 2..=7 {
        assert!(pruned.contains(&i));
    }
    for i in 8..=10 {
        assert!(pm.get_expiry(&i).is_some());
    }
    assert!(pm.get_expiry(&1).is_some());
}

#[test]
fn expired_keys_come_in_order_and_the_next_one_is_known() {
    let mut pm: PruneManager<u32> = PruneManager::new(50, unlimited(50));
    pm.insert(vec![3, 1], 0);
    pm.insert(vec![2], 10 * MILLIS);
    assert_eq!(pm.peek_next_expiry(), Some(50 * MILLIS));
    assert_eq!(pm.pop_expired(50 * MILLIS), vec![3, 1]);
    assert_eq!(pm.peek_next_expiry(), Some(60 * MILLIS));
    assert_eq!(pm.pop_expired(50 * MILLIS), Vec::<u32>::new());
}

#[test]
fn the_usual_pruning_keeps_four_fifths() {
    let config = PruneConfig::default();
    assert_eq!(config.ttl_nanos, 120_000_000_000);
    assert_eq!(config.max_tree_size, 1 << 20);
    assert_eq!(config.target_size, 838_860);
}

#[test]
fn the_next_expiry_is_that_of_the_first_in_the_queue() {
    let mut index = IndexState::new(None, Some(unlimited(200)));
    assert_eq!(index.next_expiry(), None);
    route(&mut index, &[1, 2, 3, 4], 0, 5 * MILLIS);
    route(&mut index, &[5, 6, 7, 8], 0, 9 * MILLIS);
    assert_eq!(index.next_expiry(), Some(205 * MILLIS));
    index.expire(205 * MILLIS);
    assert_eq!(index.next_expiry(), Some(209 * MILLIS));
    index.expire(209 * MILLIS);
    assert_eq!(index.next_expiry(), None);
    assert_eq!(IndexState::new(None, None).next_expiry(), None);
}
