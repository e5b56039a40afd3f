use dynamo_llm::kv_router::hashing::{
    compute_block_hash, compute_block_hash_for_seq, compute_seq_hash_for_block,
};
use dynamo_llm::kv_router::overlap::OverlapScores;
use dynamo_llm::kv_router::protocols::{
    ExternalSequenceBlockHash, KvCacheEvent, KvCacheEventData, KvCacheRemoveData,
    KvCacheStoreData, KvCacheStoredBlockData, LocalBlockHash, WorkerId, WorkerWithDpRank,
};
use dynamo_llm::kv_router::radix_state::KvCacheEventError;
use dynamo_llm::kv_router::radix_tree::{RadixTree, RouterEvent};

fn make_blocks(hashes: Vec<u64>) -> Vec<KvCacheStoredBlockData> {
    hashes
        .iter()
        .map(|i| KvCacheStoredBlockData {
            tokens_hash: LocalBlockHash(*i),
            block_hash: ExternalSequenceBlockHash(*i * 100),
        })
        .collect()
}

fn create_store_event(
    worker_id: WorkerId,
    event_id: u64,
    hashes: Vec<u64>,
    parent: Option<ExternalSequenceBlockHash>,
) -> RouterEvent {
    RouterEvent {
        worker_id,
        event: KvCacheEvent {
            event_id,
            data: KvCacheEventData::Stored(KvCacheStoreData {
                parent_hash: parent,
                blocks: make_blocks(hashes),
            }),
            dp_rank: 0,
        },
    }
}

fn create_remove_event(worker_id: WorkerId, event_id: u64, hashes: Vec<u64>) -> RouterEvent {
    RouterEvent {
        worker_id,
        event: KvCacheEvent {
            event_id,
            data: KvCacheEventData::Removed(KvCacheRemoveData {
                block_hashes: hashes
                    .iter()
                    .map(|i| ExternalSequenceBlockHash(*i * 100))
                    .collect(),
            }),
            dp_rank: 0,
        },
    }
}

fn worker(id: WorkerId) -> WorkerWithDpRank {
    WorkerWithDpRank::from_worker_id(id)
}

fn locals(hashes: &[u64]) -> Vec<LocalBlockHash> {
    hashes.iter().map(|hash| LocalBlockHash(*hash)).collect()
}

fn score(scores: &OverlapScores, id: WorkerId) -> Option<u32> {
    scores.scores.get(&worker(id)).copied()
}

#[test]
fn test_radix_tree() {
    let mut trie = RadixTree::new();
    let worker_1 = 0;
    let worker_2 = 1;

    trie.apply_event(create_store_event(worker_1, 1, vec![1, 2, 3], None)).unwrap();
    let scores = trie.find_matches(locals(&[1, 2, 3]), false);
    assert_eq!(score(&scores, worker_1), Some(3));

    assert_eq!(trie.known_workers().len(), 1);
    assert_eq!(trie.worker_size(&worker(worker_1)), Some(3));
    assert_eq!(trie.block_at(&[]).unwrap().num_workers(), 0);
    assert_eq!(trie.block_at(&[]).unwrap().num_children(), 1);
    assert_eq!(trie.block_at(&locals(&[1])).unwrap().num_workers(), 1);
    assert_eq!(trie.block_at(&locals(&[1])).unwrap().num_children(), 1);

    trie.apply_event(create_store_event(worker_2, 1, vec![1, 4, 5], None)).unwrap();
    let scores = trie.find_matches(locals(&[1, 2, 3]), false);
    assert_eq!(score(&scores, worker_1), Some(3));
    assert_eq!(score(&scores, worker_2), Some(1));

    assert_eq!(trie.known_workers().len(), 2);
    assert_eq!(trie.worker_size(&worker(worker_1)), Some(3));
    assert_eq!(trie.worker_size(&worker(worker_2)), Some(3));
    assert_eq!(trie.block_at(&[]).unwrap().num_workers(), 0);
    assert_eq!(trie.block_at(&[]).unwrap().num_children(), 1);
    assert_eq!(trie.block_at(&locals(&[1])).unwrap().num_workers(), 2);
    assert_eq!(trie.block_at(&locals(&[1])).unwrap().num_children(), 2);

    trie.apply_event(create_remove_event(worker_2, 2, vec![5])).unwrap();
    assert_eq!(trie.known_workers().len(), 2);
    assert_eq!(trie.worker_size(&worker(worker_1)), Some(3));
    assert_eq!(trie.worker_size(&worker(worker_2)), Some(2));
    assert_eq!(trie.block_at(&[]).unwrap().num_workers(), 0);
    assert_eq!(trie.block_at(&[]).unwrap().num_children(), 1);
    assert_eq!(trie.block_at(&locals(&[1])).unwrap().num_workers(), 2);
    assert_eq!(trie.block_at(&locals(&[1])).unwrap().num_children(), 2);

    trie.apply_event(create_remove_event(worker_2, 3, vec![4])).unwrap();
    assert_eq!(trie.known_workers().len(), 2);
    assert_eq!(trie.worker_size(&worker(worker_1)), Some(3));
    assert_eq!(trie.worker_size(&worker(worker_2)), Some(1));
    assert_eq!(trie.block_at(&[]).unwrap().num_workers(), 0);
    assert_eq!(trie.block_at(&[]).unwrap().num_children(), 1);
    assert_eq!(trie.block_at(&locals(&[1])).unwrap().num_workers(), 2);
    assert_eq!(trie.block_at(&locals(&[1])).unwrap().num_children(), 2);

    trie.apply_event(create_store_event(
        worker_2,
        4,
        vec![2, 6, 7],
        Some(ExternalSequenceBlockHash(100)),
    ))
    .unwrap();
    let scores = trie.find_matches(locals(&[1, 2, 3]), false);
    assert_eq!(score(&scores, worker_1), Some(3));
    assert_eq!(score(&scores, worker_2), Some(2));

    assert_eq!(trie.known_workers().len(), 2);
    assert_eq!(trie.worker_size(&worker(worker_1)), Some(3));
    assert_eq!(trie.worker_size(&worker(worker_2)), Some(4));
    assert_eq!(trie.block_at(&[]).unwrap().num_workers(), 0);
    assert_eq!(trie.block_at(&[]).unwrap().num_children(), 1);
    assert_eq!(trie.block_at(&locals(&[1])).unwrap().num_workers(), 2);
    assert_eq!(trie.block_at(&locals(&[1])).unwrap().num_children(), 2);
    let shared = ExternalSequenceBlockHash(200);
    assert_eq!(trie.known_block(&worker(worker_1), shared).unwrap().num_workers(), 2);
    assert_eq!(trie.known_block(&worker(worker_2), shared).unwrap().num_workers(), 2);
}

#[test]
fn test_radix_tree_apply_event_errors() {
    let mut trie = RadixTree::new();
    let worker_0 = 0;

    let result = trie.apply_event(create_store_event(
        worker_0,
        0,
        vec![1, 2, 3],
        Some(ExternalSequenceBlockHash(12345)),
    ));
    assert!(result.is_err());
    assert!(matches!(result.unwrap_err(), KvCacheEventError::ParentBlockNotFound));

    let result = trie.apply_event(create_remove_event(worker_0, 0, vec![1, 2, 3]));
    assert!(result.is_err());
    assert!(matches!(result.unwrap_err(), KvCacheEventError::BlockNotFound));

    trie.apply_event(create_store_event(worker_0, 4, vec![1], None)).unwrap();
    let result = trie.apply_event(create_store_event(
        worker_0,
        5,
        vec![1, 2, 3],
        Some(ExternalSequenceBlockHash(100)),
    ));
    assert!(matches!(result.unwrap_err(), KvCacheEventError::InvalidBlockSequence));

    let result = trie.apply_event(create_store_event(
        worker_0,
        6,
        vec![2, 3, 2],
        Some(ExternalSequenceBlockHash(100)),
    ));
    assert!(matches!(result.unwrap_err(), KvCacheEventError::InvalidBlockSequence));
}

#[test]
fn indexer_test_remove_worker() {
    let mut trie = RadixTree::new();
    let worker_0 = 0;
    let worker_1 = 1;

    assert!(trie.find_matches(locals(&[0]), false).scores.is_empty());

    trie.apply_event(create_store_event(worker_0, 0, vec![0], None)).unwrap();
    trie.apply_event(create_store_event(worker_1, 0, vec![0], None)).unwrap();

    let result = trie.find_matches(locals(&[0]), false);
    assert_eq!(result.scores.len(), 2);
    assert_eq!(score(&result, worker_0), Some(1));
    assert_eq!(score(&result, worker_1), Some(1));

    trie.remove_worker(worker_0);

    let result = trie.find_matches(locals(&[0]), false);
    assert_eq!(result.scores.len(), 1);
    assert_eq!(score(&result, worker_1), Some(1));
}

#[test]
fn test_clear_all_blocks() {
    let mut trie = RadixTree::new();
    let worker_0 = 0;
    let worker_1 = 1;

    assert!(trie.find_matches(locals(&[0]), false).scores.is_empty());

    // A worker that is not known.
    trie.clear_all_blocks(worker_0);
    assert_eq!(trie.worker_size(&worker(worker_0)), None);

    // A worker with shared blocks.
    trie.apply_event(create_store_event(worker_0, 0, vec![0, 1, 3], None)).unwrap();
    trie.apply_event(create_store_event(worker_1, 0, vec![0, 2, 3], None)).unwrap();
    let result = trie.find_matches(locals(&[0]), false);
    assert_eq!(result.scores.len(), 2);
    assert_eq!(score(&result, worker_0), Some(1));
    assert_eq!(score(&result, worker_1), Some(1));

    trie.clear_all_blocks(worker_0);
    assert_eq!(trie.worker_size(&worker(worker_0)), Some(0));
    let result = trie.find_matches(locals(&[0, 2]), false);
    assert_eq!(result.scores.len(), 1);
    assert_eq!(score(&result, worker_1), Some(2));
    let result = trie.find_matches(locals(&[0, 1, 3]), false);
    assert_eq!(result.scores.len(), 1);
    assert_eq!(score(&result, worker_1), Some(1));

    // Blocks come back.
    trie.apply_event(create_store_event(worker_0, 0, vec![4, 5], None)).unwrap();
    let result = trie.find_matches(locals(&[4, 5]), false);
    assert_eq!(result.scores.len(), 1);
    assert_eq!(score(&result, worker_0), Some(2));

    // Clearing twice.
    trie.clear_all_blocks(worker_0);
    trie.clear_all_blocks(worker_0);
    assert!(trie.worker_size(&worker(worker_0)).is_some());

    // Clearing everyone.
    trie.clear_all_blocks(worker_0);
    trie.clear_all_blocks(worker_1);
    assert!(!trie.known_workers().is_empty());
    assert_eq!(trie.worker_size(&worker(worker_0)), Some(0));
    assert_eq!(trie.worker_size(&worker(worker_1)), Some(0));

    // A worker that was removed.
    trie.apply_event(create_store_event(worker_0, 0, vec![6], None)).unwrap();
    trie.apply_event(create_store_event(worker_1, 0, vec![6], None)).unwrap();
    trie.remove_worker(worker_0);
    trie.clear_all_blocks(worker_0);
    assert_eq!(trie.worker_size(&worker(worker_0)), None);
    let result = trie.find_matches(locals(&[6]), false);
    assert_eq!(result.scores.len(), 1);
    assert_eq!(score(&result, worker_1), Some(1));

    // A worker that never was.
    let worker_fake = 2;
    assert_eq!(trie.worker_size(&worker(worker_fake)), None);
    trie.clear_all_blocks(worker_fake);
    assert_eq!(trie.worker_size(&worker(worker_fake)), None);
    assert!(trie.worker_size(&worker(worker_1)).is_some());
    let result = trie.find_matches(locals(&[6]), false);
    assert_eq!(result.scores.len(), 1);
    assert_eq!(score(&result, worker_1), Some(1));
}

#[test]
fn test_early_stopping() {
    let mut trie = RadixTree::new();
    let worker_0 = 0;
    let worker_1 = 1;

    trie.apply_event(create_store_event(worker_0, 0, vec![0, 1, 2], None)).unwrap();
    trie.apply_event(create_store_event(worker_1, 0, vec![0], None)).unwrap();

    let result = trie.find_matches(locals(&[0, 1, 2]), true);
    assert_eq!(result.scores.len(), 2);
    assert_eq!(score(&result, worker_0), Some(2));
    assert_eq!(score(&result, worker_1), Some(1));

    let result = trie.find_matches(locals(&[0, 1]), true);
    assert_eq!(result.scores.len(), 2);
    assert_eq!(score(&result, worker_0), Some(2));
    assert_eq!(score(&result, worker_1), Some(1));
}

fn check_block_hash_counts(kv_block_size: u32) {
    let sequence: Vec<u32> = (0..kv_block_size).collect();
    assert_eq!(compute_block_hash_for_seq(&sequence, kv_block_size).len(), 1);
    let sequence: Vec<u32> = (0..(kv_block_size + 1)).collect();
    assert_eq!(compute_block_hash_for_seq(&sequence, kv_block_size).len(), 1);
    let sequence: Vec<u32> = (0..(2 * kv_block_size + 1)).collect();
    assert_eq!(compute_block_hash_for_seq(&sequence, kv_block_size).len(), 2);
}

#[test]
fn test_compute_block_hash_for_seq() {
    check_block_hash_counts(11);
    check_block_hash_counts(32);
    check_block_hash_counts(64);
}

#[test]
fn test_frequency() {
    let millis = 1_000_000u64;
    let mut tree = RadixTree::new_with_frequency(Some(50 * millis));
    let blocks = locals(&[1, 2, 3, 4]);

    let overlap = tree.try_find_matches_at(&blocks, false, 0).unwrap();
    assert_eq!(overlap.frequencies.len(), 0);

    tree.apply_event(create_store_event(0, 0, vec![1, 2, 3, 4], None)).unwrap();
    let overlap = tree.try_find_matches_at(&blocks, false, millis).unwrap();
    assert_eq!(overlap.scores.len(), 1);
    assert_eq!(overlap.frequencies.len(), 0);

    let overlap = tree.try_find_matches_at(&blocks, false, 2 * millis).unwrap();
    assert_eq!(overlap.scores.len(), 1);
    assert_eq!(overlap.frequencies, vec![1, 1, 1, 1]);

    let later = 62 * millis;
    let overlap = tree.try_find_matches_at(&blocks, false, later).unwrap();
    assert_eq!(overlap.frequencies.len(), 0);
    let _ = tree.try_find_matches_at(&blocks, false, later + 1).unwrap();
    let overlap = tree.try_find_matches_at(&blocks[0..3], false, later + 2).unwrap();
    assert_eq!(overlap.frequencies, vec![2, 2, 2]);
    let overlap = tree.try_find_matches_at(&blocks, false, later + 3).unwrap();
    assert_eq!(overlap.frequencies, vec![3, 3, 3, 2]);
}

#[test]
fn test_router_event_new() {
    let worker_id = 0;
    let kv_cache_event = KvCacheEvent {
        event_id: 1,
        data: KvCacheEventData::Stored(KvCacheStoreData {
            parent_hash: None,
            blocks: vec![KvCacheStoredBlockData {
                block_hash: ExternalSequenceBlockHash(0),
                tokens_hash: LocalBlockHash(13226331709069118873),
            }],
        }),
        dp_rank: 0,
    };
    let router_event = RouterEvent::new(worker_id, kv_cache_event);

    assert_eq!(router_event.worker_id, worker_id);
    assert_eq!(router_event.event.event_id, 1);
    if let KvCacheEventData::Stored(store_op) = &router_event.event.data {
        assert_eq!(store_op.blocks.len(), 1);
        assert_eq!(store_op.blocks[0].tokens_hash, compute_block_hash(b"test data"));
        assert_eq!(store_op.blocks[0].block_hash, ExternalSequenceBlockHash(0));
    } else {
        panic!("Expected KvCacheEventData::Stored");
    }
}

#[test]
fn test_radix_tree_default() {
    let radix_tree: RadixTree = Default::default();
    assert_eq!(radix_tree.block_at(&[]).unwrap().num_children(), 0);
    assert_eq!(radix_tree.block_at(&[]).unwrap().num_workers(), 0);
    assert!(radix_tree.known_workers().is_empty());
}

#[test]
fn test_overlap_scores_default() {
    let overlap_scores: OverlapScores = Default::default();
    assert!(overlap_scores.scores.is_empty());
}

fn sort_key(event: &RouterEvent) -> (u64, u64, u64) {
    if let KvCacheEventData::Stored(data) = &event.event.data {
        (
            event.worker_id,
            data.blocks.first().map(|b| b.tokens_hash.0).unwrap_or(0),
            data.parent_hash.map(|h| h.0).unwrap_or(0),
        )
    } else {
        (event.worker_id, 0, 0)
    }
}

#[test]
fn test_dump_tree_as_events_round_trip() {
    let mut original = RadixTree::new();
    let parent = Some(ExternalSequenceBlockHash(100));
    original.apply_event(create_store_event(0, 0, vec![1, 2, 3], None)).unwrap();
    original.apply_event(create_store_event(1, 1, vec![1, 2, 3], None)).unwrap();
    original.apply_event(create_store_event(1, 2, vec![4, 5], parent)).unwrap();
    original.apply_event(create_store_event(2, 3, vec![6, 7], None)).unwrap();
    original.apply_event(create_store_event(0, 4, vec![4], parent)).unwrap();

    let mut first = original.try_dump_tree_as_events().unwrap();
    assert_eq!(first.len(), 11);
    let mut rebuilt = RadixTree::new();
    for event in original.try_dump_tree_as_events().unwrap() {
        rebuilt.apply_event(event).unwrap();
    }
    let mut second = rebuilt.try_dump_tree_as_events().unwrap();
    first.sort_by_key(sort_key);
    second.sort_by_key(sort_key);
    assert_eq!(first.len(), second.len());
    for (event1, event2) in first.iter().zip(second.iter()) {
        assert_eq!(event1.worker_id, event2.worker_id);
        match (&event1.event.data, &event2.event.data) {
            (KvCacheEventData::Stored(data1), KvCacheEventData::Stored(data2)) => {
                assert_eq!(data1.parent_hash, data2.parent_hash);
                assert_eq!(data1.blocks.len(), data2.blocks.len());
                for (block1, block2) in data1.blocks.iter().zip(data2.blocks.iter()) {
                    assert_eq!(block1.tokens_hash, block2.tokens_hash);
                    assert_eq!(block1.block_hash, block2.block_hash);
                }
            }
            _ => panic!("Expected Stored events in both dumps"),
        }
    }
    for sequence in [
        locals(&[1, 2, 3]),
        locals(&[1, 4, 5]),
        locals(&[6, 7]),
        locals(&[1]),
    ] {
        let scores1 = original.find_matches(sequence.clone(), false);
        let scores2 = rebuilt.find_matches(sequence, false);
        for id in 0..3 {
            assert_eq!(score(&scores1, id), score(&scores2, id));
        }
    }
}

#[test]
fn test_remove_worker_verifies_hash_removal() {
    let mut trie = RadixTree::new();
    let worker_0 = 0;
    let worker_1 = 1;
    let worker_2 = 2;

    trie.apply_event(create_store_event(worker_0, 0, vec![1, 2, 3], None)).unwrap();
    trie.apply_event(create_store_event(worker_1, 0, vec![1, 2, 3], None)).unwrap();
    trie.apply_event(create_store_event(worker_2, 0, vec![1, 4, 5], None)).unwrap();
    assert_eq!(trie.worker_size(&worker(worker_0)), Some(3));

    let hash = ExternalSequenceBlockHash(100);
    let block_1 = trie.known_block(&worker(worker_0), hash).unwrap();
    assert_eq!(block_1.num_workers(), 3);
    assert!(block_1.worker_hash(&worker(worker_0)).is_some());
    assert!(block_1.worker_hash(&worker(worker_1)).is_some());
    assert!(block_1.worker_hash(&worker(worker_2)).is_some());

    trie.remove_worker(worker_0);
    assert_eq!(trie.worker_size(&worker(worker_0)), None);
    assert_eq!(trie.known_workers().len(), 2);

    let block_1 = trie.known_block(&worker(worker_1), hash).unwrap();
    assert_eq!(block_1.num_workers(), 2);
    assert!(block_1.worker_hash(&worker(worker_0)).is_none());
    assert!(block_1.worker_hash(&worker(worker_1)).is_some());
    assert!(block_1.worker_hash(&worker(worker_2)).is_some());

    let block_2 = trie
        .known_block(&worker(worker_1), ExternalSequenceBlockHash(200))
        .unwrap();
    assert_eq!(block_2.num_workers(), 1);
    assert!(block_2.worker_hash(&worker(worker_1)).is_some());

    let result = trie
        .find_matches(vec![LocalBlockHash(1), LocalBlockHash(2), LocalBlockHash(3)], false)
        .scores;
    assert_eq!(result.len(), 2);
    assert!(!result.contains_key(&worker(worker_0)));
    assert!(result.contains_key(&worker(worker_1)));
    assert!(result.contains_key(&worker(worker_2)));
}

#[test]
fn a_store_that_is_repeated_changes_nothing() {
    let mut trie = RadixTree::new();
    let event = create_store_event(0, 0, vec![1, 2, 3], None);
    trie.apply_event(event.clone()).unwrap();
    assert_eq!(trie.current_size(), 3);
    trie.apply_event(event).unwrap();
    assert_eq!(trie.current_size(), 3);
    assert_eq!(score(&trie.find_matches(locals(&[1, 2, 3]), false), 0), Some(3));
    for parent in [100, 200, 300] {
        let below = Some(ExternalSequenceBlockHash(parent));
        assert!(trie.apply_event(create_store_event(0, 1, vec![parent + 7], below)).is_ok());
    }
}

#[test]
fn scores_are_the_longest_starts_that_were_stored() {
    let mut trie = RadixTree::new();
    trie.apply_event(create_store_event(0, 0, vec![1, 2], None)).unwrap();
    let below = Some(ExternalSequenceBlockHash(200));
    trie.apply_event(create_store_event(0, 1, vec![3], below)).unwrap();
    trie.apply_event(create_store_event(1, 0, vec![1, 4], None)).unwrap();
    let found = trie.find_matches(locals(&[1, 2, 3, 4]), false);
    assert_eq!(score(&found, 0), Some(3));
    assert_eq!(score(&found, 1), Some(1));
    assert_eq!(found.tree_sizes.get(&worker(0)).copied(), Some(3));
    assert_eq!(found.tree_sizes.get(&worker(1)).copied(), Some(2));
    assert!(trie.find_matches(locals(&[2]), false).scores.is_empty());
}

#[test]
fn neither_an_early_exit_nor_a_shorter_sequence_scores_more() {
    let mut trie = RadixTree::new();
    trie.apply_event(create_store_event(0, 0, vec![1, 2, 3], None)).unwrap();
    trie.apply_event(create_store_event(1, 0, vec![1], None)).unwrap();
    let whole = trie.find_matches(locals(&[1, 2, 3, 4]), false);
    assert_eq!(score(&whole, 0), Some(3));
    assert_eq!(score(&trie.find_matches(locals(&[1, 2, 3, 4]), true), 0), Some(2));
    assert_eq!(score(&trie.find_matches(locals(&[1]), false), 0), Some(1));
    let again = trie.find_matches(locals(&[1, 2, 3, 4]), false);
    for id in 0..2 {
        assert_eq!(score(&again, id), score(&whole, id));
        let size = |scores: &OverlapScores| scores.tree_sizes.get(&worker(id)).copied();
        assert_eq!(size(&again), size(&whole));
    }
}

#[test]
fn workers_are_removed_once() {
    let mut trie = RadixTree::new();
    trie.apply_event(create_store_event(0, 0, vec![1, 2], None)).unwrap();
    trie.apply_event(create_store_event(1, 0, vec![1], None)).unwrap();
    for _ in 0..2 {
        trie.remove_worker(0);
        assert_eq!(trie.get_workers(), vec![1]);
        assert_eq!(trie.current_size(), 1);
        let found = trie.find_matches(locals(&[1, 2]), false);
        assert_eq!(score(&found, 0), None);
        assert_eq!(score(&found, 1), Some(1));
    }
}

#[test]
fn errors_say_what_went_wrong() {
    assert_eq!(KvCacheEventError::ParentBlockNotFound.message(), "Failed to find parent block");
    assert_eq!(KvCacheEventError::BlockNotFound.message(), "Failed to find block");
    assert_eq!(
        KvCacheEventError::InvalidBlockSequence.message(),
        "Invalid block sequence"
    );
}

#[test]
fn block_hashes_of_a_longer_sequence_begin_with_those_of_a_shorter_one() {
    let tokens: Vec<u32> = (0..12).collect();
    let short = compute_block_hash_for_seq(&tokens[0..8], 4);
    let long = compute_block_hash_for_seq(&tokens, 4);
    assert_eq!(long[0..2], short[..]);
    let short_seq = compute_seq_hash_for_block(&short);
    let long_seq = compute_seq_hash_for_block(&long);
    assert_eq!(long_seq[0..2], short_seq[..]);
    assert_eq!(short_seq[0], short[0].0);
    assert_ne!(short_seq[1], short[1].0);
}

#[test]
fn storing_only_adds_and_is_then_matched() {
    let mut trie = RadixTree::new();
    trie.apply_event(create_store_event(5, 0, vec![1, 2], None)).unwrap();
    trie.apply_event(create_store_event(6, 0, vec![1, 2, 3], None)).unwrap();
    let scores = trie.find_matches(locals(&[1, 2, 3]), false);
    assert_eq!(score(&scores, 5), Some(2));
    assert_eq!(score(&scores, 6), Some(3));
    assert_eq!(trie.current_size(), 5);
    assert_eq!(trie.get_workers(), vec![5, 6]);
}

#[test]
fn removed_blocks_are_no_longer_known() {
    let mut trie = RadixTree::new();
    trie.apply_event(create_store_event(5, 0, vec![1, 2], None)).unwrap();
    trie.apply_event(create_remove_event(5, 1, vec![2])).unwrap();
    assert!(trie.known_block(&worker(5), ExternalSequenceBlockHash(200)).is_none());
    assert!(trie.known_block(&worker(5), ExternalSequenceBlockHash(100)).is_some());
    let scores = trie.find_matches(locals(&[1, 2]), false);
    assert_eq!(score(&scores, 5), Some(1));
}

#[test]
fn a_cleared_event_empties_a_worker() {
    let mut trie = RadixTree::new();
    trie.apply_event(create_store_event(5, 0, vec![1, 2], None)).unwrap();
    let cleared = RouterEvent::new(
        5,
        KvCacheEvent { event_id: 1, data: KvCacheEventData::Cleared, dp_rank: 0 },
    );
    trie.apply_event(cleared).unwrap();
    assert_eq!(trie.worker_size(&worker(5)), Some(0));
    assert!(trie.find_matches(locals(&[1]), false).scores.is_empty());
}
