use dynamo_llm::kv_router::hashing::compute_block_hash_for_seq;
use dynamo_llm::kv_router::protocols::KvCacheEventData;
use dynamo_llm::kv_router::publisher::{
    calculate_backoff_ms, convert_event, create_stored_block_from_parts, create_stored_blocks,
    event_field, event_kind, has_all_tokens, BlockHashValue, ErrorResponse, Listener, Message,
    PendingMetrics,
    RawEventField, RawEventKind, RawKvEvent, INITIAL_BACKOFF_MS, MAX_BACKOFF_EXPONENT,
    MAX_BACKOFF_MS, MAX_CONSECUTIVE_ERRORS,
};

#[test]
fn test_create_stored_block_from_parts() {
    let kv_block_size = 4;
    let token_ids = vec![10, 20, 30, 40];
    let blk_hash = 0xdead_beef;
    let stored = create_stored_block_from_parts(kv_block_size, blk_hash, &token_ids, 0);
    assert_eq!(stored.block_hash.0, blk_hash);
    let expected_hash = compute_block_hash_for_seq(&token_ids, 4)[0];
    assert_eq!(stored.tokens_hash, expected_hash);
}

#[test]
fn test_create_stored_blocks_ok() {
    let kv_block_size = 4;
    let token_ids = vec![1, 2, 3, 4, 5, 6, 7, 8];
    let num_block_tokens = vec![4_u64, 4_u64];
    let block_hashes = vec![111_u64, 222_u64];
    let blocks = create_stored_blocks(
        kv_block_size,
        &token_ids,
        &num_block_tokens,
        &block_hashes,
        0,
        &mut 0,
    );
    assert_eq!(blocks.len(), 2);
    assert_eq!(blocks[0].block_hash.0, 111);
    assert_eq!(blocks[1].block_hash.0, 222);
}

#[test]
fn test_create_stored_blocks_wrong_size_triggers_warning() {
    let kv_block_size = 4;
    let token_ids = vec![1, 2, 3, 4, 5, 6, 7];
    let num_block_tokens = vec![4_u64, 3_u64];
    let block_hashes = vec![111_u64, 222_u64];
    let mut warning_count: u32 = 0;
    let blocks = create_stored_blocks(
        kv_block_size,
        &token_ids,
        &num_block_tokens,
        &block_hashes,
        0,
        &mut warning_count,
    );
    assert!(blocks.len() == 1);
    assert!(warning_count == 1)
}

#[test]
fn test_convert_event_block_stored() {
    let kv_block_size = 4;
    let raw_evt = RawKvEvent::BlockStored {
        block_hashes: vec![BlockHashValue::Unsigned(10), BlockHashValue::Unsigned(11)],
        parent_block_hash: Some(BlockHashValue::Unsigned(99)),
        token_ids: vec![1, 2, 3, 4, 5, 6, 7, 8],
        block_size: 4,
        lora_id: Some(0),
        medium: None,
    };
    let out = convert_event(raw_evt, 42, kv_block_size, 0, &mut 0);
    assert!(matches!(out.data, KvCacheEventData::Stored(_)));
}

#[test]
fn test_convert_event_block_removed() {
    let kv_block_size = 4;
    let raw_evt = RawKvEvent::BlockRemoved {
        block_hashes: vec![BlockHashValue::Unsigned(123), BlockHashValue::Signed(456)],
        medium: None,
    };
    let out = convert_event(raw_evt, 7, kv_block_size, 0, &mut 0);
    assert!(matches!(out.data, KvCacheEventData::Removed(_)));
}

#[test]
fn test_convert_event_all_blocks_cleared() {
    let kv_block_size = 4;
    let raw_evt = RawKvEvent::AllBlocksCleared;
    let out = convert_event(raw_evt, 1, kv_block_size, 0, &mut 0);
    assert!(matches!(out.data, KvCacheEventData::Cleared));
}

#[test]
fn test_backoff_calculation_progression() {
    assert_eq!(calculate_backoff_ms(0), 10);
    assert_eq!(calculate_backoff_ms(1), 20);
    assert_eq!(calculate_backoff_ms(2), 40);
    assert_eq!(calculate_backoff_ms(3), 80);
    assert_eq!(calculate_backoff_ms(4), 160);
    assert_eq!(calculate_backoff_ms(5), 320);
    assert_eq!(calculate_backoff_ms(6), 640);
    assert_eq!(calculate_backoff_ms(7), 1280);
    assert_eq!(calculate_backoff_ms(8), 2560);
}

#[test]
fn test_backoff_caps_at_max_exponent() {
    assert_eq!(calculate_backoff_ms(8), 2560);
    assert_eq!(calculate_backoff_ms(9), 2560);
    assert_eq!(calculate_backoff_ms(100), 2560);
}

#[test]
fn test_backoff_never_exceeds_max() {
    for i in 0..20 {
        assert!(calculate_backoff_ms(i) <= MAX_BACKOFF_MS);
    }
}

#[test]
#[allow(clippy::assertions_on_constants)]
fn test_backoff_constants_are_sane() {
    assert!(INITIAL_BACKOFF_MS > 0);
    assert!(MAX_BACKOFF_MS > INITIAL_BACKOFF_MS);
    assert!(MAX_BACKOFF_EXPONENT <= 10);
    assert!(MAX_CONSECUTIVE_ERRORS > 0);
    let max_calculated = INITIAL_BACKOFF_MS * 2_u64.pow(MAX_BACKOFF_EXPONENT);
    assert!(max_calculated <= MAX_BACKOFF_MS);
}

#[test]
fn test_start_zmq_listener_pushes_to_channel() {
    let mut listener = Listener::new();
    let seq: u64 = 77;
    let frames = vec![vec![], seq.to_be_bytes().to_vec(), vec![1, 2, 3]];
    let number = match listener.on_message(frames) {
        Message::Batch { number, payload } => {
            assert_eq!(payload, vec![1, 2, 3]);
            number
        }
        _ => panic!("expected a batch"),
    };
    assert_eq!(number, 77);
    let raw = RawKvEvent::BlockStored {
        block_hashes: vec![BlockHashValue::Unsigned(42)],
        parent_block_hash: None,
        token_ids: vec![0, 1, 2, 3],
        block_size: 4,
        lora_id: None,
        medium: None,
    };
    let event = listener.on_raw_event(raw, number, 4, Some(1));
    assert_eq!(event.event_id, 77);
    assert_eq!(event.dp_rank, 1);
    match event.data {
        KvCacheEventData::Stored(stored) => {
            assert!(stored.parent_hash.is_none());
            assert_eq!(stored.blocks.len(), 1);
            assert_eq!(stored.blocks[0].block_hash.0, 42);
        }
        _ => panic!("expected stored blocks"),
    }
}

#[test]
fn the_listener_gives_up_after_too_many_errors() {
    let mut listener = Listener::new();
    for _ in 0..MAX_CONSECUTIVE_ERRORS - 1 {
        assert!(matches!(listener.on_error(), ErrorResponse::Wait(_)));
    }
    assert!(matches!(
        listener.on_error(),
        ErrorResponse::Exit("too many consecutive errors")
    ));
}

#[test]
fn negative_hashes_keep_their_bits() {
    assert_eq!(BlockHashValue::Signed(-1).into_u64(), u64::MAX);
    assert_eq!(BlockHashValue::Unsigned(7).into_u64(), 7);
}

#[test]
fn tags_and_keys_are_recognised() {
    assert!(matches!(event_kind("BlockStored"), Some(RawEventKind::BlockStored)));
    assert!(event_kind("BlockMoved").is_none());
    assert!(matches!(event_field("token_ids"), RawEventField::TokenIds));
}

#[test]
fn test_metrics_publishing_behavior() {
    let mut pending: PendingMetrics<u64> = PendingMetrics::new();
    for i in 0..10u64 {
        assert!(pending.on_change(i, i * 100, i * 10));
    }
    assert_eq!(pending.on_timer(), Some(9));
    assert_eq!(pending.on_timer(), None);
    for i in 10..20u64 {
        assert!(!pending.on_change(i, 900, 90));
    }
    assert_eq!(pending.on_timer(), None);
}

#[test]
fn a_message_of_the_wrong_shape_is_told_apart() {
    let mut listener = Listener::new();
    assert!(matches!(
        listener.on_message(vec![vec![1]]),
        Message::UnexpectedFrames(1)
    ));
    assert!(matches!(
        listener.on_message(vec![vec![], vec![1, 2], vec![]]),
        Message::InvalidNumber(2)
    ));
}

#[test]
fn blocks_of_another_size_are_not_published_even_where_none_is_asked_for() {
    let mut warnings = 0;
    let blocks = create_stored_blocks(0, &[1, 2], &[2], &[7], 0, &mut warnings);
    assert!(blocks.is_empty());
    assert_eq!(warnings, 1);
    let none = create_stored_blocks(0, &[], &[], &[], 0, &mut warnings);
    assert!(none.is_empty());
    assert_eq!(warnings, 1);
    let raw = |hashes: Vec<u64>, block_size| RawKvEvent::BlockStored {
        block_hashes: hashes.into_iter().map(BlockHashValue::Unsigned).collect(),
        parent_block_hash: None,
        token_ids: vec![1, 2],
        block_size,
        lora_id: None,
        medium: None,
    };
    assert!(has_all_tokens(&raw(vec![7], 2), 0));
    assert!(has_all_tokens(&raw(vec![], 0), 0));
    assert!(!has_all_tokens(&raw(vec![7], 0), 0));
    let event = convert_event(raw(vec![7], 2), 5, 0, 0, &mut warnings);
    assert_eq!(event.event_id, 5);
    assert_eq!(warnings, 2);
}
