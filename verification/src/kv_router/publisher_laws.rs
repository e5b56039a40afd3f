//! What turning raw events into cache events keeps to.
use crate::kv_router::hashing::compute_block_hash_for_seq;
use crate::kv_router::protocols::{
    DpRank, KvCacheEvent, KvCacheEventData, KvCacheStoredBlockData, LocalBlockHash,
};
use crate::kv_router::publisher::{
    be_number, calculate_backoff_ms, convert_event, create_stored_block_from_parts,
    create_stored_blocks, event_field, event_kind, has_all_tokens, publishable, published_count,
    unsigned_hashes, BlockHashValue, ErrorResponse, Listener, Message, PendingMetrics,
    RawEventError, RawEventField, RawEventKind, RawEventParts, RawKvEvent,
};
use vstd::prelude::*;

verus! {

/// An unsigned hash stays as it is; a signed one keeps its value modulo two to the sixty-fourth.
pub proof fn law_unsigned_form_of_a_hash(hash: BlockHashValue, unsigned: u64)
    requires
        call_ensures(BlockHashValue::into_u64, (hash,), unsigned),
    ensures
        hash matches BlockHashValue::Unsigned(value) ==> unsigned == value,
        hash matches BlockHashValue::Signed(value) ==> (unsigned == value || unsigned - value
            == 0x1_0000_0000_0000_0000),
{
}

/// A stored event has a parent exactly where the raw event names one, and the parent is the
/// unsigned form of the one named.
pub proof fn law_stored_events_keep_their_parent(
    raw: RawKvEvent,
    event_id: u64,
    kv_block_size: u32,
    dp_rank: DpRank,
    warning_count: &mut u32,
    event: KvCacheEvent,
)
    requires
        call_ensures(convert_event, (raw, event_id, kv_block_size, dp_rank, warning_count), event),
    ensures
        raw is BlockStored <==> event.data is Stored,
        raw matches RawKvEvent::BlockStored { parent_block_hash, .. } ==> {
            let parent_hash = event.data->Stored_0.parent_hash;
            &&& parent_hash is Some <==> parent_block_hash is Some
            &&& parent_block_hash matches Some(BlockHashValue::Unsigned(value)) ==> parent_hash
                == Some(crate::kv_router::protocols::ExternalSequenceBlockHash(value))
            &&& parent_block_hash matches Some(BlockHashValue::Signed(value)) ==> (
            parent_hash->Some_0.0 == value || parent_hash->Some_0.0 - value
                == 0x1_0000_0000_0000_0000)
        },
{
}

/// A stored event has all blocks of the raw event in its order where they have the published size,
/// and none otherwise. Each block has the unsigned form of its hash, and the hash of its own
/// tokens: those that the tokens of the event give for the block at its place.
pub proof fn law_stored_events_keep_their_blocks(
    raw: RawKvEvent,
    event_id: u64,
    kv_block_size: u32,
    dp_rank: DpRank,
    warning_count: &mut u32,
    event: KvCacheEvent,
    tokens: &[u32],
    token_hashes: Vec<LocalBlockHash>,
    i: int,
)
    requires
        kv_block_size > 0,
        call_requires(convert_event, (raw, event_id, kv_block_size, dp_rank, warning_count)),
        call_ensures(convert_event, (raw, event_id, kv_block_size, dp_rank, warning_count), event),
        crate::kv_router::publisher::has_tokens(raw, kv_block_size as int),
        raw matches RawKvEvent::BlockStored { token_ids, .. } ==> tokens@ == token_ids@,
        call_ensures(compute_block_hash_for_seq, (tokens, kv_block_size), token_hashes),
    ensures
        raw matches RawKvEvent::BlockStored { block_hashes, block_size, .. } ==> {
            let blocks = event.data->Stored_0.blocks@;
            &&& block_size == kv_block_size ==> blocks.len() == block_hashes@.len()
            &&& block_size != kv_block_size ==> blocks.len() == 0
            &&& 0 <= i < blocks.len() ==> {
                &&& block_hashes@[i] matches BlockHashValue::Unsigned(value)
                    ==> blocks[i].block_hash.0 == value
                &&& block_hashes@[i] matches BlockHashValue::Signed(value) ==> (
                blocks[i].block_hash.0 == value || blocks[i].block_hash.0 - value
                    == 0x1_0000_0000_0000_0000)
                &&& i < token_hashes@.len()
                &&& blocks[i].tokens_hash == token_hashes@[i]
            }
        },
{
    if let RawKvEvent::BlockStored { block_hashes, block_size, token_ids, .. } = raw {
        let size = kv_block_size as int;
        let blocks = event.data->Stored_0.blocks@;
        if 0 <= i < blocks.len() {
            assert(unsigned_hashes(block_hashes@)[i] == block_hashes@[i].unsigned());
            let count = block_hashes@.len() as int;
            assert((i + 1) * size <= token_ids@.len()) by (nonlinear_arith)
                requires
                    i + 1 <= count,
                    count * size <= token_ids@.len(),
                    size > 0,
            ;
            vstd::arithmetic::div_mod::lemma_div_is_ordered((i + 1) * size, token_ids@.len() as int, size);
            vstd::arithmetic::div_mod::lemma_div_multiples_vanish(i + 1, size);
            assert((i + 1) * size == size * (i + 1)) by (nonlinear_arith);
        }
    }
}

/// A removed event names the unsigned forms of the blocks that the raw event names, in its order;
/// an event that clears everything stays one.
pub proof fn law_removed_and_cleared_events_keep_what_they_say(
    raw: RawKvEvent,
    event_id: u64,
    kv_block_size: u32,
    dp_rank: DpRank,
    warning_count: &mut u32,
    event: KvCacheEvent,
    i: int,
)
    requires
        call_ensures(convert_event, (raw, event_id, kv_block_size, dp_rank, warning_count), event),
    ensures
        event.event_id == event_id,
        event.dp_rank == dp_rank,
        raw is BlockRemoved <==> event.data is Removed,
        raw is AllBlocksCleared <==> event.data is Cleared,
        raw matches RawKvEvent::BlockRemoved { block_hashes, .. } ==> {
            let hashes = event.data->Removed_0.block_hashes@;
            &&& hashes.len() == block_hashes@.len()
            &&& 0 <= i < hashes.len() ==> {
                &&& block_hashes@[i] matches BlockHashValue::Unsigned(value) ==> hashes[i].0
                    == value
                &&& block_hashes@[i] matches BlockHashValue::Signed(value) ==> (hashes[i].0 == value
                    || hashes[i].0 - value == 0x1_0000_0000_0000_0000)
            }
        },
{
}

/// A warning is counted exactly where a raw event stores blocks of another size than the published
/// one; the count starts over once it cannot grow.
pub proof fn law_blocks_of_another_size_are_counted(
    raw: RawKvEvent,
    event_id: u64,
    kv_block_size: u32,
    dp_rank: DpRank,
    warning_count: &mut u32,
    event: KvCacheEvent,
)
    requires
        call_ensures(convert_event, (raw, event_id, kv_block_size, dp_rank, warning_count), event),
    ensures
        *final(warning_count) != *old(warning_count) <==> (
        raw matches RawKvEvent::BlockStored { block_hashes, block_size, .. } && block_size
            != kv_block_size && block_hashes@.len() > 0),
        *final(warning_count) == *old(warning_count) || *final(warning_count)
            == *old(warning_count) + 1 || (*final(warning_count) == 0 && *old(warning_count)
            == u32::MAX),
{
}

/// What a listener makes of a raw event is what its conversion makes of it, with the number of the
/// batch and the rank of the batch, zero where it has none; errors stay as they were.
pub proof fn law_listener_numbers_its_events(
    listener: &mut Listener,
    raw: RawKvEvent,
    number: u64,
    kv_block_size: u32,
    rank: Option<i32>,
    event: KvCacheEvent,
)
    requires
        call_ensures(Listener::on_raw_event, (listener, raw, number, kv_block_size, rank), event),
    ensures
        event.event_id == number,
        rank is None ==> event.dp_rank == 0,
        rank matches Some(given) ==> event.dp_rank == given || event.dp_rank - given
            == 0x1_0000_0000,
        final(listener).consecutive_errors == old(listener).consecutive_errors,
        raw is BlockStored <==> event.data is Stored,
        raw is BlockRemoved <==> event.data is Removed,
        raw matches RawKvEvent::BlockStored { parent_block_hash, block_hashes, block_size, .. }
            ==> {
            &&& event.data->Stored_0.parent_hash is Some <==> parent_block_hash is Some
            &&& parent_block_hash matches Some(BlockHashValue::Unsigned(value))
                ==> event.data->Stored_0.parent_hash->Some_0.0 == value
            &&& event.data->Stored_0.blocks@.len() == (if block_size == kv_block_size {
                block_hashes@.len()
            } else {
                0
            })
        },
        final(listener).warning_count != old(listener).warning_count <==> (
        raw matches RawKvEvent::BlockStored { block_hashes, block_size, .. } && block_size
            != kv_block_size && block_hashes@.len() > 0),
{
    if let Some(given) = rank {
        assert((given as u32) == given || (given as u32) - given == 0x1_0000_0000)
            by (bit_vector);
    }
}

/// A raw event lacks tokens only where it stores blocks of the published size, and then exactly
/// where it has fewer tokens than those blocks hold.
pub proof fn law_missing_tokens_are_noticed(raw: &RawKvEvent, kv_block_size: u32, complete: bool)
    requires
        kv_block_size > 0,
        call_ensures(has_all_tokens, (raw, kv_block_size), complete),
    ensures
        !complete <==> (*raw matches RawKvEvent::BlockStored {
            block_hashes,
            token_ids,
            block_size,
            ..
        } && block_size == kv_block_size && token_ids@.len() < block_hashes@.len()
            * kv_block_size),
{
}

proof fn lemma_publishable_run(sizes: Seq<u64>, hashes: nat, size: int)
    ensures
        ({
            let count = publishable(sizes, hashes, size);
            &&& count <= sizes.len()
            &&& count <= hashes
            &&& forall|i: int| 0 <= i < count ==> #[trigger] sizes[i] == size
            &&& count < sizes.len() && count < hashes ==> sizes[count as int] != size
        }),
    decreases sizes.len(),
{
    if sizes.len() == 0 || hashes == 0 || sizes[0] != size {
    } else {
        let rest = sizes.skip(1);
        lemma_publishable_run(rest, (hashes - 1) as nat, size);
        let count = publishable(sizes, hashes, size);
        assert forall|i: int| 0 <= i < count implies #[trigger] sizes[i] == size by {
            if i > 0 {
                assert(rest[i - 1] == sizes[i]);
            }
        }
        if count < sizes.len() && count < hashes {
            assert(rest[count - 1] == sizes[count as int]);
        }
    }
}

/// Blocks are stored up to the first whose size is not the published one; a warning is counted
/// where there is such a block. Each block has its own hash and those of its own tokens.
pub proof fn law_stored_blocks_end_at_another_size(
    kv_block_size: u32,
    tokens: &[u32],
    sizes: &[u64],
    hashes: &[u64],
    lora_id: u64,
    warning_count: &mut u32,
    blocks: Vec<KvCacheStoredBlockData>,
    token_hashes: Vec<LocalBlockHash>,
)
    requires
        kv_block_size > 0,
        publishable(sizes@, hashes@.len(), kv_block_size as int) * kv_block_size <= tokens@.len(),
        call_ensures(
            create_stored_blocks,
            (kv_block_size, tokens, sizes, hashes, lora_id, warning_count),
            blocks,
        ),
        call_ensures(compute_block_hash_for_seq, (tokens, kv_block_size), token_hashes),
    ensures
        blocks@.len() <= sizes@.len(),
        blocks@.len() <= hashes@.len(),
        blocks@.len() <= token_hashes@.len(),
        forall|i: int|
            0 <= i < blocks@.len() ==> {
                &&& sizes@[i] == kv_block_size
                &&& (#[trigger] blocks@[i]).block_hash.0 == hashes@[i]
                &&& blocks@[i].tokens_hash == token_hashes@[i]
            },
        blocks@.len() < sizes@.len() && blocks@.len() < hashes@.len() ==> sizes@[blocks@.len() as int]
            != kv_block_size,
        *final(warning_count) != *old(warning_count) <==> blocks@.len() < sizes@.len()
            && blocks@.len() < hashes@.len(),
{
    let size = kv_block_size as int;
    lemma_publishable_run(sizes@, hashes@.len(), size);
    let count = publishable(sizes@, hashes@.len(), size) as int;
    vstd::arithmetic::div_mod::lemma_div_is_ordered(count * size, tokens@.len() as int, size);
    vstd::arithmetic::div_mod::lemma_div_multiples_vanish(count, size);
    assert(count * size == size * count) by (nonlinear_arith);
}

/// A single block has the hash given, and the hash of its first tokens, as many as a block holds.
pub proof fn law_stored_block_has_the_hash_of_its_tokens(
    kv_block_size: u32,
    hash: u64,
    tokens: &[u32],
    lora_id: u64,
    block: KvCacheStoredBlockData,
    token_hashes: Vec<LocalBlockHash>,
)
    requires
        0 < kv_block_size <= tokens@.len(),
        call_ensures(create_stored_block_from_parts, (kv_block_size, hash, tokens, lora_id), block),
        call_ensures(compute_block_hash_for_seq, (tokens, kv_block_size), token_hashes),
    ensures
        block.block_hash.0 == hash,
        token_hashes@.len() > 0,
        block.tokens_hash == token_hashes@[0],
{
    let size = kv_block_size as int;
    vstd::arithmetic::div_mod::lemma_div_non_zero(tokens@.len() as int, size);
    assert(crate::kv_router::hashing::block_tokens(tokens@, size, 0) =~= tokens@.take(size));
}

proof fn lemma_be_number_appends(bytes: Seq<u8>, byte: u8)
    ensures
        be_number(bytes.push(byte)) == be_number(bytes) * 256 + byte,
{
    assert(bytes.push(byte).drop_last() =~= bytes);
}

/// A message of topic, number and payload becomes a batch with that payload; its number is made of
/// the eight bytes of the number, the most significant first. Any other message is refused with
/// what is wrong about its size. Either way the run of errors is over.
pub proof fn law_messages_carry_number_and_payload(
    listener: &mut Listener,
    frames: Vec<Vec<u8>>,
    message: Message,
)
    requires
        call_ensures(Listener::on_message, (listener, frames), message),
    ensures
        final(listener).consecutive_errors == 0,
        final(listener).warning_count == old(listener).warning_count,
        message matches Message::UnexpectedFrames(count) ==> frames@.len() != 3 && count
            == frames@.len() as usize,
        message matches Message::InvalidNumber(length) ==> frames@.len() == 3 && frames@[1]@.len()
            != 8 && length == frames@[1]@.len() as usize,
        message matches Message::Batch { number, payload } ==> {
            let bytes = frames@[1]@;
            &&& frames@.len() == 3
            &&& bytes.len() == 8
            &&& payload == frames@[2]
            &&& number == bytes[0] * 0x100_0000_0000_0000 + bytes[1] * 0x1_0000_0000_0000 + bytes[2]
                * 0x100_0000_0000 + bytes[3] * 0x1_0000_0000 + bytes[4] * 0x100_0000 + bytes[5]
                * 0x1_0000 + bytes[6] * 0x100 + bytes[7]
        },
{
    if message is Batch {
        let bytes = frames@[1]@;
        let none = Seq::<u8>::empty();
        let b = bytes;
        assert(be_number(none) == 0);
        let s1 = none.push(b[0]);
        let s2 = s1.push(b[1]);
        let s3 = s2.push(b[2]);
        let s4 = s3.push(b[3]);
        let s5 = s4.push(b[4]);
        let s6 = s5.push(b[5]);
        let s7 = s6.push(b[6]);
        lemma_be_number_appends(none, b[0]);
        lemma_be_number_appends(s1, b[1]);
        lemma_be_number_appends(s2, b[2]);
        lemma_be_number_appends(s3, b[3]);
        lemma_be_number_appends(s4, b[4]);
        lemma_be_number_appends(s5, b[5]);
        lemma_be_number_appends(s6, b[6]);
        lemma_be_number_appends(s7, b[7]);
        assert(s7.push(b[7]) =~= bytes);
    }
}

/// Each error is counted. The tenth in a row ends the listening, and after any before it the
/// listener waits for as long as so many errors ask for.
pub proof fn law_errors_in_a_row_end_the_listening(
    listener: &mut Listener,
    response: ErrorResponse,
    wait: u64,
)
    requires
        old(listener).consecutive_errors < 10,
        call_ensures(Listener::on_error, (listener,), response),
        call_ensures(
            calculate_backoff_ms,
            ((old(listener).consecutive_errors + 1) as u32,),
            wait,
        ),
    ensures
        final(listener).consecutive_errors == old(listener).consecutive_errors + 1,
        final(listener).warning_count == old(listener).warning_count,
        response is Exit <==> final(listener).consecutive_errors == 10,
        response matches ErrorResponse::Wait(time) ==> time == wait,
{
}

/// The wait is ten milliseconds before any error, doubles with each, and is never more than five
/// seconds; after the eighth error it stays the same.
pub proof fn law_waits_double(errors: u32, wait: u64, more: u32, longer: u64)
    requires
        call_ensures(calculate_backoff_ms, (errors,), wait),
        call_ensures(calculate_backoff_ms, (more,), longer),
        more == errors + 1,
    ensures
        errors == 0 ==> wait == 10,
        errors < 8 ==> longer == 2 * wait,
        errors >= 8 ==> longer == wait == 2560,
        wait <= 5000,
{
    vstd::arithmetic::power2::lemma2_to64();
    if errors < 8 {
        vstd::arithmetic::power2::lemma_pow2_unfold((errors + 1) as nat);
        if more < 8 {
            vstd::arithmetic::power2::lemma_pow2_strictly_increases(more as nat, 8);
        }
    }
}

/// A tag names the kind that it spells, and nothing else names a kind.
pub proof fn law_tags_name_their_kind(tag: &str, kind: Option<RawEventKind>)
    requires
        call_ensures(event_kind, (tag,), kind),
    ensures
        kind == Some(RawEventKind::BlockStored) <==> tag@ == "BlockStored"@,
        kind == Some(RawEventKind::BlockRemoved) <==> tag@ == "BlockRemoved"@,
        kind == Some(RawEventKind::AllBlocksCleared) <==> tag@ == "AllBlocksCleared"@,
{
    reveal_strlit("BlockStored");
    reveal_strlit("BlockRemoved");
    reveal_strlit("AllBlocksCleared");
    assert("BlockStored"@.len() != "BlockRemoved"@.len());
    assert("BlockStored"@.len() != "AllBlocksCleared"@.len());
    assert("BlockRemoved"@.len() != "AllBlocksCleared"@.len());
}

/// What an event written as a map says is what its parts say, each in its place; parts that may be
/// left out are none then.
pub proof fn law_events_from_maps_keep_their_parts(
    parts: RawEventParts,
    event: Result<RawKvEvent, RawEventError>,
)
    requires
        call_ensures(RawEventParts::from_map, (parts,), event),
    ensures
        event matches Ok(event) ==> keeps_parts(parts, event),
        event is Ok <==> is_complete(parts),
        event matches Err(RawEventError::UnknownVariant(tag)) ==> parts.event_type is Some && tag@
            == parts.event_type->Some_0@,
        event matches Err(error) ==> !(error is InvalidLength),
{
    lemma_kinds_differ();
}

/// What an event written as a sequence says is what its parts say, just as if it were written as a
/// map.
pub proof fn law_events_from_sequences_keep_their_parts(
    parts: RawEventParts,
    event: Result<RawKvEvent, RawEventError>,
)
    requires
        call_ensures(RawEventParts::from_seq, (parts,), event),
    ensures
        event matches Ok(event) ==> keeps_parts(parts, event),
        event is Ok <==> is_complete(parts),
        event matches Err(RawEventError::UnknownVariant(tag)) ==> parts.event_type is Some && tag@
            == parts.event_type->Some_0@,
        event matches Err(error) ==> !(error is MissingField),
        event matches Err(RawEventError::InvalidLength { position, .. }) ==> {
            &&& position == 0 <==> parts.event_type is None
            &&& position == 1 ==> parts.block_hashes is None
            &&& position == 3 ==> parts.block_hashes is Some && parts.token_ids is None
            &&& position == 4 ==> parts.token_ids is Some && parts.block_size is None
            &&& position == 0 || position == 1 || position == 3 || position == 4
        },
{
    lemma_kinds_differ();
}

proof fn lemma_kinds_differ()
    ensures
        "BlockStored"@ != "BlockRemoved"@,
        "BlockStored"@ != "AllBlocksCleared"@,
        "BlockRemoved"@ != "AllBlocksCleared"@,
{
    reveal_strlit("BlockStored");
    reveal_strlit("BlockRemoved");
    reveal_strlit("AllBlocksCleared");
    assert("BlockStored"@.len() != "BlockRemoved"@.len());
    assert("BlockStored"@.len() != "AllBlocksCleared"@.len());
    assert("BlockRemoved"@.len() != "AllBlocksCleared"@.len());
}

/// Whether parts make up an event: there is a tag that names a kind, and what that kind needs.
pub open spec fn is_complete(parts: RawEventParts) -> bool {
    parts.event_type matches Some(tag) && {
        ||| tag@ == "AllBlocksCleared"@
        ||| tag@ == "BlockRemoved"@ && parts.block_hashes is Some
        ||| tag@ == "BlockStored"@ && parts.block_hashes is Some && parts.token_ids is Some
            && parts.block_size is Some
    }
}

/// Whether an event says what the parts say.
pub open spec fn keeps_parts(parts: RawEventParts, event: RawKvEvent) -> bool {
    &&& parts.event_type is Some
    &&& match event {
        RawKvEvent::BlockStored {
            block_hashes,
            parent_block_hash,
            token_ids,
            block_size,
            lora_id,
            medium,
        } => {
            &&& parts.event_type->Some_0@ == "BlockStored"@
            &&& parts.block_hashes == Some(block_hashes)
            &&& parts.token_ids == Some(token_ids)
            &&& parts.block_size == Some(block_size)
            &&& parent_block_hash is Some ==> parts.parent_block_hash == Some(parent_block_hash)
            &&& parent_block_hash is None ==> (parts.parent_block_hash is None
                || parts.parent_block_hash->Some_0 is None)
            &&& lora_id is Some ==> parts.lora_id == Some(lora_id)
            &&& lora_id is None ==> (parts.lora_id is None || parts.lora_id->Some_0 is None)
            &&& medium is Some ==> parts.medium == Some(medium)
            &&& medium is None ==> (parts.medium is None || parts.medium->Some_0 is None)
        },
        RawKvEvent::BlockRemoved { block_hashes, medium } => {
            &&& parts.event_type->Some_0@ == "BlockRemoved"@
            &&& parts.block_hashes == Some(block_hashes)
            &&& medium is Some ==> parts.medium == Some(medium)
            &&& medium is None ==> (parts.medium is None || parts.medium->Some_0 is None)
        },
        RawKvEvent::AllBlocksCleared => parts.event_type->Some_0@ == "AllBlocksCleared"@,
    }
}

/// What a listener makes of a raw event is just what its conversion makes of it.
pub proof fn law_listener_converts_its_events(
    listener: &mut Listener,
    raw: RawKvEvent,
    number: u64,
    kv_block_size: u32,
    rank: Option<i32>,
    event: KvCacheEvent,
    warning_count: &mut u32,
    converted: KvCacheEvent,
)
    requires
        *old(warning_count) == old(listener).warning_count,
        call_ensures(Listener::on_raw_event, (listener, raw, number, kv_block_size, rank), event),
        call_ensures(
            convert_event,
            (raw, number, kv_block_size, event.dp_rank, warning_count),
            converted,
        ),
    ensures
        final(listener).warning_count == *final(warning_count),
        event.event_id == converted.event_id,
        match (event.data, converted.data) {
            (KvCacheEventData::Stored(first), KvCacheEventData::Stored(second)) => first.parent_hash
                == second.parent_hash && first.blocks@ == second.blocks@,
            (KvCacheEventData::Removed(first), KvCacheEventData::Removed(second)) =>
                first.block_hashes@ == second.block_hashes@,
            (KvCacheEventData::Cleared, KvCacheEventData::Cleared) => true,
            _ => false,
        },
{
}

/// A field is known by its own key; all other keys are passed over.
pub proof fn law_fields_are_known_by_their_keys(key: &str, field: RawEventField)
    requires
        call_ensures(event_field, (key,), field),
    ensures
        field is Type <==> key@ == "type"@,
        field is BlockHashes <==> key@ == "block_hashes"@,
        field is ParentBlockHash <==> key@ == "parent_block_hash"@,
        field is TokenIds <==> key@ == "token_ids"@,
        field is BlockSize <==> key@ == "block_size"@,
        field is LoraId <==> key@ == "lora_id"@,
        field is Medium <==> key@ == "medium"@,
{
    reveal_strlit("type");
    reveal_strlit("block_hashes");
    reveal_strlit("parent_block_hash");
    reveal_strlit("token_ids");
    reveal_strlit("block_size");
    reveal_strlit("lora_id");
    reveal_strlit("medium");
    assert("type"@[0] == 't' && "type"@[1] == 'y' && "token_ids"@[0] == 't' && "token_ids"@[1]
        == 'o');
    assert("block_hashes"@[6] == 'h' && "block_size"@[6] == 's' && "block_hashes"@[0] == 'b'
        && "block_size"@[0] == 'b');
    assert("parent_block_hash"@[0] == 'p' && "lora_id"@[0] == 'l' && "medium"@[0] == 'm');
}

/// Metrics wait to be published exactly where the load is not the one seen last. The timer starts
/// anew then, and hands out what waits, once.
pub proof fn law_changed_metrics_are_published_once<M>(
    state: &mut PendingMetrics<M>,
    metrics: M,
    active_blocks: u64,
    requests_waiting: u64,
    restart: bool,
    later: &mut PendingMetrics<M>,
    published: Option<M>,
)
    requires
        call_ensures(
            PendingMetrics::<M>::on_change,
            (state, metrics, active_blocks, requests_waiting),
            restart,
        ),
        call_ensures(PendingMetrics::<M>::on_timer, (later,), published),
    ensures
        old(state).last_load() matches Some((blocks, requests)) ==> (restart <==> blocks
            != active_blocks || requests != requests_waiting),
        old(state).last_load() is None ==> restart,
        final(state).last_load() == Some((active_blocks, requests_waiting)),
        restart ==> final(state).pending() == Some(metrics),
        !restart ==> final(state).pending() == old(state).pending(),
        published == old(later).pending(),
        final(later).pending() is None,
        final(later).last_load() == old(later).last_load(),
{
}

} // verus!
