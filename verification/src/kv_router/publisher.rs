//! Turning what an engine reports about its KV cache into cache events.
use crate::kv_router::hashing::{block_tokens, compute_block_hash_for_seq, tokens_hash};
use crate::kv_router::protocols::{
    DpRank, ExternalSequenceBlockHash, KvCacheEvent, KvCacheEventData, KvCacheRemoveData,
    KvCacheStoreData, KvCacheStoredBlockData,
};
use crate::text::same_text;
use vstd::arithmetic::power2::pow2;
use vstd::prelude::*;

verus! {

/// Where cache events come from.
#[derive(Clone, Debug, PartialEq, Eq)]
pub enum KvEventSourceConfig {
    Zmq { endpoint: String, topic: String },
}

/// The wait after the first error, in milliseconds.
pub const INITIAL_BACKOFF_MS: u64 = 10;

/// The longest wait after an error, in milliseconds.
pub const MAX_BACKOFF_MS: u64 = 5000;

/// The number of errors in a row at which the listener gives up.
pub const MAX_CONSECUTIVE_ERRORS: u32 = 10;

/// The number of times that the wait is doubled at most.
pub const MAX_BACKOFF_EXPONENT: u32 = 8;

/// The wait after a number of errors in a row.
pub open spec fn backoff_ms(consecutive_errors: nat) -> nat {
    let exponent = if consecutive_errors < MAX_BACKOFF_EXPONENT {
        consecutive_errors
    } else {
        MAX_BACKOFF_EXPONENT as nat
    };
    let wait = INITIAL_BACKOFF_MS as nat * pow2(exponent);
    if wait < MAX_BACKOFF_MS {
        wait
    } else {
        MAX_BACKOFF_MS as nat
    }
}

/// How long to wait after a number of errors in a row.
pub fn calculate_backoff_ms(consecutive_errors: u32) -> (wait: u64)
    ensures
        wait == backoff_ms(consecutive_errors as nat),
{
    let exponent: u32 = if consecutive_errors < MAX_BACKOFF_EXPONENT {
        consecutive_errors
    } else {
        MAX_BACKOFF_EXPONENT
    };
    let mut factor: u64 = 1;
    let mut doubled: u32 = 0;
    proof {
        vstd::arithmetic::power2::lemma2_to64();
    }
    while doubled < exponent
        invariant
            doubled <= exponent <= 8,
            factor == pow2(doubled as nat),
            factor <= 256,
        decreases exponent - doubled,
    {
        proof {
            vstd::arithmetic::power2::lemma2_to64();
            vstd::arithmetic::power2::lemma_pow2_unfold((doubled + 1) as nat);
        }
        factor = factor * 2;
        doubled += 1;
        proof {
            if doubled < 8 {
                vstd::arithmetic::power2::lemma_pow2_strictly_increases(doubled as nat, 8);
            }
        }
    }
    let wait: u64 = INITIAL_BACKOFF_MS * factor;
    if wait < MAX_BACKOFF_MS {
        wait
    } else {
        MAX_BACKOFF_MS
    }
}

/// Waits never shrink as errors go on, and stay between the shortest and the longest wait.
pub proof fn law_backoff_grows_to_its_limit(errors: nat, more: nat)
    requires
        errors <= more,
    ensures
        INITIAL_BACKOFF_MS <= backoff_ms(errors) <= backoff_ms(more) <= MAX_BACKOFF_MS,
{
    let first = if errors < 8 {
        errors
    } else {
        8
    };
    let second = if more < 8 {
        more
    } else {
        8
    };
    vstd::arithmetic::power2::lemma2_to64();
    if first < second {
        vstd::arithmetic::power2::lemma_pow2_strictly_increases(first, second);
    }
    if 0 < first {
        vstd::arithmetic::power2::lemma_pow2_strictly_increases(0, first);
    }
}

/// A block hash as an engine writes it.
#[derive(Clone, Copy, Debug, PartialEq, Eq, Structural)]
pub enum BlockHashValue {
    Signed(i64),
    Unsigned(u64),
}

impl BlockHashValue {
    /// The hash as an unsigned number; a negative one stands for its two's complement.
    pub open spec fn unsigned(self) -> u64 {
        match self {
            BlockHashValue::Signed(value) => if value < 0 {
                (value + 0x1_0000_0000_0000_0000) as u64
            } else {
                value as u64
            },
            BlockHashValue::Unsigned(value) => value,
        }
    }

    pub fn into_u64(self) -> (hash: u64)
        ensures
            hash == self.unsigned(),
    {
        match self {
            BlockHashValue::Signed(value) => {
                assert(value < 0 ==> (value as u64) == value + 0x1_0000_0000_0000_0000)
                    by (bit_vector);
                value as u64
            },
            BlockHashValue::Unsigned(value) => value,
        }
    }
}

/// A cache event as an engine writes it.
#[derive(Clone, Debug)]
pub enum RawKvEvent {
    BlockStored {
        block_hashes: Vec<BlockHashValue>,
        parent_block_hash: Option<BlockHashValue>,
        token_ids: Vec<u32>,
        block_size: usize,
        lora_id: Option<u64>,
        medium: Option<String>,
    },
    BlockRemoved { block_hashes: Vec<BlockHashValue>, medium: Option<String> },
    AllBlocksCleared,
}

/// How many of the first blocks have the size that is published.
pub open spec fn publishable(sizes: Seq<u64>, hashes: nat, size: int) -> nat
    decreases sizes.len(),
{
    if sizes.len() == 0 || hashes == 0 || sizes[0] != size {
        0
    } else {
        1 + publishable(sizes.skip(1), (hashes - 1) as nat, size)
    }
}

/// The stored form of a block with the given tokens.
pub open spec fn stored_block(block_hash: u64, tokens: Seq<u32>) -> KvCacheStoredBlockData {
    KvCacheStoredBlockData {
        block_hash: ExternalSequenceBlockHash(block_hash),
        tokens_hash: tokens_hash(tokens),
    }
}

/// The stored form of the first `count` blocks of a sequence.
pub open spec fn stored_blocks(
    block_hashes: Seq<u64>,
    token_ids: Seq<u32>,
    size: int,
    count: nat,
) -> Seq<KvCacheStoredBlockData> {
    Seq::new(count, |i: int| stored_block(block_hashes[i], block_tokens(token_ids, size, i)))
}

/// The stored form of a block whose tokens are the first ones given.
pub fn create_stored_block_from_parts(
    kv_block_size: u32,
    block_hash: u64,
    token_ids: &[u32],
    _lora_id: u64,
) -> (block: KvCacheStoredBlockData)
    requires
        0 < kv_block_size <= token_ids@.len(),
    ensures
        block == stored_block(block_hash, token_ids@.take(kv_block_size as int)),
{
    let hashes = compute_block_hash_for_seq(token_ids, kv_block_size);
    proof {
        let len = token_ids@.len() as int;
        let size = kv_block_size as int;
        vstd::arithmetic::div_mod::lemma_div_non_zero(len, size);
        assert(block_tokens(token_ids@, size, 0) =~= token_ids@.take(size));
    }
    KvCacheStoredBlockData {
        block_hash: ExternalSequenceBlockHash::from(block_hash),
        tokens_hash: hashes[0],
    }
}

proof fn lemma_publishable(sizes: Seq<u64>, hashes: nat, size: int, done: nat)
    requires
        done <= sizes.len(),
        done <= hashes,
        forall|i: int| 0 <= i < done ==> #[trigger] sizes[i] == size,
    ensures
        publishable(sizes, hashes, size) == done + publishable(
            sizes.skip(done as int),
            (hashes - done) as nat,
            size,
        ),
    decreases done,
{
    if done > 0 {
        let rest = sizes.skip(1);
        assert forall|i: int| 0 <= i < done - 1 implies #[trigger] rest[i] == size by {
            assert(rest[i] == sizes[i + 1]);
        }
        assert(sizes[0] == size);
        lemma_publishable(rest, (hashes - 1) as nat, size, (done - 1) as nat);
        assert(rest.skip(done - 1) =~= sizes.skip(done as int));
    } else {
        assert(sizes.skip(0) =~= sizes);
    }
}

/// The stored form of a run of blocks, up to the first one whose size is not the published one.
/// Such a block is left out together with those after it, and counted.
pub fn create_stored_blocks(
    kv_block_size: u32,
    token_ids: &[u32],
    num_block_tokens: &[u64],
    block_hashes: &[u64],
    lora_id: u64,
    warning_count: &mut u32,
) -> (blocks: Vec<KvCacheStoredBlockData>)
    requires
        publishable(num_block_tokens@, block_hashes@.len(), kv_block_size as int) > 0
            ==> kv_block_size > 0,
        publishable(num_block_tokens@, block_hashes@.len(), kv_block_size as int) * kv_block_size
            <= token_ids@.len(),
    ensures
        ({
            let count = publishable(num_block_tokens@, block_hashes@.len(), kv_block_size as int);
            &&& blocks@ == stored_blocks(
                block_hashes@,
                token_ids@,
                kv_block_size as int,
                count,
            )
            &&& *final(warning_count) == if count < num_block_tokens@.len() && count
                < block_hashes@.len() {
                if *old(warning_count) == u32::MAX {
                    0
                } else {
                    (*old(warning_count) + 1) as u32
                }
            } else {
                *old(warning_count)
            }
        }),
{
    let ghost size = kv_block_size as int;
    let ghost count = publishable(num_block_tokens@, block_hashes@.len(), size);
    let mut blocks: Vec<KvCacheStoredBlockData> = Vec::new();
    let total: usize = token_ids.len();
    let mut index: usize = 0;
    let mut offset: usize = 0;
    while index < num_block_tokens.len() && index < block_hashes.len()
        invariant
            size == kv_block_size,
            count > 0 ==> kv_block_size > 0,
            total == token_ids@.len(),
            index <= num_block_tokens@.len(),
            index <= block_hashes@.len(),
            count == publishable(num_block_tokens@, block_hashes@.len(), size),
            count * kv_block_size <= token_ids@.len(),
            forall|i: int| 0 <= i < index ==> #[trigger] num_block_tokens@[i] == size,
            offset == index * kv_block_size,
            index <= count,
            *warning_count == *old(warning_count),
            blocks@ =~= stored_blocks(block_hashes@, token_ids@, size, index as nat),
        decreases num_block_tokens@.len() - index,
    {
        proof {
            lemma_publishable(num_block_tokens@, block_hashes@.len(), size, index as nat);
            assert(num_block_tokens@.skip(index as int)[0] == num_block_tokens@[index as int]);
        }
        if num_block_tokens[index] != kv_block_size as u64 {
            *warning_count = warning_count.wrapping_add(1);
            return blocks;
        }
        proof {
            assert(index + 1 <= count);
            assert((index + 1) * kv_block_size <= count * kv_block_size) by (nonlinear_arith)
                requires
                    index + 1 <= count,
            ;
            assert((index + 1) * kv_block_size == index * kv_block_size + kv_block_size)
                by (nonlinear_arith);
        }
        let end: usize = offset + kv_block_size as usize;
        let tokens = vstd::slice::slice_subrange(token_ids, offset, end);
        proof {
            assert(tokens@.take(size) =~= block_tokens(token_ids@, size, index as int));
        }
        blocks.push(
            create_stored_block_from_parts(kv_block_size, block_hashes[index], tokens, lora_id),
        );
        offset = end;
        index += 1;
    }
    proof {
        lemma_publishable(num_block_tokens@, block_hashes@.len(), size, index as nat);
    }
    blocks
}

/// The unsigned forms of some block hashes.
pub open spec fn unsigned_hashes(hashes: Seq<BlockHashValue>) -> Seq<u64> {
    hashes.map_values(|hash: BlockHashValue| hash.unsigned())
}

fn to_unsigned(hashes: &Vec<BlockHashValue>) -> (unsigned: Vec<u64>)
    ensures
        unsigned@ == unsigned_hashes(hashes@),
{
    let mut unsigned: Vec<u64> = Vec::new();
    let mut index: usize = 0;
    while index < hashes.len()
        invariant
            index <= hashes@.len(),
            unsigned@ =~= unsigned_hashes(hashes@).take(index as int),
        decreases hashes@.len() - index,
    {
        unsigned.push(hashes[index].into_u64());
        index += 1;
    }
    assert(unsigned@ =~= unsigned_hashes(hashes@));
    unsigned
}

/// How many blocks of a stored event are published: all of them, or none where they have
/// another size.
pub open spec fn published_count(hashes: nat, block_size: int, size: int) -> nat {
    if block_size == size {
        hashes
    } else {
        0
    }
}

/// Whether a raw event has the tokens of all blocks that it publishes. Blocks without tokens are
/// not published.
pub open spec fn has_tokens(raw: RawKvEvent, size: int) -> bool {
    raw matches RawKvEvent::BlockStored { block_hashes, token_ids, block_size, .. } ==> {
        let count = published_count(block_hashes@.len(), block_size as int, size);
        &&& count > 0 ==> size > 0
        &&& count * size <= token_ids@.len()
    }
}

/// Tells whether a raw event has the tokens of all blocks that it publishes.
pub fn has_all_tokens(raw: &RawKvEvent, kv_block_size: u32) -> (complete: bool)
    ensures
        complete == has_tokens(*raw, kv_block_size as int),
{
    match raw {
        RawKvEvent::BlockStored { block_hashes, token_ids, block_size, .. } => {
            if *block_size as u64 != kv_block_size as u64 {
                return true;
            }
            if kv_block_size == 0 {
                return block_hashes.len() == 0;
            }
            let count: u64 = block_hashes.len() as u64;
            assert(count as u128 * kv_block_size as u128 <= u128::MAX) by (nonlinear_arith)
                requires
                    count <= u64::MAX,
                    kv_block_size <= u32::MAX,
            ;
            count as u128 * kv_block_size as u128 <= token_ids.len() as u128
        },
        _ => true,
    }
}

/// Whether `data` is what a raw event reports.
pub open spec fn converted(raw: RawKvEvent, size: int, data: KvCacheEventData) -> bool {
    match raw {
        RawKvEvent::BlockStored { block_hashes, parent_block_hash, token_ids, block_size, .. } => {
            &&& data matches KvCacheEventData::Stored(store)
            &&& store.parent_hash == (match parent_block_hash {
                Some(hash) => Some(ExternalSequenceBlockHash(hash.unsigned())),
                None => None,
            })
            &&& store.blocks@ == stored_blocks(
                unsigned_hashes(block_hashes@),
                token_ids@,
                size,
                published_count(block_hashes@.len(), block_size as int, size),
            )
        },
        RawKvEvent::BlockRemoved { block_hashes, .. } => {
            &&& data matches KvCacheEventData::Removed(remove)
            &&& remove.block_hashes@ == block_hashes@.map_values(
                |hash: BlockHashValue| ExternalSequenceBlockHash(hash.unsigned()),
            )
        },
        RawKvEvent::AllBlocksCleared => data is Cleared,
    }
}

/// Whether a raw event reports blocks of a size that is not published.
pub open spec fn is_oversized(raw: RawKvEvent, size: int) -> bool {
    raw matches RawKvEvent::BlockStored { block_hashes, block_size, .. } && block_hashes@.len() > 0
        && block_size != size
}

proof fn lemma_equal_sizes(sizes: Seq<u64>, block_size: u64, size: int)
    requires
        forall|i: int| 0 <= i < sizes.len() ==> #[trigger] sizes[i] == block_size,
    ensures
        publishable(sizes, sizes.len(), size) == published_count(
            sizes.len(),
            block_size as int,
            size,
        ),
    decreases sizes.len(),
{
    if sizes.len() > 0 {
        let rest = sizes.skip(1);
        assert forall|i: int| 0 <= i < rest.len() implies #[trigger] rest[i] == block_size by {
            assert(rest[i] == sizes[i + 1]);
        }
        lemma_equal_sizes(rest, block_size, size);
        assert(sizes[0] == block_size);
    }
}

/// Turns a raw event into a cache event.
pub fn convert_event(
    raw: RawKvEvent,
    event_id: u64,
    kv_block_size: u32,
    dp_rank: DpRank,
    warning_count: &mut u32,
) -> (event: KvCacheEvent)
    requires
        has_tokens(raw, kv_block_size as int),
    ensures
        event.event_id == event_id,
        event.dp_rank == dp_rank,
        converted(raw, kv_block_size as int, event.data),
        *final(warning_count) == if is_oversized(raw, kv_block_size as int) {
            if *old(warning_count) == u32::MAX {
                0
            } else {
                (*old(warning_count) + 1) as u32
            }
        } else {
            *old(warning_count)
        },
{
    match raw {
        RawKvEvent::BlockStored {
            block_hashes,
            parent_block_hash,
            token_ids,
            block_size,
            lora_id,
            medium: _,
        } => {
            let unsigned = to_unsigned(&block_hashes);
            let mut sizes: Vec<u64> = Vec::new();
            while sizes.len() < block_hashes.len()
                invariant
                    sizes@.len() <= block_hashes@.len(),
                    forall|i: int| 0 <= i < sizes@.len() ==> #[trigger] sizes@[i] == block_size,
                decreases block_hashes@.len() - sizes@.len(),
            {
                sizes.push(block_size as u64);
            }
            proof {
                lemma_equal_sizes(sizes@, block_size as u64, kv_block_size as int);
            }
            let parent_hash = match parent_block_hash {
                Some(hash) => Some(ExternalSequenceBlockHash::from(hash.into_u64())),
                None => None,
            };
            let lora: u64 = match lora_id {
                Some(lora) => lora,
                None => 0,
            };
            let blocks = create_stored_blocks(
                kv_block_size,
                token_ids.as_slice(),
                sizes.as_slice(),
                unsigned.as_slice(),
                lora,
                warning_count,
            );
            KvCacheEvent {
                event_id,
                data: KvCacheEventData::Stored(KvCacheStoreData { parent_hash, blocks }),
                dp_rank,
            }
        },
        RawKvEvent::BlockRemoved { block_hashes, medium: _ } => {
            let mut hashes: Vec<ExternalSequenceBlockHash> = Vec::new();
            let ghost wanted = block_hashes@.map_values(
                |hash: BlockHashValue| ExternalSequenceBlockHash(hash.unsigned()),
            );
            let mut index: usize = 0;
            while index < block_hashes.len()
                invariant
                    index <= block_hashes@.len(),
                    wanted == block_hashes@.map_values(
                        |hash: BlockHashValue| ExternalSequenceBlockHash(hash.unsigned()),
                    ),
                    hashes@ =~= wanted.take(index as int),
                decreases block_hashes@.len() - index,
            {
                hashes.push(ExternalSequenceBlockHash::from(block_hashes[index].into_u64()));
                index += 1;
            }
            assert(hashes@ =~= wanted);
            KvCacheEvent {
                event_id,
                data: KvCacheEventData::Removed(KvCacheRemoveData { block_hashes: hashes }),
                dp_rank,
            }
        },
        RawKvEvent::AllBlocksCleared => KvCacheEvent {
            event_id,
            data: KvCacheEventData::Cleared,
            dp_rank,
        },
    }
}

/// Why a raw event could not be read.
#[derive(Clone, Debug, PartialEq, Eq)]
pub enum RawEventError {
    MissingField(&'static str),
    UnknownVariant(String),
    /// The element at this position is missing.
    InvalidLength { position: usize, expected: &'static str },
}

/// The kinds of raw events.
#[derive(Clone, Copy, Debug, PartialEq, Eq, Structural)]
pub enum RawEventKind {
    BlockStored,
    BlockRemoved,
    AllBlocksCleared,
}

/// The kind that a tag names.
pub open spec fn kind_of(tag: Seq<char>) -> Option<RawEventKind> {
    if tag == "BlockStored"@ {
        Some(RawEventKind::BlockStored)
    } else if tag == "BlockRemoved"@ {
        Some(RawEventKind::BlockRemoved)
    } else if tag == "AllBlocksCleared"@ {
        Some(RawEventKind::AllBlocksCleared)
    } else {
        None
    }
}

/// Tells which kind of event a tag names.
pub fn event_kind(tag: &str) -> (kind: Option<RawEventKind>)
    ensures
        kind == kind_of(tag@),
{
    if same_text(tag, "BlockStored") {
        Some(RawEventKind::BlockStored)
    } else if same_text(tag, "BlockRemoved") {
        Some(RawEventKind::BlockRemoved)
    } else if same_text(tag, "AllBlocksCleared") {
        Some(RawEventKind::AllBlocksCleared)
    } else {
        None
    }
}

/// The fields of a raw event that is written as a map.
#[derive(Clone, Copy, Debug, PartialEq, Eq, Structural)]
pub enum RawEventField {
    Type,
    BlockHashes,
    ParentBlockHash,
    TokenIds,
    BlockSize,
    LoraId,
    Medium,
    Ignored,
}

/// Tells which field a key names; unknown keys are passed over.
pub fn event_field(key: &str) -> (field: RawEventField)
    ensures
        field == (if key@ == "type"@ {
            RawEventField::Type
        } else if key@ == "block_hashes"@ {
            RawEventField::BlockHashes
        } else if key@ == "parent_block_hash"@ {
            RawEventField::ParentBlockHash
        } else if key@ == "token_ids"@ {
            RawEventField::TokenIds
        } else if key@ == "block_size"@ {
            RawEventField::BlockSize
        } else if key@ == "lora_id"@ {
            RawEventField::LoraId
        } else if key@ == "medium"@ {
            RawEventField::Medium
        } else {
            RawEventField::Ignored
        }),
{
    if same_text(key, "type") {
        RawEventField::Type
    } else if same_text(key, "block_hashes") {
        RawEventField::BlockHashes
    } else if same_text(key, "parent_block_hash") {
        RawEventField::ParentBlockHash
    } else if same_text(key, "token_ids") {
        RawEventField::TokenIds
    } else if same_text(key, "block_size") {
        RawEventField::BlockSize
    } else if same_text(key, "lora_id") {
        RawEventField::LoraId
    } else if same_text(key, "medium") {
        RawEventField::Medium
    } else {
        RawEventField::Ignored
    }
}

/// The parts of a raw event as far as they were written.
#[derive(Clone, Debug)]
pub struct RawEventParts {
    pub event_type: Option<String>,
    pub block_hashes: Option<Vec<BlockHashValue>>,
    pub parent_block_hash: Option<Option<BlockHashValue>>,
    pub token_ids: Option<Vec<u32>>,
    pub block_size: Option<usize>,
    pub lora_id: Option<Option<u64>>,
    pub medium: Option<Option<String>>,
}

/// A part that may be left out.
pub open spec fn or_none<T>(part: Option<Option<T>>) -> Option<T> {
    match part {
        Some(value) => value,
        None => None,
    }
}

fn flatten_part<T>(part: Option<Option<T>>) -> (value: Option<T>)
    ensures
        value == or_none(part),
{
    match part {
        Some(value) => value,
        None => None,
    }
}

impl RawEventParts {
    /// The event that the parts make up, all needed parts being there.
    pub open spec fn event(self, kind: RawEventKind) -> RawKvEvent {
        match kind {
            RawEventKind::BlockStored => RawKvEvent::BlockStored {
                block_hashes: self.block_hashes->Some_0,
                parent_block_hash: or_none(self.parent_block_hash),
                token_ids: self.token_ids->Some_0,
                block_size: self.block_size->Some_0,
                lora_id: or_none(self.lora_id),
                medium: or_none(self.medium),
            },
            RawEventKind::BlockRemoved => RawKvEvent::BlockRemoved {
                block_hashes: self.block_hashes->Some_0,
                medium: or_none(self.medium),
            },
            RawEventKind::AllBlocksCleared => RawKvEvent::AllBlocksCleared,
        }
    }

    /// Reads an event that is written as a map from field names to values.
    pub fn from_map(self) -> (event: Result<RawKvEvent, RawEventError>)
        ensures
            match self.event_type {
                None => event matches Err(RawEventError::MissingField(name)) && name@ == "type"@,
                Some(tag) => match kind_of(tag@) {
                    None => event matches Err(RawEventError::UnknownVariant(other)) && other@
                        == tag@,
                    Some(kind) => if !(kind is AllBlocksCleared) && self.block_hashes is None {
                        event matches Err(RawEventError::MissingField(name)) && name@
                            == "block_hashes"@
                    } else if kind is BlockStored && self.token_ids is None {
                        event matches Err(RawEventError::MissingField(name)) && name@
                            == "token_ids"@
                    } else if kind is BlockStored && self.block_size is None {
                        event matches Err(RawEventError::MissingField(name)) && name@
                            == "block_size"@
                    } else {
                        event == Ok::<RawKvEvent, RawEventError>(self.event(kind))
                    },
                },
            },
    {
        let tag = match self.event_type {
            Some(tag) => tag,
            None => {
                return Err(RawEventError::MissingField("type"));
            },
        };
        match event_kind(tag.as_str()) {
            None => Err(RawEventError::UnknownVariant(tag)),
            Some(RawEventKind::AllBlocksCleared) => Ok(RawKvEvent::AllBlocksCleared),
            Some(RawEventKind::BlockRemoved) => match self.block_hashes {
                None => Err(RawEventError::MissingField("block_hashes")),
                Some(block_hashes) => Ok(
                    RawKvEvent::BlockRemoved { block_hashes, medium: flatten_part(self.medium) },
                ),
            },
            Some(RawEventKind::BlockStored) => match (
                self.block_hashes,
                self.token_ids,
                self.block_size,
            ) {
                (None, _, _) => Err(RawEventError::MissingField("block_hashes")),
                (_, None, _) => Err(RawEventError::MissingField("token_ids")),
                (_, _, None) => Err(RawEventError::MissingField("block_size")),
                (Some(block_hashes), Some(token_ids), Some(block_size)) => Ok(
                    RawKvEvent::BlockStored {
                        block_hashes,
                        parent_block_hash: flatten_part(self.parent_block_hash),
                        token_ids,
                        block_size,
                        lora_id: flatten_part(self.lora_id),
                        medium: flatten_part(self.medium),
                    },
                ),
            },
        }
    }

    /// Reads an event that is written as a sequence of its parts, the tag first. A missing
    /// element is named by its position; elements after the known ones are passed over.
    pub fn from_seq(self) -> (event: Result<RawKvEvent, RawEventError>)
        ensures
            match self.event_type {
                None => event matches Err(RawEventError::InvalidLength { position, expected })
                    && position == 0 && expected@ == "sequence must start with event tag"@,
                Some(tag) => match kind_of(tag@) {
                    None => event matches Err(RawEventError::UnknownVariant(other)) && other@
                        == tag@,
                    Some(kind) => if !(kind is AllBlocksCleared) && self.block_hashes is None {
                        event matches Err(RawEventError::InvalidLength { position, expected })
                            && position == 1 && expected@ == "missing block_hashes"@
                    } else if kind is BlockStored && self.token_ids is None {
                        event matches Err(RawEventError::InvalidLength { position, expected })
                            && position == 3 && expected@ == "missing token_ids"@
                    } else if kind is BlockStored && self.block_size is None {
                        event matches Err(RawEventError::InvalidLength { position, expected })
                            && position == 4 && expected@ == "missing block_size"@
                    } else {
                        event == Ok::<RawKvEvent, RawEventError>(self.event(kind))
                    },
                },
            },
    {
        let tag = match self.event_type {
            Some(tag) => tag,
            None => {
                return Err(
                    RawEventError::InvalidLength {
                        position: 0,
                        expected: "sequence must start with event tag",
                    },
                );
            },
        };
        match event_kind(tag.as_str()) {
            None => Err(RawEventError::UnknownVariant(tag)),
            Some(RawEventKind::AllBlocksCleared) => Ok(RawKvEvent::AllBlocksCleared),
            Some(RawEventKind::BlockRemoved) => match self.block_hashes {
                None => Err(
                    RawEventError::InvalidLength { position: 1, expected: "missing block_hashes" },
                ),
                Some(block_hashes) => Ok(
                    RawKvEvent::BlockRemoved { block_hashes, medium: flatten_part(self.medium) },
                ),
            },
            Some(RawEventKind::BlockStored) => match (
                self.block_hashes,
                self.token_ids,
                self.block_size,
            ) {
                (None, _, _) => Err(
                    RawEventError::InvalidLength { position: 1, expected: "missing block_hashes" },
                ),
                (_, None, _) => Err(
                    RawEventError::InvalidLength { position: 3, expected: "missing token_ids" },
                ),
                (_, _, None) => Err(
                    RawEventError::InvalidLength { position: 4, expected: "missing block_size" },
                ),
                (Some(block_hashes), Some(token_ids), Some(block_size)) => Ok(
                    RawKvEvent::BlockStored {
                        block_hashes,
                        parent_block_hash: flatten_part(self.parent_block_hash),
                        token_ids,
                        block_size,
                        lora_id: flatten_part(self.lora_id),
                        medium: flatten_part(self.medium),
                    },
                ),
            },
        }
    }
}

/// What the listener does about an error on its socket.
#[derive(Clone, Copy, Debug)]
pub enum ErrorResponse {
    Exit(&'static str),
    /// Wait this many milliseconds and go on.
    Wait(u64),
}

/// What a message holds.
#[derive(Clone, Debug)]
pub enum Message {
    /// A message with another number of frames than topic, number and payload.
    UnexpectedFrames(usize),
    /// A message whose number is not of eight bytes.
    InvalidNumber(usize),
    Batch { number: u64, payload: Vec<u8> },
}

/// The number that big-endian bytes stand for.
pub open spec fn be_number(bytes: Seq<u8>) -> nat
    decreases bytes.len(),
{
    if bytes.len() == 0 {
        0
    } else {
        be_number(bytes.drop_last()) * 256 + bytes.last() as nat
    }
}

/// The reason to stop where nobody takes the events any more.
pub const RECEIVER_DROPPED: &'static str = "channel receiver dropped";

/// The reason to stop on request.
pub const CANCELLED: &'static str = "cancellation token cancelled";

/// The reason to stop after errors.
pub const TOO_MANY_ERRORS: &'static str = "too many consecutive errors";

/// What a listener keeps between messages.
#[derive(Clone, Copy, Debug, PartialEq, Eq, Structural)]
pub struct Listener {
    /// Errors since the last message.
    pub consecutive_errors: u32,
    /// Events with blocks of a size that is not published.
    pub warning_count: u32,
}

impl Listener {
    pub fn new() -> (listener: Self)
        ensures
            listener == (Listener { consecutive_errors: 0, warning_count: 0 }),
    {
        Listener { consecutive_errors: 0, warning_count: 0 }
    }

    /// Takes note of an error on the socket.
    pub fn on_error(&mut self) -> (response: ErrorResponse)
        requires
            old(self).consecutive_errors < MAX_CONSECUTIVE_ERRORS,
        ensures
            final(self).consecutive_errors == old(self).consecutive_errors + 1,
            final(self).warning_count == old(self).warning_count,
            if old(self).consecutive_errors + 1 >= MAX_CONSECUTIVE_ERRORS {
                response matches ErrorResponse::Exit(reason) && reason@ == TOO_MANY_ERRORS@
            } else {
                response matches ErrorResponse::Wait(wait) && wait == backoff_ms(
                    (old(self).consecutive_errors + 1) as nat,
                )
            },
    {
        self.consecutive_errors = self.consecutive_errors + 1;
        if self.consecutive_errors >= MAX_CONSECUTIVE_ERRORS {
            ErrorResponse::Exit(TOO_MANY_ERRORS)
        } else {
            ErrorResponse::Wait(calculate_backoff_ms(self.consecutive_errors))
        }
    }

    /// Takes apart a message: topic, number and payload.
    pub fn on_message(&mut self, frames: Vec<Vec<u8>>) -> (message: Message)
        ensures
            final(self).consecutive_errors == 0,
            final(self).warning_count == old(self).warning_count,
            if frames@.len() != 3 {
                message == Message::UnexpectedFrames(frames@.len() as usize)
            } else if frames@[1]@.len() != 8 {
                message == Message::InvalidNumber(frames@[1]@.len() as usize)
            } else {
                message matches Message::Batch { number, payload } && number == be_number(
                    frames@[1]@,
                ) && payload == frames@[2]
            },
    {
        self.consecutive_errors = 0;
        let mut frames = frames;
        let ghost all = frames@;
        let count: usize = frames.len();
        if count != 3 {
            return Message::UnexpectedFrames(count);
        }
        match (frames.pop(), frames.pop()) {
            (Some(payload), Some(number_bytes)) => {
                let length: usize = number_bytes.len();
                if length != 8 {
                    return Message::InvalidNumber(length);
                }
                let mut number: u64 = 0;
                let mut index: usize = 0;
                proof {
                    assert(number_bytes@.take(0) =~= Seq::empty());
                    vstd::arithmetic::power2::lemma2_to64();
                }
                while index < 8
                    invariant
                        index <= 8,
                        number_bytes@.len() == 8,
                        number == be_number(number_bytes@.take(index as int)),
                        number < pow2((8 * index) as nat),
                    decreases 8 - index,
                {
                    proof {
                        crate::seqs::lemma_take_next(number_bytes@, index as int);
                        vstd::arithmetic::power2::lemma_pow2_adds((8 * index) as nat, 8);
                        vstd::arithmetic::power2::lemma2_to64();
                        if index < 7 {
                            vstd::arithmetic::power2::lemma_pow2_strictly_increases(
                                (8 * index + 8) as nat,
                                64,
                            );
                        }
                    }
                    let byte: u64 = number_bytes[index] as u64;
                    assert(number * 256 + byte < pow2((8 * index + 8) as nat));
                    number = number * 256 + byte;
                    index += 1;
                }
                assert(number_bytes@.take(8) =~= number_bytes@);
                Message::Batch { number, payload }
            },
            _ => Message::UnexpectedFrames(count),
        }
    }

    /// Turns the next raw event of a batch into a cache event. The rank of a batch is zero where
    /// it has none.
    pub fn on_raw_event(
        &mut self,
        raw: RawKvEvent,
        number: u64,
        kv_block_size: u32,
        data_parallel_rank: Option<i32>,
    ) -> (event: KvCacheEvent)
        requires
            has_tokens(raw, kv_block_size as int),
        ensures
            final(self).consecutive_errors == old(self).consecutive_errors,
            event.event_id == number,
            event.dp_rank == (match data_parallel_rank {
                Some(rank) => rank as u32,
                None => 0u32,
            }),
            converted(raw, kv_block_size as int, event.data),
            final(self).warning_count == if is_oversized(raw, kv_block_size as int) {
                if old(self).warning_count == u32::MAX {
                    0
                } else {
                    (old(self).warning_count + 1) as u32
                }
            } else {
                old(self).warning_count
            },
    {
        let dp_rank: u32 = match data_parallel_rank {
            Some(rank) => rank as u32,
            None => 0,
        };
        convert_event(raw, number, kv_block_size, dp_rank, &mut self.warning_count)
    }
}

/// How long metrics must stay unchanged before they are published, in milliseconds.
pub const PUBLISH_DELAY_MS: u64 = 1;

/// How long the timer is parked while there is nothing to publish, in seconds.
pub const IDLE_TIMER_SECS: u64 = 3600;

/// Load metrics that wait to be published.
pub struct PendingMetrics<M> {
    last_load: Option<(u64, u64)>,
    pending: Option<M>,
}

impl<M> PendingMetrics<M> {
    /// The active blocks and waiting requests seen last.
    pub closed spec fn last_load(&self) -> Option<(u64, u64)> {
        self.last_load
    }

    /// What is published when the timer fires.
    pub closed spec fn pending(&self) -> Option<M> {
        self.pending
    }

    pub fn new() -> (metrics: Self)
        ensures
            metrics.last_load() is None,
            metrics.pending() is None,
    {
        PendingMetrics { last_load: None, pending: None }
    }

    /// Takes new metrics. They wait to be published if the load is not the one seen last; then
    /// the timer starts anew.
    pub fn on_change(&mut self, metrics: M, active_blocks: u64, requests_waiting: u64) -> (restart:
        bool)
        ensures
            restart == (old(self).last_load() != Some((active_blocks, requests_waiting))),
            final(self).last_load() == Some((active_blocks, requests_waiting)),
            final(self).pending() == (if restart {
                Some(metrics)
            } else {
                old(self).pending()
            }),
    {
        let changed = match self.last_load {
            Some((last_blocks, last_requests)) => last_blocks != active_blocks || last_requests
                != requests_waiting,
            None => true,
        };
        if changed {
            self.pending = Some(metrics);
            self.last_load = Some((active_blocks, requests_waiting));
        }
        changed
    }

    /// The timer fired: hands out what waits to be published.
    pub fn on_timer(&mut self) -> (publish: Option<M>)
        ensures
            publish == old(self).pending(),
            final(self).pending() is None,
            final(self).last_load() == old(self).last_load(),
    {
        self.pending.take()
    }
}

} // verus!
