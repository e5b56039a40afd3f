//! Hashes of token blocks and of the sequences they form.
use crate::kv_router::protocols::{LocalBlockHash, SequenceHash};
use vstd::prelude::*;

verus! {

/// The seed of every block and sequence hash.
pub const XXH3_SEED: u64 = 1337;

/// What `xxhash_rust::xxh3::xxh3_64_with_seed` computes.
pub uninterp spec fn xxh3_64(data: Seq<u8>, seed: u64) -> u64;

/// Calls `xxhash_rust::xxh3::xxh3_64_with_seed`, whose result is determined by the bytes and the
/// seed.
#[verifier::external_body]
fn xxh3_64_with_seed(data: &[u8], seed: u64) -> (hash: u64)
    ensures
        hash == xxh3_64(data@, seed),
{
    xxhash_rust::xxh3::xxh3_64_with_seed(data, seed)
}

/// Byte `index` of an integer, counted from the least significant one.
pub open spec fn byte_of(value: u64, index: int) -> u8 {
    ((value >> ((8 * index) as u64)) & 0xff) as u8
}

/// The little-endian bytes of a token.
pub open spec fn u32_le_bytes(value: u32) -> Seq<u8> {
    Seq::new(4, |index: int| byte_of(value as u64, index))
}

/// The little-endian bytes of a hash.
pub open spec fn u64_le_bytes(value: u64) -> Seq<u8> {
    Seq::new(8, |index: int| byte_of(value, index))
}

/// The little-endian bytes of the tokens, one after the other.
pub open spec fn tokens_le_bytes(tokens: Seq<u32>) -> Seq<u8>
    decreases tokens.len(),
{
    if tokens.len() == 0 {
        Seq::empty()
    } else {
        tokens_le_bytes(tokens.drop_last()) + u32_le_bytes(tokens.last())
    }
}

/// Appends the `width` lowest bytes of `value`, least significant first.
fn push_le_bytes(bytes: &mut Vec<u8>, value: u64, width: usize)
    requires
        width <= 8,
    ensures
        final(bytes)@ == old(bytes)@ + Seq::new(width as nat, |index: int| byte_of(value, index)),
{
    let ghost before = bytes@;
    let mut index: usize = 0;
    while index < width
        invariant
            index <= width <= 8,
            bytes@ == before + Seq::new(index as nat, |index: int| byte_of(value, index)),
        decreases width - index,
    {
        let shift: u64 = 8 * index as u64;
        let byte: u64 = (value >> shift) & 0xff;
        assert(byte <= 0xff) by (bit_vector)
            requires
                byte == (value >> shift) & 0xff,
        ;
        bytes.push(byte as u8);
        index += 1;
    }
}

/// Hashes bytes with the router's seed.
pub fn compute_hash(data: &[u8]) -> (hash: u64)
    ensures
        hash == xxh3_64(data@, XXH3_SEED),
{
    xxh3_64_with_seed(data, XXH3_SEED)
}

/// Hashes the bytes of one block.
pub fn compute_block_hash(data: &[u8]) -> (hash: LocalBlockHash)
    ensures
        hash == LocalBlockHash(xxh3_64(data@, XXH3_SEED)),
{
    LocalBlockHash(compute_hash(data))
}

/// The tokens of block `index` when blocks hold `size` tokens each.
pub open spec fn block_tokens(tokens: Seq<u32>, size: int, index: int) -> Seq<u32> {
    tokens.subrange(index * size, (index + 1) * size)
}

/// The hash of a block of tokens.
pub open spec fn tokens_hash(tokens: Seq<u32>) -> LocalBlockHash {
    LocalBlockHash(xxh3_64(tokens_le_bytes(tokens), XXH3_SEED))
}

/// The hashes of the full blocks at the start of `tokens`.
pub open spec fn block_hashes(tokens: Seq<u32>, size: int) -> Seq<LocalBlockHash> {
    Seq::new(
        (tokens.len() as int / size) as nat,
        |index: int| tokens_hash(block_tokens(tokens, size, index)),
    )
}

/// The rolling hashes of a run of blocks: the first block stands for itself, and each later one
/// is hashed together with the rolling hash before it.
pub open spec fn sequence_hashes(blocks: Seq<LocalBlockHash>) -> Seq<SequenceHash>
    decreases blocks.len(),
{
    if blocks.len() == 0 {
        Seq::empty()
    } else if blocks.len() == 1 {
        seq![blocks[0].0]
    } else {
        let before = sequence_hashes(blocks.drop_last());
        before.push(
            xxh3_64(u64_le_bytes(before.last()) + u64_le_bytes(blocks.last().0), XXH3_SEED),
        )
    }
}

proof fn lemma_block_bounds(len: int, size: int, index: int)
    by (nonlinear_arith)
    requires
        size > 0,
        0 <= index < len / size,
    ensures
        0 <= index * size,
        index * size + size <= len,
        (index + 1) * size == index * size + size,
{
}

/// Hashes every full block of `kv_block_size` tokens; a shorter rest is left out.
pub fn compute_block_hash_for_seq(tokens: &[u32], kv_block_size: u32) -> (hashes: Vec<
    LocalBlockHash,
>)
    requires
        kv_block_size > 0,
    ensures
        hashes@ == block_hashes(tokens@, kv_block_size as int),
{
    let size: usize = kv_block_size as usize;
    let total: usize = tokens.len();
    let blocks: usize = total / size;
    let mut hashes: Vec<LocalBlockHash> = Vec::new();
    let mut index: usize = 0;
    while index < blocks
        invariant
            index <= blocks,
            size > 0,
            size == kv_block_size,
            total == tokens@.len(),
            blocks == tokens@.len() as int / size as int,
            hashes@.len() == index,
            forall|i: int|
                0 <= i < index ==> #[trigger] hashes@[i] == tokens_hash(
                    block_tokens(tokens@, size as int, i),
                ),
        decreases blocks - index,
    {
        proof {
            lemma_block_bounds(tokens@.len() as int, size as int, index as int);
        }
        let start: usize = index * size;
        let end: usize = start + size;
        let mut bytes: Vec<u8> = Vec::new();
        let mut at: usize = start;
        assert(tokens@.subrange(start as int, start as int) =~= Seq::empty());
        while at < end
            invariant
                start <= at <= end <= tokens@.len(),
                bytes@ == tokens_le_bytes(tokens@.subrange(start as int, at as int)),
            decreases end - at,
        {
            push_le_bytes(&mut bytes, tokens[at] as u64, 4);
            proof {
                let longer = tokens@.subrange(start as int, at + 1);
                assert(longer.drop_last() =~= tokens@.subrange(start as int, at as int));
                assert(longer.last() == tokens@[at as int]);
            }
            at += 1;
        }
        hashes.push(compute_block_hash(bytes.as_slice()));
        index += 1;
    }
    assert(hashes@ =~= block_hashes(tokens@, kv_block_size as int));
    hashes
}

/// Computes the rolling hash of every block of a sequence.
pub fn compute_seq_hash_for_block(block_hashes: &[LocalBlockHash]) -> (hashes: Vec<SequenceHash>)
    ensures
        hashes@ == sequence_hashes(block_hashes@),
        hashes@.len() == block_hashes@.len(),
{
    let mut hashes: Vec<SequenceHash> = Vec::new();
    if block_hashes.len() == 0 {
        return hashes;
    }
    hashes.push(block_hashes[0].0);
    assert(block_hashes@.take(1) =~= seq![block_hashes@[0]]);
    assert(hashes@ =~= sequence_hashes(block_hashes@.take(1)));
    let mut index: usize = 1;
    while index < block_hashes.len()
        invariant
            1 <= index <= block_hashes@.len(),
            hashes@.len() == index,
            hashes@ == sequence_hashes(block_hashes@.take(index as int)),
        decreases block_hashes@.len() - index,
    {
        let mut bytes: Vec<u8> = Vec::new();
        push_le_bytes(&mut bytes, hashes[index - 1], 8);
        push_le_bytes(&mut bytes, block_hashes[index].0, 8);
        assert(block_hashes@.take(index + 1).drop_last() =~= block_hashes@.take(index as int));
        assert(bytes@ =~= u64_le_bytes(hashes@.last()) + u64_le_bytes(block_hashes@[index as int].0));
        hashes.push(compute_hash(bytes.as_slice()));
        index += 1;
    }
    assert(block_hashes@.take(index as int) =~= block_hashes@);
    hashes
}

/// Appending tokens leaves the hashes of the blocks already full unchanged.
pub proof fn law_block_hashes_of_longer_sequence(tokens: Seq<u32>, more: Seq<u32>, size: int)
    requires
        size > 0,
    ensures
        block_hashes(tokens, size).is_prefix_of(block_hashes(tokens + more, size)),
{
    let short = block_hashes(tokens, size);
    let long = block_hashes(tokens + more, size);
    vstd::arithmetic::div_mod::lemma_div_is_ordered(
        tokens.len() as int,
        (tokens + more).len() as int,
        size,
    );
    assert forall|index: int| 0 <= index < short.len() implies short[index] == long[index] by {
        lemma_block_bounds(tokens.len() as int, size, index);
        assert(block_tokens(tokens, size, index) =~= block_tokens(tokens + more, size, index));
    }
    assert(short =~= long.take(short.len() as int));
}

/// The rolling hash of a block depends on that block and the blocks before it alone.
pub proof fn law_sequence_hashes_of_prefix(blocks: Seq<LocalBlockHash>, len: int)
    requires
        0 <= len <= blocks.len(),
    ensures
        sequence_hashes(blocks.take(len)) == sequence_hashes(blocks).take(len),
        sequence_hashes(blocks).len() == blocks.len(),
    decreases blocks.len(),
{
    if blocks.len() > 0 {
        let shorter = blocks.drop_last();
        if len == blocks.len() {
            law_sequence_hashes_of_prefix(shorter, 0);
            assert(blocks.take(len) =~= blocks);
            assert(sequence_hashes(blocks).take(len) =~= sequence_hashes(blocks));
        } else {
            law_sequence_hashes_of_prefix(shorter, len);
            assert(shorter.take(len) =~= blocks.take(len));
            assert(sequence_hashes(blocks).take(len) =~= sequence_hashes(shorter).take(len));
        }
    } else {
        assert(sequence_hashes(blocks.take(len)) =~= sequence_hashes(blocks).take(len));
    }
}

} // verus!
