//! What the hashes of blocks and of sequences are taken of.
use crate::kv_router::hashing::{
    compute_block_hash, compute_block_hash_for_seq, compute_hash, compute_seq_hash_for_block,
    law_sequence_hashes_of_prefix, sequence_hashes, tokens_le_bytes, u32_le_bytes, u64_le_bytes,
    xxh3_64, block_tokens,
};
use crate::kv_router::protocols::{LocalBlockHash, SequenceHash};
use vstd::bytes::spec_u64_to_le_bytes;
use vstd::prelude::*;

verus! {

proof fn lemma_le_bytes(value: u64)
    ensures
        u64_le_bytes(value) == spec_u64_to_le_bytes(value),
{
    vstd::bytes::spec_u64_to_le_bytes_to_open(value);
    assert(value >> 0u64 == value) by (bit_vector);
    assert(u64_le_bytes(value) =~= vstd::bytes::spec_u64_to_le_bytes_open(value));
}

/// The bytes of a hash tell it: different hashes have different bytes.
pub proof fn law_bytes_tell_hashes_apart(first: u64, second: u64)
    ensures
        u64_le_bytes(first) == u64_le_bytes(second) <==> first == second,
        u64_le_bytes(first).len() == 8,
{
    lemma_le_bytes(first);
    lemma_le_bytes(second);
    vstd::bytes::lemma_auto_spec_u64_to_from_le_bytes();
    if u64_le_bytes(first) == u64_le_bytes(second) {
        assert(vstd::bytes::spec_u64_from_le_bytes(spec_u64_to_le_bytes(first)) == first);
        assert(vstd::bytes::spec_u64_from_le_bytes(spec_u64_to_le_bytes(second)) == second);
    }
}

/// There is one hash for each block. The first is that of the block itself, and every later one
/// is the seeded hash of the sixteen little-endian bytes of the hash before it, followed by those
/// of the block's own hash.
pub proof fn law_sequence_hash_takes_its_parent_in(
    blocks: &[LocalBlockHash],
    hashes: Vec<SequenceHash>,
    i: int,
)
    requires
        call_ensures(compute_seq_hash_for_block, (blocks,), hashes),
        0 <= i < blocks@.len(),
    ensures
        hashes@.len() == blocks@.len(),
        i == 0 ==> hashes@[i] == blocks@[i].0,
        i > 0 ==> hashes@[i] == xxh3_64(
            spec_u64_to_le_bytes(hashes@[i - 1]) + spec_u64_to_le_bytes(blocks@[i].0),
            1337,
        ),
{
    let upto = blocks@.take(i + 1);
    law_sequence_hashes_of_prefix(blocks@, i + 1);
    law_sequence_hashes_of_prefix(upto, i);
    assert(hashes@[i] == sequence_hashes(upto)[i]);
    assert(upto.drop_last() =~= upto.take(i));
    if i > 0 {
        lemma_le_bytes(hashes@[i - 1]);
        lemma_le_bytes(blocks@[i].0);
        law_sequence_hashes_of_prefix(upto.drop_last(), i);
        assert(sequence_hashes(upto.drop_last()).last() == hashes@[i - 1]);
    }
}

/// What is hashed for the same block behind two different parents differs, and so it does for two
/// different blocks behind the same parent.
pub proof fn law_parents_tell_hashed_bytes_apart(
    blocks: &[LocalBlockHash],
    hashes: Vec<SequenceHash>,
    others: &[LocalBlockHash],
    other_hashes: Vec<SequenceHash>,
    i: int,
    j: int,
)
    requires
        call_ensures(compute_seq_hash_for_block, (blocks,), hashes),
        call_ensures(compute_seq_hash_for_block, (others,), other_hashes),
        0 < i < blocks@.len(),
        0 < j < others@.len(),
    ensures
        exists|data: Seq<u8>, other: Seq<u8>|
            {
                &&& hashes@[i] == #[trigger] xxh3_64(data, 1337)
                &&& other_hashes@[j] == #[trigger] xxh3_64(other, 1337)
                &&& data.len() == other.len() == 16
                &&& data == other <==> hashes@[i - 1] == other_hashes@[j - 1] && blocks@[i]
                    == others@[j]
            },
{
    law_sequence_hash_takes_its_parent_in(blocks, hashes, i);
    law_sequence_hash_takes_its_parent_in(others, other_hashes, j);
    let data = spec_u64_to_le_bytes(hashes@[i - 1]) + spec_u64_to_le_bytes(blocks@[i].0);
    let other = spec_u64_to_le_bytes(other_hashes@[j - 1]) + spec_u64_to_le_bytes(others@[j].0);
    vstd::bytes::lemma_auto_spec_u64_to_from_le_bytes();
    lemma_le_bytes(hashes@[i - 1]);
    lemma_le_bytes(blocks@[i].0);
    lemma_le_bytes(other_hashes@[j - 1]);
    lemma_le_bytes(others@[j].0);
    law_bytes_tell_hashes_apart(hashes@[i - 1], other_hashes@[j - 1]);
    law_bytes_tell_hashes_apart(blocks@[i].0, others@[j].0);
    if data == other {
        assert(data.take(8) =~= spec_u64_to_le_bytes(hashes@[i - 1]));
        assert(other.take(8) =~= spec_u64_to_le_bytes(other_hashes@[j - 1]));
        assert(data.skip(8) =~= spec_u64_to_le_bytes(blocks@[i].0));
        assert(other.skip(8) =~= spec_u64_to_le_bytes(others@[j].0));
    }
    assert(hashes@[i] == xxh3_64(data, 1337));
    assert(other_hashes@[j] == xxh3_64(other, 1337));
}

/// A hash of bytes takes in those bytes and the seed, and so does that of a block.
pub proof fn law_hashes_are_seeded(data: &[u8], hash: u64, block: LocalBlockHash)
    requires
        call_ensures(compute_hash, (data,), hash),
        call_ensures(compute_block_hash, (data,), block),
    ensures
        hash == xxh3_64(data@, 1337),
        block.0 == hash,
{
}

proof fn lemma_token_bytes(tokens: Seq<u32>, k: int)
    requires
        0 <= k < tokens.len(),
    ensures
        tokens_le_bytes(tokens).len() == 4 * tokens.len(),
        tokens_le_bytes(tokens)[4 * k] == tokens[k] % 0x100,
        tokens_le_bytes(tokens)[4 * k + 1] == tokens[k] / 0x100 % 0x100,
        tokens_le_bytes(tokens)[4 * k + 2] == tokens[k] / 0x1_0000 % 0x100,
        tokens_le_bytes(tokens)[4 * k + 3] == tokens[k] / 0x100_0000,
    decreases tokens.len(),
{
    let before = tokens.drop_last();
    if k < before.len() {
        lemma_token_bytes(before, k);
    } else {
        if before.len() > 0 {
            lemma_token_bytes(before, 0);
        } else {
            assert(tokens_le_bytes(before).len() == 0);
        }
        let value = tokens[k] as u64;
        let bytes = u32_le_bytes(tokens[k]);
        assert(bytes[0] == (value >> 0u64) & 0xff && bytes[1] == (value >> 8u64) & 0xff && bytes[2]
            == (value >> 16u64) & 0xff && bytes[3] == (value >> 24u64) & 0xff) by {
            assert((value >> 0u64) & 0xff <= 0xff && (value >> 8u64) & 0xff <= 0xff && (value
                >> 16u64) & 0xff <= 0xff && (value >> 24u64) & 0xff <= 0xff) by (bit_vector);
        }
        assert((value >> 0u64) & 0xff == value % 0x100 && (value >> 8u64) & 0xff == value / 0x100
            % 0x100 && (value >> 16u64) & 0xff == value / 0x1_0000 % 0x100 && (value >> 24u64)
            & 0xff == value / 0x100_0000) by (bit_vector)
            requires
                value <= 0xffff_ffff,
        ;
    }
}

/// There is one hash for each full block of tokens, as many as the tokens fill. Each is the seeded
/// hash of four bytes for each token of its block, the least significant first.
pub proof fn law_block_hash_takes_its_tokens_in(
    tokens: &[u32],
    size: u32,
    hashes: Vec<LocalBlockHash>,
    i: int,
)
    requires
        size > 0,
        call_ensures(compute_block_hash_for_seq, (tokens, size), hashes),
        0 <= i < hashes@.len(),
    ensures
        exists|data: Seq<u8>|
            {
                &&& hashes@[i].0 == #[trigger] xxh3_64(data, 1337)
                &&& data.len() == 4 * size
                &&& forall|k: int|
                    0 <= k < size ==> {
                        let token = #[trigger] tokens@[i * size + k];
                        &&& data[4 * k] == token % 0x100
                        &&& data[4 * k + 1] == token / 0x100 % 0x100
                        &&& data[4 * k + 2] == token / 0x1_0000 % 0x100
                        &&& data[4 * k + 3] == token / 0x100_0000
                    }
            },
{
    law_blocks_are_as_many_as_tokens_fill(tokens, size, hashes);
    assert(0 <= i * size && (i + 1) * size <= tokens@.len()) by (nonlinear_arith)
        requires
            0 <= i < hashes@.len(),
            hashes@.len() * size <= tokens@.len(),
            size > 0,
    ;
    assert((i + 1) * size == i * size + size) by (nonlinear_arith);
    let block = block_tokens(tokens@, size as int, i);
    let data = tokens_le_bytes(block);
    assert(block.len() == size);
    lemma_token_bytes(block, 0);
    assert forall|k: int| 0 <= k < size implies {
        let token = #[trigger] tokens@[i * size + k];
        &&& data[4 * k] == token % 0x100
        &&& data[4 * k + 1] == token / 0x100 % 0x100
        &&& data[4 * k + 2] == token / 0x1_0000 % 0x100
        &&& data[4 * k + 3] == token / 0x100_0000
    } by {
        lemma_token_bytes(block, k);
        assert(block[k] == tokens@[i * size + k]);
    }
    assert(hashes@[i].0 == xxh3_64(data, 1337));
}

/// The blocks hashed take up as many of the tokens as fill blocks; what is left is less than one.
pub proof fn law_blocks_are_as_many_as_tokens_fill(
    tokens: &[u32],
    size: u32,
    hashes: Vec<LocalBlockHash>,
)
    requires
        size > 0,
        call_ensures(compute_block_hash_for_seq, (tokens, size), hashes),
    ensures
        hashes@.len() * size <= tokens@.len() < (hashes@.len() + 1) * size,
{
    let len = tokens@.len() as int;
    let size = size as int;
    vstd::arithmetic::div_mod::lemma_fundamental_div_mod(len, size);
    vstd::arithmetic::div_mod::lemma_div_pos_is_pos(len, size);
    assert((len / size) * size <= len < (len / size + 1) * size) by (nonlinear_arith)
        requires
            size > 0,
            len == size * (len / size) + len % size,
            0 <= len % size < size,
    ;
}

} // verus!
