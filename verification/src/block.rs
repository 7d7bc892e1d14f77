//! Blocks and the byte accounting over a block sequence.
//!
//! A block is one allocation unit inside an arena: a fixed-size header
//! followed by `data_size` user-visible bytes. Blocks of an arena lie
//! contiguously in address order, so the intrusive `next`/`prev` links of the
//! on-disk layout are represented here by the position of a block in its
//! arena's block sequence; a block's address is the arena body's start plus
//! the bytes consumed by the blocks before it.

use vstd::prelude::*;

use crate::BLOCK_HEADER_SIZE;

verus! {

/// One allocation unit: `data_size` payload bytes behind a block header.
#[derive(Clone, Copy, Debug)]
pub struct Block {
    pub data_size: usize,
    pub free: bool,
}

impl Block {
    /// A fresh in-use block of `size` payload bytes.
    pub fn new(size: usize) -> (b: Block)
        ensures
            b.data_size == size,
            !b.free,
    {
        Block { data_size: size, free: false }
    }

    /// Bytes a block header occupies in front of its payload.
    pub fn size() -> (r: usize)
        ensures
            r == BLOCK_HEADER_SIZE,
    {
        BLOCK_HEADER_SIZE
    }
}

/// Bytes the block consumes in its arena: header plus payload.
pub open spec fn block_bytes(b: Block) -> int {
    BLOCK_HEADER_SIZE + b.data_size
}

/// The block's consumed bytes if it is free, zero otherwise.
pub open spec fn free_block_bytes(b: Block) -> int {
    if b.free {
        block_bytes(b)
    } else {
        0
    }
}

/// Sum of `block_bytes` (or, with `only_free`, of `free_block_bytes`) over a
/// block sequence.
pub open spec fn sum_bytes(s: Seq<Block>, only_free: bool) -> int
    decreases s.len(),
{
    if s.len() == 0 {
        0
    } else {
        sum_bytes(s.drop_last(), only_free) + if only_free {
            free_block_bytes(s.last())
        } else {
            block_bytes(s.last())
        }
    }
}

/// Bytes consumed by all blocks of the sequence.
pub open spec fn seq_used(s: Seq<Block>) -> int {
    sum_bytes(s, false)
}

/// Bytes consumed by the free blocks of the sequence.
pub open spec fn seq_free(s: Seq<Block>) -> int {
    sum_bytes(s, true)
}

/// Both sums are nonnegative.
pub proof fn lemma_sum_nonneg(s: Seq<Block>, only_free: bool)
    ensures
        sum_bytes(s, only_free) >= 0,
    decreases s.len(),
{
    if s.len() > 0 {
        lemma_sum_nonneg(s.drop_last(), only_free);
    }
}

/// Appending a block adds its contribution to the sum.
pub proof fn lemma_sum_push(s: Seq<Block>, b: Block, only_free: bool)
    ensures
        sum_bytes(s.push(b), only_free) == sum_bytes(s, only_free) + if only_free {
            free_block_bytes(b)
        } else {
            block_bytes(b)
        },
{
    assert(s.push(b).drop_last() =~= s);
}

/// Replacing the block at `i` changes the sum by the difference of the
/// contributions.
pub proof fn lemma_sum_update(s: Seq<Block>, i: int, b: Block, only_free: bool)
    requires
        0 <= i < s.len(),
    ensures
        sum_bytes(s.update(i, b), only_free) == sum_bytes(s, only_free) + if only_free {
            free_block_bytes(b) - free_block_bytes(s[i])
        } else {
            block_bytes(b) - block_bytes(s[i])
        },
    decreases s.len(),
{
    if i == s.len() - 1 {
        assert(s.update(i, b).drop_last() =~= s.drop_last());
        assert(s.update(i, b).last() == b);
    } else {
        assert(s.update(i, b).drop_last() =~= s.drop_last().update(i, b));
        assert(s.update(i, b).last() == s.last());
        lemma_sum_update(s.drop_last(), i, b, only_free);
    }
}

/// Inserting a block at `i` adds its contribution to the sum.
pub proof fn lemma_sum_insert(s: Seq<Block>, i: int, b: Block, only_free: bool)
    requires
        0 <= i <= s.len(),
    ensures
        sum_bytes(s.insert(i, b), only_free) == sum_bytes(s, only_free) + if only_free {
            free_block_bytes(b)
        } else {
            block_bytes(b)
        },
    decreases s.len(),
{
    if i == s.len() {
        assert(s.insert(i, b).drop_last() =~= s);
        assert(s.insert(i, b).last() == b);
    } else {
        assert(s.insert(i, b).drop_last() =~= s.drop_last().insert(i, b));
        assert(s.insert(i, b).last() == s.last());
        lemma_sum_insert(s.drop_last(), i, b, only_free);
    }
}

/// Removing the block at `i` subtracts its contribution from the sum.
pub proof fn lemma_sum_remove(s: Seq<Block>, i: int, only_free: bool)
    requires
        0 <= i < s.len(),
    ensures
        sum_bytes(s.remove(i), only_free) == sum_bytes(s, only_free) - if only_free {
            free_block_bytes(s[i])
        } else {
            block_bytes(s[i])
        },
    decreases s.len(),
{
    if i == s.len() - 1 {
        assert(s.remove(i) =~= s.drop_last());
    } else {
        assert(s.remove(i).drop_last() =~= s.drop_last().remove(i));
        assert(s.remove(i).last() == s.last());
        lemma_sum_remove(s.drop_last(), i, only_free);
    }
}

/// The sum splits at any cut point.
pub proof fn lemma_sum_split(s: Seq<Block>, i: int, only_free: bool)
    requires
        0 <= i <= s.len(),
    ensures
        sum_bytes(s, only_free) == sum_bytes(s.take(i), only_free) + sum_bytes(
            s.skip(i),
            only_free,
        ),
    decreases s.len(),
{
    if i == s.len() {
        assert(s.take(i) =~= s);
        assert(s.skip(i) =~= Seq::<Block>::empty());
    } else {
        assert(s.skip(i).drop_last() =~= s.drop_last().skip(i));
        assert(s.skip(i).last() == s.last());
        assert(s.drop_last().take(i) =~= s.take(i));
        lemma_sum_split(s.drop_last(), i, only_free);
    }
}

/// Extending a prefix by one block adds that block's contribution.
pub proof fn lemma_sum_take_succ(s: Seq<Block>, i: int, only_free: bool)
    requires
        0 <= i < s.len(),
    ensures
        sum_bytes(s.take(i + 1), only_free) == sum_bytes(s.take(i), only_free) + if only_free {
            free_block_bytes(s[i])
        } else {
            block_bytes(s[i])
        },
{
    assert(s.take(i + 1).drop_last() =~= s.take(i));
    assert(s.take(i + 1).last() == s[i]);
}

/// Longer prefixes sum to at least as much.
pub proof fn lemma_sum_take_mono(s: Seq<Block>, m: int, n: int, only_free: bool)
    requires
        0 <= m <= n <= s.len(),
    ensures
        sum_bytes(s.take(m), only_free) <= sum_bytes(s.take(n), only_free),
{
    lemma_sum_split(s.take(n), m, only_free);
    assert(s.take(n).take(m) =~= s.take(m));
    lemma_sum_nonneg(s.take(n).skip(m), only_free);
}

/// A prefix never sums to more than the whole sequence.
pub proof fn lemma_sum_take_le(s: Seq<Block>, i: int, only_free: bool)
    requires
        0 <= i <= s.len(),
    ensures
        sum_bytes(s.take(i), only_free) <= sum_bytes(s, only_free),
{
    lemma_sum_split(s, i, only_free);
    lemma_sum_nonneg(s.skip(i), only_free);
}

/// A free block's contribution is a lower bound on the free-byte sum.
pub proof fn lemma_free_block_le_seq_free(s: Seq<Block>, i: int)
    requires
        0 <= i < s.len(),
        s[i].free,
    ensures
        seq_free(s) >= block_bytes(s[i]),
{
    lemma_sum_split(s, i + 1, true);
    lemma_sum_take_succ(s, i, true);
    lemma_sum_nonneg(s.take(i), true);
    lemma_sum_nonneg(s.skip(i + 1), true);
}

/// Every block's consumed bytes are a lower bound on the used-byte sum.
pub proof fn lemma_block_le_seq_used(s: Seq<Block>, i: int)
    requires
        0 <= i < s.len(),
    ensures
        seq_used(s) >= sum_bytes(s.take(i), false) + block_bytes(s[i]),
{
    lemma_sum_split(s, i + 1, false);
    lemma_sum_take_succ(s, i, false);
    lemma_sum_nonneg(s.skip(i + 1), false);
}

/// Each block consumes at least a header's worth of bytes.
pub proof fn lemma_sum_lower(s: Seq<Block>)
    ensures
        sum_bytes(s, false) >= BLOCK_HEADER_SIZE * s.len(),
    decreases s.len(),
{
    if s.len() > 0 {
        lemma_sum_lower(s.drop_last());
    }
}

/// Free blocks never consume more than all blocks together.
pub proof fn lemma_free_le_used(s: Seq<Block>)
    ensures
        sum_bytes(s, true) <= sum_bytes(s, false),
    decreases s.len(),
{
    if s.len() > 0 {
        lemma_free_le_used(s.drop_last());
    }
}

/// Two neighboring blocks together are a lower bound on the used-byte sum.
pub proof fn lemma_two_blocks_le_used(s: Seq<Block>, i: int)
    requires
        0 <= i,
        i + 1 < s.len(),
    ensures
        seq_used(s) >= block_bytes(s[i]) + block_bytes(s[i + 1]),
{
    lemma_sum_split(s, i + 2, false);
    lemma_sum_take_succ(s, i + 1, false);
    lemma_sum_take_succ(s, i, false);
    lemma_sum_nonneg(s.take(i), false);
    lemma_sum_nonneg(s.skip(i + 2), false);
}

/// With every payload length a multiple of eight, the used-byte sum is too.
pub proof fn lemma_sum_mod8(s: Seq<Block>)
    requires
        forall|i: int| 0 <= i < s.len() ==> (#[trigger] s[i]).data_size % 8 == 0,
    ensures
        sum_bytes(s, false) % 8 == 0,
    decreases s.len(),
{
    if s.len() > 0 {
        assert(s.last() == s[s.len() - 1]);
        lemma_sum_mod8(s.drop_last());
    }
}

} // verus!
