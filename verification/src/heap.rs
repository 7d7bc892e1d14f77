//! Arenas (heaps) and the operations on a single arena's block list.
//!
//! An arena is one contiguous page-aligned mapping. Its header is followed by
//! a body that hosts blocks laid out contiguously in ascending address order.
//! The arena records its size class, its accounting fields and the block
//! list; the list is kept as a sequence in address order, so a block's
//! address is derived from the bytes consumed by the blocks before it.

use vstd::prelude::*;

use crate::block::{
    lemma_block_le_seq_used, lemma_free_block_le_seq_free, lemma_free_le_used, lemma_sum_insert,
    lemma_sum_lower, lemma_sum_mod8, lemma_sum_nonneg, lemma_sum_push, lemma_sum_remove,
    lemma_sum_take_le, lemma_sum_take_mono, lemma_sum_take_succ, lemma_sum_update,
    lemma_two_blocks_le_used, seq_free, seq_used, sum_bytes, Block,
};
use crate::{
    BLOCK_HEADER_SIZE, HEAP_HEADER_SIZE, PAGE_SIZE, SMALL_BLOCK_SIZE, SMALL_HEAP_ALLOCATION_SIZE,
    TINY_BLOCK_SIZE, TINY_HEAP_ALLOCATION_SIZE,
};

verus! {

/// Size class of a request or of an arena, carrying the request size that
/// produced it.
#[derive(Clone, Copy, Debug, PartialEq, Eq, Structural)]
pub enum HeapGroup {
    Tiny(usize),
    Small(usize),
    Large(usize),
}

/// Class of an (aligned) request size.
pub open spec fn spec_group_of(size: usize) -> HeapGroup {
    if size <= TINY_BLOCK_SIZE {
        HeapGroup::Tiny(size)
    } else if size <= SMALL_BLOCK_SIZE {
        HeapGroup::Small(size)
    } else {
        HeapGroup::Large(size)
    }
}

/// Total mapping size of an arena of the given class.
pub open spec fn spec_alloc_size(g: HeapGroup) -> int {
    match g {
        HeapGroup::Tiny(_) => TINY_HEAP_ALLOCATION_SIZE as int,
        HeapGroup::Small(_) => SMALL_HEAP_ALLOCATION_SIZE as int,
        HeapGroup::Large(v) => v + BLOCK_HEADER_SIZE + HEAP_HEADER_SIZE,
    }
}

/// Largest payload an in-use block of the class may have.
pub open spec fn spec_cap(g: HeapGroup) -> int {
    match g {
        HeapGroup::Tiny(_) => TINY_BLOCK_SIZE as int,
        HeapGroup::Small(_) => SMALL_BLOCK_SIZE as int,
        HeapGroup::Large(v) => v as int,
    }
}

/// Does an arena of group `g` serve aligned requests of `s` bytes? The
/// classes partition the sizes, so this holds exactly when `g` has the same
/// tag as the class of `s`.
pub open spec fn class_matches(g: HeapGroup, s: int) -> bool {
    ||| (g is Tiny && s <= TINY_BLOCK_SIZE)
    ||| (g is Small && TINY_BLOCK_SIZE < s <= SMALL_BLOCK_SIZE)
    ||| (g is Large && SMALL_BLOCK_SIZE < s)
}

impl From<usize> for HeapGroup {
    /// Classify a request size: tiny, small or large.
    fn from(value: usize) -> Self {
        if value <= TINY_BLOCK_SIZE {
            Self::Tiny(value)
        } else if value <= SMALL_BLOCK_SIZE {
            Self::Small(value)
        } else {
            Self::Large(value)
        }
    }
}

impl vstd::std_specs::convert::FromSpecImpl<usize> for HeapGroup {
    open spec fn obeys_from_spec() -> bool {
        true
    }

    open spec fn from_spec(v: usize) -> HeapGroup {
        spec_group_of(v)
    }
}

impl HeapGroup {
    /// Total mapping size of an arena of this class.
    pub fn alloc_size(&self) -> (r: usize)
        requires
            spec_alloc_size(*self) <= usize::MAX,
        ensures
            r == spec_alloc_size(*self),
    {
        match self {
            HeapGroup::Tiny(_) => TINY_HEAP_ALLOCATION_SIZE,
            HeapGroup::Small(_) => SMALL_HEAP_ALLOCATION_SIZE,
            HeapGroup::Large(v) => *v + BLOCK_HEADER_SIZE + HEAP_HEADER_SIZE,
        }
    }
}

/// Can a request of `size` bytes be served from free block `b`? Either the
/// fit is exact, or the block is big enough to be split into a `size` block
/// and a remainder block behind a header of its own.
pub open spec fn spec_fits(b: Block, size: int) -> bool {
    b.free && (b.data_size == size || b.data_size >= size + BLOCK_HEADER_SIZE)
}

/// Some block of `s` can serve a request of `size` bytes.
pub open spec fn has_fit(s: Seq<Block>, size: int) -> bool {
    exists|i: int| 0 <= i < s.len() && spec_fits(s[i], size)
}

/// `i` is the first block of `s` that can serve a request of `size` bytes.
pub open spec fn is_first_fit(s: Seq<Block>, size: int, i: int) -> bool {
    &&& 0 <= i < s.len()
    &&& spec_fits(s[i], size)
    &&& forall|j: int| 0 <= j < i ==> !spec_fits(s[j], size)
}

/// The pairwise no-two-adjacent-free-blocks condition, waived around
/// position `i` (used while a release is in progress).
pub open spec fn adjacency_except(s: Seq<Block>, i: int) -> bool {
    forall|j: int|
        0 <= j && j + 1 < s.len() && j != i - 1 && j != i ==> !((#[trigger] s[j]).free
            && s[j + 1].free)
}

/// Same condition, waived only for the pair to the left of position `i`.
pub open spec fn adjacency_except_left(s: Seq<Block>, i: int) -> bool {
    forall|j: int|
        0 <= j && j + 1 < s.len() && j != i - 1 ==> !((#[trigger] s[j]).free && s[j + 1].free)
}

/// One arena: a page-aligned mapping at `base`, of `total_size` bytes, whose
/// body hosts `blocks` contiguously in address order.
pub struct Heap {
    pub group: HeapGroup,
    pub base: usize,
    pub total_size: usize,
    pub free_size: usize,
    pub block_count: usize,
    pub blocks: Vec<Block>,
}

impl Heap {
    /// Bytes of the body, the part of the mapping behind the arena header.
    pub open spec fn body_size(self) -> int {
        self.total_size - HEAP_HEADER_SIZE
    }

    /// Bytes of the body consumed by blocks.
    pub open spec fn used(self) -> int {
        seq_used(self.blocks@)
    }

    /// Bytes of the unused region between the last block and the arena's end.
    pub open spec fn tail_free(self) -> int {
        self.body_size() - self.used()
    }

    /// Largest payload an in-use block of this arena may have.
    pub open spec fn cap(self) -> int {
        spec_cap(self.group)
    }

    /// One-past-the-end address of the mapping.
    pub open spec fn range_end(self) -> int {
        self.base + self.total_size
    }

    /// Address of the header of block `i`.
    pub open spec fn block_addr(self, i: int) -> int {
        self.base + HEAP_HEADER_SIZE + sum_bytes(self.blocks@.take(i), false)
    }

    /// User-visible address of block `i`'s payload.
    pub open spec fn payload_addr(self, i: int) -> int {
        self.block_addr(i) + BLOCK_HEADER_SIZE
    }

    /// One-past-the-end address of block `i`'s payload.
    pub open spec fn payload_end(self, i: int) -> int {
        self.payload_addr(i) + self.blocks@[i].data_size
    }

    /// Per-block conditions: payloads are 8-aligned in length, and in-use
    /// blocks respect the class cap.
    pub open spec fn blocks_wf(self) -> bool {
        &&& forall|i: int|
            0 <= i < self.blocks@.len() ==> (#[trigger] self.blocks@[i]).data_size % 8 == 0
        &&& forall|i: int|
            0 <= i < self.blocks@.len() && !(#[trigger] self.blocks@[i]).free
                ==> self.blocks@[i].data_size <= self.cap()
    }

    /// No two adjacent blocks are both free.
    pub open spec fn no_adjacent_free(self) -> bool {
        forall|i: int|
            0 <= i && i + 1 < self.blocks@.len() ==> !((#[trigger] self.blocks@[i]).free
                && self.blocks@[i + 1].free)
    }

    /// The arena invariant, except for `no_adjacent_free`.
    pub open spec fn inv_core(self) -> bool {
        &&& self.block_count == self.blocks@.len()
        &&& self.total_size == spec_alloc_size(self.group)
        &&& self.base % PAGE_SIZE == 0
        &&& self.base > 0
        &&& self.base + self.total_size <= usize::MAX
        &&& self.used() <= self.body_size()
        &&& self.free_size == self.tail_free() + seq_free(self.blocks@)
        &&& self.blocks_wf()
    }

    /// The full arena invariant.
    pub open spec fn inv(self) -> bool {
        &&& self.inv_core()
        &&& self.no_adjacent_free()
    }

    /// Can the tail region host a further block of `size` payload bytes?
    pub open spec fn spec_tail_fits(self, size: int) -> bool {
        self.used() + size + BLOCK_HEADER_SIZE <= self.body_size()
    }

    /// Can a request of `size` bytes be placed in this arena at all?
    pub open spec fn spec_can_place(self, size: int) -> bool {
        has_fit(self.blocks@, size) || self.spec_tail_fits(size)
    }

    /// A fresh arena header for a request of `size` bytes. The base address
    /// is not known yet and starts out as zero; the caller installs it when
    /// the mapping arrives.
    pub fn new(size: usize) -> (h: Heap)
        requires
            spec_alloc_size(spec_group_of(size)) <= usize::MAX,
        ensures
            h.group == spec_group_of(size),
            h.total_size == spec_alloc_size(h.group),
            h.free_size == h.total_size - HEAP_HEADER_SIZE,
            h.block_count == 0,
            h.blocks@.len() == 0,
            h.base == 0,
    {
        let gp = HeapGroup::from(size);
        let size = gp.alloc_size();
        Heap {
            group: gp,
            base: 0,
            total_size: size,
            free_size: size - HEAP_HEADER_SIZE,
            block_count: 0,
            blocks: Vec::new(),
        }
    }

    /// Bytes an arena header occupies at the start of its mapping.
    pub fn size() -> (r: usize)
        ensures
            r == HEAP_HEADER_SIZE,
    {
        HEAP_HEADER_SIZE
    }

    /// Bytes of the body consumed by blocks, computed by walking the list.
    pub fn used_bytes(&self) -> (r: usize)
        requires
            self.inv_core(),
        ensures
            r == self.used(),
    {
        let n = self.blocks.len();
        let mut sum: usize = 0;
        let mut i: usize = 0;
        while i < n
            invariant
                self.inv_core(),
                n == self.blocks@.len(),
                i <= n,
                sum == sum_bytes(self.blocks@.take(i as int), false),
            decreases n - i,
    {
            proof {
                lemma_sum_take_succ(self.blocks@, i as int, false);
                lemma_sum_take_le(self.blocks@, i as int + 1, false);
            }
            sum = sum + BLOCK_HEADER_SIZE + self.blocks[i].data_size;
            i = i + 1;
        }
        proof {
            assert(self.blocks@.take(n as int) =~= self.blocks@);
        }
        sum
    }

    /// First free block that can serve `size` bytes, if any.
    pub fn get_free_block(&self, size: usize) -> (r: Option<usize>)
        requires
            size + BLOCK_HEADER_SIZE <= usize::MAX,
        ensures
            match r {
                Some(i) => is_first_fit(self.blocks@, size as int, i as int),
                None => !has_fit(self.blocks@, size as int),
            },
    {
        let n = self.blocks.len();
        let mut i: usize = 0;
        while i < n
            invariant
                n == self.blocks@.len(),
                i <= n,
                size + BLOCK_HEADER_SIZE <= usize::MAX,
                forall|j: int| 0 <= j < i ==> !spec_fits(self.blocks@[j], size as int),
            decreases n - i,
        {
            let b = self.blocks[i];
            if b.free && (b.data_size == size || b.data_size >= size + BLOCK_HEADER_SIZE) {
                return Some(i);
            }
            i = i + 1;
        }
        None
    }

    /// Can a request of `size` bytes be placed in this arena?
    pub fn can_place(&self, size: usize) -> (r: bool)
        requires
            self.inv_core(),
            size + BLOCK_HEADER_SIZE <= usize::MAX,
        ensures
            r == self.spec_can_place(size as int),
    {
        if self.get_free_block(size).is_some() {
            return true;
        }
        let used = self.used_bytes();
        let tail = (self.total_size - HEAP_HEADER_SIZE) - used;
        if tail < BLOCK_HEADER_SIZE {
            false
        } else {
            size <= tail - BLOCK_HEADER_SIZE
        }
    }

    /// User-visible address of block `i`'s payload, computed by walking the
    /// blocks before it.
    pub fn payload_of(&self, i: usize) -> (r: usize)
        requires
            self.inv_core(),
            i < self.blocks@.len(),
        ensures
            r == self.payload_addr(i as int),
    {
        let mut off: usize = 0;
        let mut j: usize = 0;
        while j < i
            invariant
                self.inv_core(),
                j <= i,
                i < self.blocks@.len(),
                off == sum_bytes(self.blocks@.take(j as int), false),
            decreases i - j,
        {
            proof {
                lemma_sum_take_succ(self.blocks@, j as int, false);
                lemma_sum_take_le(self.blocks@, j as int + 1, false);
            }
            off = off + BLOCK_HEADER_SIZE + self.blocks[j].data_size;
            j = j + 1;
        }
        proof {
            lemma_block_le_seq_used(self.blocks@, i as int);
        }
        self.base + HEAP_HEADER_SIZE + off + BLOCK_HEADER_SIZE
    }

    /// Index of the block whose payload starts at `ptr`, if there is one.
    pub fn find_block(&self, ptr: usize) -> (r: Option<usize>)
        requires
            self.inv_core(),
        ensures
            match r {
                Some(i) => 0 <= i < self.blocks@.len() && self.payload_addr(i as int) == ptr,
                None => forall|i: int|
                    0 <= i < self.blocks@.len() ==> self.payload_addr(i) != ptr,
            },
    {
        let n = self.blocks.len();
        let mut off: usize = 0;
        let mut i: usize = 0;
        while i < n
            invariant
                self.inv_core(),
                n == self.blocks@.len(),
                i <= n,
                off == sum_bytes(self.blocks@.take(i as int), false),
                forall|j: int| 0 <= j < i ==> self.payload_addr(j) != ptr,
            decreases n - i,
        {
            proof {
                lemma_block_le_seq_used(self.blocks@, i as int);
            }
            let addr = self.base + HEAP_HEADER_SIZE + off + BLOCK_HEADER_SIZE;
            if addr == ptr {
                return Some(i);
            }
            proof {
                lemma_sum_take_succ(self.blocks@, i as int, false);
            }
            off = off + BLOCK_HEADER_SIZE + self.blocks[i].data_size;
            i = i + 1;
        }
        None
    }

    /// Install the first block of a freshly mapped arena at the body's start.
    pub fn place_first(&mut self, size: usize)
        requires
            old(self).inv(),
            old(self).blocks@.len() == 0,
            size % 8 == 0,
            size <= old(self).cap(),
            size + BLOCK_HEADER_SIZE <= old(self).body_size(),
        ensures
            final(self).inv(),
            final(self).group == old(self).group,
            final(self).base == old(self).base,
            final(self).total_size == old(self).total_size,
            final(self).free_size == old(self).free_size - size - BLOCK_HEADER_SIZE,
            final(self).block_count == 1,
            final(self).blocks@ == seq![(Block { data_size: size, free: false })],
    {
        let b = Block::new(size);
        proof {
            lemma_sum_push(self.blocks@, b, false);
            lemma_sum_push(self.blocks@, b, true);
        }
        self.blocks.push(b);
        self.free_size = self.free_size - (size + BLOCK_HEADER_SIZE);
        self.block_count = 1;
        proof {
            assert(final(self).blocks@ =~= seq![(Block { data_size: size, free: false })]);
        }
    }

    /// Serve `size` bytes from the free block at `i`: flip it to in-use on an
    /// exact fit, otherwise split it and keep the remainder free.
    pub fn alloc_at(&mut self, i: usize, size: usize)
        requires
            old(self).inv(),
            i < old(self).blocks@.len(),
            spec_fits(old(self).blocks@[i as int], size as int),
            size % 8 == 0,
            size <= old(self).cap(),
        ensures
            final(self).inv(),
            final(self).group == old(self).group,
            final(self).base == old(self).base,
            final(self).total_size == old(self).total_size,
            final(self).free_size == old(self).free_size - size - BLOCK_HEADER_SIZE,
            final(self).block_count == final(self).blocks@.len(),
            ({
                let s = old(self).blocks@;
                let b = s[i as int];
                if b.data_size == size {
                    final(self).blocks@ == s.update(
                        i as int,
                        (Block { data_size: size, free: false }),
                    )
                } else {
                    final(self).blocks@ == s.update(
                        i as int,
                        (Block { data_size: size, free: false }),
                    ).insert(
                        i as int + 1,
                        (Block {
                            data_size: (b.data_size - size - BLOCK_HEADER_SIZE) as usize,
                            free: true,
                        }),
                    )
                }
            }),
    {
        proof {
            lemma_free_block_le_seq_free(self.blocks@, i as int);
            lemma_sum_nonneg(self.blocks@, true);
        }
        let b = self.blocks[i];
        let nb = Block::new(size);
        if b.data_size == size {
            proof {
                lemma_sum_update(self.blocks@, i as int, nb, false);
                lemma_sum_update(self.blocks@, i as int, nb, true);
            }
            self.blocks[i] = nb;
        } else {
            let rem = Block { data_size: b.data_size - size - BLOCK_HEADER_SIZE, free: true };
            proof {
                lemma_sum_update(self.blocks@, i as int, nb, false);
                lemma_sum_update(self.blocks@, i as int, nb, true);
                lemma_sum_insert(self.blocks@.update(i as int, nb), i as int + 1, rem, false);
                lemma_sum_insert(self.blocks@.update(i as int, nb), i as int + 1, rem, true);
                lemma_sum_lower(self.blocks@);
            }
            self.blocks[i] = nb;
            self.blocks.insert(i + 1, rem);
            self.block_count = self.block_count + 1;
        }
        self.free_size = self.free_size - (size + BLOCK_HEADER_SIZE);
    }

    /// Append a block of `size` bytes behind the current last block, carving
    /// it out of the unused tail region.
    pub fn extend_tail(&mut self, size: usize)
        requires
            old(self).inv(),
            size % 8 == 0,
            size <= old(self).cap(),
            old(self).spec_tail_fits(size as int),
        ensures
            final(self).inv(),
            final(self).group == old(self).group,
            final(self).base == old(self).base,
            final(self).total_size == old(self).total_size,
            final(self).free_size == old(self).free_size - size - BLOCK_HEADER_SIZE,
            final(self).block_count == final(self).blocks@.len(),
            final(self).blocks@ == old(self).blocks@.push(
                (Block { data_size: size, free: false }),
            ),
    {
        let b = Block::new(size);
        proof {
            lemma_sum_push(self.blocks@, b, false);
            lemma_sum_push(self.blocks@, b, true);
            lemma_sum_nonneg(self.blocks@, true);
            lemma_sum_lower(self.blocks@);
        }
        self.blocks.push(b);
        self.block_count = self.block_count + 1;
        self.free_size = self.free_size - (size + BLOCK_HEADER_SIZE);
    }

    /// Flip the in-use block at `i` to free and give its bytes back to the
    /// arena's accounting. The no-adjacent-free condition may now be broken
    /// around `i`; the merge steps restore it.
    fn mark_free(&mut self, i: usize)
        requires
            old(self).inv(),
            i < old(self).blocks@.len(),
            !old(self).blocks@[i as int].free,
        ensures
            final(self).inv_core(),
            adjacency_except(final(self).blocks@, i as int),
            final(self).group == old(self).group,
            final(self).base == old(self).base,
            final(self).total_size == old(self).total_size,
            final(self).block_count == old(self).block_count,
            final(self).free_size == old(self).free_size + BLOCK_HEADER_SIZE + old(
                self,
            ).blocks@[i as int].data_size,
            final(self).blocks@ == old(self).blocks@.update(
                i as int,
                (Block { data_size: old(self).blocks@[i as int].data_size, free: true }),
            ),
    {
        let ds = self.blocks[i].data_size;
        let fb = Block { data_size: ds, free: true };
        proof {
            lemma_sum_update(self.blocks@, i as int, fb, false);
            lemma_sum_update(self.blocks@, i as int, fb, true);
            lemma_free_le_used(self.blocks@.update(i as int, fb));
            lemma_sum_nonneg(self.blocks@, true);
        }
        self.blocks[i] = fb;
        self.free_size = self.free_size + (ds + BLOCK_HEADER_SIZE);
    }

    /// If the block after `i` is free, absorb it into the free block at `i`.
    fn merge_right(&mut self, i: usize)
        requires
            old(self).inv_core(),
            i < old(self).blocks@.len(),
            old(self).blocks@[i as int].free,
            adjacency_except(old(self).blocks@, i as int),
        ensures
            final(self).inv_core(),
            adjacency_except_left(final(self).blocks@, i as int),
            final(self).group == old(self).group,
            final(self).base == old(self).base,
            final(self).total_size == old(self).total_size,
            final(self).free_size == old(self).free_size,
            final(self).block_count == final(self).blocks@.len(),
            i < final(self).blocks@.len(),
            final(self).blocks@[i as int].free,
            ({
                let s = old(self).blocks@;
                if i + 1 < s.len() && s[i as int + 1].free {
                    final(self).blocks@ == s.update(
                        i as int,
                        (Block {
                            data_size: (s[i as int].data_size + BLOCK_HEADER_SIZE + s[i as int
                                + 1].data_size) as usize,
                            free: true,
                        }),
                    ).remove(i as int + 1)
                } else {
                    final(self).blocks@ == s
                }
            }),
    {
        if i + 1 < self.blocks.len() {
            let nxt = self.blocks[i + 1];
            if nxt.free {
                proof {
                    lemma_two_blocks_le_used(self.blocks@, i as int);
                }
                let cur = self.blocks[i];
                let grown = Block {
                    data_size: cur.data_size + BLOCK_HEADER_SIZE + nxt.data_size,
                    free: true,
                };
                proof {
                    lemma_sum_update(self.blocks@, i as int, grown, false);
                    lemma_sum_update(self.blocks@, i as int, grown, true);
                    lemma_sum_remove(
                        self.blocks@.update(i as int, grown),
                        i as int + 1,
                        false,
                    );
                    lemma_sum_remove(self.blocks@.update(i as int, grown), i as int + 1, true);
                }
                self.blocks[i] = grown;
                let _ = self.blocks.remove(i + 1);
                self.block_count = self.block_count - 1;
            }
        }
    }

    /// If the block before `i` is free, extend it over the free block at `i`.
    /// Returns the index of the block that now carries the freed bytes.
    fn merge_left(&mut self, i: usize) -> (r: usize)
        requires
            old(self).inv_core(),
            i < old(self).blocks@.len(),
            old(self).blocks@[i as int].free,
            adjacency_except_left(old(self).blocks@, i as int),
        ensures
            final(self).inv(),
            final(self).group == old(self).group,
            final(self).base == old(self).base,
            final(self).total_size == old(self).total_size,
            final(self).free_size == old(self).free_size,
            final(self).block_count == final(self).blocks@.len(),
            r < final(self).blocks@.len(),
            final(self).blocks@[r as int].free,
            ({
                let s = old(self).blocks@;
                if i >= 1 && s[i as int - 1].free {
                    final(self).blocks@ == s.update(
                        i as int - 1,
                        (Block {
                            data_size: (s[i as int - 1].data_size + BLOCK_HEADER_SIZE + s[i as int
                                ].data_size) as usize,
                            free: true,
                        }),
                    ).remove(i as int) && r == i - 1
                } else {
                    final(self).blocks@ == s && r == i
                }
            }),
    {
        if i >= 1 {
            let prev = self.blocks[i - 1];
            if prev.free {
                proof {
                    lemma_two_blocks_le_used(self.blocks@, i as int - 1);
                }
                let cur = self.blocks[i];
                let grown = Block {
                    data_size: prev.data_size + BLOCK_HEADER_SIZE + cur.data_size,
                    free: true,
                };
                proof {
                    lemma_sum_update(self.blocks@, i as int - 1, grown, false);
                    lemma_sum_update(self.blocks@, i as int - 1, grown, true);
                    lemma_sum_remove(self.blocks@.update(i as int - 1, grown), i as int, false);
                    lemma_sum_remove(self.blocks@.update(i as int - 1, grown), i as int, true);
                }
                self.blocks[i - 1] = grown;
                let _ = self.blocks.remove(i);
                self.block_count = self.block_count - 1;
                return i - 1;
            }
        }
        i
    }
}

/// An arena holding exactly one block, which is free: nothing in it is live,
/// and it is a candidate for reclamation.
pub open spec fn heap_is_empty(h: Heap) -> bool {
    h.blocks@.len() == 1 && h.blocks@[0].free
}

/// What one arena looks like after a request of `s` aligned bytes was placed
/// in it, and which payload address `r` the placement returned: the first
/// fitting free block is reused (split unless the fit is exact), and with no
/// fitting free block the block list is extended into the tail region.
pub open spec fn heap_place_post(h: Heap, h1: Heap, s: int, r: int) -> bool {
    &&& h1.group == h.group
    &&& h1.base == h.base
    &&& h1.total_size == h.total_size
    &&& h1.free_size == h.free_size - s - BLOCK_HEADER_SIZE
    &&& h1.block_count == h1.blocks@.len()
    &&& if has_fit(h.blocks@, s) {
        exists|i: int| #[trigger] heap_place_post_at(h, h1, s, r, i)
    } else {
        &&& h1.blocks@ == h.blocks@.push(Block { data_size: s as usize, free: false })
        &&& r == h.base + HEAP_HEADER_SIZE + seq_used(h.blocks@) + BLOCK_HEADER_SIZE
    }
}

/// The placement reused the free block at index `i`.
pub open spec fn heap_place_post_at(h: Heap, h1: Heap, s: int, r: int, i: int) -> bool {
    &&& is_first_fit(h.blocks@, s, i)
    &&& r == h.payload_addr(i)
    &&& if h.blocks@[i].data_size == s {
        h1.blocks@ == h.blocks@.update(i, Block { data_size: s as usize, free: false })
    } else {
        h1.blocks@ == h.blocks@.update(i, Block { data_size: s as usize, free: false }).insert(
            i + 1,
            Block {
                data_size: (h.blocks@[i].data_size - s - BLOCK_HEADER_SIZE) as usize,
                free: true,
            },
        )
    }
}

impl Heap {
    /// Place a request of `s` aligned bytes in this arena: reuse the first
    /// fitting free block, or extend the block list into the tail region.
    /// Returns the payload address of the placed block.
    pub fn place(&mut self, s: usize) -> (r: usize)
        requires
            old(self).inv(),
            old(self).blocks@.len() >= 1,
            old(self).spec_can_place(s as int),
            class_matches(old(self).group, s as int),
            s % 8 == 0,
            s + BLOCK_HEADER_SIZE <= usize::MAX,
        ensures
            final(self).inv(),
            final(self).blocks@.len() >= 1,
            !heap_is_empty(*final(self)),
            heap_place_post(*old(self), *final(self), s as int, r as int),
            r % 8 == 0,
            r > 0,
    {
        let ghost h0 = *self;
        proof {
            lemma_sum_nonneg(self.blocks@, false);
        }
        match self.get_free_block(s) {
            Some(i) => {
                proof {
                    // the class cap on the placed block: tiny and small caps
                    // come with the class match, a large arena bounds its
                    // blocks by its own body
                    lemma_block_le_seq_used(self.blocks@, i as int);
                    lemma_sum_nonneg(self.blocks@.take(i as int), false);
                    assert(s as int <= self.cap());
                }
                self.alloc_at(i, s);
                proof {
                    assert(self.blocks@.take(i as int) =~= h0.blocks@.take(i as int));
                }
                let r = self.payload_of(i);
                proof {
                    self.lemma_payload_aligned(i as int);
                    assert(spec_fits(h0.blocks@[i as int], s as int));
                    assert(heap_place_post_at(h0, *self, s as int, r as int, i as int));
                    assert(heap_place_post(h0, *self, s as int, r as int));
                }
                r
            },
            None => {
                let n = self.blocks.len();
                proof {
                    assert(self.spec_tail_fits(s as int));
                    assert(s as int <= self.cap());
                }
                self.extend_tail(s);
                proof {
                    assert(self.blocks@.take(n as int) =~= h0.blocks@);
                }
                let r = self.payload_of(n);
                proof {
                    self.lemma_payload_aligned(n as int);
                    assert(heap_place_post(h0, *self, s as int, r as int));
                }
                r
            },
        }
    }
}

/// A page-aligned address is 8-aligned.
pub proof fn lemma_page_aligned_8(base: int)
    requires
        base % (PAGE_SIZE as int) == 0,
        base >= 0,
    ensures
        base % 8 == 0,
{
    vstd::arithmetic::div_mod::lemma_fundamental_div_mod(base, PAGE_SIZE as int);
    let q = base / (PAGE_SIZE as int);
    vstd::arithmetic::div_mod::lemma_mod_multiples_basic(512 * q, 8);
    assert(4096 * q == (512 * q) * 8) by (nonlinear_arith);
}

impl Heap {
    /// Every block's payload lies strictly between the arena header's end
    /// and the arena's end.
    pub proof fn lemma_payload_in_range(self, i: int)
        requires
            self.inv_core(),
            0 <= i < self.blocks@.len(),
        ensures
            self.base + HEAP_HEADER_SIZE < self.payload_addr(i),
            self.payload_end(i) <= self.base + self.total_size,
    {
        lemma_sum_nonneg(self.blocks@.take(i), false);
        lemma_sum_take_succ(self.blocks@, i, false);
        lemma_sum_take_le(self.blocks@, i + 1, false);
    }

    /// Block addresses strictly increase with the position in the list.
    pub proof fn lemma_addr_mono(self, i: int, j: int)
        requires
            self.inv_core(),
            0 <= i < j <= self.blocks@.len(),
        ensures
            self.block_addr(i) + BLOCK_HEADER_SIZE + self.blocks@[i].data_size <= self.block_addr(
                j,
            ),
            self.block_addr(i) < self.block_addr(j),
    {
        lemma_sum_take_succ(self.blocks@, i, false);
        lemma_sum_take_mono(self.blocks@, i + 1, j, false);
    }

    /// Payload addresses in a well-formed arena are 8-aligned and non-null.
    pub proof fn lemma_payload_aligned(self, i: int)
        requires
            self.inv_core(),
            0 <= i < self.blocks@.len(),
        ensures
            self.payload_addr(i) % 8 == 0,
            self.payload_addr(i) > 0,
    {
        lemma_page_aligned_8(self.base as int);
        assert(forall|j: int|
            0 <= j < self.blocks@.take(i).len() ==> (#[trigger] self.blocks@.take(
                i,
            )[j]).data_size % 8 == 0);
        lemma_sum_mod8(self.blocks@.take(i));
        lemma_sum_nonneg(self.blocks@.take(i), false);
        let sum = sum_bytes(self.blocks@.take(i), false);
        vstd::arithmetic::div_mod::lemma_add_mod_noop(
            self.base as int,
            HEAP_HEADER_SIZE as int,
            8,
        );
        vstd::arithmetic::div_mod::lemma_add_mod_noop(
            self.base + HEAP_HEADER_SIZE,
            sum,
            8,
        );
        vstd::arithmetic::div_mod::lemma_add_mod_noop(
            self.base + HEAP_HEADER_SIZE + sum,
            BLOCK_HEADER_SIZE as int,
            8,
        );
    }
}

/// The block sequence after the in-use block at `i` is freed and coalesced
/// with its free neighbors.
pub open spec fn blocks_after_release(s: Seq<Block>, i: int) -> Seq<Block> {
    let s1 = if i + 1 < s.len() && s[i + 1].free {
        s.update(
            i,
            Block {
                data_size: (s[i].data_size + BLOCK_HEADER_SIZE + s[i + 1].data_size) as usize,
                free: true,
            },
        ).remove(i + 1)
    } else {
        s.update(i, Block { data_size: s[i].data_size, free: true })
    };
    if i >= 1 && s[i - 1].free {
        s1.update(
            i - 1,
            Block {
                data_size: (s[i - 1].data_size + BLOCK_HEADER_SIZE + s1[i].data_size) as usize,
                free: true,
            },
        ).remove(i)
    } else {
        s1
    }
}

impl Heap {
    /// Free the in-use block at `i`, give its bytes back to the accounting,
    /// and coalesce it with free neighbors.
    pub fn release_at(&mut self, i: usize)
        requires
            old(self).inv(),
            i < old(self).blocks@.len(),
            !old(self).blocks@[i as int].free,
        ensures
            final(self).inv(),
            final(self).group == old(self).group,
            final(self).base == old(self).base,
            final(self).total_size == old(self).total_size,
            final(self).free_size == old(self).free_size + BLOCK_HEADER_SIZE + old(
                self,
            ).blocks@[i as int].data_size,
            final(self).block_count == final(self).blocks@.len(),
            final(self).blocks@ == blocks_after_release(old(self).blocks@, i as int),
    {
        self.mark_free(i);
        self.merge_right(i);
        let _ = self.merge_left(i);
        proof {
            let s = old(self).blocks@;
            let marked = s.update(
                i as int,
                Block { data_size: s[i as int].data_size, free: true },
            );
            if i + 1 < s.len() && s[i as int + 1].free {
                assert(marked.update(
                    i as int,
                    Block {
                        data_size: (s[i as int].data_size + BLOCK_HEADER_SIZE + s[i as int
                            + 1].data_size) as usize,
                        free: true,
                    },
                ) =~= s.update(
                    i as int,
                    Block {
                        data_size: (s[i as int].data_size + BLOCK_HEADER_SIZE + s[i as int
                            + 1].data_size) as usize,
                        free: true,
                    },
                ));
            }
        }
    }
}

} // verus!

