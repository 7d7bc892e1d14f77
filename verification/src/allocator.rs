//! The allocator: an arena list, a list of dedicated large mappings, and the
//! `malloc` / `free` operations over them.
//!
//! The allocator itself never maps or unmaps pages. `map_request` says how
//! many bytes of fresh mapping the next `malloc` needs, the caller obtains
//! the mapping and hands its base address to `malloc`, and `free` tells the
//! caller which region, if any, can be returned to the system.

use vstd::prelude::*;

use crate::block::{seq_used, Block};
use crate::heap::{
    blocks_after_release, class_matches, heap_is_empty, heap_place_post, spec_alloc_size,
    spec_group_of, Heap, HeapGroup,
};
use crate::{align, BLOCK_HEADER_SIZE, HEAP_HEADER_SIZE, PAGE_SIZE, SMALL_HEAP_ALLOCATION_SIZE};

verus! {

/// A dedicated mapping that serves one allocation larger than any arena
/// class: a block header at `base`, the payload right behind it.
#[derive(Clone, Copy, Debug)]
pub struct LargeAlloc {
    pub base: usize,
    pub data_size: usize,
}

impl LargeAlloc {
    /// Bytes of the whole mapping.
    pub open spec fn map_len(self) -> int {
        BLOCK_HEADER_SIZE + self.data_size
    }

    /// The user-visible address.
    pub open spec fn payload(self) -> int {
        self.base + BLOCK_HEADER_SIZE
    }

    /// One-past-the-end address of the mapping.
    pub open spec fn range_end(self) -> int {
        self.base + self.map_len()
    }

    pub open spec fn wf(self) -> bool {
        &&& self.data_size % 8 == 0
        &&& self.data_size > SMALL_HEAP_ALLOCATION_SIZE
        &&& self.base % PAGE_SIZE == 0
        &&& self.base > 0
        &&& self.base + self.map_len() <= usize::MAX
    }
}

/// Two half-open address ranges do not overlap.
pub open spec fn ranges_disjoint(s1: int, e1: int, s2: int, e2: int) -> bool {
    e1 <= s2 || e2 <= s1
}

/// The value `size` rounds up to at 8-byte alignment.
pub open spec fn spec_align8(size: int) -> int {
    if size % 8 == 0 {
        size
    } else {
        size + 8 - size % 8
    }
}

/// The whole allocator: the arena list (front is the list head) and the
/// dedicated large mappings.
pub struct Allocator {
    pub heaps: Vec<Heap>,
    pub larges: Vec<LargeAlloc>,
}

impl Allocator {
    /// Every arena satisfies its invariant and hosts at least one block.
    pub open spec fn heaps_wf(self) -> bool {
        &&& forall|k: int| 0 <= k < self.heaps@.len() ==> (#[trigger] self.heaps@[k]).inv()
        &&& forall|k: int|
            0 <= k < self.heaps@.len() ==> (#[trigger] self.heaps@[k]).blocks@.len() >= 1
    }

    /// The arenas' mappings do not overlap.
    pub open spec fn heaps_disjoint(self) -> bool {
        forall|k1: int, k2: int|
            0 <= k1 < self.heaps@.len() && 0 <= k2 < self.heaps@.len() && k1 != k2
                ==> ranges_disjoint(
                (#[trigger] self.heaps@[k1]).base as int,
                self.heaps@[k1].range_end(),
                (#[trigger] self.heaps@[k2]).base as int,
                self.heaps@[k2].range_end(),
            )
    }

    /// Every large mapping is well-formed.
    pub open spec fn larges_wf(self) -> bool {
        forall|j: int| 0 <= j < self.larges@.len() ==> (#[trigger] self.larges@[j]).wf()
    }

    /// The large mappings do not overlap.
    pub open spec fn larges_disjoint(self) -> bool {
        forall|j1: int, j2: int|
            0 <= j1 < self.larges@.len() && 0 <= j2 < self.larges@.len() && j1 != j2
                ==> ranges_disjoint(
                (#[trigger] self.larges@[j1]).base as int,
                self.larges@[j1].range_end(),
                (#[trigger] self.larges@[j2]).base as int,
                self.larges@[j2].range_end(),
            )
    }

    /// No arena overlaps a large mapping.
    pub open spec fn heaps_larges_disjoint(self) -> bool {
        forall|k: int, j: int|
            0 <= k < self.heaps@.len() && 0 <= j < self.larges@.len() ==> ranges_disjoint(
                (#[trigger] self.heaps@[k]).base as int,
                self.heaps@[k].range_end(),
                (#[trigger] self.larges@[j]).base as int,
                self.larges@[j].range_end(),
            )
    }

    /// At most one arena is reclamation-eligible at any time; releases
    /// reclaim an emptied arena at once unless it is the only one left.
    pub open spec fn at_most_one_empty(self) -> bool {
        forall|k1: int, k2: int|
            0 <= k1 < self.heaps@.len() && 0 <= k2 < self.heaps@.len() && heap_is_empty(
                #[trigger] self.heaps@[k1],
            ) && heap_is_empty(#[trigger] self.heaps@[k2]) ==> k1 == k2
    }

    /// The allocator invariant.
    pub open spec fn wf(self) -> bool {
        &&& self.heaps_wf()
        &&& self.heaps_disjoint()
        &&& self.larges_wf()
        &&& self.larges_disjoint()
        &&& self.heaps_larges_disjoint()
        &&& self.at_most_one_empty()
    }

    /// `ptr` is the payload address of block `i` of arena `k`.
    pub open spec fn is_payload(self, k: int, i: int, ptr: int) -> bool {
        &&& 0 <= k < self.heaps@.len()
        &&& 0 <= i < self.heaps@[k].blocks@.len()
        &&& self.heaps@[k].payload_addr(i) == ptr
    }

    /// Some arena block's payload starts at `ptr`.
    pub open spec fn owns(self, ptr: int) -> bool {
        exists|k: int, i: int| self.is_payload(k, i, ptr)
    }

    /// Some block of arena `k` has its payload at `ptr`.
    pub open spec fn heap_owns(self, k: int, ptr: int) -> bool {
        exists|i: int| self.is_payload(k, i, ptr)
    }

    /// `ptr` is the payload address of large mapping `j`.
    pub open spec fn is_large_payload(self, j: int, ptr: int) -> bool {
        &&& 0 <= j < self.larges@.len()
        &&& self.larges@[j].payload() == ptr
    }

    /// Some large mapping's payload starts at `ptr`.
    pub open spec fn owns_large(self, ptr: int) -> bool {
        exists|j: int| self.is_large_payload(j, ptr)
    }

    /// The range `[base, base + len)` overlaps nothing the allocator tracks.
    pub open spec fn range_unused(self, base: int, len: int) -> bool {
        &&& forall|k: int|
            0 <= k < self.heaps@.len() ==> ranges_disjoint(
                base,
                base + len,
                (#[trigger] self.heaps@[k]).base as int,
                self.heaps@[k].range_end(),
            )
        &&& forall|j: int|
            0 <= j < self.larges@.len() ==> ranges_disjoint(
                base,
                base + len,
                (#[trigger] self.larges@[j]).base as int,
                self.larges@[j].range_end(),
            )
    }

    /// What `malloc` demands of a fresh mapping of `len` bytes at `base`:
    /// page alignment, a non-null base, no address-space wraparound, and
    /// disjointness from everything already tracked.
    pub open spec fn page_ok(self, base: int, len: int) -> bool {
        &&& base % (PAGE_SIZE as int) == 0
        &&& base > 0
        &&& base + len <= usize::MAX
        &&& self.range_unused(base, len)
    }

    /// Arena `k` can serve an aligned request of `s` bytes: same class, and
    /// a free block fits or the tail region does.
    pub open spec fn suitable(self, k: int, s: int) -> bool {
        &&& class_matches(self.heaps@[k].group, s)
        &&& self.heaps@[k].spec_can_place(s)
    }

    /// Some arena can serve an aligned request of `s` bytes.
    pub open spec fn has_suitable(self, s: int) -> bool {
        exists|k: int| 0 <= k < self.heaps@.len() && self.suitable(k, s)
    }

    /// `k` is the first arena that can serve an aligned request of `s` bytes.
    pub open spec fn is_first_suitable(self, s: int, k: int) -> bool {
        &&& 0 <= k < self.heaps@.len()
        &&& self.suitable(k, s)
        &&& forall|k2: int| 0 <= k2 < k ==> !self.suitable(k2, s)
    }

    /// Bytes of fresh mapping the next `malloc(size)` needs, if any: the
    /// dedicated mapping for a large request, nothing when an arena can
    /// serve the request, and a fresh arena of the class otherwise.
    pub open spec fn spec_map_request(self, size: int) -> Option<int> {
        let s = spec_align8(size);
        if s > SMALL_HEAP_ALLOCATION_SIZE {
            Some(s + BLOCK_HEADER_SIZE)
        } else if self.has_suitable(s) {
            None
        } else {
            Some(spec_alloc_size(spec_group_of(s as usize)))
        }
    }

    /// A fresh, empty allocator.
    pub fn new() -> (a: Allocator)
        ensures
            a.wf(),
            a.heaps@.len() == 0,
            a.larges@.len() == 0,
    {
        Allocator { heaps: Vec::new(), larges: Vec::new() }
    }

    /// Does `[base, base + len)` overlap anything the allocator tracks?
    /// Fresh mappings handed to `malloc` must pass this test.
    pub fn is_region_unused(&self, base: usize, len: usize) -> (r: bool)
        requires
            base + len <= usize::MAX,
        ensures
            r == self.range_unused(base as int, len as int),
    {
        let hn = self.heaps.len();
        let mut k: usize = 0;
        while k < hn
            invariant
                hn == self.heaps@.len(),
                k <= hn,
                base + len <= usize::MAX,
                forall|k2: int|
                    0 <= k2 < k ==> ranges_disjoint(
                        base as int,
                        base + len,
                        (#[trigger] self.heaps@[k2]).base as int,
                        self.heaps@[k2].range_end(),
                    ),
            decreases hn - k,
        {
            let h = &self.heaps[k];
            if !(base + len <= h.base || h.base <= usize::MAX - h.total_size && h.base
                + h.total_size <= base) {
                return false;
            }
            k = k + 1;
        }
        let ln = self.larges.len();
        let mut j: usize = 0;
        while j < ln
            invariant
                ln == self.larges@.len(),
                j <= ln,
                base + len <= usize::MAX,
                forall|k2: int|
                    0 <= k2 < self.heaps@.len() ==> ranges_disjoint(
                        base as int,
                        base + len,
                        (#[trigger] self.heaps@[k2]).base as int,
                        self.heaps@[k2].range_end(),
                    ),
                forall|j2: int|
                    0 <= j2 < j ==> ranges_disjoint(
                        base as int,
                        base + len,
                        (#[trigger] self.larges@[j2]).base as int,
                        self.larges@[j2].range_end(),
                    ),
            decreases ln - j,
        {
            let la = &self.larges[j];
            let end_ok = la.base <= usize::MAX - BLOCK_HEADER_SIZE && la.base + BLOCK_HEADER_SIZE
                <= usize::MAX - la.data_size;
            if !(base + len <= la.base || end_ok && la.base + BLOCK_HEADER_SIZE + la.data_size
                <= base) {
                return false;
            }
            j = j + 1;
        }
        true
    }

    /// Index and block index of the arena block whose payload starts at
    /// `ptr`, if there is one.
    pub fn lookup(&self, ptr: usize) -> (r: Option<(usize, usize)>)
        requires
            self.wf(),
        ensures
            match r {
                Some(ki) => self.is_payload(ki.0 as int, ki.1 as int, ptr as int),
                None => !self.owns(ptr as int),
            },
    {
        let n = self.heaps.len();
        let mut k: usize = 0;
        while k < n
            invariant
                self.wf(),
                n == self.heaps@.len(),
                k <= n,
                forall|k2: int, i: int|
                    0 <= k2 < k && 0 <= i < self.heaps@[k2].blocks@.len()
                        ==> #[trigger] self.heaps@[k2].payload_addr(i) != ptr,
            decreases n - k,
        {
            match self.heaps[k].find_block(ptr) {
                Some(i) => {
                    return Some((k, i));
                },
                None => {},
            }
            k = k + 1;
        }
        proof {
            assert(!self.owns(ptr as int)) by {
                assert forall|k2: int, i: int| !self.is_payload(k2, i, ptr as int) by {}
            }
        }
        None
    }

    /// The arena owning the block whose payload starts at `ptr`, if any.
    pub fn parent_heap(&self, ptr: usize) -> (r: Option<usize>)
        requires
            self.wf(),
        ensures
            match r {
                Some(k) => self.heap_owns(k as int, ptr as int),
                None => !self.owns(ptr as int),
            },
    {
        match self.lookup(ptr) {
            Some((k, i)) => {
                proof {
                    assert(self.is_payload(k as int, i as int, ptr as int));
                    assert(self.heap_owns(k as int, ptr as int));
                }
                Some(k)
            },
            None => None,
        }
    }

    /// Index of the large mapping whose payload starts at `ptr`, if any.
    fn find_large(&self, ptr: usize) -> (r: Option<usize>)
        requires
            self.wf(),
        ensures
            match r {
                Some(j) => self.is_large_payload(j as int, ptr as int),
                None => !self.owns_large(ptr as int),
            },
    {
        let n = self.larges.len();
        let mut j: usize = 0;
        while j < n
            invariant
                self.wf(),
                n == self.larges@.len(),
                j <= n,
                forall|j2: int| 0 <= j2 < j ==> (#[trigger] self.larges@[j2]).payload() != ptr,
            decreases n - j,
        {
            let la = &self.larges[j];
            if la.base + BLOCK_HEADER_SIZE == ptr {
                return Some(j);
            }
            j = j + 1;
        }
        None
    }

    /// First arena that can serve an aligned request of `s` bytes.
    fn find_suitable(&self, s: usize) -> (r: Option<usize>)
        requires
            self.wf(),
            s + BLOCK_HEADER_SIZE <= usize::MAX,
        ensures
            match r {
                Some(k) => self.is_first_suitable(s as int, k as int),
                None => !self.has_suitable(s as int),
            },
    {
        let n = self.heaps.len();
        let mut k: usize = 0;
        while k < n
            invariant
                self.wf(),
                n == self.heaps@.len(),
                k <= n,
                s + BLOCK_HEADER_SIZE <= usize::MAX,
                forall|k2: int| 0 <= k2 < k ==> !self.suitable(k2, s as int),
            decreases n - k,
        {
            let h = &self.heaps[k];
            let m = match &h.group {
                HeapGroup::Tiny(_) => s <= crate::TINY_BLOCK_SIZE,
                HeapGroup::Small(_) => s > crate::TINY_BLOCK_SIZE && s <= crate::SMALL_BLOCK_SIZE,
                HeapGroup::Large(_) => s > crate::SMALL_BLOCK_SIZE,
            };
            if m && h.can_place(s) {
                return Some(k);
            }
            k = k + 1;
        }
        None
    }

    /// Bytes of fresh mapping the next `malloc(size)` needs, if any.
    pub fn map_request(&self, size: usize) -> (r: Option<usize>)
        requires
            self.wf(),
            size + BLOCK_HEADER_SIZE + 7 <= usize::MAX,
        ensures
            match r {
                Some(l) => self.spec_map_request(size as int) == Some(l as int),
                None => self.spec_map_request(size as int) is None,
            },
    {
        let s = align(8, size);
        proof {
            lemma_align8_agrees(size as int, s as int);
        }
        if s > SMALL_HEAP_ALLOCATION_SIZE {
            Some(s + BLOCK_HEADER_SIZE)
        } else if self.find_suitable(s).is_some() {
            None
        } else {
            let gp = HeapGroup::from(s);
            Some(gp.alloc_size())
        }
    }
}

/// The allocator invariant survives replacing one arena by a version with
/// the same mapping, as long as that arena does not become a second
/// reclamation candidate.
proof fn lemma_wf_update_heap(a: Allocator, b: Allocator, k: int)
    requires
        a.wf(),
        0 <= k < a.heaps@.len(),
        b.larges@ == a.larges@,
        b.heaps@.len() == a.heaps@.len(),
        forall|k2: int| 0 <= k2 < a.heaps@.len() && k2 != k ==> b.heaps@[k2] == a.heaps@[k2],
        b.heaps@[k].inv(),
        b.heaps@[k].blocks@.len() >= 1,
        b.heaps@[k].base == a.heaps@[k].base,
        b.heaps@[k].total_size == a.heaps@[k].total_size,
        !heap_is_empty(b.heaps@[k]) || b.heaps@.len() == 1,
    ensures
        b.wf(),
{
    assert forall|k1: int, k2: int|
        0 <= k1 < b.heaps@.len() && 0 <= k2 < b.heaps@.len() && k1 != k2 implies ranges_disjoint(
        (b.heaps@[k1]).base as int,
        b.heaps@[k1].range_end(),
        (b.heaps@[k2]).base as int,
        b.heaps@[k2].range_end(),
    ) by {
        assert(b.heaps@[k1].base == a.heaps@[k1].base && b.heaps@[k1].total_size
            == a.heaps@[k1].total_size);
        assert(b.heaps@[k2].base == a.heaps@[k2].base && b.heaps@[k2].total_size
            == a.heaps@[k2].total_size);
    }
    assert forall|k1: int, j: int|
        0 <= k1 < b.heaps@.len() && 0 <= j < b.larges@.len() implies ranges_disjoint(
        (b.heaps@[k1]).base as int,
        b.heaps@[k1].range_end(),
        (b.larges@[j]).base as int,
        b.larges@[j].range_end(),
    ) by {
        assert(b.heaps@[k1].base == a.heaps@[k1].base && b.heaps@[k1].total_size
            == a.heaps@[k1].total_size);
    }
    assert forall|k1: int, k2: int|
        0 <= k1 < b.heaps@.len() && 0 <= k2 < b.heaps@.len() && heap_is_empty(b.heaps@[k1])
            && heap_is_empty(b.heaps@[k2]) implies k1 == k2 by {
        if k1 != k2 {
            assert(k1 != k || k2 != k);
            if k1 != k && k2 != k {
                assert(heap_is_empty(a.heaps@[k1]) && heap_is_empty(a.heaps@[k2]));
            }
        }
    }
}

/// The allocator invariant survives dropping one arena from the list.
proof fn lemma_wf_remove_heap(a: Allocator, b: Allocator, k: int)
    requires
        a.wf(),
        0 <= k < a.heaps@.len(),
        b.larges@ == a.larges@,
        b.heaps@ == a.heaps@.remove(k),
    ensures
        b.wf(),
{
    assert(forall|k2: int|
        0 <= k2 < b.heaps@.len() ==> b.heaps@[k2] == a.heaps@[
            if k2 < k {
                k2
            } else {
                k2 + 1
            }
        ]);
}

/// The allocator invariant survives dropping one large mapping.
proof fn lemma_wf_remove_large(a: Allocator, b: Allocator, j: int)
    requires
        a.wf(),
        0 <= j < a.larges@.len(),
        b.heaps@ == a.heaps@,
        b.larges@ == a.larges@.remove(j),
    ensures
        b.wf(),
{
    assert(forall|j2: int|
        0 <= j2 < b.larges@.len() ==> b.larges@[j2] == a.larges@[
            if j2 < j {
                j2
            } else {
                j2 + 1
            }
        ]);
}

/// The allocator invariant survives prepending a fresh, non-empty arena on
/// an unused mapping.
proof fn lemma_wf_insert_heap(a: Allocator, b: Allocator)
    requires
        a.wf(),
        b.larges@ == a.larges@,
        b.heaps@.len() == a.heaps@.len() + 1,
        forall|k2: int| 0 <= k2 < a.heaps@.len() ==> b.heaps@[k2 + 1] == a.heaps@[k2],
        b.heaps@[0].inv(),
        b.heaps@[0].blocks@.len() >= 1,
        !heap_is_empty(b.heaps@[0]),
        a.range_unused(b.heaps@[0].base as int, b.heaps@[0].total_size as int),
    ensures
        b.wf(),
{
    assert(forall|k2: int|
        1 <= k2 < b.heaps@.len() ==> b.heaps@[k2] == a.heaps@[k2 - 1]);
}

/// The allocator invariant survives adding a large mapping on unused space.
proof fn lemma_wf_push_large(a: Allocator, b: Allocator, la: LargeAlloc)
    requires
        a.wf(),
        b.heaps@ == a.heaps@,
        b.larges@ == a.larges@.push(la),
        la.wf(),
        a.range_unused(la.base as int, la.map_len()),
    ensures
        b.wf(),
{
    assert(forall|j2: int|
        0 <= j2 < a.larges@.len() ==> b.larges@[j2] == a.larges@[j2]);
    assert(b.larges@[a.larges@.len() as int] == la);
}

/// What a freshly created arena looks like: standard mapping for its class
/// at `base`, holding exactly the one block that serves the request.
pub open spec fn fresh_heap_post(h: Heap, base: int, s: int) -> bool {
    &&& h.group == spec_group_of(s as usize)
    &&& h.base == base
    &&& h.total_size == spec_alloc_size(h.group)
    &&& h.free_size == h.total_size - HEAP_HEADER_SIZE - s - BLOCK_HEADER_SIZE
    &&& h.block_count == 1
    &&& h.blocks@ == seq![(Block { data_size: s as usize, free: false })]
}

/// A fresh arena for an aligned request of `s` bytes, on the mapping at
/// `base`, with the block that serves the request already placed.
pub fn create_heap(s: usize, base: usize) -> (h: Heap)
    requires
        s % 8 == 0,
        s as int <= SMALL_HEAP_ALLOCATION_SIZE,
        base % PAGE_SIZE == 0,
        base > 0,
        base + spec_alloc_size(spec_group_of(s)) <= usize::MAX,
    ensures
        h.inv(),
        h.blocks@.len() >= 1,
        !heap_is_empty(h),
        fresh_heap_post(h, base as int, s as int),
{
    let mut h = Heap::new(s);
    h.base = base;
    proof {
        assert(seq_used(h.blocks@) == 0);
        assert(crate::block::seq_free(h.blocks@) == 0);
        assert(h.inv());
    }
    h.place_first(s);
    h
}

/// The request was placed in arena `k`, the first suitable one.
pub open spec fn malloc_post_at(a: Allocator, b: Allocator, s: int, r: int, k: int) -> bool {
    &&& a.is_first_suitable(s, k)
    &&& heap_place_post(a.heaps@[k], b.heaps@[k], s, r)
    &&& forall|k2: int| 0 <= k2 < a.heaps@.len() && k2 != k ==> b.heaps@[k2] == a.heaps@[k2]
}

/// Everything `malloc` does, as a relation between the allocator before
/// (`a`) and after (`b`) the call, the request `size`, the fresh mapping it
/// was handed and the returned payload address `r`.
pub open spec fn malloc_post(
    a: Allocator,
    b: Allocator,
    size: int,
    page: Option<usize>,
    r: int,
) -> bool {
    let s = spec_align8(size);
    if s > SMALL_HEAP_ALLOCATION_SIZE {
        &&& page is Some
        &&& b.heaps@ == a.heaps@
        &&& b.larges@ == a.larges@.push(
            LargeAlloc { base: page->Some_0, data_size: s as usize },
        )
        &&& r == page->Some_0 + BLOCK_HEADER_SIZE
    } else if a.has_suitable(s) {
        &&& b.larges@ == a.larges@
        &&& b.heaps@.len() == a.heaps@.len()
        &&& exists|k: int| #[trigger] malloc_post_at(a, b, s, r, k)
    } else {
        &&& page is Some
        &&& b.larges@ == a.larges@
        &&& b.heaps@.len() == a.heaps@.len() + 1
        &&& forall|k: int| 0 <= k < a.heaps@.len() ==> b.heaps@[k + 1] == a.heaps@[k]
        &&& fresh_heap_post(b.heaps@[0], page->Some_0 as int, s)
        &&& r == page->Some_0 + HEAP_HEADER_SIZE + BLOCK_HEADER_SIZE
    }
}

impl Allocator {
    /// The large fast path: record the dedicated mapping at `base` and
    /// return the address right behind the block header.
    fn malloc_large(&mut self, s: usize, base: usize) -> (r: usize)
        requires
            old(self).wf(),
            s % 8 == 0,
            s as int > SMALL_HEAP_ALLOCATION_SIZE,
            s + BLOCK_HEADER_SIZE <= usize::MAX,
            old(self).page_ok(base as int, s + BLOCK_HEADER_SIZE),
        ensures
            final(self).wf(),
            final(self).heaps@ == old(self).heaps@,
            final(self).larges@ == old(self).larges@.push(
                (LargeAlloc { base, data_size: s }),
            ),
            r == base + BLOCK_HEADER_SIZE,
            r % 8 == 0,
            r > 0,
    {
        let la = LargeAlloc { base, data_size: s };
        self.larges.push(la);
        proof {
            lemma_wf_push_large(*old(self), *self, la);
            crate::heap::lemma_page_aligned_8(base as int);
        }
        base + BLOCK_HEADER_SIZE
    }

    /// Place an aligned request of `s` bytes in arena `k`.
    fn malloc_in_heap(&mut self, k: usize, s: usize) -> (r: usize)
        requires
            old(self).wf(),
            old(self).is_first_suitable(s as int, k as int),
            s % 8 == 0,
            s + BLOCK_HEADER_SIZE <= usize::MAX,
        ensures
            final(self).wf(),
            final(self).larges@ == old(self).larges@,
            final(self).heaps@.len() == old(self).heaps@.len(),
            malloc_post_at(*old(self), *final(self), s as int, r as int, k as int),
            r % 8 == 0,
            r > 0,
    {
        let mut h = self.heaps.remove(k);
        let ghost h0 = h;
        let r = h.place(s);
        let ghost h1 = h;
        self.heaps.insert(k, h);
        proof {
            assert(forall|k2: int|
                0 <= k2 < old(self).heaps@.len() && k2 != k ==> self.heaps@[k2] == old(
                    self,
                ).heaps@[k2]);
            lemma_wf_update_heap(*old(self), *self, k as int);
            assert(heap_place_post(h0, h1, s as int, r as int));
        }
        r
    }

    /// Start a fresh arena on the mapping at `base` and place the request's
    /// block as its first block.
    fn malloc_fresh(&mut self, s: usize, base: usize) -> (r: usize)
        requires
            old(self).wf(),
            s % 8 == 0,
            s as int <= SMALL_HEAP_ALLOCATION_SIZE,
            old(self).page_ok(base as int, spec_alloc_size(spec_group_of(s))),
        ensures
            final(self).wf(),
            final(self).larges@ == old(self).larges@,
            final(self).heaps@.len() == old(self).heaps@.len() + 1,
            forall|k: int|
                0 <= k < old(self).heaps@.len() ==> final(self).heaps@[k + 1] == old(
                    self,
                ).heaps@[k],
            fresh_heap_post(final(self).heaps@[0], base as int, s as int),
            r == base + HEAP_HEADER_SIZE + BLOCK_HEADER_SIZE,
            r % 8 == 0,
            r > 0,
    {
        let h = create_heap(s, base);
        self.heaps.insert(0, h);
        proof {
            assert(forall|k2: int|
                0 <= k2 < old(self).heaps@.len() ==> self.heaps@[k2 + 1] == old(
                    self,
                ).heaps@[k2]);
            lemma_wf_insert_heap(*old(self), *self);
            crate::heap::lemma_page_aligned_8(base as int);
        }
        base + HEAP_HEADER_SIZE + BLOCK_HEADER_SIZE
    }

    /// Serve an allocation request of `size` bytes and return the payload
    /// address. `page` is the fresh mapping that `map_request(size)` asked
    /// for: its base address, or `None` when no mapping was needed.
    pub fn malloc(&mut self, size: usize, page: Option<usize>) -> (r: usize)
        requires
            old(self).wf(),
            size + BLOCK_HEADER_SIZE + 7 <= usize::MAX,
            ({
                match old(self).spec_map_request(size as int) {
                    Some(l) => page matches Some(base) && old(self).page_ok(base as int, l),
                    None => page is None,
                }
            }),
        ensures
            final(self).wf(),
            malloc_post(*old(self), *final(self), size as int, page, r as int),
            r % 8 == 0,
            r > 0,
    {
        let s = align(8, size);
        proof {
            lemma_align8_agrees(size as int, s as int);
        }
        if s > SMALL_HEAP_ALLOCATION_SIZE {
            // Large fast path: the request gets a dedicated mapping.
            match page {
                Some(base) => self.malloc_large(s, base),
                None => unreached(),
            }
        } else {
            match self.find_suitable(s) {
                Some(k) => self.malloc_in_heap(k, s),
                None => {
                    // No arena can host the request: start a fresh one on
                    // the mapping the caller obtained.
                    match page {
                        Some(base) => self.malloc_fresh(s, base),
                        None => unreached(),
                    }
                },
            }
        }
    }
}

/// What one arena looks like after the in-use block at `i` was released.
pub open spec fn heap_released_post(h: Heap, h1: Heap, i: int) -> bool {
    &&& h1.group == h.group
    &&& h1.base == h.base
    &&& h1.total_size == h.total_size
    &&& h1.free_size == h.free_size + BLOCK_HEADER_SIZE + h.blocks@[i].data_size
    &&& h1.block_count == h1.blocks@.len()
    &&& h1.blocks@ == blocks_after_release(h.blocks@, i)
}

/// What `release` hands back to the caller.
#[derive(Clone, Copy, Debug, PartialEq, Eq, Structural)]
pub enum FreeAction {
    /// Nothing to unmap; the memory stays with the allocator.
    Retained,
    /// The region `[base, base + len)` can be returned to the system.
    Unmap { base: usize, len: usize },
}

/// Why `free` rejected the given address.
#[derive(Clone, Copy, Debug, PartialEq, Eq, Structural)]
pub enum FreeError {
    /// The address is not the payload of any block the allocator knows.
    InvalidPointer,
    /// The block was already free.
    DoubleFree,
}

/// The release acted on block `i` of arena `k`, whose payload is `ptr`.
pub open spec fn free_post_at(
    a: Allocator,
    b: Allocator,
    ptr: int,
    r: Result<FreeAction, FreeError>,
    k: int,
    i: int,
) -> bool {
    &&& a.is_payload(k, i, ptr)
    &&& if a.heaps@[k].blocks@[i].free {
        &&& r == Result::<FreeAction, FreeError>::Err(FreeError::DoubleFree)
        &&& b.heaps@ == a.heaps@
        &&& b.larges@ == a.larges@
    } else {
        let h = a.heaps@[k];
        let nb = blocks_after_release(h.blocks@, i);
        &&& b.larges@ == a.larges@
        &&& if nb.len() == 1 && nb[0].free && a.heaps@.len() >= 2 {
            &&& b.heaps@ == a.heaps@.remove(k)
            &&& r == Result::<FreeAction, FreeError>::Ok(
                FreeAction::Unmap { base: h.base, len: h.total_size },
            )
        } else {
            &&& b.heaps@.len() == a.heaps@.len()
            &&& forall|k2: int|
                0 <= k2 < a.heaps@.len() && k2 != k ==> b.heaps@[k2] == a.heaps@[k2]
            &&& heap_released_post(h, b.heaps@[k], i)
            &&& r == Result::<FreeAction, FreeError>::Ok(FreeAction::Retained)
        }
    }
}

/// The release unmapped large mapping `j`, whose payload is `ptr`.
pub open spec fn free_post_large_at(
    a: Allocator,
    b: Allocator,
    ptr: int,
    r: Result<FreeAction, FreeError>,
    j: int,
) -> bool {
    &&& a.is_large_payload(j, ptr)
    &&& b.heaps@ == a.heaps@
    &&& b.larges@ == a.larges@.remove(j)
    &&& r == Result::<FreeAction, FreeError>::Ok(
        FreeAction::Unmap {
            base: a.larges@[j].base,
            len: (a.larges@[j].data_size + BLOCK_HEADER_SIZE) as usize,
        },
    )
}

/// Everything `free` does, as a relation between the allocator before (`a`)
/// and after (`b`) the call, the released address and the result.
pub open spec fn free_post(
    a: Allocator,
    b: Allocator,
    ptr: int,
    r: Result<FreeAction, FreeError>,
) -> bool {
    if a.owns(ptr) {
        exists|k: int, i: int| #[trigger] free_post_at(a, b, ptr, r, k, i)
    } else if a.owns_large(ptr) {
        exists|j: int| #[trigger] free_post_large_at(a, b, ptr, r, j)
    } else {
        &&& r == Result::<FreeAction, FreeError>::Err(FreeError::InvalidPointer)
        &&& b.heaps@ == a.heaps@
        &&& b.larges@ == a.larges@
    }
}

impl Allocator {
    /// Release the allocation whose payload starts at `ptr`. On success the
    /// action says whether a region can be returned to the system: the
    /// dedicated mapping of a large allocation, or a whole arena that ended
    /// up holding a single free block and is not the last arena. An address
    /// the allocator does not know, or a block that is already free, is
    /// reported as an error and changes nothing.
    pub fn free(&mut self, ptr: usize) -> (r: Result<FreeAction, FreeError>)
        requires
            old(self).wf(),
        ensures
            final(self).wf(),
            free_post(*old(self), *final(self), ptr as int, r),
    {
        match self.lookup(ptr) {
            Some((k, i)) => {
                proof {
                    assert(old(self).owns(ptr as int)) by {
                        assert(old(self).is_payload(k as int, i as int, ptr as int));
                    }
                }
                if self.heaps[k].blocks[i].free {
                    let r = Err(FreeError::DoubleFree);
                    proof {
                        assert(free_post_at(*old(self), *self, ptr as int, r, k as int, i as int));
                    }
                    return r;
                }
                let mut h = self.heaps.remove(k);
                h.release_at(i);
                let reclaim = h.block_count == 1 && h.blocks[0].free && self.heaps.len() >= 1;
                if reclaim {
                    let r = Ok(FreeAction::Unmap { base: h.base, len: h.total_size });
                    proof {
                        lemma_wf_remove_heap(*old(self), *self, k as int);
                        assert(free_post_at(*old(self), *self, ptr as int, r, k as int, i as int));
                    }
                    r
                } else {
                    self.heaps.insert(k, h);
                    let r = Ok(FreeAction::Retained);
                    proof {
                        assert(forall|k2: int|
                            0 <= k2 < old(self).heaps@.len() && k2 != k ==> self.heaps@[k2]
                                == old(self).heaps@[k2]);
                        lemma_wf_update_heap(*old(self), *self, k as int);
                        assert(free_post_at(*old(self), *self, ptr as int, r, k as int, i as int));
                    }
                    r
                }
            },
            None => {
                match self.find_large(ptr) {
                    Some(j) => {
                        let la = self.larges.remove(j);
                        let r = Ok(FreeAction::Unmap {
                            base: la.base,
                            len: la.data_size + BLOCK_HEADER_SIZE,
                        });
                        proof {
                            lemma_wf_remove_large(*old(self), *self, j as int);
                            assert(old(self).owns_large(ptr as int)) by {
                                assert(old(self).is_large_payload(j as int, ptr as int));
                            }
                            assert(free_post_large_at(*old(self), *self, ptr as int, r, j as int));
                        }
                        r
                    },
                    None => Err(FreeError::InvalidPointer),
                }
            },
        }
    }
}

/// The rounding that `align(8, _)` performs is `spec_align8`.
pub proof fn lemma_align8_agrees(size: int, r: int)
    requires
        r % 8 == 0,
        size <= r < size + 8,
    ensures
        r == spec_align8(size),
{
}

/// Diagnostic dump of the allocator's arena list. The core does no output of
/// its own, so this build keeps it silent.
pub fn print_heap() {
}

} // verus!
