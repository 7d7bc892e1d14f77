//! The allocator's global laws: properties of every well-formed state, and
//! of allocate/release pairs, stated once and proved from the operations'
//! contracts.

use vstd::prelude::*;

use crate::allocator::{
    free_post, free_post_at, malloc_post, malloc_post_at, ranges_disjoint, spec_align8, Allocator,
    FreeAction, FreeError,
};
use crate::block::seq_free;
use crate::heap::{
    blocks_after_release, has_fit, heap_is_empty, heap_place_post_at, spec_cap, Heap,
};
use crate::{HEAP_HEADER_SIZE, SMALL_HEAP_ALLOCATION_SIZE};

verus! {

/// Containment: a live allocation's block is marked in use, and its payload
/// lies strictly between the arena header's end and the arena's end.
pub proof fn lemma_containment(a: Allocator, k: int, i: int)
    requires
        a.wf(),
        0 <= k < a.heaps@.len(),
        0 <= i < a.heaps@[k].blocks@.len(),
        !a.heaps@[k].blocks@[i].free,
    ensures
        a.heaps@[k].base + HEAP_HEADER_SIZE < a.heaps@[k].payload_addr(i),
        a.heaps@[k].payload_end(i) <= a.heaps@[k].base + a.heaps@[k].total_size,
{
    a.heaps@[k].lemma_payload_in_range(i);
}

/// Payload addresses are unique over all blocks of all arenas.
pub proof fn lemma_payload_unique(a: Allocator, k1: int, i1: int, k2: int, i2: int)
    requires
        a.wf(),
        0 <= k1 < a.heaps@.len(),
        0 <= i1 < a.heaps@[k1].blocks@.len(),
        0 <= k2 < a.heaps@.len(),
        0 <= i2 < a.heaps@[k2].blocks@.len(),
        k1 != k2 || i1 != i2,
    ensures
        a.heaps@[k1].payload_addr(i1) != a.heaps@[k2].payload_addr(i2),
{
    if k1 == k2 {
        if i1 < i2 {
            a.heaps@[k1].lemma_addr_mono(i1, i2);
        } else {
            a.heaps@[k1].lemma_addr_mono(i2, i1);
        }
    } else {
        a.heaps@[k1].lemma_payload_in_range(i1);
        a.heaps@[k2].lemma_payload_in_range(i2);
    }
}

/// Disjointness: the payload ranges of two distinct live allocations in the
/// arenas never overlap.
pub proof fn lemma_disjointness(a: Allocator, k1: int, i1: int, k2: int, i2: int)
    requires
        a.wf(),
        0 <= k1 < a.heaps@.len(),
        0 <= i1 < a.heaps@[k1].blocks@.len(),
        !a.heaps@[k1].blocks@[i1].free,
        0 <= k2 < a.heaps@.len(),
        0 <= i2 < a.heaps@[k2].blocks@.len(),
        !a.heaps@[k2].blocks@[i2].free,
        k1 != k2 || i1 != i2,
    ensures
        ranges_disjoint(
            a.heaps@[k1].payload_addr(i1),
            a.heaps@[k1].payload_end(i1),
            a.heaps@[k2].payload_addr(i2),
            a.heaps@[k2].payload_end(i2),
        ),
{
    if k1 == k2 {
        if i1 < i2 {
            a.heaps@[k1].lemma_addr_mono(i1, i2);
        } else {
            a.heaps@[k1].lemma_addr_mono(i2, i1);
        }
    } else {
        a.heaps@[k1].lemma_payload_in_range(i1);
        a.heaps@[k2].lemma_payload_in_range(i2);
    }
}

/// Disjointness, continued: an arena block's payload never overlaps a live
/// large allocation's payload.
pub proof fn lemma_disjointness_heap_large(a: Allocator, k: int, i: int, j: int)
    requires
        a.wf(),
        0 <= k < a.heaps@.len(),
        0 <= i < a.heaps@[k].blocks@.len(),
        0 <= j < a.larges@.len(),
    ensures
        ranges_disjoint(
            a.heaps@[k].payload_addr(i),
            a.heaps@[k].payload_end(i),
            a.larges@[j].payload(),
            a.larges@[j].range_end(),
        ),
{
    a.heaps@[k].lemma_payload_in_range(i);
}

/// Disjointness, continued: two distinct large allocations' payload ranges
/// never overlap.
pub proof fn lemma_disjointness_large_large(a: Allocator, j1: int, j2: int)
    requires
        a.wf(),
        0 <= j1 < a.larges@.len(),
        0 <= j2 < a.larges@.len(),
        j1 != j2,
    ensures
        ranges_disjoint(
            a.larges@[j1].payload(),
            a.larges@[j1].range_end(),
            a.larges@[j2].payload(),
            a.larges@[j2].range_end(),
        ),
{
}

/// Accounting: every arena's `block_count` equals the length of its block
/// list, and `free_size` equals the free blocks' bytes plus the unused tail.
pub proof fn lemma_accounting(a: Allocator, k: int)
    requires
        a.wf(),
        0 <= k < a.heaps@.len(),
    ensures
        a.heaps@[k].block_count == a.heaps@[k].blocks@.len(),
        a.heaps@[k].free_size == a.heaps@[k].tail_free() + seq_free(a.heaps@[k].blocks@),
{
}

/// No two adjacent blocks of an arena are both free.
pub proof fn lemma_no_adjacent_free(a: Allocator, k: int, i: int)
    requires
        a.wf(),
        0 <= k < a.heaps@.len(),
        0 <= i,
        i + 1 < a.heaps@[k].blocks@.len(),
    ensures
        !(a.heaps@[k].blocks@[i].free && a.heaps@[k].blocks@[i + 1].free),
{
}

/// Class purity: every in-use block's payload length respects its arena
/// class's cap. (Coalescing can grow a free block beyond the cap, so the law
/// speaks of the blocks that are in use.)
pub proof fn lemma_class_purity(a: Allocator, k: int, i: int)
    requires
        a.wf(),
        0 <= k < a.heaps@.len(),
        0 <= i < a.heaps@[k].blocks@.len(),
        !a.heaps@[k].blocks@[i].free,
    ensures
        a.heaps@[k].blocks@[i].data_size <= spec_cap(a.heaps@[k].group),
{
}

/// Ordering: the position of a block in its arena's list and its address
/// order agree.
pub proof fn lemma_ordering(a: Allocator, k: int, i: int, j: int)
    requires
        a.wf(),
        0 <= k < a.heaps@.len(),
        0 <= i < j < a.heaps@[k].blocks@.len(),
    ensures
        a.heaps@[k].block_addr(i) < a.heaps@[k].block_addr(j),
{
    a.heaps@[k].lemma_addr_mono(i, j);
}

/// Reclamation: once nothing is live in any arena, at most one arena
/// remains.
pub proof fn lemma_reclamation(a: Allocator)
    requires
        a.wf(),
        forall|k: int, i: int|
            0 <= k < a.heaps@.len() && 0 <= i < a.heaps@[k].blocks@.len() ==> (#[trigger] a.heaps@[k].blocks@[i]).free,
    ensures
        a.heaps@.len() <= 1,
{
    if a.heaps@.len() >= 2 {
        assert(heap_is_empty(a.heaps@[0])) by {
            if a.heaps@[0].blocks@.len() >= 2 {
                assert(a.heaps@[0].blocks@[0].free && a.heaps@[0].blocks@[1].free);
            }
        }
        assert(heap_is_empty(a.heaps@[1])) by {
            if a.heaps@[1].blocks@.len() >= 2 {
                assert(a.heaps@[1].blocks@[0].free && a.heaps@[1].blocks@[1].free);
            }
        }
    }
}

/// The heaps are equal in every field the allocator maintains.
pub open spec fn heap_like(x: Heap, y: Heap) -> bool {
    &&& x.group == y.group
    &&& x.base == y.base
    &&& x.total_size == y.total_size
    &&& x.free_size == y.free_size
    &&& x.block_count == y.block_count
    &&& x.blocks@ == y.blocks@
}

/// The first arena that can serve `s` offers a fitting free block (rather
/// than only room in its tail region).
pub open spec fn first_suitable_offers_fit(a: Allocator, s: int) -> bool {
    forall|k: int| #[trigger] a.is_first_suitable(s, k) ==> has_fit(a.heaps@[k].blocks@, s)
}

/// Round trip: releasing what was just allocated restores the allocator,
/// field for field, whenever the serving arena offered a fitting free block
/// (which is the case from the second allocate/release iteration of any size
/// onwards) and no other arena was waiting to be reclaimed. In particular
/// `free_size` and `block_count` of every arena are bit-identical to their
/// values before the allocation.
pub proof fn lemma_alloc_release_roundtrip(
    a: Allocator,
    b: Allocator,
    c: Allocator,
    size: int,
    r: int,
    res: Result<FreeAction, FreeError>,
)
    requires
        a.wf(),
        b.wf(),
        0 <= size,
        a.spec_map_request(size) is None,
        first_suitable_offers_fit(a, spec_align8(size)),
        malloc_post(a, b, size, None::<usize>, r),
        free_post(b, c, r, res),
        a.heaps@.len() == 1 || (forall|k: int|
            0 <= k < a.heaps@.len() ==> !heap_is_empty(#[trigger] a.heaps@[k])),
    ensures
        res == Result::<FreeAction, FreeError>::Ok(FreeAction::Retained),
        c.heaps@.len() == a.heaps@.len(),
        c.larges@ == a.larges@,
        forall|k: int| 0 <= k < a.heaps@.len() ==> heap_like(#[trigger] c.heaps@[k], a.heaps@[k]),
{
    let s = spec_align8(size);
    assert(s <= SMALL_HEAP_ALLOCATION_SIZE);
    assert(a.has_suitable(s));
    let k = choose|k: int| #[trigger] malloc_post_at(a, b, s, r, k);
    assert(malloc_post_at(a, b, s, r, k));
    let h = a.heaps@[k];
    let hb = b.heaps@[k];
    assert(has_fit(h.blocks@, s));
    let i = choose|i: int| #[trigger] heap_place_post_at(h, hb, s, r, i);
    assert(heap_place_post_at(h, hb, s, r, i));

    // `r` is the payload address of the placed block in `b`.
    assert(hb.blocks@.take(i) =~= h.blocks@.take(i));
    assert(b.is_payload(k, i, r));
    assert(b.owns(r));

    // `free` acted on exactly that block.
    let (k2, i2) = choose|k2: int, i2: int| #[trigger] free_post_at(b, c, r, res, k2, i2);
    assert(free_post_at(b, c, r, res, k2, i2));
    if k2 != k || i2 != i {
        lemma_payload_unique(b, k, i, k2, i2);
        assert(false);
    }
    assert(!hb.blocks@[i].free);

    // Releasing the placed block rebuilds the block list as it was.
    let nb = blocks_after_release(hb.blocks@, i);
    if h.blocks@[i].data_size == s {
        // exact fit: both neighbors were not free next to the old free block
        assert(nb =~= h.blocks@);
    } else {
        // split: the remainder is reabsorbed by the coalesce-right step
        assert(nb =~= h.blocks@);
    }

    // The arena was not reclaimed.
    if nb.len() == 1 && nb[0].free && b.heaps@.len() >= 2 {
        assert(heap_is_empty(a.heaps@[k]));
        assert(false);
    }
    assert(res == Result::<FreeAction, FreeError>::Ok(FreeAction::Retained));

    assert forall|k3: int| 0 <= k3 < a.heaps@.len() implies heap_like(
        #[trigger] c.heaps@[k3],
        a.heaps@[k3],
    ) by {
        if k3 == k {
            assert(c.heaps@[k].blocks@ == nb);
        } else {
            assert(c.heaps@[k3] == b.heaps@[k3]);
            assert(b.heaps@[k3] == a.heaps@[k3]);
        }
    }
}

} // verus!
