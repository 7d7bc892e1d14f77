//! End-to-end allocator scenarios, driven through a fake page provider that
//! hands out disjoint page-aligned base addresses.

use arena_malloc::allocator::{Allocator, FreeAction, FreeError};
use arena_malloc::{
    BLOCK_HEADER_SIZE, HEAP_HEADER_SIZE, PAGE_SIZE, SMALL_HEAP_ALLOCATION_SIZE,
    TINY_HEAP_ALLOCATION_SIZE,
};

/// Hand out the next fake page-aligned mapping of `len` bytes.
fn map_pages(next_base: &mut usize, len: usize) -> usize {
    let base = *next_base;
    assert!(base % PAGE_SIZE == 0);
    let pages = (len + PAGE_SIZE - 1) / PAGE_SIZE;
    *next_base += (pages + 1) * PAGE_SIZE;
    base
}

/// Allocate through the two-phase protocol, with basic sanity checks.
fn allocate(a: &mut Allocator, next_base: &mut usize, size: usize) -> usize {
    let page = match a.map_request(size) {
        Some(len) => {
            let b = map_pages(next_base, len);
            assert!(a.is_region_unused(b, len));
            Some(b)
        }
        None => None,
    };
    let ptr = a.malloc(size, page);
    assert!(ptr != 0);
    assert!(ptr % 8 == 0);
    ptr
}

#[test]
fn behavior() {
    let mut a = Allocator::new();
    let mut next_base: usize = 0x100000;
    let ptr = allocate(&mut a, &mut next_base, 10);
    assert!(ptr != 0);
    let (k, i) = a.lookup(ptr).unwrap();
    assert!(a.heaps[k].blocks[i].data_size == 16);
}

#[test]
fn fresh_tiny() {
    let mut a = Allocator::new();
    let mut next_base: usize = 0x100000;
    let ptr = allocate(&mut a, &mut next_base, 10);
    assert!(ptr != 0);
    assert_eq!(ptr % 8, 0);
    // the payload lies within the first (tiny) arena
    assert_eq!(a.heaps.len(), 1);
    let h = &a.heaps[0];
    assert_eq!(h.total_size, TINY_HEAP_ALLOCATION_SIZE);
    assert!(h.base + HEAP_HEADER_SIZE < ptr);
    assert!(ptr + 16 <= h.base + h.total_size);
    // the block was sized to the aligned request
    let (k, i) = a.lookup(ptr).unwrap();
    assert_eq!(k, 0);
    assert_eq!(a.heaps[k].blocks[i].data_size, 16);
    assert!(!a.heaps[k].blocks[i].free);
}

#[test]
fn small_graduation() {
    let mut a = Allocator::new();
    let mut next_base: usize = 0x100000;
    // classified large: gets a dedicated mapping, the arena list is untouched
    let want = a.map_request(150000).unwrap();
    assert_eq!(want, 150000 + BLOCK_HEADER_SIZE);
    let base = map_pages(&mut next_base, want);
    let ptr = a.malloc(150000, Some(base));
    assert_eq!(ptr, base + BLOCK_HEADER_SIZE);
    assert_eq!(a.heaps.len(), 0);
    assert_eq!(a.larges.len(), 1);
    // releasing it unmaps the whole dedicated mapping
    let act = a.free(ptr).unwrap();
    assert_eq!(act, FreeAction::Unmap { base, len: 150000 + BLOCK_HEADER_SIZE });
    assert_eq!(a.heaps.len(), 0);
    assert_eq!(a.larges.len(), 0);
}

#[test]
fn mixed_churn() {
    let mut a = Allocator::new();
    let mut next_base: usize = 0x100000;
    let p1 = allocate(&mut a, &mut next_base, 10); // tiny
    let p2 = allocate(&mut a, &mut next_base, 100); // tiny
    let p3 = allocate(&mut a, &mut next_base, 450); // small
    let p4 = allocate(&mut a, &mut next_base, 1000); // small
    let p5 = allocate(&mut a, &mut next_base, 1); // tiny
    assert_eq!(a.heaps.len(), 2);

    assert_eq!(a.free(p4).unwrap(), FreeAction::Retained);
    // releasing p3 empties the small arena, which is reclaimed; the tiny
    // arena remains
    match a.free(p3).unwrap() {
        FreeAction::Unmap { base: _, len } => assert_eq!(len, SMALL_HEAP_ALLOCATION_SIZE),
        FreeAction::Retained => panic!("small arena was not reclaimed"),
    }
    assert_eq!(a.free(p5).unwrap(), FreeAction::Retained);
    assert_eq!(a.free(p2).unwrap(), FreeAction::Retained);
    assert_eq!(a.free(p1).unwrap(), FreeAction::Retained);

    // at most one (tiny) arena retained, consistent with an empty arena
    assert_eq!(a.heaps.len(), 1);
    let h = &a.heaps[0];
    assert_eq!(h.total_size, TINY_HEAP_ALLOCATION_SIZE);
    assert_eq!(h.block_count, 1);
    assert!(h.blocks[0].free);
    assert_eq!(h.free_size, TINY_HEAP_ALLOCATION_SIZE - HEAP_HEADER_SIZE);
}

#[test]
fn split_then_refit() {
    let mut a = Allocator::new();
    let mut next_base: usize = 0x100000;
    let p1 = allocate(&mut a, &mut next_base, 64);
    let _p2 = allocate(&mut a, &mut next_base, 64);
    assert_eq!(a.free(p1).unwrap(), FreeAction::Retained);
    let p3 = allocate(&mut a, &mut next_base, 16);
    // p3 reuses p1's slot, splitting it
    assert_eq!(p3, p1);
    let (k, i) = a.lookup(p3).unwrap();
    assert_eq!(a.heaps[k].blocks[i].data_size, 16);
    // the free remainder sits right behind it
    let rem = a.heaps[k].blocks[i + 1];
    assert!(rem.free);
    assert_eq!(rem.data_size, 64 - 16 - BLOCK_HEADER_SIZE);
}

#[test]
fn coalesce_right() {
    let mut a = Allocator::new();
    let mut next_base: usize = 0x100000;
    let p1 = allocate(&mut a, &mut next_base, 64);
    let p2 = allocate(&mut a, &mut next_base, 64);
    let p3 = allocate(&mut a, &mut next_base, 64);
    assert_eq!(a.free(p2).unwrap(), FreeAction::Retained);
    assert_eq!(a.free(p3).unwrap(), FreeAction::Retained);
    // two blocks remain: p1 in use, one free block spanning p2, its header
    // and p3
    assert_eq!(a.heaps.len(), 1);
    let h = &a.heaps[0];
    assert_eq!(h.block_count, 2);
    assert!(!h.blocks[0].free);
    assert_eq!(h.blocks[0].data_size, 64);
    assert!(h.blocks[1].free);
    assert_eq!(h.blocks[1].data_size, 64 + BLOCK_HEADER_SIZE + 64);
    let (_, i) = a.lookup(p1).unwrap();
    assert_eq!(i, 0);
}

#[test]
fn double_free() {
    let mut a = Allocator::new();
    let mut next_base: usize = 0x100000;
    let p = allocate(&mut a, &mut next_base, 10);
    assert!(a.free(p).is_ok());
    assert_eq!(a.free(p), Err(FreeError::DoubleFree));
}

#[test]
fn invalid_free() {
    let mut a = Allocator::new();
    assert_eq!(a.free(0x4018), Err(FreeError::InvalidPointer));
    let mut next_base: usize = 0x100000;
    let p = allocate(&mut a, &mut next_base, 10);
    // an address inside the payload, but not the payload start, is invalid
    assert_eq!(a.free(p + 8), Err(FreeError::InvalidPointer));
}

#[test]
fn alloc_release_accounting_stable() {
    // allocate-then-release of one size, repeated: the accounting after
    // every release is bit-identical
    let mut a = Allocator::new();
    let mut next_base: usize = 0x100000;
    let p = allocate(&mut a, &mut next_base, 40);
    a.free(p).unwrap();
    let counts: Vec<usize> = a.heaps.iter().map(|h| h.block_count).collect();
    let frees: Vec<usize> = a.heaps.iter().map(|h| h.free_size).collect();
    let n_heaps = a.heaps.len();
    for _ in 0..10 {
        let p = allocate(&mut a, &mut next_base, 40);
        a.free(p).unwrap();
        assert_eq!(a.heaps.len(), n_heaps);
        let counts2: Vec<usize> = a.heaps.iter().map(|h| h.block_count).collect();
        let frees2: Vec<usize> = a.heaps.iter().map(|h| h.free_size).collect();
        assert_eq!(counts, counts2);
        assert_eq!(frees, frees2);
    }
}

#[test]
fn large_arena_request_reuses_arena() {
    // a request above the small block cap but below the arena cap gets an
    // arena of its own size class, threaded into the list and reusable
    let mut a = Allocator::new();
    let mut next_base: usize = 0x100000;
    let want = a.map_request(2000).unwrap();
    assert_eq!(want, 2000 + BLOCK_HEADER_SIZE + HEAP_HEADER_SIZE);
    let p = allocate(&mut a, &mut next_base, 2000);
    assert_eq!(a.heaps.len(), 1);
    assert_eq!(a.larges.len(), 0);
    assert_eq!(a.free(p).unwrap(), FreeAction::Retained);
    // the emptied arena is retained and can serve the next fitting request
    assert_eq!(a.map_request(1500), None);
    let q = allocate(&mut a, &mut next_base, 1500);
    assert_eq!(q, p);
}

/// Walk the allocator and re-derive its bookkeeping from the block lists:
/// counts and free sizes match, no two adjacent blocks are free, in-use
/// blocks respect their arena's class cap, block order is address order, and
/// live payload ranges are pairwise disjoint.
fn check_invariants(a: &Allocator) {
    let mut live: Vec<(usize, usize)> = Vec::new();
    for h in a.heaps.iter() {
        assert_eq!(h.block_count, h.blocks.len());
        let cap = (h.total_size - HEAP_HEADER_SIZE)
            .min(if h.total_size == TINY_HEAP_ALLOCATION_SIZE {
                128
            } else if h.total_size == SMALL_HEAP_ALLOCATION_SIZE {
                1024
            } else {
                h.total_size - HEAP_HEADER_SIZE - BLOCK_HEADER_SIZE
            });
        let mut used = 0;
        let mut free_sum = 0;
        let mut addr = h.base + HEAP_HEADER_SIZE;
        let mut prev_free = false;
        for (n, b) in h.blocks.iter().enumerate() {
            assert_eq!(b.data_size % 8, 0);
            if b.free {
                assert!(!(prev_free && n > 0), "two adjacent free blocks");
                free_sum += BLOCK_HEADER_SIZE + b.data_size;
            } else {
                assert!(b.data_size <= cap, "in-use block above the class cap");
                live.push((addr + BLOCK_HEADER_SIZE, b.data_size));
            }
            prev_free = b.free;
            // addresses ascend with the list position
            addr += BLOCK_HEADER_SIZE + b.data_size;
            used += BLOCK_HEADER_SIZE + b.data_size;
        }
        assert!(addr <= h.base + h.total_size);
        let tail = h.total_size - HEAP_HEADER_SIZE - used;
        assert_eq!(h.free_size, tail + free_sum);
    }
    for l in a.larges.iter() {
        live.push((l.base + BLOCK_HEADER_SIZE, l.data_size));
    }
    for (x, &(s1, len1)) in live.iter().enumerate() {
        for &(s2, len2) in live.iter().skip(x + 1) {
            assert!(s1 + len1 <= s2 || s2 + len2 <= s1, "live payloads overlap");
        }
    }
}

#[test]
fn invariants_hold_under_churn() {
    let mut a = Allocator::new();
    let mut next_base: usize = 0x100000;
    let mut ptrs: Vec<usize> = Vec::new();
    for &size in [10, 200, 64, 1000, 5000, 150000, 64, 8, 0, 900].iter() {
        ptrs.push(allocate(&mut a, &mut next_base, size));
        check_invariants(&a);
    }
    // release every other allocation, then the rest
    for step in 0..2 {
        for (n, &p) in ptrs.iter().enumerate() {
            if n % 2 == step {
                a.free(p).unwrap();
                check_invariants(&a);
            }
        }
    }
    assert!(a.heaps.len() <= 1);
    assert!(a.larges.is_empty());
}

#[test]
fn parent_heap_finds_owner() {
    let mut a = Allocator::new();
    let mut next_base: usize = 0x100000;
    let p1 = allocate(&mut a, &mut next_base, 10);
    let p2 = allocate(&mut a, &mut next_base, 500);
    assert_eq!(a.parent_heap(p1), Some(1));
    assert_eq!(a.parent_heap(p2), Some(0));
    assert_eq!(a.parent_heap(0x33), None);
}
