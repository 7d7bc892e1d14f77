//! Unit tests for the size classifier, the headers and the boundaries
//! between the size classes.

use arena_malloc::allocator::{Allocator, FreeAction};
use arena_malloc::block::Block;
use arena_malloc::heap::{Heap, HeapGroup};
use arena_malloc::{
    align, BLOCK_HEADER_SIZE, HEAP_HEADER_SIZE, PAGE_SIZE, SMALL_BLOCK_SIZE,
    SMALL_HEAP_ALLOCATION_SIZE, TINY_BLOCK_SIZE, TINY_HEAP_ALLOCATION_SIZE,
};

#[test]
fn constants() {
    assert_eq!(PAGE_SIZE, 4096);
    assert_eq!(TINY_HEAP_ALLOCATION_SIZE, 4 * 4096);
    assert_eq!(TINY_BLOCK_SIZE, 128);
    assert_eq!(SMALL_HEAP_ALLOCATION_SIZE, 32 * 4096);
    assert_eq!(SMALL_BLOCK_SIZE, 1024);
    assert_eq!(Block::size(), BLOCK_HEADER_SIZE);
    assert_eq!(Heap::size(), HEAP_HEADER_SIZE);
}

#[test]
fn align_rounds_up() {
    assert_eq!(align(8, 0), 0);
    assert_eq!(align(8, 1), 8);
    assert_eq!(align(8, 8), 8);
    assert_eq!(align(8, 10), 16);
    assert_eq!(align(8, 15), 16);
    assert_eq!(align(16, 15), 16);
    assert_eq!(align(8, 150000), 150000);
}

#[test]
fn classifier_boundaries() {
    assert_eq!(HeapGroup::from(0), HeapGroup::Tiny(0));
    assert_eq!(HeapGroup::from(TINY_BLOCK_SIZE), HeapGroup::Tiny(TINY_BLOCK_SIZE));
    assert_eq!(HeapGroup::from(TINY_BLOCK_SIZE + 1), HeapGroup::Small(TINY_BLOCK_SIZE + 1));
    assert_eq!(HeapGroup::from(SMALL_BLOCK_SIZE), HeapGroup::Small(SMALL_BLOCK_SIZE));
    assert_eq!(HeapGroup::from(SMALL_BLOCK_SIZE + 1), HeapGroup::Large(SMALL_BLOCK_SIZE + 1));
}

#[test]
fn alloc_size_per_class() {
    assert_eq!(HeapGroup::Tiny(10).alloc_size(), TINY_HEAP_ALLOCATION_SIZE);
    assert_eq!(HeapGroup::Small(500).alloc_size(), SMALL_HEAP_ALLOCATION_SIZE);
    assert_eq!(
        HeapGroup::Large(150000).alloc_size(),
        150000 + BLOCK_HEADER_SIZE + HEAP_HEADER_SIZE
    );
}

#[test]
fn heap_new_accounting() {
    let h = Heap::new(10);
    assert_eq!(h.total_size, TINY_HEAP_ALLOCATION_SIZE);
    assert_eq!(h.free_size, TINY_HEAP_ALLOCATION_SIZE - HEAP_HEADER_SIZE);
    assert_eq!(h.block_count, 0);
    assert_eq!(h.base, 0);
}

#[test]
fn block_new_is_in_use() {
    let b = Block::new(24);
    assert_eq!(b.data_size, 24);
    assert!(!b.free);
}

fn map_pages(next_base: &mut usize, len: usize) -> usize {
    let base = *next_base;
    let pages = (len + PAGE_SIZE - 1) / PAGE_SIZE;
    *next_base += (pages + 1) * PAGE_SIZE;
    base
}

fn allocate(a: &mut Allocator, next_base: &mut usize, size: usize) -> usize {
    let page = match a.map_request(size) {
        Some(len) => Some(map_pages(next_base, len)),
        None => None,
    };
    a.malloc(size, page)
}

#[test]
fn class_boundary_requests_succeed() {
    let mut a = Allocator::new();
    let mut next_base: usize = 0x100000;
    let sizes = [
        0,
        1,
        TINY_BLOCK_SIZE,
        TINY_BLOCK_SIZE + 1,
        SMALL_BLOCK_SIZE,
        SMALL_BLOCK_SIZE + 1,
        SMALL_HEAP_ALLOCATION_SIZE + 1,
    ];
    let mut ptrs: Vec<usize> = Vec::new();
    for &size in sizes.iter() {
        let p = allocate(&mut a, &mut next_base, size);
        assert!(p != 0);
        assert_eq!(p % 8, 0);
        assert!(!ptrs.contains(&p));
        ptrs.push(p);
    }
    for &p in ptrs.iter() {
        assert!(a.free(p).is_ok());
    }
}

#[test]
fn zero_sized_request_is_legal() {
    let mut a = Allocator::new();
    let mut next_base: usize = 0x100000;
    let p = allocate(&mut a, &mut next_base, 0);
    assert!(p != 0);
    let (k, i) = a.lookup(p).unwrap();
    assert_eq!(a.heaps[k].blocks[i].data_size, 0);
    assert_eq!(a.free(p).unwrap(), FreeAction::Retained);
}

#[test]
fn region_check_sees_tracked_ranges() {
    let mut a = Allocator::new();
    let mut next_base: usize = 0x100000;
    let _ = allocate(&mut a, &mut next_base, 10);
    let h_base = a.heaps[0].base;
    let h_len = a.heaps[0].total_size;
    assert!(!a.is_region_unused(h_base, h_len));
    assert!(!a.is_region_unused(h_base + h_len - PAGE_SIZE, PAGE_SIZE));
    assert!(a.is_region_unused(h_base + h_len, PAGE_SIZE));
}

#[test]
fn print_heap_is_silent() {
    arena_malloc::allocator::print_heap();
}
