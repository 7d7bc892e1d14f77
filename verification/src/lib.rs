//! A segregated-arena memory allocator core.
//!
//! The allocator subdivides page-aligned regions (arenas) into blocks and
//! services `malloc` / `free` style requests. All bookkeeping — the arena
//! list, each arena's block list, the size accounting — lives in verified
//! data structures; addresses are carried as plain integers. Obtaining and
//! returning page mappings is the caller's job: the allocator says which
//! mapping it needs and which one can be returned to the system.

use vstd::prelude::*;

pub mod allocator;
pub mod block;
pub mod heap;
pub mod laws;

verus! {

/// Size in bytes of one page as handed out by the host's page provider.
pub const PAGE_SIZE: usize = 4096;

/// Total mapping size of an arena that serves tiny requests.
pub const TINY_HEAP_ALLOCATION_SIZE: usize = 4 * PAGE_SIZE;

/// Largest aligned request that is classified tiny.
pub const TINY_BLOCK_SIZE: usize = TINY_HEAP_ALLOCATION_SIZE / 128;

/// Total mapping size of an arena that serves small requests.
pub const SMALL_HEAP_ALLOCATION_SIZE: usize = 32 * PAGE_SIZE;

/// Largest aligned request that is classified small.
pub const SMALL_BLOCK_SIZE: usize = SMALL_HEAP_ALLOCATION_SIZE / 128;

/// Bytes a block header occupies in front of its payload.
pub const BLOCK_HEADER_SIZE: usize = 32;

/// Bytes an arena header occupies at the start of its mapping.
pub const HEAP_HEADER_SIZE: usize = 56;

/// Round `from` up to the next multiple of `to`.
pub fn align(to: usize, from: usize) -> (r: usize)
    requires
        to >= 1,
        from + to <= usize::MAX,
    ensures
        r % to == 0,
        from <= r < from + to,
{
    let rem = from % to;
    if rem == 0 {
        from
    } else {
        let ghost q: int = from as int / to as int;
        let ghost t: int = to as int;
        proof {
            vstd::arithmetic::div_mod::lemma_fundamental_div_mod(from as int, t);
            vstd::arithmetic::div_mod::lemma_mod_multiples_basic(q + 1, t);
            assert((q + 1) * t == t * q + t) by (nonlinear_arith);
            assert((from - rem + to) as int == (q + 1) * t);
            assert(((q + 1) * t) % t == 0);
        }
        from - rem + to
    }
}

} // verus!
