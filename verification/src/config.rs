//! Build-time configuration constants.

use vstd::prelude::*;

verus! {

/// Size in bytes of one device block.
pub const BLOCK_SZ: usize = 512;

/// Capacity of the block cache pool: the number of entries it may hold.
pub const BLOCK_CACHE_SIZE: usize = 16;

/// Number of distinct syscall ids a task keeps call counts for.
pub const MAX_SYSCALL_NUM: usize = 500;

/// Timer ticks per second of the platform clock.
pub const CLOCK_FREQ: usize = 12500000;

/// Milliseconds per second.
pub const MSEC_PER_SEC: usize = 1000;

/// Microseconds per second.
pub const USEC_PER_SEC: usize = 1000000;

} // verus!
