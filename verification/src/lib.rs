//! An in-memory block cache layer between a block-structured consumer and a
//! fixed-size-block storage device: it buffers recently touched blocks,
//! offers offset-based typed views onto their bytes, and guarantees that
//! mutated blocks reach the device again, under a bounded pool that evicts
//! unpinned entries in admission order.

pub mod block_cache;
pub mod cache_manager;
pub mod codec;
pub mod config;
pub mod device;
pub mod syscall;
pub mod task;
