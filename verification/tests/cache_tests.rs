use easy_fs::block_cache::BlockCache;
use easy_fs::cache_manager::{block_cache_sync_all, get_block_cache, BlockCacheManager};
use easy_fs::config::{BLOCK_CACHE_SIZE, BLOCK_SZ};
use easy_fs::device::{BlockDevice, MemDisk};

#[test]
fn identity_sharing() {
    let mut disk = MemDisk::new(32);
    let mut mgr = BlockCacheManager::new();
    let h1 = mgr.get_block_cache(5, &mut disk).unwrap();
    let h2 = mgr.get_block_cache(5, &mut disk).unwrap();
    assert_eq!(h1.block_id(), 5);
    assert_eq!(h2.block_id(), 5);
    assert_eq!(mgr.pin_count(5), Some(2));
    assert_eq!(mgr.len(), 1);
    // A mutation through one handle is visible through the other.
    mgr.modify_u64(&h1, 40, 777);
    assert_eq!(mgr.read_u64(&h2, 40), 777);
    mgr.release(h1);
    mgr.release(h2);
    assert_eq!(mgr.pin_count(5), Some(0));
}

#[test]
fn read_after_write_u64() {
    let mut disk = MemDisk::new(8);
    let mut cache = BlockCache::new(3, &disk);
    cache.modify_u64(100, 0xABCD);
    assert_eq!(cache.read_u64(100), 0xABCD);
    // No device I/O happened between the write and the read.
    assert_eq!(disk.write_count(), 0);
    // The typed write went through the entry, not the device.
    let mut raw = vec![0u8; BLOCK_SZ];
    disk.read_block(3, &mut raw);
    assert_eq!(raw[100], 0);
    cache.sync(&mut disk);
    disk.read_block(3, &mut raw);
    assert_eq!(raw[100], 0xCD);
    assert_eq!(raw[101], 0xAB);
}

#[test]
fn read_after_write_bytes() {
    let disk = MemDisk::new(8);
    let mut cache = BlockCache::new(0, &disk);
    assert!(!cache.is_dirty());
    cache.modify(10, &vec![1, 2, 3]);
    assert!(cache.is_dirty());
    assert_eq!(cache.read(10, 3), vec![1, 2, 3]);
    // Bytes outside the written range are untouched.
    assert_eq!(cache.read(7, 3), vec![0, 0, 0]);
    assert_eq!(cache.read(13, 3), vec![0, 0, 0]);
}

#[test]
fn le64_layout() {
    let disk = MemDisk::new(4);
    let mut cache = BlockCache::new(1, &disk);
    cache.modify_u64(0, 0x0102030405060708);
    // Little endian: the low byte stands first.
    assert_eq!(
        cache.read(0, 8),
        vec![0x08, 0x07, 0x06, 0x05, 0x04, 0x03, 0x02, 0x01]
    );
    assert_eq!(cache.read_u64(0), 0x0102030405060708);
}

#[test]
fn flush_idempotence() {
    let mut disk = MemDisk::new(8);
    let mut cache = BlockCache::new(2, &disk);
    cache.modify_u64(0, 31337);
    assert_eq!(disk.write_count(), 0);
    cache.sync(&mut disk);
    // Exactly one device write for the one mutation.
    assert_eq!(disk.write_count(), 1);
    assert!(!cache.is_dirty());
    // Further flushes with no intervening mutation write nothing.
    cache.sync(&mut disk);
    cache.sync(&mut disk);
    assert_eq!(disk.write_count(), 1);
    // A new mutation makes the next flush write again.
    cache.modify_u64(8, 1);
    cache.sync(&mut disk);
    assert_eq!(disk.write_count(), 2);
}

#[test]
fn fifo_eviction() {
    let mut disk = MemDisk::new(64);
    let mut mgr = BlockCacheManager::new();
    // Admit blocks 0..N-1 in order, retaining no handles.
    for b in 0..BLOCK_CACHE_SIZE {
        let h = get_block_cache(b, &mut disk, &mut mgr).unwrap();
        mgr.release(h);
    }
    assert_eq!(mgr.len(), BLOCK_CACHE_SIZE);
    // Requesting one more block evicts block 0, the oldest admission.
    let h = get_block_cache(BLOCK_CACHE_SIZE, &mut disk, &mut mgr).unwrap();
    assert_eq!(mgr.len(), BLOCK_CACHE_SIZE);
    assert!(!mgr.contains(0));
    for b in 1..BLOCK_CACHE_SIZE {
        assert!(mgr.contains(b));
    }
    assert!(mgr.contains(BLOCK_CACHE_SIZE));
    mgr.release(h);
}

#[test]
fn pinning_protection() {
    let mut disk = MemDisk::new(64);
    let mut mgr = BlockCacheManager::new();
    // Fill the pool, keeping a handle only on block 0 (the oldest).
    let h0 = mgr.get_block_cache(0, &mut disk).unwrap();
    for b in 1..BLOCK_CACHE_SIZE {
        let h = mgr.get_block_cache(b, &mut disk).unwrap();
        mgr.release(h);
    }
    // A new block skips the pinned block 0 and evicts block 1 instead.
    let h = mgr.get_block_cache(BLOCK_CACHE_SIZE, &mut disk).unwrap();
    assert!(mgr.contains(0));
    assert!(!mgr.contains(1));
    for b in 2..BLOCK_CACHE_SIZE {
        assert!(mgr.contains(b));
    }
    assert!(mgr.contains(BLOCK_CACHE_SIZE));
    mgr.release(h);
    mgr.release(h0);
}

#[test]
fn saturation_failure() {
    let mut disk = MemDisk::new(64);
    let mut mgr = BlockCacheManager::new();
    let mut handles = Vec::new();
    for b in 0..BLOCK_CACHE_SIZE {
        let h = mgr.get_block_cache(b, &mut disk).unwrap();
        mgr.modify_u64(&h, 0, b as u64 + 1000);
        handles.push(h);
    }
    // Every slot is pinned: the request fails deterministically.
    assert!(mgr.get_block_cache(BLOCK_CACHE_SIZE, &mut disk).is_err());
    // All resident entries and their contents are unchanged.
    assert_eq!(mgr.len(), BLOCK_CACHE_SIZE);
    for (b, h) in handles.iter().enumerate() {
        assert!(mgr.contains(b));
        assert_eq!(mgr.read_u64(h, 0), b as u64 + 1000);
    }
    // The failed request wrote nothing to the device.
    assert_eq!(disk.write_count(), 0);
    for h in handles {
        mgr.release(h);
    }
}

#[test]
fn dirty_flush_on_eviction() {
    let mut disk = MemDisk::new(64);
    let mut mgr = BlockCacheManager::new();
    // Mutate block 0, release it, and fill the rest of the pool.
    let h = mgr.get_block_cache(0, &mut disk).unwrap();
    mgr.modify_u64(&h, 24, 0x1122334455667788);
    mgr.release(h);
    for b in 1..BLOCK_CACHE_SIZE {
        let h = mgr.get_block_cache(b, &mut disk).unwrap();
        mgr.release(h);
    }
    assert_eq!(disk.write_count(), 0);
    // Admitting one more block evicts dirty block 0, flushing it first.
    let h = mgr.get_block_cache(BLOCK_CACHE_SIZE, &mut disk).unwrap();
    assert!(!mgr.contains(0));
    assert_eq!(disk.write_count(), 1);
    // The mutated contents reached the device.
    let mut raw = vec![0u8; BLOCK_SZ];
    disk.read_block(0, &mut raw);
    assert_eq!(
        &raw[24..32],
        &[0x88, 0x77, 0x66, 0x55, 0x44, 0x33, 0x22, 0x11]
    );
    mgr.release(h);
}

#[test]
fn bulk_flush_completeness() {
    let mut disk = MemDisk::new(32);
    let mut mgr = BlockCacheManager::new();
    let h2 = mgr.get_block_cache(2, &mut disk).unwrap();
    let h3 = mgr.get_block_cache(3, &mut disk).unwrap();
    let h4 = mgr.get_block_cache(4, &mut disk).unwrap();
    mgr.modify_u64(&h2, 0, 222);
    mgr.modify_u64(&h3, 0, 333);
    assert!(mgr.is_dirty(&h2));
    assert!(mgr.is_dirty(&h3));
    assert!(!mgr.is_dirty(&h4));
    block_cache_sync_all(&mut mgr, &mut disk);
    // Every resident entry is clean now.
    assert!(!mgr.is_dirty(&h2));
    assert!(!mgr.is_dirty(&h3));
    assert!(!mgr.is_dirty(&h4));
    // Exactly the two dirty entries were written.
    assert_eq!(disk.write_count(), 2);
    // Re-reading each block directly from the device sees the last writes.
    let mut raw = vec![0u8; BLOCK_SZ];
    disk.read_block(2, &mut raw);
    assert_eq!(raw[0], 222);
    disk.read_block(3, &mut raw);
    assert_eq!(raw[0] as u64, 333 % 256);
    assert_eq!(raw[1] as u64, 333 / 256);
    // A second barrier with nothing dirty writes nothing further.
    block_cache_sync_all(&mut mgr, &mut disk);
    assert_eq!(disk.write_count(), 2);
    mgr.release(h2);
    mgr.release(h3);
    mgr.release(h4);
}

#[test]
fn sync_one_entry_through_pool() {
    let mut disk = MemDisk::new(16);
    let mut mgr = BlockCacheManager::new();
    let h = mgr.get_block_cache(7, &mut disk).unwrap();
    mgr.modify(&h, 0, &vec![9, 9, 9]);
    assert!(mgr.is_dirty(&h));
    mgr.sync(&h, &mut disk);
    assert!(!mgr.is_dirty(&h));
    assert_eq!(disk.write_count(), 1);
    let mut raw = vec![0u8; BLOCK_SZ];
    disk.read_block(7, &mut raw);
    assert_eq!(&raw[0..3], &[9, 9, 9]);
    mgr.release(h);
}

#[test]
fn mem_disk_basics() {
    let mut disk = MemDisk::new(5);
    assert_eq!(disk.block_count(), 5);
    let mut raw = vec![1u8; BLOCK_SZ];
    disk.read_block(4, &mut raw);
    assert_eq!(raw, vec![0u8; BLOCK_SZ]);
    let data = vec![7u8; BLOCK_SZ];
    disk.write_block(4, &data);
    disk.read_block(4, &mut raw);
    assert_eq!(raw, data);
    assert_eq!(disk.write_count(), 1);
}

#[test]
fn release_of_unpinned_entry_changes_nothing() {
    let mut disk = MemDisk::new(8);
    let mut mgr = BlockCacheManager::new();
    let h1 = mgr.get_block_cache(1, &mut disk).unwrap();
    let h1b = mgr.get_block_cache(1, &mut disk).unwrap();
    mgr.release(h1);
    assert_eq!(mgr.pin_count(1), Some(1));
    mgr.release(h1b);
    assert_eq!(mgr.pin_count(1), Some(0));
    assert!(mgr.contains(1));
    assert_eq!(mgr.pin_count(2), None);
}
