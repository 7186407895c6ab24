//! The cache pool: a bounded collection of cache entries keyed by block id.
//! A lookup either pins the resident entry or admits the block, evicting the
//! oldest unpinned entry when the pool is full; a bulk flush writes every
//! dirty entry back.
//!
//! Each slot counts the handles that consumers currently hold on it; a slot
//! with a zero count is unpinned and may be evicted. That count is the one
//! load-bearing notion of "is anyone using this entry".

use vstd::prelude::*;

use crate::block_cache::{flush_transition, write_range, BlockCache};
use crate::codec::{le64_decode, le64_encode};
use crate::config::{BLOCK_CACHE_SIZE, BLOCK_SZ};
use crate::device::BlockDevice;

verus! {

/// The abstract state of one pool slot.
pub struct SlotView {
    /// The id of the block this slot caches.
    pub id: int,
    /// The cached bytes.
    pub buf: Seq<u8>,
    /// Whether the bytes have been mutated since the last flush.
    pub dirty: bool,
    /// How many handles consumers currently hold on this slot.
    pub pins: nat,
}

/// `s` with its pin count replaced.
pub open spec fn with_pins(s: SlotView, p: nat) -> SlotView {
    SlotView { id: s.id, buf: s.buf, dirty: s.dirty, pins: p }
}

/// `s` with its bytes replaced and its dirty flag raised.
pub open spec fn with_written(s: SlotView, buf: Seq<u8>) -> SlotView {
    SlotView { id: s.id, buf: buf, dirty: true, pins: s.pins }
}

/// `s` with its dirty flag cleared.
pub open spec fn with_clean(s: SlotView) -> SlotView {
    SlotView { id: s.id, buf: s.buf, dirty: false, pins: s.pins }
}

/// A slot as admission creates it: just read, clean, pinned once.
pub open spec fn fresh_slot(b: int, data: Seq<u8>) -> SlotView {
    SlotView { id: b, buf: data, dirty: false, pins: 1 }
}

/// Whether some slot caches block `b`.
pub open spec fn contains_block(s: Seq<SlotView>, b: int) -> bool {
    exists|i: int| 0 <= i < s.len() && s[i].id == b
}

/// The index of the slot that caches block `b`, when one does.
pub open spec fn index_of_block(s: Seq<SlotView>, b: int) -> int {
    choose|i: int| 0 <= i < s.len() && s[i].id == b
}

/// Whether some slot is unpinned.
pub open spec fn has_unpinned(s: Seq<SlotView>) -> bool {
    exists|i: int| 0 <= i < s.len() && s[i].pins == 0
}

/// The front-most (oldest-admitted) unpinned slot: the eviction candidate.
pub open spec fn first_unpinned(s: Seq<SlotView>) -> int
    decreases s.len(),
{
    if s.len() == 0 {
        0
    } else if s[0].pins == 0 {
        0
    } else {
        1 + first_unpinned(s.subrange(1, s.len() as int))
    }
}

/// The pool invariant over its abstract state: bounded, no block cached
/// twice, every buffer one block long.
pub open spec fn inv_slots(s: Seq<SlotView>) -> bool {
    &&& s.len() <= BLOCK_CACHE_SIZE
    &&& forall|i: int, j: int| 0 <= i < j < s.len() ==> s[i].id != s[j].id
    &&& forall|i: int| 0 <= i < s.len() ==> (#[trigger] s[i]).buf.len() == BLOCK_SZ
}

/// How many slots of `s` are dirty: the number of device writes one bulk
/// flush of `s` performs.
pub open spec fn dirty_count(s: Seq<SlotView>) -> nat
    decreases s.len(),
{
    if s.len() == 0 {
        0
    } else {
        dirty_count(s.drop_last()) + (if s.last().dirty {
            1nat
        } else {
            0nat
        })
    }
}

/// A pool with no dirty slot has a dirty count of zero: a bulk flush of it —
/// such as a second flush right after a first, with no intervening mutation —
/// performs zero device writes.
pub proof fn lemma_dirty_count_all_clean(s: Seq<SlotView>)
    requires
        forall|i: int| 0 <= i < s.len() ==> !(#[trigger] s[i]).dirty,
    ensures
        dirty_count(s) == 0,
    decreases s.len(),
{
    if s.len() > 0 {
        lemma_dirty_count_all_clean(s.drop_last());
    }
}

/// Identity sharing: a pool whose slots satisfy the invariant never holds two
/// slots for one block id, so any two lookups of `b` reach the same slot,
/// hence the same underlying buffer.
pub proof fn lemma_block_slot_unique(s: Seq<SlotView>, i: int, j: int)
    requires
        inv_slots(s),
        0 <= i < s.len(),
        0 <= j < s.len(),
        s[i].id == s[j].id,
    ensures
        i == j,
{
}

/// When a lookup of `b` finds a slot, that slot is the one `index_of_block`
/// names.
pub proof fn lemma_index_of_block(s: Seq<SlotView>, i: int)
    requires
        inv_slots(s),
        0 <= i < s.len(),
    ensures
        index_of_block(s, s[i].id) == i,
{
    assert(contains_block(s, s[i].id));
    let j = index_of_block(s, s[i].id);
    lemma_block_slot_unique(s, i, j);
}

/// The eviction candidate is a real slot, is unpinned, and every slot
/// admitted before it is pinned: eviction takes the oldest unpinned entry.
pub proof fn lemma_first_unpinned(s: Seq<SlotView>)
    requires
        has_unpinned(s),
    ensures
        0 <= first_unpinned(s) < s.len(),
        s[first_unpinned(s)].pins == 0,
        forall|j: int| 0 <= j < first_unpinned(s) ==> s[j].pins > 0,
    decreases s.len(),
{
    let w = choose|i: int| 0 <= i < s.len() && s[i].pins == 0;
    if s[0].pins == 0 {
    } else {
        let t = s.subrange(1, s.len() as int);
        assert(t[w - 1] == s[w]);
        assert(has_unpinned(t));
        lemma_first_unpinned(t);
        let f = first_unpinned(t);
        assert(s[1 + f] == t[f]);
        assert forall|j: int| 0 <= j < 1 + f implies s[j].pins > 0 by {
            if j > 0 {
                assert(t[j - 1] == s[j]);
            }
        }
    }
}

/// A scan from the front that stops at an unpinned slot has found the
/// eviction candidate.
pub proof fn lemma_first_unpinned_is(s: Seq<SlotView>, j: int)
    requires
        0 <= j < s.len(),
        s[j].pins == 0,
        forall|k: int| 0 <= k < j ==> s[k].pins > 0,
    ensures
        has_unpinned(s),
        first_unpinned(s) == j,
{
    assert(has_unpinned(s));
    lemma_first_unpinned(s);
    let f = first_unpinned(s);
    if f < j {
        assert(s[f].pins > 0);
    } else if j < f {
        assert(s[j].pins > 0);
    }
}

/// What one `get_block_cache` call does, over the pool's abstract state and
/// the device's abstract state. `b` is the requested block; `ok` whether a
/// handle came back.
pub open spec fn acquire_transition(
    pre: Seq<SlotView>,
    disk0: Map<int, Seq<u8>>,
    ops0: nat,
    post: Seq<SlotView>,
    disk1: Map<int, Seq<u8>>,
    ops1: nat,
    b: int,
    ok: bool,
) -> bool {
    // A hit pins the resident entry and performs no device write.
    &&& (contains_block(pre, b) ==> {
        let i = index_of_block(pre, b);
        &&& ok
        &&& post == pre.update(i, with_pins(pre[i], (pre[i].pins + 1) as nat))
        &&& disk1 == disk0
        &&& ops1 == ops0
    })
    // A miss with room admits the block at the back: one device read.
    &&& (!contains_block(pre, b) && pre.len() < BLOCK_CACHE_SIZE ==> {
        &&& ok
        &&& post == pre.push(fresh_slot(b, disk0[b]))
        &&& disk1 == disk0
        &&& ops1 == ops0
    })
    // A miss with a full pool evicts the oldest unpinned entry, flushing it
    // if dirty, then admits the block at the back.
    &&& (!contains_block(pre, b) && pre.len() == BLOCK_CACHE_SIZE && has_unpinned(pre) ==> {
        let k = first_unpinned(pre);
        &&& ok
        &&& post == pre.remove(k).push(fresh_slot(b, disk0[b]))
        &&& disk1 == (if pre[k].dirty {
            disk0.insert(pre[k].id, pre[k].buf)
        } else {
            disk0
        })
        &&& ops1 == ops0 + (if pre[k].dirty {
            1nat
        } else {
            0nat
        })
    })
    // A miss with every slot pinned fails and changes nothing at all.
    &&& (!contains_block(pre, b) && pre.len() == BLOCK_CACHE_SIZE && !has_unpinned(pre) ==> {
        &&& !ok
        &&& post == pre
        &&& disk1 == disk0
        &&& ops1 == ops0
    })
}

/// Whenever an acquisition of block `b` succeeds, an entry for `b` is
/// resident afterwards.
pub proof fn lemma_acquire_leaves_resident(
    pre: Seq<SlotView>,
    disk0: Map<int, Seq<u8>>,
    ops0: nat,
    post: Seq<SlotView>,
    disk1: Map<int, Seq<u8>>,
    ops1: nat,
    b: int,
)
    requires
        inv_slots(pre),
        acquire_transition(pre, disk0, ops0, post, disk1, ops1, b, true),
    ensures
        contains_block(post, b),
{
    if contains_block(pre, b) {
        let i = index_of_block(pre, b);
        assert(post[i].id == b);
    } else if pre.len() < BLOCK_CACHE_SIZE {
        assert(post[post.len() - 1].id == b);
    } else if has_unpinned(pre) {
        lemma_first_unpinned(pre);
        assert(post[post.len() - 1].id == b);
    }
}

/// Identity sharing: two acquisitions of block `b` without an intervening
/// eviction of it reach one slot. The second call finds the entry the first
/// call left resident, pins that very entry — same buffer, same dirty state
/// — and performs no device I/O at all.
pub proof fn lemma_identity_sharing(
    s0: Seq<SlotView>,
    d0: Map<int, Seq<u8>>,
    o0: nat,
    s1: Seq<SlotView>,
    d1: Map<int, Seq<u8>>,
    o1: nat,
    s2: Seq<SlotView>,
    d2: Map<int, Seq<u8>>,
    o2: nat,
    b: int,
)
    requires
        inv_slots(s0),
        acquire_transition(s0, d0, o0, s1, d1, o1, b, true),
        acquire_transition(s1, d1, o1, s2, d2, o2, b, true),
    ensures
        contains_block(s1, b),
        s2 == s1.update(
            index_of_block(s1, b),
            with_pins(
                s1[index_of_block(s1, b)],
                (s1[index_of_block(s1, b)].pins + 1) as nat,
            ),
        ),
        s2[index_of_block(s1, b)].buf == s1[index_of_block(s1, b)].buf,
        s2[index_of_block(s1, b)].id == b,
        d2 == d1,
        o2 == o1,
{
    lemma_acquire_leaves_resident(s0, d0, o0, s1, d1, o1, b);
    let j = index_of_block(s1, b);
    assert(0 <= j < s1.len() && s1[j].id == b);
}

/// The pool was asked for a new block while every slot was pinned by an
/// outstanding handle: a live resource-exhaustion condition the caller can
/// react to by releasing handles and retrying.
#[derive(Clone, Copy, Debug, PartialEq, Eq)]
pub struct CacheFull;

/// A consumer's handle on one cached block. Handles are not cloneable: each
/// one stands for exactly one pin taken by `get_block_cache` and given back
/// by `release`.
#[derive(Debug)]
pub struct CacheHandle {
    block_id: usize,
}

impl CacheHandle {
    /// The block this handle refers to.
    pub closed spec fn id(&self) -> int {
        self.block_id as int
    }

    /// The block this handle refers to, as the callers see it.
    pub fn block_id(&self) -> (r: usize)
        ensures
            r == self.id(),
    {
        self.block_id
    }
}

struct Slot {
    cache: BlockCache,
    pins: usize,
}

/// The cache pool. Slot order is admission order: front is oldest.
pub struct BlockCacheManager {
    queue: Vec<Slot>,
}

impl BlockCacheManager {
    /// The abstract state: one `SlotView` per resident entry, in admission
    /// order.
    pub closed spec fn slots(&self) -> Seq<SlotView> {
        Seq::new(
            self.queue@.len(),
            |i: int| SlotView {
                id: self.queue@[i].cache.id(),
                buf: self.queue@[i].cache.buf(),
                dirty: self.queue@[i].cache.dirty(),
                pins: self.queue@[i].pins as nat,
            },
        )
    }

    /// The pool is well formed: see `inv_slots`.
    pub open spec fn wf(&self) -> bool {
        inv_slots(self.slots())
    }

    /// Every resident block is a block of device state `disk`: the pool only
    /// ever caches blocks of the one device it is used with.
    pub open spec fn blocks_on(&self, disk: Map<int, Seq<u8>>) -> bool {
        forall|i: int| 0 <= i < self.slots().len() ==> disk.contains_key(
            (#[trigger] self.slots()[i]).id,
        )
    }

    /// An empty pool.
    pub fn new() -> (r: Self)
        ensures
            r.wf(),
            r.slots().len() == 0,
    {
        let r = BlockCacheManager { queue: Vec::new() };
        proof {
            assert(r.slots() =~= Seq::<SlotView>::empty());
        }
        r
    }

    /// How many entries are resident.
    pub fn len(&self) -> (r: usize)
        ensures
            r == self.slots().len(),
    {
        self.queue.len()
    }

    /// Whether the pool currently holds an entry for `block_id`.
    pub fn contains(&self, block_id: usize) -> (r: bool)
        requires
            self.wf(),
        ensures
            r == contains_block(self.slots(), block_id as int),
    {
        self.find_index(block_id).is_some()
    }

    /// The number of handles consumers currently hold on `block_id`'s entry,
    /// if it is resident: the inspectable reference count that eviction
    /// consults.
    pub fn pin_count(&self, block_id: usize) -> (r: Option<usize>)
        requires
            self.wf(),
        ensures
            match r {
                Some(p) => contains_block(self.slots(), block_id as int) && p == self.slots()[
                    index_of_block(self.slots(), block_id as int)
                ].pins,
                None => !contains_block(self.slots(), block_id as int),
            },
    {
        match self.find_index(block_id) {
            Some(i) => Some(self.queue[i].pins),
            None => None,
        }
    }

    /// Whether the handle's entry has been mutated since its last flush.
    pub fn is_dirty(&self, handle: &CacheHandle) -> (r: bool)
        requires
            self.wf(),
            contains_block(self.slots(), handle.id()),
        ensures
            r == self.slots()[index_of_block(self.slots(), handle.id())].dirty,
    {
        let i = self.find_index(handle.block_id()).unwrap();
        self.queue[i].cache.is_dirty()
    }

    /// The index of the slot caching `block_id`, if one does.
    fn find_index(&self, block_id: usize) -> (r: Option<usize>)
        requires
            self.wf(),
        ensures
            match r {
                Some(i) => i < self.slots().len() && self.slots()[i as int].id
                    == block_id as int && i as int == index_of_block(
                    self.slots(),
                    block_id as int,
                ),
                None => !contains_block(self.slots(), block_id as int),
            },
    {
        let n = self.queue.len();
        let mut i: usize = 0;
        while i < n
            invariant
                i <= n,
                n == self.queue@.len(),
                self.wf(),
                forall|j: int| 0 <= j < i ==> (#[trigger] self.slots()[j]).id != block_id as int,
            decreases n - i,
        {
            if self.queue[i].cache.block_id() == block_id {
                proof {
                    assert(self.slots()[i as int].id == block_id as int);
                    lemma_index_of_block(self.slots(), i as int);
                }
                return Some(i);
            }
            proof {
                assert(self.slots()[i as int].id != block_id as int);
            }
            i += 1;
        }
        return None;
    }

    /// Look the block up, or admit it, evicting if the pool is full: the sole
    /// way a consumer obtains a handle on a cached block. Exactly the
    /// `acquire_transition` relation holds between the states before and
    /// after; on failure (every slot pinned) nothing has changed.
    #[verifier::loop_isolation(false)]
    pub fn get_block_cache<D: BlockDevice>(
        &mut self,
        block_id: usize,
        block_device: &mut D,
    ) -> (r: Result<CacheHandle, CacheFull>)
        requires
            old(self).wf(),
            old(block_device).disk().contains_key(block_id as int),
            old(self).blocks_on(old(block_device).disk()),
            contains_block(old(self).slots(), block_id as int) ==> old(self).slots()[
                index_of_block(old(self).slots(), block_id as int)
            ].pins < usize::MAX,
        ensures
            final(self).wf(),
            final(self).blocks_on(final(block_device).disk()),
            (r matches Ok(h) ==> h.id() == block_id as int),
            acquire_transition(
                old(self).slots(),
                old(block_device).disk(),
                old(block_device).write_ops(),
                final(self).slots(),
                final(block_device).disk(),
                final(block_device).write_ops(),
                block_id as int,
                r is Ok,
            ),
    {
        let ghost pre = self.slots();
        let ghost disk0 = block_device.disk();
        match self.find_index(block_id) {
            Some(i) => {
                // Hit: hand out one more reference to the resident entry.
                let slot = &mut self.queue[i];
                slot.pins = slot.pins + 1;
                proof {
                    assert(self.slots() =~= pre.update(
                        i as int,
                        with_pins(pre[i as int], (pre[i as int].pins + 1) as nat),
                    ));
                }
                Ok(CacheHandle { block_id })
            },
            None => {
                if self.queue.len() == BLOCK_CACHE_SIZE {
                    // Full pool: scan front to back for the first entry no
                    // consumer holds, the eviction candidate.
                    let n = self.queue.len();
                    let mut j: usize = 0;
                    while j < n && self.queue[j].pins != 0
                        invariant
                            j <= n,
                            n == self.queue@.len(),
                            forall|k: int| 0 <= k < j ==> (#[trigger] self.slots()[k]).pins > 0,
                        decreases n - j,
                    {
                        proof {
                            assert(self.slots()[j as int].pins > 0);
                        }
                        j += 1;
                    }
                    if j == n {
                        // Saturated: all slots pinned; fail, touching nothing.
                        proof {
                            if has_unpinned(pre) {
                                let w = choose|i: int|
                                    0 <= i < pre.len() && pre[i].pins == 0;
                                assert(pre[w].pins > 0);
                            }
                        }
                        return Err(CacheFull);
                    }
                    // Evict: flush the candidate if dirty, then drop it.
                    proof {
                        lemma_first_unpinned_is(pre, j as int);
                    }
                    let mut victim = self.queue.remove(j);
                    victim.cache.sync(block_device);
                    proof {
                        assert(self.slots() =~= pre.remove(j as int));
                    }
                }
                // Admit: one device read, then append at the back.
                let ghost mid = self.slots();
                let ghost disk1 = block_device.disk();
                let cache = BlockCache::new(block_id, block_device);
                self.queue.push(Slot { cache, pins: 1 });
                proof {
                    assert(self.slots() =~= mid.push(fresh_slot(block_id as int, disk1[
                        block_id as int
                    ])));
                    if !contains_block(pre, block_id as int) && pre.len() == BLOCK_CACHE_SIZE {
                        assert(disk1[block_id as int] == disk0[block_id as int]);
                    }
                }
                Ok(CacheHandle { block_id })
            },
        }
    }

    /// Give one handle back. The matching slot's pin count drops by one; the
    /// entry itself stays resident until eviction takes it. On a handle whose
    /// block is no longer resident, or whose slot counts no pin, nothing
    /// changes.
    pub fn release(&mut self, handle: CacheHandle)
        requires
            old(self).wf(),
        ensures
            final(self).wf(),
            contains_block(old(self).slots(), handle.id()) && old(self).slots()[
                index_of_block(old(self).slots(), handle.id())
            ].pins > 0 ==> final(self).slots() == old(self).slots().update(
                index_of_block(old(self).slots(), handle.id()),
                with_pins(
                    old(self).slots()[index_of_block(old(self).slots(), handle.id())],
                    (old(self).slots()[index_of_block(old(self).slots(), handle.id())].pins
                        - 1) as nat,
                ),
            ),
            !(contains_block(old(self).slots(), handle.id()) && old(self).slots()[
                index_of_block(old(self).slots(), handle.id())
            ].pins > 0) ==> final(self).slots() == old(self).slots(),
    {
        let ghost pre = self.slots();
        match self.find_index(handle.block_id()) {
            Some(i) => {
                let slot = &mut self.queue[i];
                if slot.pins > 0 {
                    slot.pins = slot.pins - 1;
                    proof {
                        assert(self.slots() =~= pre.update(
                            i as int,
                            with_pins(pre[i as int], (pre[i as int].pins - 1) as nat),
                        ));
                    }
                } else {
                    proof {
                        assert(self.slots() =~= pre);
                    }
                }
            },
            None => {},
        }
    }

    /// An immutable view of `len` bytes at `offset` of the block the handle
    /// refers to.
    pub fn read(&self, handle: &CacheHandle, offset: usize, len: usize) -> (r: Vec<u8>)
        requires
            self.wf(),
            contains_block(self.slots(), handle.id()),
            offset + len <= BLOCK_SZ,
        ensures
            r@ == self.slots()[index_of_block(self.slots(), handle.id())].buf.subrange(
                offset as int,
                offset + len,
            ),
    {
        let i = self.find_index(handle.block_id()).unwrap();
        self.queue[i].cache.read(offset, len)
    }

    /// The typed view at `offset` of the handle's block, read as a
    /// little-endian `u64`.
    pub fn read_u64(&self, handle: &CacheHandle, offset: usize) -> (r: u64)
        requires
            self.wf(),
            contains_block(self.slots(), handle.id()),
            offset + 8 <= BLOCK_SZ,
        ensures
            r == le64_decode(
                self.slots()[index_of_block(self.slots(), handle.id())].buf.subrange(
                    offset as int,
                    offset + 8,
                ),
            ),
    {
        let i = self.find_index(handle.block_id()).unwrap();
        self.queue[i].cache.read_u64(offset)
    }

    /// A mutable view at `offset` of the handle's block: overwrites the bytes
    /// there and marks the entry dirty.
    pub fn modify(&mut self, handle: &CacheHandle, offset: usize, data: &Vec<u8>)
        requires
            old(self).wf(),
            contains_block(old(self).slots(), handle.id()),
            offset + data@.len() <= BLOCK_SZ,
        ensures
            final(self).wf(),
            final(self).slots() == old(self).slots().update(
                index_of_block(old(self).slots(), handle.id()),
                with_written(
                    old(self).slots()[index_of_block(old(self).slots(), handle.id())],
                    write_range(
                        old(self).slots()[index_of_block(old(self).slots(), handle.id())].buf,
                        offset as int,
                        data@,
                    ),
                ),
            ),
    {
        let ghost pre = self.slots();
        let i = self.find_index(handle.block_id()).unwrap();
        let slot = &mut self.queue[i];
        slot.cache.modify(offset, data);
        proof {
            assert(self.slots() =~= pre.update(
                i as int,
                with_written(
                    pre[i as int],
                    write_range(pre[i as int].buf, offset as int, data@),
                ),
            ));
        }
    }

    /// The typed view at `offset` of the handle's block, written as a
    /// little-endian `u64`; always marks the entry dirty.
    pub fn modify_u64(&mut self, handle: &CacheHandle, offset: usize, v: u64)
        requires
            old(self).wf(),
            contains_block(old(self).slots(), handle.id()),
            offset + 8 <= BLOCK_SZ,
        ensures
            final(self).wf(),
            final(self).slots() == old(self).slots().update(
                index_of_block(old(self).slots(), handle.id()),
                with_written(
                    old(self).slots()[index_of_block(old(self).slots(), handle.id())],
                    write_range(
                        old(self).slots()[index_of_block(old(self).slots(), handle.id())].buf,
                        offset as int,
                        le64_encode(v),
                    ),
                ),
            ),
    {
        let ghost pre = self.slots();
        let i = self.find_index(handle.block_id()).unwrap();
        let slot = &mut self.queue[i];
        slot.cache.modify_u64(offset, v);
        proof {
            assert(self.slots() =~= pre.update(
                i as int,
                with_written(
                    pre[i as int],
                    write_range(pre[i as int].buf, offset as int, le64_encode(v)),
                ),
            ));
        }
    }

    /// Flush the handle's block: if its entry is dirty, one device write and
    /// a cleared flag; otherwise the device is left completely untouched, so
    /// repeated flushes with no intervening mutation write at most once.
    pub fn sync<D: BlockDevice>(&mut self, handle: &CacheHandle, device: &mut D)
        requires
            old(self).wf(),
            contains_block(old(self).slots(), handle.id()),
            old(device).disk().contains_key(
                old(self).slots()[index_of_block(old(self).slots(), handle.id())].id,
            ),
        ensures
            final(self).wf(),
            final(self).slots() == old(self).slots().update(
                index_of_block(old(self).slots(), handle.id()),
                with_clean(old(self).slots()[index_of_block(old(self).slots(), handle.id())]),
            ),
            ({
                let s = old(self).slots()[index_of_block(old(self).slots(), handle.id())];
                &&& flush_transition(
                    s.dirty,
                    s.buf,
                    s.id,
                    old(device).disk(),
                    old(device).write_ops(),
                    final(device).disk(),
                    final(device).write_ops(),
                )
                &&& (!s.dirty ==> *final(device) == *old(device))
            }),
    {
        let ghost pre = self.slots();
        let i = self.find_index(handle.block_id()).unwrap();
        let slot = &mut self.queue[i];
        slot.cache.sync(device);
        proof {
            assert(self.slots() =~= pre.update(i as int, with_clean(pre[i as int])));
        }
    }

    /// Flush every resident entry, front to back: a durability barrier that
    /// evicts nothing. Afterwards every entry is clean, every dirty entry's
    /// bytes are on the device, and every other block of the device is
    /// untouched.
    #[verifier::loop_isolation(false)]
    pub fn sync_all<D: BlockDevice>(&mut self, device: &mut D)
        requires
            old(self).wf(),
            old(self).blocks_on(old(device).disk()),
        ensures
            final(self).wf(),
            final(self).slots().len() == old(self).slots().len(),
            forall|i: int| 0 <= i < old(self).slots().len() ==> final(self).slots()[i]
                == with_clean(#[trigger] old(self).slots()[i]),
            final(device).disk().dom() == old(device).disk().dom(),
            forall|i: int| 0 <= i < old(self).slots().len() && (#[trigger] old(
                self,
            ).slots()[i]).dirty ==> final(device).disk()[old(self).slots()[i].id] == old(
                self,
            ).slots()[i].buf,
            forall|k: int| old(device).disk().contains_key(k) && (forall|i: int| 0 <= i < old(
                self,
            ).slots().len() ==> !((#[trigger] old(self).slots()[i]).id == k && old(
                self,
            ).slots()[i].dirty)) ==> #[trigger] final(device).disk()[k] == old(device).disk()[k],
            final(device).write_ops() == old(device).write_ops() + dirty_count(
                old(self).slots(),
            ),
            final(self).blocks_on(final(device).disk()),
    {
        let ghost pre = self.slots();
        let ghost disk0 = device.disk();
        let ghost ops0 = device.write_ops();
        let n = self.queue.len();
        let mut i: usize = 0;
        while i < n
            invariant
                i <= n,
                n == self.queue@.len(),
                self.slots().len() == pre.len(),
                forall|k: int| 0 <= k < i ==> self.slots()[k] == with_clean(#[trigger] pre[k]),
                forall|k: int| i <= k < n ==> self.slots()[k] == #[trigger] pre[k],
                device.disk().dom() == disk0.dom(),
                forall|k: int| 0 <= k < i && (#[trigger] pre[k]).dirty ==> device.disk()[
                    pre[k].id
                ] == pre[k].buf,
                forall|key: int| disk0.contains_key(key) && (forall|t: int| 0 <= t < i ==> !((
                    #[trigger] pre[t]).id == key && pre[t].dirty)) ==> #[trigger] device.disk()[
                    key
                ] == disk0[key],
                device.write_ops() == ops0 + dirty_count(pre.subrange(0, i as int)),
            decreases n - i,
        {
            let ghost cur = self.slots();
            let ghost diskc = device.disk();
            let slot = &mut self.queue[i];
            proof {
                assert(cur[i as int] == pre[i as int]);
            }
            slot.cache.sync(device);
            proof {
                assert(self.slots() =~= cur.update(i as int, with_clean(cur[i as int])));
                assert forall|key: int|
                    disk0.contains_key(key) && (forall|t: int| 0 <= t < i + 1 ==> !((
                        #[trigger] pre[t]).id == key && pre[t].dirty)) implies device.disk()[key]
                    == disk0[key] by {
                    assert(!(pre[i as int].id == key && pre[i as int].dirty));
                }
                assert(pre.subrange(0, i + 1).drop_last() =~= pre.subrange(0, i as int));
                assert(pre.subrange(0, i + 1).last() == pre[i as int]);
                assert(dirty_count(pre.subrange(0, i + 1)) == dirty_count(
                    pre.subrange(0, i as int),
                ) + (if pre[i as int].dirty {
                    1nat
                } else {
                    0nat
                }));
            }
            i += 1;
        }
        proof {
            assert(pre.subrange(0, n as int) =~= pre);
            assert forall|a: int, b: int|
                0 <= a < b < self.slots().len() implies self.slots()[a].id
                != self.slots()[b].id by {
                assert(self.slots()[a] == with_clean(pre[a]));
                assert(self.slots()[b] == with_clean(pre[b]));
            }
            assert forall|a: int| 0 <= a < self.slots().len() implies (
            #[trigger] self.slots()[a]).buf.len() == BLOCK_SZ by {
                assert(self.slots()[a] == with_clean(pre[a]));
            }
            assert forall|a: int| 0 <= a < self.slots().len() implies device.disk().contains_key(
                (#[trigger] self.slots()[a]).id,
            ) by {
                assert(self.slots()[a] == with_clean(pre[a]));
                assert(disk0.contains_key(pre[a].id));
            }
        }
    }
}

/// Look block `block_id` up in the pool, or admit it from `block_device`,
/// evicting if the pool is full: the entry point consumers call.
pub fn get_block_cache<D: BlockDevice>(
    block_id: usize,
    block_device: &mut D,
    manager: &mut BlockCacheManager,
) -> (r: Result<CacheHandle, CacheFull>)
    requires
        old(manager).wf(),
        old(block_device).disk().contains_key(block_id as int),
        old(manager).blocks_on(old(block_device).disk()),
        contains_block(old(manager).slots(), block_id as int) ==> old(manager).slots()[
            index_of_block(old(manager).slots(), block_id as int)
        ].pins < usize::MAX,
    ensures
        final(manager).wf(),
        final(manager).blocks_on(final(block_device).disk()),
        (r matches Ok(h) ==> h.id() == block_id as int),
        acquire_transition(
            old(manager).slots(),
            old(block_device).disk(),
            old(block_device).write_ops(),
            final(manager).slots(),
            final(block_device).disk(),
            final(block_device).write_ops(),
            block_id as int,
            r is Ok,
        ),
{
    manager.get_block_cache(block_id, block_device)
}

/// Flush every entry of the pool to the device: the bulk durability barrier
/// consumers call.
pub fn block_cache_sync_all<D: BlockDevice>(manager: &mut BlockCacheManager, device: &mut D)
    requires
        old(manager).wf(),
        old(manager).blocks_on(old(device).disk()),
    ensures
        final(manager).wf(),
        final(manager).slots().len() == old(manager).slots().len(),
        forall|i: int| 0 <= i < old(manager).slots().len() ==> final(manager).slots()[i]
            == with_clean(#[trigger] old(manager).slots()[i]),
        final(device).disk().dom() == old(device).disk().dom(),
        forall|i: int| 0 <= i < old(manager).slots().len() && (#[trigger] old(
            manager,
        ).slots()[i]).dirty ==> final(device).disk()[old(manager).slots()[i].id] == old(
            manager,
        ).slots()[i].buf,
        forall|k: int| old(device).disk().contains_key(k) && (forall|i: int| 0 <= i < old(
            manager,
        ).slots().len() ==> !((#[trigger] old(manager).slots()[i]).id == k && old(
            manager,
        ).slots()[i].dirty)) ==> #[trigger] final(device).disk()[k] == old(device).disk()[k],
        final(device).write_ops() == old(device).write_ops() + dirty_count(
            old(manager).slots(),
        ),
        final(manager).blocks_on(final(device).disk()),
{
    manager.sync_all(device)
}

} // verus!
