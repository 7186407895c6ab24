//! The boundary contract with the block device collaborator, and a verified
//! in-memory device used by tests and by the surrounding program.
//!
//! A device is a map from block ids to block contents, each `BLOCK_SZ` bytes.
//! Reads and writes of a valid block id always succeed.

use vstd::prelude::*;

use crate::config::BLOCK_SZ;

verus! {

/// A fixed-size-block storage device. `disk()` is its abstract contents: the
/// bytes of every valid block, keyed by block id; `write_ops()` counts the
/// block writes it has performed.
pub trait BlockDevice: Sized {
    /// The current contents of every valid block.
    spec fn disk(&self) -> Map<int, Seq<u8>>;

    /// How many block writes the device has performed so far.
    spec fn write_ops(&self) -> nat;

    /// Every block a device exposes holds exactly `BLOCK_SZ` bytes.
    proof fn disk_block_size(&self, block_id: int)
        requires
            self.disk().contains_key(block_id),
        ensures
            self.disk()[block_id].len() == BLOCK_SZ,
    ;

    /// Fill `buf` with the current contents of block `block_id`.
    fn read_block(&self, block_id: usize, buf: &mut Vec<u8>)
        requires
            self.disk().contains_key(block_id as int),
            old(buf)@.len() == BLOCK_SZ,
        ensures
            final(buf)@ == self.disk()[block_id as int],
    ;

    /// Persist `buf` as the new contents of block `block_id`, as one write.
    fn write_block(&mut self, block_id: usize, buf: &Vec<u8>)
        requires
            old(self).disk().contains_key(block_id as int),
            buf@.len() == BLOCK_SZ,
        ensures
            final(self).disk() == old(self).disk().insert(block_id as int, buf@),
            final(self).write_ops() == old(self).write_ops() + 1,
    ;
}

/// An in-memory block device: block `i` of `0..num_blocks` lives in row `i`.
/// `write_count` mirrors `write_ops()` while it fits in a `u64`, so a caller
/// can observe at run time how many writes were issued.
pub struct MemDisk {
    rows: Vec<Vec<u8>>,
    /// The `u64` mirrors the ghost count until that count no longer fits.
    counters: (u64, Ghost<nat>),
}

impl MemDisk {
    /// A device of `num_blocks` blocks, all zero-filled.
    pub fn new(num_blocks: usize) -> (r: Self)
        ensures
            r.disk().dom() == Set::new(|i: int| 0 <= i < num_blocks),
            forall|i: int|
                0 <= i < num_blocks ==> r.disk()[i] == Seq::<u8>::new(
                    BLOCK_SZ as nat,
                    |j: int| 0u8,
                ),
            r.write_ops() == 0,
    {
        let mut rows: Vec<Vec<u8>> = Vec::new();
        let mut i: usize = 0;
        while i < num_blocks
            invariant
                i <= num_blocks,
                rows@.len() == i,
                forall|k: int| 0 <= k < i ==> (#[trigger] rows@[k])@ =~= Seq::<u8>::new(
                    BLOCK_SZ as nat,
                    |j: int| 0u8,
                ),
            decreases num_blocks - i,
        {
            let row: Vec<u8> = vec![0u8; BLOCK_SZ];
            assert(row@ =~= Seq::<u8>::new(BLOCK_SZ as nat, |j: int| 0u8));
            rows.push(row);
            i += 1;
        }
        let r = MemDisk { rows, counters: (0u64, Ghost(0)) };
        proof {
            assert(r.disk().dom() =~= Set::new(|i: int| 0 <= i < num_blocks));
        }
        r
    }

    /// Every row holds one block, and the executable counter mirrors
    /// `write_ops()` until that count leaves `u64`.
    #[verifier::type_invariant]
    spec fn inv(&self) -> bool {
        &&& self.rows_wf()
        &&& (self.counters.1@ <= u64::MAX ==> self.counters.0 == self.counters.1@)
    }

    /// How many blocks the device has: the valid ids are exactly `0..r`.
    pub fn block_count(&self) -> (r: usize)
        ensures
            forall|i: int| self.disk().contains_key(i) <==> 0 <= i < r,
    {
        proof {
            use_type_invariant(&*self);
        }
        self.rows.len()
    }

    /// How many block writes have been issued, while that count fits a `u64`.
    pub fn write_count(&self) -> (r: u64)
        ensures
            self.write_ops() <= u64::MAX ==> r == self.write_ops(),
    {
        proof {
            use_type_invariant(&*self);
        }
        self.counters.0
    }

    spec fn rows_wf(&self) -> bool {
        forall|i: int| 0 <= i < self.rows@.len() ==> (#[trigger] self.rows@[i])@.len() == BLOCK_SZ
    }
}

impl BlockDevice for MemDisk {
    closed spec fn disk(&self) -> Map<int, Seq<u8>> {
        Map::new(
            |i: int| 0 <= i < self.rows@.len() && self.rows@[i]@.len() == BLOCK_SZ,
            |i: int| self.rows@[i]@,
        )
    }

    closed spec fn write_ops(&self) -> nat {
        self.counters.1@
    }

    proof fn disk_block_size(&self, block_id: int) {
    }

    fn read_block(&self, block_id: usize, buf: &mut Vec<u8>) {
        let src = &self.rows[block_id];
        buf.clear();
        let mut i: usize = 0;
        while i < src.len()
            invariant
                i <= src@.len(),
                buf@ =~= src@.subrange(0, i as int),
            decreases src@.len() - i,
        {
            buf.push(src[i]);
            i += 1;
        }
        assert(buf@ =~= src@);
    }

    fn write_block(&mut self, block_id: usize, buf: &Vec<u8>) {
        let mut row: Vec<u8> = Vec::new();
        let mut i: usize = 0;
        while i < buf.len()
            invariant
                i <= buf@.len(),
                row@ =~= buf@.subrange(0, i as int),
            decreases buf@.len() - i,
        {
            row.push(buf[i]);
            i += 1;
        }
        assert(row@ =~= buf@);
        proof {
            use_type_invariant(&*self);
            assert(row@.len() == BLOCK_SZ);
        }
        let ghost rows0 = self.rows@;
        let mut rows: Vec<Vec<u8>> = Vec::new();
        core::mem::swap(&mut self.rows, &mut rows);
        rows.remove(block_id);
        rows.insert(block_id, row);
        proof {
            assert(rows@ =~= rows0.update(block_id as int, row));
        }
        self.rows = rows;
        let next: u64 = if self.counters.0 < u64::MAX {
            self.counters.0 + 1
        } else {
            self.counters.0
        };
        let ghost next_ops: nat = self.counters.1@ + 1;
        self.counters = (next, Ghost(next_ops));
        proof {
            assert(self.disk() =~= old(self).disk().insert(block_id as int, buf@));
        }
    }
}

} // verus!
