//! One cached block: the in-memory mirror of one device block, its dirty
//! flag, and offset-based typed views onto its bytes.

use vstd::prelude::*;

use crate::codec::{le64_byte, le64_decode, le64_encode, le64_from_bytes, lemma_le64_round_trip};
use crate::config::BLOCK_SZ;
use crate::device::BlockDevice;

verus! {

/// `buf` with the bytes at `offset..offset + data.len()` replaced by `data`.
pub open spec fn write_range(buf: Seq<u8>, offset: int, data: Seq<u8>) -> Seq<u8>
    recommends
        0 <= offset,
        offset + data.len() <= buf.len(),
{
    buf.subrange(0, offset).add(data).add(
        buf.subrange(offset + data.len(), buf.len() as int),
    )
}

/// Read-after-write: the range just written reads back exactly as the data
/// written, and every byte outside that range is untouched.
pub proof fn lemma_read_after_write(buf: Seq<u8>, offset: int, data: Seq<u8>)
    requires
        0 <= offset,
        offset + data.len() <= buf.len(),
    ensures
        write_range(buf, offset, data).subrange(offset, offset + data.len()) == data,
        forall|k: int|
            0 <= k < buf.len() && !(offset <= k < offset + data.len())
                ==> write_range(buf, offset, data)[k] == buf[k],
{
    assert(write_range(buf, offset, data).subrange(offset, offset + data.len()) =~= data);
}

/// Read-after-write for the eight-byte typed view: writing a `u64` at
/// `offset` and decoding the bytes at `offset` again yields that value.
pub proof fn lemma_read_after_write_u64(buf: Seq<u8>, offset: int, v: u64)
    requires
        0 <= offset,
        offset + 8 <= buf.len(),
    ensures
        le64_decode(write_range(buf, offset, le64_encode(v)).subrange(offset, offset + 8)) == v,
{
    lemma_read_after_write(buf, offset, le64_encode(v));
    lemma_le64_round_trip(v);
}

/// What one flush does to the device, given the flushed entry's state: a
/// dirty entry goes back to its block as exactly one device write; a clean
/// entry writes nothing at all.
pub open spec fn flush_transition(
    dirty: bool,
    buf: Seq<u8>,
    id: int,
    disk0: Map<int, Seq<u8>>,
    ops0: nat,
    disk1: Map<int, Seq<u8>>,
    ops1: nat,
) -> bool {
    &&& (dirty ==> disk1 == disk0.insert(id, buf) && ops1 == ops0 + 1)
    &&& (!dirty ==> disk1 == disk0 && ops1 == ops0)
}

/// Flush idempotence: after one mutation, one flush performs exactly one
/// device write, and a further flush — the entry now clean, its bytes
/// unchanged — performs zero further writes and leaves the device exactly as
/// the first flush left it.
pub proof fn lemma_flush_idempotent(
    buf: Seq<u8>,
    id: int,
    disk0: Map<int, Seq<u8>>,
    ops0: nat,
    disk1: Map<int, Seq<u8>>,
    ops1: nat,
    disk2: Map<int, Seq<u8>>,
    ops2: nat,
)
    requires
        flush_transition(true, buf, id, disk0, ops0, disk1, ops1),
        flush_transition(false, buf, id, disk1, ops1, disk2, ops2),
    ensures
        disk1 == disk0.insert(id, buf),
        ops1 == ops0 + 1,
        disk2 == disk1,
        ops2 == ops1,
{
}

/// The in-memory mirror of one device block. `buf()` is its current bytes,
/// `id()` the block it mirrors, `dirty()` whether it has been mutated since
/// the last flush.
pub struct BlockCache {
    cache: Vec<u8>,
    block_id: usize,
    modified: bool,
}

impl BlockCache {
    /// The current bytes of the cached block.
    pub closed spec fn buf(&self) -> Seq<u8> {
        self.cache@
    }

    /// The id of the device block this entry mirrors.
    pub closed spec fn id(&self) -> int {
        self.block_id as int
    }

    /// Whether the buffer has been mutated since the last flush.
    pub closed spec fn dirty(&self) -> bool {
        self.modified
    }

    /// The entry's buffer always holds exactly one block.
    pub open spec fn wf(&self) -> bool {
        self.buf().len() == BLOCK_SZ
    }

    /// Load a new entry from the device: one block read, clean to start.
    pub fn new<D: BlockDevice>(block_id: usize, block_device: &D) -> (r: Self)
        requires
            block_device.disk().contains_key(block_id as int),
        ensures
            r.wf(),
            r.id() == block_id,
            r.buf() == block_device.disk()[block_id as int],
            !r.dirty(),
    {
        proof {
            block_device.disk_block_size(block_id as int);
        }
        let mut cache: Vec<u8> = vec![0u8; BLOCK_SZ];
        block_device.read_block(block_id, &mut cache);
        BlockCache { cache, block_id, modified: false }
    }

    /// The block id, as the callers see it.
    pub fn block_id(&self) -> (r: usize)
        ensures
            r == self.id(),
    {
        self.block_id
    }

    /// Whether the entry is dirty, as the callers see it.
    pub fn is_dirty(&self) -> (r: bool)
        ensures
            r == self.dirty(),
    {
        self.modified
    }

    /// An immutable view of `len` bytes at `offset`: a copy of that range.
    pub fn read(&self, offset: usize, len: usize) -> (r: Vec<u8>)
        requires
            self.wf(),
            offset + len <= BLOCK_SZ,
        ensures
            r@ == self.buf().subrange(offset as int, offset + len),
    {
        let mut out: Vec<u8> = Vec::new();
        let mut i: usize = 0;
        while i < len
            invariant
                i <= len,
                offset + len <= BLOCK_SZ,
                self.wf(),
                out@ =~= self.buf().subrange(offset as int, offset + i),
            decreases len - i,
        {
            out.push(self.cache[offset + i]);
            i += 1;
        }
        assert(out@ =~= self.buf().subrange(offset as int, offset + len));
        out
    }

    /// A mutable view of the bytes at `offset`: overwrites them with `data`
    /// and pessimistically marks the entry dirty.
    pub fn modify(&mut self, offset: usize, data: &Vec<u8>)
        requires
            old(self).wf(),
            offset + data@.len() <= BLOCK_SZ,
        ensures
            final(self).wf(),
            final(self).id() == old(self).id(),
            final(self).buf() == write_range(old(self).buf(), offset as int, data@),
            final(self).dirty(),
    {
        let ghost buf0 = self.cache@;
        let len = data.len();
        let mut i: usize = 0;
        while i < len
            invariant
                i <= len,
                len == data@.len(),
                offset + len <= BLOCK_SZ,
                self.wf(),
                self.block_id == old(self).block_id,
                self.cache@ =~= write_range(buf0, offset as int, data@.subrange(0, i as int)),
                buf0.len() == BLOCK_SZ,
            decreases len - i,
        {
            self.cache[offset + i] = data[i];
            proof {
                assert(self.cache@ =~= write_range(
                    buf0,
                    offset as int,
                    data@.subrange(0, i + 1),
                ));
            }
            i += 1;
        }
        self.modified = true;
        proof {
            assert(data@.subrange(0, len as int) =~= data@);
        }
    }

    /// The typed view at `offset` read as a little-endian `u64`.
    pub fn read_u64(&self, offset: usize) -> (r: u64)
        requires
            self.wf(),
            offset + 8 <= BLOCK_SZ,
        ensures
            r == le64_decode(self.buf().subrange(offset as int, offset + 8)),
    {
        let r = le64_from_bytes(
            self.cache[offset],
            self.cache[offset + 1],
            self.cache[offset + 2],
            self.cache[offset + 3],
            self.cache[offset + 4],
            self.cache[offset + 5],
            self.cache[offset + 6],
            self.cache[offset + 7],
        );
        proof {
            let s = self.buf().subrange(offset as int, offset + 8);
            assert(seq![
                self.buf()[offset as int],
                self.buf()[offset + 1],
                self.buf()[offset + 2],
                self.buf()[offset + 3],
                self.buf()[offset + 4],
                self.buf()[offset + 5],
                self.buf()[offset + 6],
                self.buf()[offset + 7],
            ] =~= s);
        }
        r
    }

    /// The typed view at `offset` written as a little-endian `u64`; always
    /// marks the entry dirty.
    pub fn modify_u64(&mut self, offset: usize, v: u64)
        requires
            old(self).wf(),
            offset + 8 <= BLOCK_SZ,
        ensures
            final(self).wf(),
            final(self).id() == old(self).id(),
            final(self).buf() == write_range(old(self).buf(), offset as int, le64_encode(v)),
            final(self).dirty(),
    {
        let mut data: Vec<u8> = Vec::new();
        let mut i: usize = 0;
        while i < 8
            invariant
                i <= 8,
                data@ =~= le64_encode(v).subrange(0, i as int),
            decreases 8 - i,
        {
            data.push(le64_byte(v, i));
            i += 1;
        }
        assert(data@ =~= le64_encode(v));
        self.modify(offset, &data);
    }

    /// Flush: if dirty, write the whole buffer back to the device at
    /// `block_id` and clear the flag; otherwise touch nothing. Repeating it
    /// with no intervening mutation performs no further device write.
    pub fn sync<D: BlockDevice>(&mut self, device: &mut D)
        requires
            old(self).wf(),
            old(device).disk().contains_key(old(self).id()),
        ensures
            final(self).wf(),
            final(self).id() == old(self).id(),
            final(self).buf() == old(self).buf(),
            !final(self).dirty(),
            flush_transition(
                old(self).dirty(),
                old(self).buf(),
                old(self).id(),
                old(device).disk(),
                old(device).write_ops(),
                final(device).disk(),
                final(device).write_ops(),
            ),
            !old(self).dirty() ==> *final(device) == *old(device),
    {
        if self.modified {
            self.modified = false;
            device.write_block(self.block_id, &self.cache);
        }
    }
}

} // verus!
