//! Block allocation of the simple on-disk filesystem: block 0 holds the
//! superblock, the others are handed out first fit from a free map.
use crate::bitmap::Bitmap;
use crate::error::Error;
use vstd::prelude::*;

verus! {

/// Sector size, and the size of a filesystem block.
pub const BLOCK_SIZE: u32 = 512;
/// Magic number of the superblock.
pub const DFS_MAGIC: u32 = 0xDEADF5F5;
/// Magic number of an inode.
pub const DINODE_MAGIC: u32 = 0xDEEAC0DE;

/// The free map of a filesystem with `block_cnt` blocks.
#[derive(Clone)]
pub struct BlockAlloc {
    pub block_cnt: u32,
    pub freemap: Bitmap,
}

/// Lowest block in `[lo, n)` that `used` marks free, or `n`.
pub open spec fn first_free_block(used: Seq<bool>, lo: int, n: int) -> int
    decreases n - lo,
{
    if lo >= n {
        n
    } else if !used[lo] {
        lo
    } else {
        first_free_block(used, lo + 1, n)
    }
}

impl BlockAlloc {
    pub open spec fn wf(&self) -> bool {
        &&& self.freemap.wf()
        &&& self.block_cnt <= self.freemap.length
    }

    /// Takes the lowest free block after the superblock; fails with
    /// `EFULL` when none is free.
    pub fn allocate(&mut self) -> (r: Result<u32, Error>)
        requires
            old(self).wf(),
        ensures
            final(self).wf(),
            final(self).block_cnt == old(self).block_cnt,
            ({
                let b = first_free_block(old(self).freemap.view(), 1, old(self).block_cnt as int);
                if b < old(self).block_cnt {
                    &&& r == Ok::<u32, Error>(b as u32)
                    &&& final(self).freemap.view() == old(self).freemap.view().update(b, true)
                } else {
                    &&& r == Err::<u32, Error>(Error::EFULL)
                    &&& final(self).freemap.view() == old(self).freemap.view()
                }
            }),
    {
        let mut idx: u32 = 1;
        while idx < self.block_cnt
            invariant
                1 <= idx,
                idx <= self.block_cnt || self.block_cnt == 0,
                self.wf(),
                *self == *old(self),
                first_free_block(self.freemap.view(), 1, self.block_cnt as int) == first_free_block(
                    self.freemap.view(),
                    idx as int,
                    self.block_cnt as int,
                ),
            decreases self.block_cnt - idx,
        {
            if !self.freemap.get(idx as usize) {
                self.freemap.set(idx as usize);
                return Ok(idx);
            }
            idx += 1;
        }
        Err(Error::EFULL)
    }

    /// Returns block `blockno`, which must be in use.
    pub fn free(&mut self, blockno: u32) -> (r: Result<(), Error>)
        requires
            old(self).wf(),
            blockno < old(self).freemap.length,
            old(self).freemap.view()[blockno as int],
        ensures
            final(self).wf(),
            final(self).block_cnt == old(self).block_cnt,
            r == Ok::<(), Error>(()),
            final(self).freemap.view() == old(self).freemap.view().update(blockno as int, false),
    {
        self.freemap.clear(blockno as usize);
        Ok(())
    }
}

/// Little-endian 32-bit value of the four bytes of `b` from `o`.
pub open spec fn le_u32(b: Seq<u8>, o: int) -> u32 {
    (b[o] as u32) | ((b[o + 1] as u32) << 8u32) | ((b[o + 2] as u32) << 16u32) | ((b[o + 3] as u32)
        << 24u32)
}

/// Reads the little-endian 32-bit value at byte `o` of `b`.
pub fn read_u32(b: &[u8], o: usize) -> (r: u32)
    requires
        o + 4 <= b@.len(),
    ensures
        r == le_u32(b@, o as int),
{
    (b[o] as u32) | ((b[o + 1] as u32) << 8) | ((b[o + 2] as u32) << 16) | ((b[o + 3] as u32) << 24)
}

/// The fields of the superblock that mounting reads.
#[derive(Clone, Copy, Debug, PartialEq, Eq, Structural)]
pub struct DSuperBlock {
    pub magic: u32,
    pub blockno: u32,
}

impl DSuperBlock {
    /// Reads the superblock from the first sector; fails with `EIO` when
    /// fewer than `BLOCK_SIZE` bytes were read and with `EBADFS` when the
    /// magic number is wrong.
    pub fn parse(block: &[u8]) -> (r: Result<DSuperBlock, Error>)
        ensures
            block@.len() < BLOCK_SIZE ==> r == Err::<DSuperBlock, Error>(Error::EIO),
            block@.len() >= BLOCK_SIZE && le_u32(block@, 0) != DFS_MAGIC ==> r == Err::<
                DSuperBlock,
                Error,
            >(Error::EBADFS),
            block@.len() >= BLOCK_SIZE && le_u32(block@, 0) == DFS_MAGIC ==> r == Ok::<
                DSuperBlock,
                Error,
            >(DSuperBlock { magic: DFS_MAGIC, blockno: le_u32(block@, 4) }),
    {
        if block.len() < BLOCK_SIZE as usize {
            return Err(Error::EIO);
        }
        let magic = read_u32(block, 0);
        if magic != DFS_MAGIC {
            return Err(Error::EBADFS);
        }
        Ok(DSuperBlock { magic, blockno: read_u32(block, 4) })
    }

    /// Number of sectors that hold the free map: one bit per block,
    /// rounded up to whole sectors.
    pub fn freemap_blocks(&self) -> (r: u32)
        ensures
            r as int == (self.blockno as int + BLOCK_SIZE * 8 - 1) / (BLOCK_SIZE * 8) as int,
    {
        let bits: u32 = BLOCK_SIZE * 8;
        let whole = self.blockno / bits;
        if self.blockno % bits != 0 {
            whole + 1
        } else {
            whole
        }
    }
}

/// Checks the magic number of an inode read from disk; fails with `EIO`
/// on a short read and with `EBADFS` on a wrong magic number.
pub fn check_inode(block: &[u8]) -> (r: Result<(), Error>)
    ensures
        block@.len() < BLOCK_SIZE ==> r == Err::<(), Error>(Error::EIO),
        block@.len() >= BLOCK_SIZE && le_u32(block@, 0) != DINODE_MAGIC ==> r == Err::<(), Error>(
            Error::EBADFS,
        ),
        block@.len() >= BLOCK_SIZE && le_u32(block@, 0) == DINODE_MAGIC ==> r == Ok::<(), Error>(()),
{
    if block.len() < BLOCK_SIZE as usize {
        return Err(Error::EIO);
    }
    if read_u32(block, 0) != DINODE_MAGIC {
        return Err(Error::EBADFS);
    }
    Ok(())
}

} // verus!
