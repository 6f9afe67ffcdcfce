//! Blocks: the parts in which a piece travels.

use vstd::prelude::*;

verus! {

/// The most bytes that a block holds, 16 KiB.
pub const BLOCK_LEN: u32 = 16384;

/// Which bytes of the torrent a block is.
#[derive(Debug, Clone, Copy, PartialEq, Eq, Structural)]
pub struct BlockInfo {
    /// The piece that the block belongs to.
    pub index: u32,
    /// Where the block begins in its piece.
    pub begin: u32,
    /// How many bytes the block has.
    pub len: u32,
}

/// The bytes of a block.
#[derive(Debug, PartialEq, Eq)]
pub struct Block {
    /// The piece that the block belongs to.
    pub index: usize,
    /// Where the block begins in its piece.
    pub begin: u32,
    pub block: Vec<u8>,
}

/// `n` modulo 2^32, as a cast to `u32` makes it.
pub open spec fn low_32(n: int) -> int {
    n % 0x1_0000_0000
}

/// The cast of a size to `u32`.
pub(crate) fn to_u32(n: usize) -> (low: u32)
    ensures
        low == low_32(n as int),
{
    let wide: u64 = n as u64;
    assert(wide as u32 == wide % 0x1_0000_0000u64) by (bit_vector);
    wide as u32
}

impl Block {
    /// Whether the block has at most [`BLOCK_LEN`] bytes.
    pub open spec fn valid(self) -> bool {
        self.block@.len() <= BLOCK_LEN
    }

    /// Which bytes of the torrent this block is.
    pub open spec fn place(self) -> BlockInfo {
        BlockInfo {
            index: low_32(self.index as int) as u32,
            begin: self.begin,
            len: low_32(self.block@.len() as int) as u32,
        }
    }

    /// Whether the block has at most [`BLOCK_LEN`] bytes.
    pub fn is_valid(&self) -> (valid: bool)
        ensures
            valid == self.valid(),
    {
        self.block.len() <= BLOCK_LEN as usize
    }

    /// Which bytes of the torrent this block is.
    pub fn info(&self) -> (info: BlockInfo)
        ensures
            info == self.place(),
    {
        BlockInfo {
            index: to_u32(self.index),
            begin: self.begin,
            len: to_u32(self.block.len()),
        }
    }
}

} // verus!
