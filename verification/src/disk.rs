//! What is asked of the task that reads and writes the files of the torrent.

use crate::blocks::{Block, BlockInfo};
use crate::metainfo::Info;
use vstd::prelude::*;

verus! {

/// A message to the disk.
#[derive(Debug, PartialEq, Eq)]
pub enum DiskMsg {
    /// The info of the torrent is known: prepare its files.
    NewTorrent(Info),
    /// Hand out up to `count` blocks of `piece` that were not handed out before, and mark them
    /// as requested.
    RequestBlocks { count: usize, piece: usize },
    /// Tell whether the bytes of this piece have the hash that the info gives.
    ValidatePiece(usize),
    /// Write a block.
    WriteBlock(Block),
    /// Read a block.
    ReadBlock(BlockInfo),
}

} // verus!
