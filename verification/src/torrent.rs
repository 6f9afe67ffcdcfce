//! What the peers of a torrent share.

use crate::bitfield::Bitfield;
use crate::blocks::{BlockInfo, BLOCK_LEN};
use crate::magnet::Magnet;
use crate::metainfo::{Info, InfoView};
use std::collections::{BTreeMap, VecDeque};
use vstd::prelude::*;

verus! {

/// A message to the torrent.
#[derive(Debug, PartialEq, Eq)]
pub enum TorrentMsg {
    /// A peer has sent a bitfield of this many bytes.
    UpdateBitfield(usize),
}

/// What is fixed when the torrent is opened.
#[derive(Debug)]
pub struct TorrentCtx {
    pub magnet: Magnet,
}

/// How far the download has come.
#[derive(Debug)]
pub struct TorrentState {
    /// The pieces that were downloaded and validated.
    pub pieces: Bitfield,
    /// The blocks that were requested from some peer.
    pub requested_blocks: VecDeque<BlockInfo>,
    /// The blocks that were received and written, the latest first.
    pub downloaded_blocks: VecDeque<BlockInfo>,
    pub info: Info,
    /// The pieces of the info dictionary that were received.
    pub info_dict: BTreeMap<u32, Vec<u8>>,
}

#[verifier::ext_equal]
pub struct TorrentView {
    pub pieces: Seq<bool>,
    pub requested_blocks: Seq<BlockInfo>,
    pub downloaded_blocks: Seq<BlockInfo>,
    pub info: InfoView,
    pub info_dict: Map<u32, Seq<u8>>,
}

impl View for TorrentState {
    type V = TorrentView;

    open spec fn view(&self) -> TorrentView {
        TorrentView {
            pieces: self.pieces@,
            requested_blocks: self.requested_blocks@,
            downloaded_blocks: self.downloaded_blocks@,
            info: self.info@,
            info_dict: self.info_dict@.map_values(|bytes: Vec<u8>| bytes@),
        }
    }
}

impl Default for TorrentState {
    /// The state of a torrent of which nothing is known but its magnet link.
    fn default() -> (state: TorrentState)
        ensures
            state@ == (TorrentView {
                pieces: Seq::empty(),
                requested_blocks: Seq::empty(),
                downloaded_blocks: Seq::empty(),
                info: InfoView { piece_length: 0, pieces: Seq::empty(), bytes: Seq::empty() },
                info_dict: Map::empty(),
            }),
    {
        let state = TorrentState {
            pieces: Bitfield::default(),
            requested_blocks: VecDeque::new(),
            downloaded_blocks: VecDeque::new(),
            info: Info::default(),
            info_dict: BTreeMap::new(),
        };
        assert(state@.info_dict =~= Map::empty());
        state
    }
}

/// The values under the keys below `end`, one after another, in the order of the keys.
pub open spec fn joined_below(parts: Map<u32, Seq<u8>>, end: int) -> Seq<u8>
    decreases end,
{
    if end <= 0 {
        Seq::empty()
    } else if parts.contains_key((end - 1) as u32) {
        joined_below(parts, end - 1) + parts[(end - 1) as u32]
    } else {
        joined_below(parts, end - 1)
    }
}

/// The values of `parts`, one after another, in the order of the keys.
pub open spec fn joined(parts: Map<u32, Seq<u8>>) -> Seq<u8> {
    joined_below(parts, 0x1_0000_0000)
}

/// Keys without a value add nothing.
pub proof fn lemma_joined_gap(parts: Map<u32, Seq<u8>>, start: int, end: int)
    requires
        0 <= start <= end <= 0x1_0000_0000,
        forall|k: u32| start <= k < end ==> !#[trigger] parts.contains_key(k),
    ensures
        joined_below(parts, start) == joined_below(parts, end),
    decreases end - start,
{
    if start < end {
        lemma_joined_gap(parts, start, end - 1);
    }
}

/// A single value is all that the values amount to.
pub proof fn lemma_joined_one(key: u32, bytes: Seq<u8>)
    ensures
        joined(Map::empty().insert(key, bytes)) == bytes,
{
    let parts = Map::empty().insert(key, bytes);
    lemma_joined_gap(parts, 0, key as int);
    lemma_joined_gap(parts, key + 1, 0x1_0000_0000);
    assert(joined_below(parts, key + 1) =~= bytes);
}

/// `keys` are the members of `dom`, in ascending order.
spec fn ascending_keys(keys: Seq<u32>, dom: Set<u32>) -> bool {
    &&& forall|i: int, j: int| 0 <= i < j < keys.len() ==> keys[i] < keys[j]
    &&& keys.to_set() == dom
}

proof fn lemma_increasing(keys: Seq<u32>)
    requires
        vstd::std_specs::btree::increasing_seq(keys),
    ensures
        forall|i: int, j: int| 0 <= i < j < keys.len() ==> keys[i] < keys[j],
{
    assert forall|i: int, j: int| 0 <= i < j < keys.len() implies keys[i] < keys[j] by {
        assert(vstd::std_specs::cmp::OrdSpec::cmp_spec(&keys[i], &keys[j]) is Less);
    }
}

spec fn key_or_end(keys: Seq<u32>, i: int) -> int {
    if i < 0 {
        0
    } else if i < keys.len() {
        keys[i] as int
    } else {
        0x1_0000_0000
    }
}

/// There is no value between the key at `i` and the next one.
proof fn lemma_keys_gap(parts: Map<u32, Seq<u8>>, keys: Seq<u32>, i: int)
    requires
        ascending_keys(keys, parts.dom()),
        -1 <= i < keys.len(),
    ensures
        joined_below(parts, if i < 0 {
            0
        } else {
            keys[i] + 1
        }) == joined_below(parts, key_or_end(keys, i + 1)),
{
    let start = if i < 0 {
        0
    } else {
        keys[i] + 1
    };
    let end = key_or_end(keys, i + 1);
    assert forall|k: u32| start <= k < end implies !#[trigger] parts.contains_key(k) by {
        if parts.contains_key(k) {
            assert(keys.to_set().contains(k));
            let j = choose|j: int| 0 <= j < keys.len() && keys[j] == k;
            assert(keys[j] == k);
        }
    }
    lemma_joined_gap(parts, start, end);
}

/// The blocks that were requested and are not among those downloaded, in order.
pub open spec fn missing_of(requested: Seq<BlockInfo>, downloaded: Seq<BlockInfo>) -> Seq<BlockInfo> {
    requested.filter(|block: BlockInfo| !downloaded.contains(block))
}

/// Whether the `k`-th block of `piece` was requested.
pub open spec fn block_requested(requested: Seq<BlockInfo>, piece: int, k: int) -> bool {
    exists|i: int|
        0 <= i < requested.len() && (#[trigger] requested[i]).index == piece && requested[i].begin
            == k * BLOCK_LEN
}

impl TorrentView {
    /// Whether every block of `piece` was requested. It is not known to be while the info is
    /// missing, nor of a last piece that is shorter than the others.
    pub open spec fn fully_requested(self, piece: int) -> bool {
        &&& self.info.piece_length > 0
        &&& forall|k: int|
            0 <= k < self.info.blocks_per_piece() ==> #[trigger] block_requested(
                self.requested_blocks,
                piece,
                k,
            )
    }
}

fn contains_block(blocks: &VecDeque<BlockInfo>, block: BlockInfo) -> (found: bool)
    ensures
        found == blocks@.contains(block),
{
    let mut i: usize = 0;
    while i < blocks.len()
        invariant
            0 <= i <= blocks@.len(),
            forall|k: int| 0 <= k < i ==> blocks@[k] != block,
        decreases blocks.len() - i,
    {
        if blocks[i] == block {
            assert(blocks@[i as int] == block);
            return true;
        }
        i += 1;
    }
    false
}

impl TorrentState {
    /// The blocks that were requested but not downloaded, in the order of the requests.
    pub fn missing_blocks(&self) -> (missing: Vec<BlockInfo>)
        ensures
            missing@ == missing_of(self@.requested_blocks, self@.downloaded_blocks),
    {
        let ghost wanted = |block: BlockInfo| !self.downloaded_blocks@.contains(block);
        let mut missing: Vec<BlockInfo> = Vec::new();
        let mut i: usize = 0;
        proof {
            reveal(Seq::filter);
            assert(self.requested_blocks@.take(0) =~= Seq::empty());
        }
        while i < self.requested_blocks.len()
            invariant
                0 <= i <= self.requested_blocks@.len(),
                wanted == (|block: BlockInfo| !self.downloaded_blocks@.contains(block)),
                missing@ == self.requested_blocks@.take(i as int).filter(wanted),
            decreases self.requested_blocks.len() - i,
        {
            let block: BlockInfo = self.requested_blocks[i];
            if !contains_block(&self.downloaded_blocks, block) {
                missing.push(block);
            }
            proof {
                reveal(Seq::filter);
                let longer = self.requested_blocks@.take(i + 1);
                assert(longer.drop_last() =~= self.requested_blocks@.take(i as int));
                assert(longer.last() == block);
            }
            i += 1;
        }
        assert(self.requested_blocks@.take(i as int) =~= self.requested_blocks@);
        missing
    }

    /// Whether the `k`-th block of `piece`, which begins at `begin`, was requested.
    fn is_block_requested(&self, piece: usize, begin: u32, Ghost(k): Ghost<int>) -> (found: bool)
        requires
            begin == k * BLOCK_LEN,
        ensures
            found == block_requested(self@.requested_blocks, piece as int, k),
    {
        let mut i: usize = 0;
        while i < self.requested_blocks.len()
            invariant
                0 <= i <= self.requested_blocks@.len(),
                begin == k * BLOCK_LEN,
                forall|j: int|
                    0 <= j < i ==> !((#[trigger] self.requested_blocks@[j]).index == piece
                        && self.requested_blocks@[j].begin == begin),
            decreases self.requested_blocks.len() - i,
        {
            let block: BlockInfo = self.requested_blocks[i];
            if block.index as usize == piece && block.begin == begin {
                assert(self.requested_blocks@[i as int] == block);
                return true;
            }
            i += 1;
        }
        false
    }

    /// Whether every block of `piece` was requested, as far as the info tells.
    pub fn fully_requested(&self, piece: usize) -> (full: bool)
        ensures
            full == self@.fully_requested(piece as int),
    {
        let length: u64 = self.info.piece_length as u64;
        if length == 0 {
            return false;
        }
        let count: u64 = (length + (BLOCK_LEN as u64 - 1)) / BLOCK_LEN as u64;
        let mut k: u64 = 0;
        while k < count
            invariant
                0 <= k <= count,
                length == self.info.piece_length,
                count == self@.info.blocks_per_piece(),
                forall|j: int|
                    0 <= j < k ==> #[trigger] block_requested(
                        self@.requested_blocks,
                        piece as int,
                        j,
                    ),
            decreases count - k,
        {
            assert(k * BLOCK_LEN < length);
            let begin: u32 = (k * BLOCK_LEN as u64) as u32;
            if !self.is_block_requested(piece, begin, Ghost(k as int)) {
                return false;
            }
            k += 1;
        }
        true
    }

    /// Notes that a block was written, unless it was before.
    pub fn note_download(&mut self, block: BlockInfo)
        ensures
            final(self)@ == (TorrentView {
                downloaded_blocks: if old(self)@.downloaded_blocks.contains(block) {
                    old(self)@.downloaded_blocks
                } else {
                    seq![block] + old(self)@.downloaded_blocks
                },
                ..old(self)@
            }),
    {
        if !contains_block(&self.downloaded_blocks, block) {
            self.downloaded_blocks.push_front(block);
        }
    }

    /// Stores a piece of the info dictionary.
    pub fn note_info_piece(&mut self, piece: u32, bytes: Vec<u8>)
        ensures
            final(self)@ == (TorrentView {
                info_dict: old(self)@.info_dict.insert(piece, bytes@),
                ..old(self)@
            }),
    {
        self.info_dict.insert(piece, bytes);
        assert(self@.info_dict =~= old(self)@.info_dict.insert(piece, bytes@));
    }

    /// The pieces of the info dictionary, one after another.
    pub fn info_bytes(&self) -> (bytes: Vec<u8>)
        ensures
            bytes@ == joined(self@.info_dict),
    {
        let ghost dict = self.info_dict@;
        let ghost parts = self@.info_dict;
        let values = self.info_dict.values();
        let ghost keys = choose|keys: Seq<u32>|
            {
                &&& vstd::std_specs::btree::increasing_seq(keys)
                &&& keys.to_set() == dict.dom()
                &&& keys.no_duplicates()
                &&& vstd::std_specs::iter::IteratorSpec::remaining(&values) == keys.map(
                    |i: int, k: u32| &dict[k],
                )
            };
        let mut bytes: Vec<u8> = Vec::new();
        proof {
            lemma_increasing(keys);
            assert(parts.dom() =~= dict.dom());
            lemma_keys_gap(parts, keys, -1);
        }
        for part in iter: values
            invariant
                dict == self.info_dict@,
                parts == self@.info_dict,
                ascending_keys(keys, parts.dom()),
                iter.seq() == keys.map(|i: int, k: u32| &dict[k]),
                bytes@ == joined_below(parts, key_or_end(keys, iter.index())),
        {
            let ghost i = iter.index();
            let ghost before = bytes@;
            bytes.extend_from_slice(part.as_slice());
            proof {
                assert(bytes@ =~= before + part@);
                assert(keys.to_set().contains(keys[i]));
                assert(parts.contains_key(keys[i]) && parts[keys[i]] == part@);
                assert(joined_below(parts, keys[i] + 1) == bytes@);
                lemma_keys_gap(parts, keys, i);
            }
        }
        bytes
    }
}

} // verus!
