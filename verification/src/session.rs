//! The conversation with a peer, from the connection on.
//!
//! [`Peer::run`] takes one event and says what is to be done about it: which messages to send,
//! what to ask of the disk, and which event to wait for next. It does no input or output
//! itself. The caller performs the actions in order and hands the next event in.

use crate::bencode;
use crate::bitfield::{self, Bitfield};
use crate::blocks::{self, to_u32, Block, BlockInfo};
use crate::digest::{self, hex_encode, sha1_digest};
use crate::disk::DiskMsg;
use crate::error::Error;
use crate::extension::{self, metadata_pieces, Extension, Metadata};
use crate::magnet::{self, get_info_hash};
use crate::messages::{self, Handshake, Message, HANDSHAKE_LEN};
use crate::metainfo::{self, Info};
use crate::peer::{Peer, PeerView};
use crate::torrent::{self, TorrentMsg, TorrentState, TorrentView};
use vstd::prelude::*;

verus! {

/// How often to look whether a keep-alive is due, in seconds.
pub const KEEP_ALIVE_TICK_SECS: u64 = 1;

/// How long to be silent at most, in seconds.
pub const KEEP_ALIVE_SECS: u64 = 120;

/// How often to request again what was not received, in seconds.
pub const REQUEST_TICK_SECS: u64 = 5;

/// How many blocks to request at a time.
pub const BLOCKS_PER_REQUEST: usize = 5;

/// How many bytes of info a hash can be taken of, at most: one less.
pub const INFO_BYTES_LIMIT: u64 = 0x2000_0000_0000_0000;

/// What a peer waits for.
#[derive(Debug, PartialEq, Eq)]
pub enum Wait {
    /// The connection.
    Start,
    /// The handshake of the peer, in answer to this one.
    Handshake(Handshake),
    /// That the peer was told of the client's interest.
    Interested,
    /// That the peer was told that it is not choked.
    Unchoke,
    /// A message of the peer, or a timer.
    Message,
    /// The blocks of this piece that the disk hands out.
    Blocks(usize),
    /// Whether the piece that this block completes is valid.
    Validation(Block),
    /// Whether this block was written.
    Write(BlockInfo),
    /// The bytes of this block.
    Read(BlockInfo),
    /// That the metadata was requested which this extended handshake announced.
    Metadata(Vec<u8>),
}

/// What can happen.
#[derive(Debug, PartialEq, Eq)]
pub enum Event {
    /// The connection is open.
    Connected,
    /// The bytes of the handshake of the peer were read.
    Handshake(Vec<u8>),
    /// All messages of the last step were sent.
    Sent,
    /// It is time to look for a keep-alive; the last one was so many seconds ago.
    KeepAliveTick(u64),
    /// It is time to look for blocks that were not received.
    RequestTick,
    /// The peer has sent a message.
    Message(Message),
    /// The disk has handed out blocks.
    Blocks(Vec<BlockInfo>),
    /// The disk has checked a piece.
    Validated(bool),
    /// The disk has written a block, or failed to.
    Written(bool),
    /// The disk has read a block, or failed to.
    Read(Option<Vec<u8>>),
}

/// What is to be done.
#[derive(Debug, PartialEq, Eq)]
pub enum Action {
    /// Write these bytes to the socket.
    Write(Vec<u8>),
    /// Send a message. If that fails, the conversation is over.
    Send(Message),
    /// Send a message. If that fails, go on.
    TrySend(Message),
    /// Count the time to the next keep-alive from now.
    RestartKeepAlive,
    /// Tell the torrent.
    Torrent(TorrentMsg),
    /// Tell the disk, and wait for its answer where it gives one.
    Disk(DiskMsg),
}

/// What is to be done, in order, and what to wait for then.
#[derive(Debug, PartialEq, Eq)]
pub struct Step {
    pub actions: Vec<Action>,
    pub wait: Wait,
}

/// Why a conversation cannot go on although nobody has refused anything.
#[derive(Debug, Clone, Copy, PartialEq, Eq)]
pub enum Abort {
    /// The magnet link holds no info hash.
    InvalidInfoHash,
    /// The peer exchanges metadata and does not say how much there is.
    MissingMetadataSize,
    /// The info is longer than what can be hashed.
    InfoTooLong,
    /// The info that was received is not that of the magnet link.
    InfoHashMismatch,
    /// The disk has to be told of the info and cannot be.
    NoDisk,
}

/// Why a conversation is over.
#[derive(Debug)]
pub enum Halt {
    Error(Error),
    /// The client is to stop at once.
    Abort(Abort),
}

pub open spec fn did(result: Result<Step, Halt>, actions: Seq<Action>, wait: Wait) -> bool {
    &&& result is Ok
    &&& result->Ok_0.actions@ == actions
    &&& result->Ok_0.wait == wait
}

pub open spec fn halted(result: Result<Step, Halt>, halt: Halt) -> bool {
    result == Err::<Step, Halt>(halt)
}

impl PeerView {
    /// Whether the peer belongs to a torrent that is known by its hash.
    pub open spec fn joined(self) -> bool {
        &&& self.torrent_ctx is Some
        &&& self.torrent_ctx->0.magnet.xt is Some
    }

    /// The hash by which the torrent is known, as the magnet link spells it.
    pub open spec fn xt(self) -> Seq<char> {
        self.torrent_ctx->0.magnet.xt->0@
    }
}

// ---------------------------------------------------------------------------------------
// Asking for blocks

/// Whether the peer has the piece `i` and the torrent has not.
pub open spec fn wanted(peer_pieces: Seq<bool>, torrent_pieces: Seq<bool>, i: int) -> bool {
    &&& 0 <= i < peer_pieces.len()
    &&& peer_pieces[i]
    &&& !(i < torrent_pieces.len() && torrent_pieces[i])
}

/// Whether the piece `i` is wanted and some block of it was not requested before.
pub open spec fn open_piece(peer_pieces: Seq<bool>, torrent: TorrentView, i: int) -> bool {
    wanted(peer_pieces, torrent.pieces, i) && !torrent.fully_requested(i)
}

/// The first piece from `start` on that is wanted and was not fully requested before.
pub open spec fn next_piece_from(
    peer_pieces: Seq<bool>,
    torrent: TorrentView,
    start: int,
) -> Option<usize>
    decreases peer_pieces.len() - start,
{
    if start >= peer_pieces.len() {
        None
    } else if open_piece(peer_pieces, torrent, start) {
        Some(start as usize)
    } else {
        next_piece_from(peer_pieces, torrent, start + 1)
    }
}

/// The first piece that the peer has and the torrent has not, and of which some block was not
/// requested before.
pub open spec fn next_piece(peer_pieces: Seq<bool>, torrent: TorrentView) -> Option<usize> {
    next_piece_from(peer_pieces, torrent, 0)
}

/// The question to the disk for blocks of the next piece. Without a next piece there is none, for
/// the disk marks what it hands out as requested.
pub open spec fn ask_for_blocks(peer: PeerView, torrent: TorrentView) -> Seq<Action> {
    match next_piece(peer.pieces, torrent) {
        Some(piece) => seq![
            Action::Disk(DiskMsg::RequestBlocks { count: BLOCKS_PER_REQUEST, piece }),
        ],
        None => Seq::empty(),
    }
}

/// What to wait for then.
pub open spec fn wait_for_blocks(peer: PeerView, torrent: TorrentView) -> Wait {
    match next_piece(peer.pieces, torrent) {
        Some(piece) => Wait::Blocks(piece),
        None => Wait::Message,
    }
}

/// The blocks that belong to this piece, in order.
pub open spec fn blocks_of(blocks: Seq<BlockInfo>, piece: usize) -> Seq<BlockInfo> {
    blocks.filter(|block: BlockInfo| block.index == piece)
}

/// The requests for the blocks of `piece` among those that the disk has handed out, as long as
/// the peer has the piece and the torrent has not.
pub open spec fn requests_for(
    peer: PeerView,
    torrent: TorrentView,
    piece: usize,
    blocks: Seq<BlockInfo>,
) -> Seq<Action> {
    if wanted(peer.pieces, torrent.pieces, piece as int) {
        blocks_of(blocks, piece).map_values(
            |block: BlockInfo| Action::Send(Message::Request(block)),
        )
    } else {
        Seq::empty()
    }
}

/// Whether the peer has the piece `i` and the torrent has not.
fn is_wanted(peer_pieces: &Bitfield, torrent_pieces: &Bitfield, i: usize) -> (is: bool)
    ensures
        is == wanted(peer_pieces@, torrent_pieces@, i as int),
{
    let theirs = match peer_pieces.get(i) {
        Some(item) => item.bit,
        None => false,
    };
    let ours = match torrent_pieces.get(i) {
        Some(item) => item.bit,
        None => false,
    };
    theirs && !ours
}

fn find_next_piece(peer_pieces: &Bitfield, torrent: &TorrentState) -> (piece: Option<usize>)
    ensures
        piece == next_piece(peer_pieces@, torrent@),
{
    let len: usize = peer_pieces.len();
    let mut i: usize = 0;
    while i < len
        invariant
            0 <= i <= len,
            len == peer_pieces@.len(),
            next_piece(peer_pieces@, torrent@) == next_piece_from(
                peer_pieces@,
                torrent@,
                i as int,
            ),
        decreases len - i,
    {
        if is_wanted(peer_pieces, &torrent.pieces, i) && !torrent.fully_requested(i) {
            return Some(i);
        }
        i += 1;
    }
    None
}

fn nothing(wait: Wait) -> (step: Step)
    ensures
        step.actions@ == Seq::<Action>::empty(),
        step.wait == wait,
{
    Step { actions: Vec::new(), wait }
}

fn one(action: Action, wait: Wait) -> (step: Step)
    ensures
        step.actions@ == seq![action],
        step.wait == wait,
{
    let mut actions: Vec<Action> = Vec::new();
    actions.push(action);
    assert(actions@ =~= seq![action]);
    Step { actions, wait }
}

impl Peer {
    /// Asks for blocks that were not requested before. They are blocks of the next piece that
    /// this peer has and the torrent has not, and that was not fully requested before, so that
    /// pieces are requested one after another. The disk hands out the blocks; without such a
    /// piece it is not asked.
    pub fn request_next_piece(&self, torrent: &TorrentState) -> (step: Step)
        requires
            self@.torrent_ctx is Some,
            self@.has_disk,
        ensures
            step.actions@ == ask_for_blocks(self@, torrent@),
            step.wait == wait_for_blocks(self@, torrent@),
    {
        match find_next_piece(&self.pieces, torrent) {
            Some(piece) => one(
                Action::Disk(DiskMsg::RequestBlocks { count: BLOCKS_PER_REQUEST, piece }),
                Wait::Blocks(piece),
            ),
            None => nothing(Wait::Message),
        }
    }
}

impl Peer {
    /// The disk has handed out blocks, of `piece` if it did as it was told. Those of the piece
    /// are requested.
    fn blocks_received(
        &self,
        torrent: &TorrentState,
        piece: usize,
        blocks: Vec<BlockInfo>,
    ) -> (step: Step)
        ensures
            step.actions@ == requests_for(self@, torrent@, piece, blocks@),
            step.wait == Wait::Message,
    {
        if !is_wanted(&self.pieces, &torrent.pieces, piece) {
            return nothing(Wait::Message);
        }
        let ghost belongs = |block: BlockInfo| block.index == piece;
        let ghost request = |block: BlockInfo| Action::Send(Message::Request(block));
        let mut actions: Vec<Action> = Vec::new();
        let mut i: usize = 0;
        proof {
            reveal(Seq::filter);
            assert(blocks@.take(0) =~= Seq::empty());
            assert(actions@ =~= blocks@.take(0).filter(belongs).map_values(request));
        }
        while i < blocks.len()
            invariant
                0 <= i <= blocks@.len(),
                belongs == (|block: BlockInfo| block.index == piece),
                request == (|block: BlockInfo| Action::Send(Message::Request(block))),
                actions@ == blocks@.take(i as int).filter(belongs).map_values(request),
            decreases blocks.len() - i,
        {
            let block: BlockInfo = blocks[i];
            let ghost before = blocks@.take(i as int).filter(belongs);
            if block.index as usize == piece {
                actions.push(Action::Send(Message::Request(block)));
            }
            proof {
                reveal(Seq::filter);
                let longer = blocks@.take(i + 1);
                assert(longer.drop_last() =~= blocks@.take(i as int));
                assert(longer.last() == block);
                assert(before.push(block).map_values(request) =~= before.map_values(request).push(
                    request(block),
                ));
            }
            i += 1;
        }
        assert(blocks@.take(i as int) =~= blocks@);
        Step { actions, wait: Wait::Message }
    }
}

// ---------------------------------------------------------------------------------------
// The metadata of the torrent

/// The info was accepted: the disk learns of it, and blocks are asked for if the peer would give
/// them.
pub open spec fn info_accepted(
    peer: PeerView,
    torrent: TorrentView,
    result: Result<Step, Halt>,
) -> bool {
    let step = result->Ok_0;
    let asks = peer.am_interested && !peer.peer_choking;
    let told = step.actions@[0];
    &&& result is Ok
    &&& step.actions@ == if asks {
        seq![told] + ask_for_blocks(peer, torrent)
    } else {
        seq![told]
    }
    &&& told matches Action::Disk(DiskMsg::NewTorrent(info))
    &&& info@ == torrent.info
    &&& step.wait == if asks {
        wait_for_blocks(peer, torrent)
    } else {
        Wait::Message
    }
}

/// The whole info has come, and its bytes have this digest. The torrent takes the info if the
/// digest is the hash of the magnet link; the client stops if it is not.
pub open spec fn info_outcome(
    peer: PeerView,
    torrent: TorrentView,
    info: metainfo::InfoView,
    digest: Seq<u8>,
    torrent_after: TorrentView,
    result: Result<Step, Halt>,
) -> bool {
    if digest::hex_text(digest) != peer.xt() {
        torrent_after == torrent && halted(result, Halt::Abort(Abort::InfoHashMismatch))
    } else {
        &&& torrent_after == TorrentView { info, ..torrent }
        &&& if peer.has_disk {
            info_accepted(peer, torrent_after, result)
        } else {
            halted(result, Halt::Abort(Abort::NoDisk))
        }
    }
}

/// All pieces of the info have come.
pub open spec fn assembled_outcome(
    peer: PeerView,
    torrent: TorrentView,
    torrent_after: TorrentView,
    result: Result<Step, Halt>,
) -> bool {
    let bytes = torrent::joined(torrent.info_dict);
    match metainfo::info_of(bytes) {
        None => torrent_after == torrent && halted(result, Halt::Error(Error::BencodeError)),
        Some(info) => if bytes.len() >= INFO_BYTES_LIMIT {
            torrent_after == torrent && halted(result, Halt::Abort(Abort::InfoTooLong))
        } else {
            info_outcome(peer, torrent, info, digest::sha1_of(bytes), torrent_after, result)
        },
    }
}

/// A piece of the info has come, of an info of `size` bytes in all.
pub open spec fn info_piece_outcome(
    peer: PeerView,
    torrent: TorrentView,
    size: u32,
    piece: u32,
    bytes: Seq<u8>,
    torrent_after: TorrentView,
    result: Result<Step, Halt>,
) -> bool {
    let stored = TorrentView { info_dict: torrent.info_dict.insert(piece, bytes), ..torrent };
    if blocks::low_32(stored.info_dict.len() as int) < extension::pieces_for(size as int) {
        torrent_after == stored && did(result, Seq::empty(), Wait::Message)
    } else {
        assembled_outcome(peer, stored, torrent_after, result)
    }
}

/// Whether `payload` is long enough to end in the info of the torrent.
pub open spec fn holds_info(peer: PeerView, payload: Seq<u8>) -> bool {
    peer.extension.metadata_size matches Some(size) ==> blocks::low_32(payload.len() as int)
        >= size
}

/// A payload under the id of extended handshakes has come, and is no longer needed as such.
pub open spec fn metadata_outcome(
    peer: PeerView,
    torrent: TorrentView,
    payload: Seq<u8>,
    torrent_after: TorrentView,
    result: Result<Step, Halt>,
) -> bool {
    if peer.extension.m.ut_metadata is None || !holds_info(peer, payload) {
        torrent_after == torrent && did(result, Seq::empty(), Wait::Message)
    } else {
        match peer.extension.metadata_size {
            None => torrent_after == torrent && halted(
                result,
                Halt::Abort(Abort::MissingMetadataSize),
            ),
            Some(size) => {
                let info_begin = payload.len() - size;
                match extension::metadata_of(bencode::bencode_tokens(payload.take(info_begin))) {
                    None => torrent_after == torrent && halted(
                        result,
                        Halt::Error(Error::BencodeError),
                    ),
                    Some(metadata) => info_piece_outcome(
                        peer,
                        torrent,
                        size,
                        metadata.piece,
                        payload.skip(info_begin),
                        torrent_after,
                        result,
                    ),
                }
            },
        }
    }
}

/// The requests for the first `count` pieces of the metadata, under the id that the peer gave.
pub open spec fn metadata_requests(actions: Seq<Action>, id: u8, count: int) -> bool {
    &&& actions.len() == count
    &&& forall|i: int|
        0 <= i < count ==> is_metadata_request(#[trigger] actions[i], id, i)
}

/// The request for a piece of the metadata: its payload is the bencoding of the request, and is
/// read as it.
pub open spec fn is_metadata_request(action: Action, id: u8, piece: int) -> bool {
    let request = Metadata { msg_type: 0, piece: piece as u32, total_size: None };
    &&& action matches Action::Send(Message::Extended(extended))
    &&& extended.0 == id
    &&& extended.1@ == bencode::encoded_numbers(request.pairs())
    &&& extension::metadata_of(bencode::bencode_tokens(extended.1@)) == Some(request)
}

/// The peer has told of its extensions. If it exchanges metadata, all of it is requested.
pub open spec fn extension_outcome(
    peer: PeerView,
    torrent: TorrentView,
    said: Extension,
    payload: Vec<u8>,
    peer_after: PeerView,
    torrent_after: TorrentView,
    result: Result<Step, Halt>,
) -> bool {
    let told = PeerView { extension: said, ..peer };
    &&& peer_after == told
    &&& match (said.m.ut_metadata, said.metadata_size) {
        (None, _) => metadata_outcome(told, torrent, payload@, torrent_after, result),
        (Some(_), None) => torrent_after == torrent && halted(
            result,
            Halt::Abort(Abort::MissingMetadataSize),
        ),
        (Some(id), Some(size)) => {
            &&& torrent_after == torrent
            &&& result is Ok
            &&& metadata_requests(
                result->Ok_0.actions@,
                id,
                extension::pieces_for(size as int),
            )
            &&& result->Ok_0.wait == Wait::Metadata(payload)
        },
    }
}

/// Whether the info of the torrent is still to be asked for, and this peer not yet known to have
/// it.
pub open spec fn asks_for_info(peer: PeerView, torrent: TorrentView) -> bool {
    torrent.info_dict.is_empty() && peer.extension.m.ut_metadata is None
}

/// A message of the extension protocol has come.
pub open spec fn extended_outcome(
    peer: PeerView,
    torrent: TorrentView,
    id: u8,
    payload: Vec<u8>,
    peer_after: PeerView,
    torrent_after: TorrentView,
    result: Result<Step, Halt>,
) -> bool {
    if id != 0 {
        &&& peer_after == peer
        &&& torrent_after == torrent
        &&& did(result, Seq::empty(), Wait::Message)
    } else if asks_for_info(peer, torrent) {
        match extension::extension_of(bencode::bencode_tokens(payload@)) {
            None => {
                &&& peer_after == peer
                &&& torrent_after == torrent
                &&& halted(result, Halt::Error(Error::BencodeError))
            },
            Some(said) => extension_outcome(
                peer,
                torrent,
                said,
                payload,
                peer_after,
                torrent_after,
                result,
            ),
        }
    } else {
        &&& peer_after == peer
        &&& metadata_outcome(peer, torrent, payload@, torrent_after, result)
    }
}

/// Whether the digest is the one that the `xt` of a magnet link spells in lower case.
pub fn is_info_hash(digest: &[u8; 20], xt: &String) -> (same: bool)
    ensures
        same == (digest::hex_text(digest@) == xt@),
{
    hex_encode(digest.as_slice()) == *xt
}

impl Peer {
    /// The whole info has come, and its bytes have this digest.
    pub fn info_received(
        &self,
        torrent: &mut TorrentState,
        info: Info,
        digest: [u8; 20],
    ) -> (result: Result<Step, Halt>)
        requires
            self@.joined(),
        ensures
            info_outcome(self@, old(torrent)@, info@, digest@, final(torrent)@, result),
    {
        let same = match &self.torrent_ctx {
            Some(ctx) => match &ctx.magnet.xt {
                Some(xt) => is_info_hash(&digest, xt),
                None => false,
            },
            None => false,
        };
        if !same {
            return Err(Halt::Abort(Abort::InfoHashMismatch));
        }
        torrent.info = info.clone();
        if !self.has_disk {
            return Err(Halt::Abort(Abort::NoDisk));
        }
        let mut step = one(Action::Disk(DiskMsg::NewTorrent(info)), Wait::Message);
        if self.am_interested && !self.peer_choking {
            let mut asked = self.request_next_piece(torrent);
            step.actions.append(&mut asked.actions);
            step.wait = asked.wait;
        }
        Ok(step)
    }

    /// All pieces of the info have come.
    fn info_assembled(&self, torrent: &mut TorrentState) -> (result: Result<Step, Halt>)
        requires
            self@.joined(),
        ensures
            assembled_outcome(self@, old(torrent)@, final(torrent)@, result),
    {
        let info = match Info::from_bencode(torrent.info_bytes()) {
            Ok(info) => info,
            Err(error) => {
                return Err(Halt::Error(error));
            },
        };
        if info.bytes.len() as u64 >= INFO_BYTES_LIMIT {
            return Err(Halt::Abort(Abort::InfoTooLong));
        }
        let digest = sha1_digest(info.bytes.as_slice());
        self.info_received(torrent, info, digest)
    }

    /// A piece of the info has come, of an info of `size` bytes in all.
    pub fn info_piece_received(
        &self,
        torrent: &mut TorrentState,
        size: u32,
        piece: u32,
        bytes: Vec<u8>,
    ) -> (result: Result<Step, Halt>)
        requires
            self@.joined(),
        ensures
            info_piece_outcome(
                self@,
                old(torrent)@,
                size,
                piece,
                bytes@,
                final(torrent)@,
                result,
            ),
    {
        torrent.note_info_piece(piece, bytes);
        let pieces: u32 = metadata_pieces(size);
        let have_all_pieces = to_u32(torrent.info_dict.len()) >= pieces;
        proof {
            assert(torrent@.info_dict.dom() =~= torrent.info_dict@.dom());
        }
        if have_all_pieces {
            self.info_assembled(torrent)
        } else {
            Ok(nothing(Wait::Message))
        }
    }

    /// A payload under the id of extended handshakes has come, and is no longer needed as such.
    fn metadata_received(&self, torrent: &mut TorrentState, payload: Vec<u8>) -> (result: Result<
        Step,
        Halt,
    >)
        requires
            self@.joined(),
        ensures
            metadata_outcome(self@, old(torrent)@, payload@, final(torrent)@, result),
    {
        let long_enough = match self.extension.metadata_size {
            Some(size) => to_u32(payload.len()) >= size,
            None => true,
        };
        if self.extension.m.ut_metadata.is_none() || !long_enough {
            return Ok(nothing(Wait::Message));
        }
        let size: u32 = match self.extension.metadata_size {
            Some(size) => size,
            None => {
                return Err(Halt::Abort(Abort::MissingMetadataSize));
            },
        };
        let info_begin: usize = payload.len() - size as usize;
        match Metadata::extract(payload, info_begin) {
            Ok((metadata, info)) => self.info_piece_received(torrent, size, metadata.piece, info),
            Err(error) => Err(Halt::Error(error)),
        }
    }

    /// The peer has told of its extensions, with this payload.
    pub fn extension_received(
        &mut self,
        torrent: &mut TorrentState,
        said: Extension,
        payload: Vec<u8>,
    ) -> (result: Result<Step, Halt>)
        requires
            old(self)@.joined(),
        ensures
            extension_outcome(
                old(self)@,
                old(torrent)@,
                said,
                payload,
                final(self)@,
                final(torrent)@,
                result,
            ),
    {
        self.extension = said;
        let id: u8 = match said.m.ut_metadata {
            Some(id) => id,
            None => {
                return self.metadata_received(torrent, payload);
            },
        };
        let size: u32 = match said.metadata_size {
            Some(size) => size,
            None => {
                return Err(Halt::Abort(Abort::MissingMetadataSize));
            },
        };
        let pieces: u32 = metadata_pieces(size);
        let mut actions: Vec<Action> = Vec::new();
        let mut i: u32 = 0;
        while i < pieces
            invariant
                0 <= i <= pieces,
                metadata_requests(actions@, id, i as int),
            decreases pieces - i,
        {
            match Metadata::request(i).to_bencode() {
                Ok(request) => {
                    actions.push(Action::Send(Message::Extended((id, request))));
                },
                Err(error) => {
                    return Err(Halt::Error(error));
                },
            }
            i += 1;
        }
        Ok(Step { actions, wait: Wait::Metadata(payload) })
    }

    /// A message of the extension protocol has come.
    fn extended_received(
        &mut self,
        torrent: &mut TorrentState,
        id: u8,
        payload: Vec<u8>,
    ) -> (result: Result<Step, Halt>)
        requires
            old(self)@.joined(),
        ensures
            extended_outcome(
                old(self)@,
                old(torrent)@,
                id,
                payload,
                final(self)@,
                final(torrent)@,
                result,
            ),
    {
        if id != 0 {
            return Ok(nothing(Wait::Message));
        }
        let no_info = torrent.info_dict.is_empty();
        proof {
            assert(torrent@.info_dict.dom() =~= torrent.info_dict@.dom());
        }
        if no_info && self.extension.m.ut_metadata.is_none() {
            match Extension::from_bencode(payload.as_slice()) {
                Ok(said) => self.extension_received(torrent, said, payload),
                Err(error) => Err(Halt::Error(error)),
            }
        } else {
            self.metadata_received(torrent, payload)
        }
    }
}

// ---------------------------------------------------------------------------------------
// Pieces

/// A block has come. If it has the size of one, it is written, after the piece that it ends was
/// checked. If it has not, its piece counts as missing.
pub open spec fn piece_outcome(
    peer: PeerView,
    torrent: TorrentView,
    block: Block,
    torrent_after: TorrentView,
    result: Result<Step, Halt>,
) -> bool {
    if !block.valid() {
        &&& torrent_after == TorrentView {
            pieces: bitfield::with_bit(torrent.pieces, block.index as int, false),
            ..torrent
        }
        &&& did(
            result,
            ask_for_blocks(peer, torrent_after),
            wait_for_blocks(peer, torrent_after),
        )
    } else if block.begin + block.block@.len() >= torrent.info.piece_length {
        &&& torrent_after == torrent
        &&& did(
            result,
            seq![Action::Disk(DiskMsg::ValidatePiece(block.index))],
            Wait::Validation(block),
        )
    } else {
        &&& torrent_after == torrent
        &&& did(
            result,
            seq![Action::Disk(DiskMsg::WriteBlock(block))],
            Wait::Write(block.place()),
        )
    }
}

/// The disk has checked the piece that `block` ends.
pub open spec fn validated_outcome(
    torrent: TorrentView,
    block: Block,
    valid: bool,
    torrent_after: TorrentView,
    result: Result<Step, Halt>,
) -> bool {
    &&& torrent_after == TorrentView {
        pieces: if valid {
            bitfield::with_bit(torrent.pieces, block.index as int, true)
        } else {
            torrent.pieces
        },
        ..torrent
    }
    &&& did(result, seq![Action::Disk(DiskMsg::WriteBlock(block))], Wait::Write(block.place()))
}

/// `downloaded` with `block` noted at the front, unless it was noted before.
pub open spec fn noted(downloaded: Seq<BlockInfo>, block: BlockInfo) -> Seq<BlockInfo> {
    if downloaded.contains(block) {
        downloaded
    } else {
        seq![block] + downloaded
    }
}

/// The disk has written a block, or failed to.
pub open spec fn written_outcome(
    peer: PeerView,
    torrent: TorrentView,
    block: BlockInfo,
    written: bool,
    torrent_after: TorrentView,
    result: Result<Step, Halt>,
) -> bool {
    &&& torrent_after == TorrentView {
        downloaded_blocks: if written {
            noted(torrent.downloaded_blocks, block)
        } else {
            torrent.downloaded_blocks
        },
        ..torrent
    }
    &&& did(
            result,
            ask_for_blocks(peer, torrent_after),
            wait_for_blocks(peer, torrent_after),
        )
}

impl Peer {
    fn piece_received(&self, torrent: &mut TorrentState, block: Block) -> (step: Step)
        requires
            self@.torrent_ctx is Some,
            self@.has_disk,
            block.valid() ==> block.begin + block.block@.len() <= u32::MAX,
        ensures
            piece_outcome(
                self@,
                old(torrent)@,
                block,
                final(torrent)@,
                Ok::<Step, Halt>(step),
            ),
    {
        if !block.is_valid() {
            torrent.pieces.clear(block.index);
            return self.request_next_piece(torrent);
        }
        if block.begin + block.block.len() as u32 >= torrent.info.piece_length {
            return one(
                Action::Disk(DiskMsg::ValidatePiece(block.index)),
                Wait::Validation(block),
            );
        }
        let place = block.info();
        one(Action::Disk(DiskMsg::WriteBlock(block)), Wait::Write(place))
    }

    fn piece_validated(&self, torrent: &mut TorrentState, block: Block, valid: bool) -> (step: Step)
        ensures
            validated_outcome(
                old(torrent)@,
                block,
                valid,
                final(torrent)@,
                Ok::<Step, Halt>(step),
            ),
    {
        if valid {
            torrent.pieces.set(block.index);
        }
        let place = block.info();
        one(Action::Disk(DiskMsg::WriteBlock(block)), Wait::Write(place))
    }

    fn block_written(
        &self,
        torrent: &mut TorrentState,
        block: BlockInfo,
        written: bool,
    ) -> (step: Step)
        requires
            self@.torrent_ctx is Some,
            self@.has_disk,
        ensures
            written_outcome(
                self@,
                old(torrent)@,
                block,
                written,
                final(torrent)@,
                Ok::<Step, Halt>(step),
            ),
    {
        if written {
            torrent.note_download(block);
        }
        self.request_next_piece(torrent)
    }
}

// ---------------------------------------------------------------------------------------
// The handshake

/// The handshake of this client for a torrent.
pub open spec fn own_handshake(handshake: Handshake, info_hash: Seq<u8>, own_id: Seq<u8>) -> bool {
    &&& handshake.pstr_len == 19
    &&& handshake.pstr@ == messages::protocol_name()
    &&& handshake.reserved@ == seq![0u8, 0, 0, 0, 0, 0x10, 0, 0]
    &&& handshake.info_hash@ == info_hash
    &&& handshake.peer_id@ == own_id
}

/// The connection is open: the client sends its handshake.
pub open spec fn connected_outcome(peer: PeerView, result: Result<Step, Halt>) -> bool {
    match magnet::info_hash_of(peer.xt()) {
        None => halted(result, Halt::Abort(Abort::InvalidInfoHash)),
        Some(info_hash) => {
            let step = result->Ok_0;
            &&& result is Ok
            &&& step.wait matches Wait::Handshake(ours)
            &&& own_handshake(ours, info_hash, peer.own_id)
            &&& step.actions@.len() == 1
            &&& step.actions@[0] matches Action::Write(bytes)
            &&& bytes@ == ours.wire()
        },
    }
}

/// Whether these bytes are a handshake for the same torrent as `ours`.
pub open spec fn answers(bytes: Seq<u8>, ours: Handshake) -> bool {
    &&& bytes[0] == 19
    &&& bytes.subrange(1, 20) == messages::protocol_name()
    &&& bytes.subrange(28, 48) == ours.info_hash@
}

/// The handshake of the peer has come: the client keeps the id of the peer, shakes hands on
/// extensions if the peer supports them, and says that it is interested.
pub open spec fn handshake_outcome(
    peer: PeerView,
    ours: Handshake,
    bytes: Seq<u8>,
    peer_after: PeerView,
    result: Result<Step, Halt>,
) -> bool {
    if answers(bytes, ours) {
        let step = result->Ok_0;
        &&& peer_after.id matches Some(id)
        &&& id@ == bytes.subrange(48, 68)
        &&& peer_after == PeerView { id: peer_after.id, ..peer }
        &&& result is Ok
        &&& step.wait == Wait::Interested
        &&& step.actions@.last() == Action::Send(Message::Interested)
        &&& if bitfield::bit_of(bytes[25], 3) {
            &&& step.actions@.len() == 2
            &&& step.actions@[0] matches Action::Send(Message::Extended(extended))
            &&& extended.0 == 0
            &&& extended.1@ == Seq::<u8>::empty()
        } else {
            step.actions@.len() == 1
        }
    } else {
        peer_after == peer && halted(result, Halt::Error(Error::HandshakeInvalid))
    }
}

impl Peer {
    fn connected(&self) -> (result: Result<Step, Halt>)
        requires
            self@.joined(),
        ensures
            connected_outcome(self@, result),
    {
        let info_hash = match &self.torrent_ctx {
            Some(ctx) => match &ctx.magnet.xt {
                Some(xt) => get_info_hash(xt.as_str()),
                None => None,
            },
            None => None,
        };
        match info_hash {
            None => Err(Halt::Abort(Abort::InvalidInfoHash)),
            Some(info_hash) => {
                let ours = Handshake::new(info_hash, self.tracker_ctx.peer_id);
                Ok(one(Action::Write(ours.serialize()), Wait::Handshake(ours)))
            },
        }
    }

    fn handshake_received(&mut self, ours: Handshake, bytes: Vec<u8>) -> (result: Result<
        Step,
        Halt,
    >)
        requires
            bytes@.len() == HANDSHAKE_LEN,
        ensures
            handshake_outcome(old(self)@, ours, bytes@, final(self)@, result),
    {
        let theirs = Handshake::deserialize(bytes.as_slice());
        proof {
            let wire = theirs.wire();
            assert(wire.subrange(1, 20) =~= theirs.pstr@);
            assert(wire[25] == theirs.reserved@[5]);
            assert(wire.subrange(28, 48) =~= theirs.info_hash@);
            assert(wire.subrange(48, 68) =~= theirs.peer_id@);
        }
        if !theirs.validate(&ours) {
            return Err(Halt::Error(Error::HandshakeInvalid));
        }
        self.id = Some(theirs.peer_id);
        let mut actions: Vec<Action> = Vec::new();
        if theirs.supports_extensions() {
            actions.push(Action::Send(Message::Extended((0, Vec::new()))));
        }
        actions.push(Action::Send(Message::Interested));
        Ok(Step { actions, wait: Wait::Interested })
    }
}

// ---------------------------------------------------------------------------------------
// One step

/// The requests for the blocks that were requested and not received, if the download is not
/// complete.
pub open spec fn repeated_requests(torrent: TorrentView) -> Seq<Action> {
    if blocks::low_32(torrent.downloaded_blocks.len() as int) < torrent.info.block_count() {
        torrent::missing_of(torrent.requested_blocks, torrent.downloaded_blocks).map_values(
            |block: BlockInfo| Action::TrySend(Message::Request(block)),
        )
    } else {
        Seq::empty()
    }
}

/// A message of the peer has come.
pub open spec fn message_outcome(
    peer: PeerView,
    torrent: TorrentView,
    message: Message,
    peer_after: PeerView,
    torrent_after: TorrentView,
    result: Result<Step, Halt>,
) -> bool {
    match message {
        Message::KeepAlive | Message::Cancel(_) => {
            &&& peer_after == peer
            &&& torrent_after == torrent
            &&& did(result, Seq::empty(), Wait::Message)
        },
        Message::Bitfield(pieces) => {
            &&& peer_after == PeerView { pieces: pieces@, ..peer }
            &&& torrent_after == torrent
            &&& did(
                result,
                seq![
                    Action::Torrent(
                        TorrentMsg::UpdateBitfield((pieces@.len() / 8) as usize),
                    ),
                ],
                Wait::Message,
            )
        },
        Message::Unchoke => {
            &&& peer_after == PeerView { peer_choking: false, ..peer }
            &&& torrent_after == torrent
            &&& if peer.am_interested {
                did(result, ask_for_blocks(peer, torrent), wait_for_blocks(peer, torrent))
            } else {
                did(result, Seq::empty(), Wait::Message)
            }
        },
        Message::Choke => {
            &&& peer_after == PeerView { peer_choking: true, ..peer }
            &&& torrent_after == torrent
            &&& did(result, Seq::empty(), Wait::Message)
        },
        Message::Interested => {
            &&& peer_after == PeerView { peer_interested: true, ..peer }
            &&& torrent_after == torrent
            &&& did(result, Seq::empty(), Wait::Message)
        },
        Message::NotInterested => {
            &&& peer_after == PeerView { peer_interested: false, ..peer }
            &&& torrent_after == torrent
            &&& did(result, Seq::empty(), Wait::Message)
        },
        Message::Have(piece) => {
            &&& peer_after == PeerView {
                pieces: bitfield::with_bit(peer.pieces, piece as int, true),
                ..peer
            }
            &&& torrent_after == torrent
            &&& did(result, Seq::empty(), Wait::Message)
        },
        Message::Piece(block) => {
            &&& peer_after == peer
            &&& piece_outcome(peer, torrent, block, torrent_after, result)
        },
        Message::Request(block) => {
            &&& peer_after == peer
            &&& torrent_after == torrent
            &&& did(result, seq![Action::Disk(DiskMsg::ReadBlock(block))], Wait::Read(block))
        },
        Message::Extended(extended) => extended_outcome(
            peer,
            torrent,
            extended.0,
            extended.1,
            peer_after,
            torrent_after,
            result,
        ),
    }
}

/// What comes of an event. One that is not waited for changes nothing.
pub open spec fn outcome(
    peer: PeerView,
    torrent: TorrentView,
    wait: Wait,
    event: Event,
    peer_after: PeerView,
    torrent_after: TorrentView,
    result: Result<Step, Halt>,
) -> bool {
    match (wait, event) {
        (Wait::Start, Event::Connected) => {
            &&& peer_after == peer
            &&& torrent_after == torrent
            &&& connected_outcome(peer, result)
        },
        (Wait::Handshake(ours), Event::Handshake(bytes)) => {
            &&& torrent_after == torrent
            &&& handshake_outcome(peer, ours, bytes@, peer_after, result)
        },
        (Wait::Interested, Event::Sent) => {
            &&& peer_after == PeerView { am_interested: true, ..peer }
            &&& torrent_after == torrent
            &&& did(result, seq![Action::Send(Message::Unchoke)], Wait::Unchoke)
        },
        (Wait::Unchoke, Event::Sent) => {
            &&& peer_after == PeerView { am_choking: false, ..peer }
            &&& torrent_after == torrent
            &&& did(result, Seq::empty(), Wait::Message)
        },
        (Wait::Message, Event::KeepAliveTick(elapsed)) => {
            &&& peer_after == peer
            &&& torrent_after == torrent
            &&& did(
                result,
                if elapsed >= KEEP_ALIVE_SECS {
                    seq![Action::RestartKeepAlive, Action::Send(Message::KeepAlive)]
                } else {
                    Seq::empty()
                },
                Wait::Message,
            )
        },
        (Wait::Message, Event::RequestTick) => {
            &&& peer_after == peer
            &&& torrent_after == torrent
            &&& did(result, repeated_requests(torrent), Wait::Message)
        },
        (Wait::Message, Event::Message(message)) => message_outcome(
            peer,
            torrent,
            message,
            peer_after,
            torrent_after,
            result,
        ),
        (Wait::Blocks(piece), Event::Blocks(blocks)) => {
            &&& peer_after == peer
            &&& torrent_after == torrent
            &&& did(result, requests_for(peer, torrent, piece, blocks@), Wait::Message)
        },
        (Wait::Validation(block), Event::Validated(valid)) => {
            &&& peer_after == peer
            &&& validated_outcome(torrent, block, valid, torrent_after, result)
        },
        (Wait::Write(block), Event::Written(written)) => {
            &&& peer_after == peer
            &&& written_outcome(peer, torrent, block, written, torrent_after, result)
        },
        (Wait::Read(block), Event::Read(read)) => {
            &&& peer_after == peer
            &&& torrent_after == torrent
            &&& match read {
                Some(bytes) => did(
                    result,
                    seq![
                        Action::TrySend(
                            Message::Piece(
                                Block {
                                    index: block.index as usize,
                                    begin: block.begin,
                                    block: bytes,
                                },
                            ),
                        ),
                    ],
                    Wait::Message,
                ),
                None => did(result, Seq::empty(), Wait::Message),
            }
        },
        (Wait::Metadata(payload), Event::Sent) => {
            &&& peer_after == peer
            &&& metadata_outcome(peer, torrent, payload@, torrent_after, result)
        },
        _ => {
            &&& peer_after == peer
            &&& torrent_after == torrent
            &&& did(result, Seq::empty(), wait)
        },
    }
}

/// What must hold for an event to be taken: the bytes of a handshake are complete, the disk can
/// be asked where it has to be, and a block ends within 32 bits.
pub open spec fn takes(peer: PeerView, wait: Wait, event: Event) -> bool {
    match (wait, event) {
        (Wait::Handshake(_), Event::Handshake(bytes)) => bytes@.len() == HANDSHAKE_LEN,
        (Wait::Message, Event::Message(message)) => match message {
            Message::Unchoke => peer.am_interested ==> peer.has_disk,
            Message::Piece(block) => peer.has_disk && (block.valid() ==> block.begin
                + block.block@.len() <= u32::MAX),
            Message::Request(_) => peer.has_disk,
            _ => true,
        },
        (Wait::Validation(_), Event::Validated(_)) => peer.has_disk,
        (Wait::Write(_), Event::Written(_)) => peer.has_disk,
        _ => true,
    }
}

impl Peer {
    fn message_received(&mut self, torrent: &mut TorrentState, message: Message) -> (result: Result<
        Step,
        Halt,
    >)
        requires
            old(self)@.joined(),
            takes(old(self)@, Wait::Message, Event::Message(message)),
        ensures
            message_outcome(
                old(self)@,
                old(torrent)@,
                message,
                final(self)@,
                final(torrent)@,
                result,
            ),
    {
        match message {
            Message::KeepAlive => {},
            Message::Cancel(_) => {},
            Message::Bitfield(pieces) => {
                let len: usize = pieces.len_bytes();
                self.pieces = pieces;
                return Ok(
                    one(Action::Torrent(TorrentMsg::UpdateBitfield(len)), Wait::Message),
                );
            },
            Message::Unchoke => {
                self.peer_choking = false;
                if self.am_interested {
                    return Ok(self.request_next_piece(torrent));
                }
            },
            Message::Choke => {
                self.peer_choking = true;
            },
            Message::Interested => {
                self.peer_interested = true;
            },
            Message::NotInterested => {
                self.peer_interested = false;
            },
            Message::Have(piece) => {
                self.pieces.set(piece);
            },
            Message::Piece(block) => {
                return Ok(self.piece_received(torrent, block));
            },
            Message::Request(block) => {
                return Ok(one(Action::Disk(DiskMsg::ReadBlock(block)), Wait::Read(block)));
            },
            Message::Extended(extended) => {
                return self.extended_received(torrent, extended.0, extended.1);
            },
        }
        Ok(nothing(Wait::Message))
    }

    /// Takes one event and says what is to be done about it.
    pub fn run(&mut self, torrent: &mut TorrentState, wait: Wait, event: Event) -> (result: Result<
        Step,
        Halt,
    >)
        requires
            old(self)@.joined(),
            takes(old(self)@, wait, event),
        ensures
            outcome(
                old(self)@,
                old(torrent)@,
                wait,
                event,
                final(self)@,
                final(torrent)@,
                result,
            ),
    {
        match (wait, event) {
            (Wait::Start, Event::Connected) => self.connected(),
            (Wait::Handshake(ours), Event::Handshake(bytes)) => self.handshake_received(ours, bytes),
            (Wait::Interested, Event::Sent) => {
                self.am_interested = true;
                Ok(one(Action::Send(Message::Unchoke), Wait::Unchoke))
            },
            (Wait::Unchoke, Event::Sent) => {
                self.am_choking = false;
                Ok(nothing(Wait::Message))
            },
            (Wait::Message, Event::KeepAliveTick(elapsed)) => Ok(keep_alive(elapsed)),
            (Wait::Message, Event::RequestTick) => Ok(
                Step { actions: repeat_requests(torrent), wait: Wait::Message },
            ),
            (Wait::Message, Event::Message(message)) => self.message_received(torrent, message),
            (Wait::Blocks(piece), Event::Blocks(blocks)) => Ok(
                self.blocks_received(torrent, piece, blocks),
            ),
            (Wait::Validation(block), Event::Validated(valid)) => Ok(
                self.piece_validated(torrent, block, valid),
            ),
            (Wait::Write(block), Event::Written(written)) => Ok(
                self.block_written(torrent, block, written),
            ),
            (Wait::Read(block), Event::Read(read)) => match read {
                Some(bytes) => Ok(
                    one(
                        Action::TrySend(
                            Message::Piece(
                                Block {
                                    index: block.index as usize,
                                    begin: block.begin,
                                    block: bytes,
                                },
                            ),
                        ),
                        Wait::Message,
                    ),
                ),
                None => Ok(nothing(Wait::Message)),
            },
            (Wait::Metadata(payload), Event::Sent) => self.metadata_received(torrent, payload),
            (wait, _) => Ok(nothing(wait)),
        }
    }
}

/// A keep-alive, if the last one was long enough ago.
fn keep_alive(elapsed: u64) -> (step: Step)
    ensures
        step.wait == Wait::Message,
        step.actions@ == (if elapsed >= KEEP_ALIVE_SECS {
            seq![Action::RestartKeepAlive, Action::Send(Message::KeepAlive)]
        } else {
            Seq::empty()
        }),
{
    let mut actions: Vec<Action> = Vec::new();
    if elapsed >= KEEP_ALIVE_SECS {
        actions.push(Action::RestartKeepAlive);
        actions.push(Action::Send(Message::KeepAlive));
    }
    Step { actions, wait: Wait::Message }
}

/// The requests for the blocks that were requested and not received, if the download is not
/// complete.
fn repeat_requests(torrent: &TorrentState) -> (actions: Vec<Action>)
    ensures
        actions@ == repeated_requests(torrent@),
{
    let mut actions: Vec<Action> = Vec::new();
    if to_u32(torrent.downloaded_blocks.len()) < torrent.info.blocks_len() {
        let missing = torrent.missing_blocks();
        let mut i: usize = 0;
        while i < missing.len()
            invariant
                0 <= i <= missing@.len(),
                actions@ == missing@.take(i as int).map_values(
                    |block: BlockInfo| Action::TrySend(Message::Request(block)),
                ),
            decreases missing.len() - i,
        {
            actions.push(Action::TrySend(Message::Request(missing[i])));
            assert(missing@.take(i + 1) =~= missing@.take(i as int).push(missing@[i as int]));
            i += 1;
        }
        assert(missing@.take(i as int) =~= missing@);
    }
    actions
}

} // verus!
