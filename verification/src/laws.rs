//! What holds of every conversation.

use crate::bencode;
use crate::bitfield;
use crate::blocks::{self, Block, BlockInfo, BLOCK_LEN};
use crate::digest;
use crate::disk::DiskMsg;
use crate::extension;
use crate::magnet;
use crate::messages::{Handshake, Message};
use crate::metainfo;
use crate::peer::PeerView;
use crate::session::{self, Action, Event, Halt, Step, Wait};
use crate::torrent::{self, TorrentView};
use vstd::prelude::*;

verus! {

// ---------------------------------------------------------------------------------------
// What every step keeps

/// No event changes the address of the peer, its torrent, the id of the client or the disk, and
/// the id of the peer changes with its handshake only.
pub proof fn law_identity_is_kept(
    peer: PeerView,
    torrent: TorrentView,
    wait: Wait,
    event: Event,
    peer_after: PeerView,
    torrent_after: TorrentView,
    result: Result<Step, Halt>,
)
    requires
        session::outcome(peer, torrent, wait, event, peer_after, torrent_after, result),
    ensures
        peer_after.addr == peer.addr,
        peer_after.torrent_ctx == peer.torrent_ctx,
        peer_after.own_id == peer.own_id,
        peer_after.has_disk == peer.has_disk,
        !(event is Handshake) ==> peer_after.id == peer.id,
{
}

/// Once the client is interested, or does not choke the peer, that stays so; and once the peer has
/// told that it exchanges metadata, what it told stays.
pub proof fn law_openness_is_kept(
    peer: PeerView,
    torrent: TorrentView,
    wait: Wait,
    event: Event,
    peer_after: PeerView,
    torrent_after: TorrentView,
    result: Result<Step, Halt>,
)
    requires
        session::outcome(peer, torrent, wait, event, peer_after, torrent_after, result),
    ensures
        peer.am_interested ==> peer_after.am_interested,
        !peer.am_choking ==> !peer_after.am_choking,
        peer.extension.m.ut_metadata is Some ==> peer_after.extension == peer.extension,
{
}

/// No event removes a block from those downloaded, or makes one occur twice among them; nor
/// does it touch the blocks requested or the number of pieces.
pub proof fn law_downloads_are_kept(
    peer: PeerView,
    torrent: TorrentView,
    wait: Wait,
    event: Event,
    peer_after: PeerView,
    torrent_after: TorrentView,
    result: Result<Step, Halt>,
)
    requires
        session::outcome(peer, torrent, wait, event, peer_after, torrent_after, result),
    ensures
        forall|block: BlockInfo|
            torrent.downloaded_blocks.contains(block)
                ==> #[trigger] torrent_after.downloaded_blocks.contains(block),
        torrent.downloaded_blocks.no_duplicates()
            ==> torrent_after.downloaded_blocks.no_duplicates(),
        torrent_after.requested_blocks == torrent.requested_blocks,
        torrent_after.pieces.len() == torrent.pieces.len(),
{
    if let (Wait::Write(block), Event::Written(written)) = (wait, event) {
        let before = torrent.downloaded_blocks;
        let after = torrent_after.downloaded_blocks;
        if written && !before.contains(block) {
            assert forall|b: BlockInfo| before.contains(b) implies #[trigger] after.contains(b) by {
                let i = choose|i: int| 0 <= i < before.len() && before[i] == b;
                assert(after[i + 1] == b);
            }
            if before.no_duplicates() {
                assert forall|i: int, j: int|
                    0 <= i < after.len() && 0 <= j < after.len() && i != j implies after[i]
                    != after[j] by {
                    if i > 0 && j > 0 {
                        assert(before[i - 1] != before[j - 1]);
                    } else if i > 0 {
                        assert(before.contains(before[i - 1]));
                    } else {
                        assert(before.contains(before[j - 1]));
                    }
                }
            }
        }
    }
}

/// A block comes to count as downloaded when the disk has written it, and not otherwise.
pub proof fn law_downloads_are_written(
    peer: PeerView,
    torrent: TorrentView,
    wait: Wait,
    event: Event,
    peer_after: PeerView,
    torrent_after: TorrentView,
    result: Result<Step, Halt>,
    block: BlockInfo,
)
    requires
        session::outcome(peer, torrent, wait, event, peer_after, torrent_after, result),
        torrent_after.downloaded_blocks.contains(block),
        !torrent.downloaded_blocks.contains(block),
    ensures
        wait == Wait::Write(block),
        event == Event::Written(true),
{
    if let (Wait::Write(place), Event::Written(written)) = (wait, event) {
        let after = torrent_after.downloaded_blocks;
        let i = choose|i: int| 0 <= i < after.len() && after[i] == block;
        if i > 0 {
            assert(torrent.downloaded_blocks[i - 1] == block);
        }
    }
}

/// The torrent comes to have a piece when the disk has found it valid, and loses one when a block
/// of it comes that is too long; nothing else changes the pieces.
pub proof fn law_pieces_are_validated(
    peer: PeerView,
    torrent: TorrentView,
    wait: Wait,
    event: Event,
    peer_after: PeerView,
    torrent_after: TorrentView,
    result: Result<Step, Halt>,
    i: int,
)
    requires
        session::outcome(peer, torrent, wait, event, peer_after, torrent_after, result),
        0 <= i < torrent.pieces.len(),
        torrent_after.pieces[i] != torrent.pieces[i],
    ensures
        torrent_after.pieces[i] ==> {
            &&& wait matches Wait::Validation(block)
            &&& block.index == i
            &&& event == Event::Validated(true)
        },
        !torrent_after.pieces[i] ==> {
            &&& wait is Message
            &&& event matches Event::Message(Message::Piece(block))
            &&& block.index == i
            &&& !block.valid()
        },
{
}

/// The info of the torrent is replaced only by one whose digest is the hash of the magnet link,
/// which is the hash that the client puts into its handshake.
pub proof fn law_info_is_that_of_the_magnet_link(
    peer: PeerView,
    torrent: TorrentView,
    wait: Wait,
    event: Event,
    peer_after: PeerView,
    torrent_after: TorrentView,
    result: Result<Step, Halt>,
)
    requires
        session::outcome(peer, torrent, wait, event, peer_after, torrent_after, result),
    ensures
        torrent_after.info != torrent.info ==> {
            &&& digest::hex_text(digest::sha1_of(torrent_after.info.bytes)) == peer.xt()
            &&& digest::hex_bytes(peer.xt()) == Some(digest::sha1_of(torrent_after.info.bytes))
            &&& magnet::info_hash_of(peer.xt()) is Some ==> magnet::info_hash_of(peer.xt())
                == Some(digest::sha1_of(torrent_after.info.bytes))
        },
{
    digest::lemma_hex_round_trip(digest::sha1_of(torrent_after.info.bytes));
}

/// Metadata is requested only while no piece of the info has come and the peer had not told that
/// it exchanges metadata, and under the id that it has told now.
pub proof fn law_metadata_is_requested_once(
    peer: PeerView,
    torrent: TorrentView,
    wait: Wait,
    event: Event,
    peer_after: PeerView,
    torrent_after: TorrentView,
    result: Result<Step, Halt>,
    i: int,
)
    requires
        session::outcome(peer, torrent, wait, event, peer_after, torrent_after, result),
        wait is Message,
        result is Ok,
        0 <= i < result->Ok_0.actions@.len(),
        result->Ok_0.actions@[i] matches Action::Send(Message::Extended(_)),
    ensures
        torrent.info_dict.is_empty(),
        peer.extension.m.ut_metadata is None,
        result->Ok_0.actions@[i] matches Action::Send(Message::Extended(extended))
            && peer_after.extension.m.ut_metadata == Some(extended.0),
{
}

/// What the peer waits for after a step is the answer to the last thing that was done: to the one
/// question put to the disk, or to the messages sent.
pub proof fn law_waits_for_what_was_asked(
    peer: PeerView,
    torrent: TorrentView,
    wait: Wait,
    event: Event,
    peer_after: PeerView,
    torrent_after: TorrentView,
    result: Result<Step, Halt>,
)
    requires
        session::outcome(peer, torrent, wait, event, peer_after, torrent_after, result),
        result is Ok,
        result->Ok_0.actions@.len() > 0,
    ensures
        ({
            let last = result->Ok_0.actions@.last();
            match result->Ok_0.wait {
                Wait::Start => false,
                Wait::Handshake(ours) => last matches Action::Write(bytes) && bytes@ == ours.wire(),
                Wait::Interested => last == Action::Send(Message::Interested),
                Wait::Unchoke => last == Action::Send(Message::Unchoke),
                Wait::Message => match last {
                    Action::Disk(DiskMsg::NewTorrent(_)) => true,
                    Action::Disk(_) | Action::Write(_) => false,
                    _ => true,
                },
                Wait::Blocks(asked) => last matches Action::Disk(
                    DiskMsg::RequestBlocks { count, piece },
                ) && count == 5 && piece == asked,
                Wait::Validation(block) => last == Action::Disk(
                    DiskMsg::ValidatePiece(block.index),
                ),
                Wait::Write(place) => last matches Action::Disk(DiskMsg::WriteBlock(block))
                    && block.place() == place,
                Wait::Read(place) => last == Action::Disk(DiskMsg::ReadBlock(place)),
                Wait::Metadata(_) => last matches Action::Send(Message::Extended(_)),
            }
        }),
{
}

// ---------------------------------------------------------------------------------------
// Conversations

/// Once the handshake of the peer has been answered, the client is interested and does not choke
/// the peer, and knows the id that the peer gave; nothing else has changed.
pub proof fn law_opening(
    peer: PeerView,
    torrent: TorrentView,
    ours: Handshake,
    bytes: Vec<u8>,
    greeted: PeerView,
    greeting: Result<Step, Halt>,
    interested: PeerView,
    interest: Result<Step, Halt>,
    open: PeerView,
    last: Result<Step, Halt>,
)
    requires
        session::outcome(
            peer,
            torrent,
            Wait::Handshake(ours),
            Event::Handshake(bytes),
            greeted,
            torrent,
            greeting,
        ),
        greeting is Ok,
        session::outcome(
            greeted,
            torrent,
            greeting->Ok_0.wait,
            Event::Sent,
            interested,
            torrent,
            interest,
        ),
        interest is Ok,
        session::outcome(
            interested,
            torrent,
            interest->Ok_0.wait,
            Event::Sent,
            open,
            torrent,
            last,
        ),
    ensures
        open == (PeerView { am_interested: true, am_choking: false, id: open.id, ..peer }),
        open.id matches Some(id) && id@ == bytes@.subrange(48, 68),
        session::did(last, Seq::empty(), Wait::Message),
{
}

/// The handshake of a client for the same torrent is accepted, and its id is kept.
pub proof fn law_handshake_is_accepted(
    peer: PeerView,
    torrent: TorrentView,
    ours: Handshake,
    theirs: Handshake,
    bytes: Vec<u8>,
    peer_after: PeerView,
    torrent_after: TorrentView,
    result: Result<Step, Halt>,
)
    requires
        session::own_handshake(theirs, ours.info_hash@, theirs.peer_id@),
        bytes@ == theirs.wire(),
        session::outcome(
            peer,
            torrent,
            Wait::Handshake(ours),
            Event::Handshake(bytes),
            peer_after,
            torrent_after,
            result,
        ),
    ensures
        result is Ok,
        result->Ok_0.actions@.len() == 2,
        peer_after.id matches Some(id) && id@ == theirs.peer_id@,
{
    assert(bytes@[0] == 19);
    assert(bytes@.subrange(1, 20) =~= theirs.pstr@);
    assert(bytes@[25] == theirs.reserved@[5]);
    assert(bytes@.subrange(28, 48) =~= theirs.info_hash@);
    assert(bytes@.subrange(48, 68) =~= theirs.peer_id@);
    assert(0x10u8 & (0x80u8 >> 3u8) != 0) by (bit_vector);
}

/// A block that ends a valid piece, and is written, makes the torrent have the piece and counts
/// as downloaded; then the next blocks are asked for.
pub proof fn law_last_block_of_a_piece(
    peer: PeerView,
    torrent: TorrentView,
    block: Block,
    checking: TorrentView,
    check: Result<Step, Halt>,
    writing: TorrentView,
    write: Result<Step, Halt>,
    done: TorrentView,
    last: Result<Step, Halt>,
)
    requires
        block.valid(),
        block.begin + block.block@.len() >= torrent.info.piece_length,
        block.index < torrent.pieces.len(),
        session::outcome(
            peer,
            torrent,
            Wait::Message,
            Event::Message(Message::Piece(block)),
            peer,
            checking,
            check,
        ),
        session::outcome(
            peer,
            checking,
            check->Ok_0.wait,
            Event::Validated(true),
            peer,
            writing,
            write,
        ),
        session::outcome(peer, writing, write->Ok_0.wait, Event::Written(true), peer, done, last),
    ensures
        done.pieces == torrent.pieces.update(block.index as int, true),
        done.downloaded_blocks.contains(block.place()),
        session::did(
            last,
            session::ask_for_blocks(peer, done),
            session::wait_for_blocks(peer, done),
        ),
{
    assert(check->Ok_0.wait == Wait::Validation(block));
    assert(write->Ok_0.wait == Wait::Write(block.place()));
    let downloaded = torrent.downloaded_blocks;
    if !downloaded.contains(block.place()) {
        assert((seq![block.place()] + downloaded)[0] == block.place());
    }
}

/// The info that the magnet link names is taken from the one message that brings it, whatever the
/// number of the piece in that message: the torrent has it, and the disk is told first of all.
pub proof fn law_info_is_taken(
    peer: PeerView,
    torrent: TorrentView,
    payload: Vec<u8>,
    header: Seq<u8>,
    info: Seq<u8>,
    peer_after: PeerView,
    torrent_after: TorrentView,
    result: Result<Step, Halt>,
)
    requires
        payload@ == header + info,
        payload@.len() <= u32::MAX,
        extension::metadata_of(bencode::bencode_tokens(header)) is Some,
        metainfo::info_of(info) is Some,
        info.len() <= BLOCK_LEN,
        digest::hex_text(digest::sha1_of(info)) == peer.xt(),
        peer.extension.m.ut_metadata is Some,
        peer.extension.metadata_size == Some(info.len() as u32),
        peer.has_disk,
        torrent.info_dict.is_empty(),
        session::outcome(
            peer,
            torrent,
            Wait::Message,
            Event::Message(Message::Extended((0, payload))),
            peer_after,
            torrent_after,
            result,
        ),
    ensures
        torrent_after.info == metainfo::info_of(info)->0,
        torrent_after.info.bytes == info,
        result is Ok,
        result->Ok_0.actions@.len() > 0,
        result->Ok_0.actions@[0] matches Action::Disk(DiskMsg::NewTorrent(told)) && told@
            == torrent_after.info,
{
    assert(payload@.take(payload@.len() - info.len()) =~= header);
    assert(payload@.skip(payload@.len() - info.len()) =~= info);
    let piece = extension::metadata_of(bencode::bencode_tokens(header))->0.piece;
    assert(torrent.info_dict =~= Map::empty());
    torrent::lemma_joined_one(piece, info);
    assert(extension::nearest_single(info.len() as int) == info.len());
    assert(torrent.info_dict.insert(piece, info).dom() =~= Set::empty().insert(piece));
}

/// A request of the peer is answered with the bytes that the disk reads for it. If they are as
/// many as were requested, the block sent is the block requested.
pub proof fn law_request_is_answered(
    peer: PeerView,
    torrent: TorrentView,
    requested: BlockInfo,
    reading: Result<Step, Halt>,
    bytes: Vec<u8>,
    answer: Result<Step, Halt>,
)
    requires
        session::outcome(
            peer,
            torrent,
            Wait::Message,
            Event::Message(Message::Request(requested)),
            peer,
            torrent,
            reading,
        ),
        session::outcome(
            peer,
            torrent,
            reading->Ok_0.wait,
            Event::Read(Some(bytes)),
            peer,
            torrent,
            answer,
        ),
    ensures
        answer is Ok,
        answer->Ok_0.actions@.len() == 1,
        answer->Ok_0.actions@[0] matches Action::TrySend(Message::Piece(block)) && block.block
            == bytes && (bytes@.len() == requested.len ==> block.place() == requested),
{
}

/// One step of a conversation.
pub struct Turn {
    pub peer: PeerView,
    pub torrent: TorrentView,
    pub wait: Wait,
    pub event: Event,
    pub peer_after: PeerView,
    pub torrent_after: TorrentView,
    pub result: Result<Step, Halt>,
}

/// Each turn is a step, and takes the peer as the turn before it left it. The torrent may change
/// in between, for other peers share it.
pub open spec fn in_turn(turns: Seq<Turn>) -> bool {
    &&& forall|i: int|
        0 <= i < turns.len() ==> {
            let turn = #[trigger] turns[i];
            session::outcome(
                turn.peer,
                turn.torrent,
                turn.wait,
                turn.event,
                turn.peer_after,
                turn.torrent_after,
                turn.result,
            )
        }
    &&& forall|i: int, j: int|
        0 <= i && j == i + 1 && j < turns.len() ==> (#[trigger] turns[j]).peer == (
        #[trigger] turns[i]).peer_after
}

/// What the peer says on choking, if it does: whether it chokes.
pub open spec fn on_choking(turn: Turn) -> Option<bool> {
    match (turn.wait, turn.event) {
        (Wait::Message, Event::Message(Message::Choke)) => Some(true),
        (Wait::Message, Event::Message(Message::Unchoke)) => Some(false),
        _ => None,
    }
}

/// What the peer says on interest, if it does: whether it is interested.
pub open spec fn on_interest(turn: Turn) -> Option<bool> {
    match (turn.wait, turn.event) {
        (Wait::Message, Event::Message(Message::Interested)) => Some(true),
        (Wait::Message, Event::Message(Message::NotInterested)) => Some(false),
        _ => None,
    }
}

/// The last word among `words`, or `first` if there is none.
pub open spec fn last_word(words: Seq<Option<bool>>, first: bool) -> bool
    decreases words.len(),
{
    if words.len() == 0 {
        first
    } else {
        match words.last() {
            Some(word) => word,
            None => last_word(words.drop_last(), first),
        }
    }
}

/// After any number of steps, the peer chokes the client if its last word on that was that it
/// does, and is interested if its last word on that was that it is. Where it said nothing, that is
/// as it was before.
pub proof fn law_last_word_counts(turns: Seq<Turn>)
    requires
        turns.len() > 0,
        in_turn(turns),
    ensures
        turns.last().peer_after.peer_choking == last_word(
            turns.map_values(|turn: Turn| on_choking(turn)),
            turns[0].peer.peer_choking,
        ),
        turns.last().peer_after.peer_interested == last_word(
            turns.map_values(|turn: Turn| on_interest(turn)),
            turns[0].peer.peer_interested,
        ),
    decreases turns.len(),
{
    let choking = turns.map_values(|turn: Turn| on_choking(turn));
    let interest = turns.map_values(|turn: Turn| on_interest(turn));
    let before = turns.drop_last();
    assert(choking.drop_last() =~= before.map_values(|turn: Turn| on_choking(turn)));
    assert(interest.drop_last() =~= before.map_values(|turn: Turn| on_interest(turn)));
    assert(choking.last() == on_choking(turns.last()));
    assert(interest.last() == on_interest(turns.last()));
    let last = turns[turns.len() - 1];
    law_words_change_their_flag(
        last.peer,
        last.torrent,
        last.wait,
        last.event,
        last.peer_after,
        last.torrent_after,
        last.result,
    );
    if before.len() > 0 {
        assert forall|i: int| 0 <= i < before.len() implies #[trigger] before[i] == turns[i] by {}
        assert(in_turn(before));
        law_last_word_counts(before);
        assert(turns[turns.len() - 2] == before.last());
    } else {
        assert(last_word(choking.drop_last(), turns[0].peer.peer_choking)
            == turns[0].peer.peer_choking);
        assert(last_word(interest.drop_last(), turns[0].peer.peer_interested)
            == turns[0].peer.peer_interested);
    }
}

/// A message on choking or on interest changes its flag and nothing else of the peer; nothing else
/// changes these flags.
pub proof fn law_words_change_their_flag(
    peer: PeerView,
    torrent: TorrentView,
    wait: Wait,
    event: Event,
    peer_after: PeerView,
    torrent_after: TorrentView,
    result: Result<Step, Halt>,
)
    requires
        session::outcome(peer, torrent, wait, event, peer_after, torrent_after, result),
    ensures
        ({
            let turn = Turn { peer, torrent, wait, event, peer_after, torrent_after, result };
            &&& match on_choking(turn) {
                Some(chokes) => peer_after == (PeerView { peer_choking: chokes, ..peer }),
                None => peer_after.peer_choking == peer.peer_choking,
            }
            &&& match on_interest(turn) {
                Some(interested) => peer_after == (PeerView {
                    peer_interested: interested,
                    ..peer
                }),
                None => peer_after.peer_interested == peer.peer_interested,
            }
        }),
{
}

// ---------------------------------------------------------------------------------------
// Requests

proof fn lemma_next_piece_from(peer_pieces: Seq<bool>, torrent: TorrentView, start: int)
    requires
        0 <= start,
        peer_pieces.len() <= usize::MAX,
    ensures
        match session::next_piece_from(peer_pieces, torrent, start) {
            Some(piece) => {
                &&& start <= piece
                &&& session::open_piece(peer_pieces, torrent, piece as int)
                &&& forall|i: int|
                    start <= i < piece ==> !session::open_piece(peer_pieces, torrent, i)
            },
            None => forall|i: int| start <= i ==> !session::open_piece(peer_pieces, torrent, i),
        },
    decreases peer_pieces.len() - start,
{
    if start < peer_pieces.len() && !session::open_piece(peer_pieces, torrent, start) {
        lemma_next_piece_from(peer_pieces, torrent, start + 1);
    }
}

/// The piece to ask for is one that the peer has and the torrent has not, and that was not fully
/// requested before, and it is the first such piece; if none is asked for, there is none.
pub proof fn law_next_piece_is_the_first_missing(peer_pieces: Seq<bool>, torrent: TorrentView)
    requires
        peer_pieces.len() <= usize::MAX,
    ensures
        match session::next_piece(peer_pieces, torrent) {
            Some(piece) => {
                &&& session::wanted(peer_pieces, torrent.pieces, piece as int)
                &&& !torrent.fully_requested(piece as int)
                &&& forall|i: int|
                    0 <= i < piece ==> !session::wanted(peer_pieces, torrent.pieces, i)
                        || torrent.fully_requested(i)
            },
            None => forall|i: int|
                0 <= i ==> !session::wanted(peer_pieces, torrent.pieces, i)
                    || torrent.fully_requested(i),
        },
{
    lemma_next_piece_from(peer_pieces, torrent, 0);
    assert forall|i: int|
        !session::open_piece(peer_pieces, torrent, i) implies !#[trigger] session::wanted(
        peer_pieces,
        torrent.pieces,
        i,
    ) || torrent.fully_requested(i) by {}
}

/// The disk is asked for blocks of the next piece, and of no other.
pub proof fn law_next_piece_is_asked_for(
    peer: PeerView,
    torrent: TorrentView,
    wait: Wait,
    event: Event,
    peer_after: PeerView,
    torrent_after: TorrentView,
    result: Result<Step, Halt>,
    i: int,
)
    requires
        session::outcome(peer, torrent, wait, event, peer_after, torrent_after, result),
        result is Ok,
        0 <= i < result->Ok_0.actions@.len(),
        result->Ok_0.actions@[i] is Disk,
        result->Ok_0.actions@[i]->Disk_0 is RequestBlocks,
    ensures
        result->Ok_0.actions@[i] matches Action::Disk(DiskMsg::RequestBlocks { count, piece })
            && session::next_piece(peer_after.pieces, torrent_after) == Some(piece)
            && result->Ok_0.wait == Wait::Blocks(piece),
{
}

/// The piece that a request is for.
pub open spec fn requested_piece(action: Action) -> int {
    match action {
        Action::Send(Message::Request(block)) => block.index as int,
        _ => -1,
    }
}

/// Whatever the disk hands out, each block then requested is one that it handed out, of the piece
/// that was asked for, which the peer has and the torrent has not; so the pieces requested do not
/// descend.
pub proof fn law_requests_are_for_the_wanted_piece(
    peer: PeerView,
    torrent: TorrentView,
    piece: usize,
    blocks: Vec<BlockInfo>,
    peer_after: PeerView,
    torrent_after: TorrentView,
    result: Result<Step, Halt>,
)
    requires
        session::outcome(
            peer,
            torrent,
            Wait::Blocks(piece),
            Event::Blocks(blocks),
            peer_after,
            torrent_after,
            result,
        ),
    ensures
        result is Ok,
        forall|i: int|
            0 <= i < result->Ok_0.actions@.len() ==> {
                &&& #[trigger] result->Ok_0.actions@[i] matches Action::Send(
                    Message::Request(block),
                )
                &&& blocks@.contains(block)
                &&& block.index == piece
                &&& session::wanted(peer.pieces, torrent.pieces, block.index as int)
            },
        forall|i: int, j: int|
            0 <= i < j < result->Ok_0.actions@.len() ==> requested_piece(
                #[trigger] result->Ok_0.actions@[i],
            ) <= requested_piece(#[trigger] result->Ok_0.actions@[j]),
{
    let belongs = |block: BlockInfo| block.index == piece;
    let requested = session::blocks_of(blocks@, piece);
    assert forall|i: int| 0 <= i < result->Ok_0.actions@.len() implies {
        &&& #[trigger] result->Ok_0.actions@[i] matches Action::Send(Message::Request(block))
        &&& blocks@.contains(block)
        &&& block.index == piece
        &&& session::wanted(peer.pieces, torrent.pieces, block.index as int)
    } by {
        blocks@.lemma_filter_pred(belongs, i);
        assert(requested.contains(requested[i]));
        blocks@.lemma_filter_contains_rev(belongs, requested[i]);
    }
}

/// What is requested of the blocks that the disk hands out are, in its order, those of the piece
/// that was asked for, while the peer has it and the torrent has not.
pub proof fn law_piece_asked_for_is_requested(
    peer: PeerView,
    torrent: TorrentView,
    piece: usize,
    blocks: Vec<BlockInfo>,
    peer_after: PeerView,
    torrent_after: TorrentView,
    result: Result<Step, Halt>,
)
    requires
        session::wanted(peer.pieces, torrent.pieces, piece as int),
        session::outcome(
            peer,
            torrent,
            Wait::Blocks(piece),
            Event::Blocks(blocks),
            peer_after,
            torrent_after,
            result,
        ),
    ensures
        session::did(
            result,
            session::blocks_of(blocks@, piece).map_values(
                |block: BlockInfo| Action::Send(Message::Request(block)),
            ),
            Wait::Message,
        ),
{
}

proof fn lemma_filter_keeps_distinct(blocks: Seq<BlockInfo>, pred: spec_fn(BlockInfo) -> bool)
    requires
        blocks.no_duplicates(),
    ensures
        blocks.filter(pred).no_duplicates(),
    decreases blocks.len(),
{
    reveal(Seq::filter);
    if blocks.len() > 0 {
        let shorter = blocks.drop_last();
        lemma_filter_keeps_distinct(shorter, pred);
        let kept = shorter.filter(pred);
        assert forall|i: int| 0 <= i < kept.len() implies #[trigger] kept[i] != blocks.last() by {
            assert(kept.contains(kept[i]));
            shorter.lemma_filter_contains_rev(pred, kept[i]);
            let j = choose|j: int| 0 <= j < shorter.len() && shorter[j] == kept[i];
            assert(blocks[j] == kept[i]);
        }
    }
}

/// No block is requested twice on one answer of the disk, if the answer holds none twice.
pub proof fn law_requests_of_an_answer_are_distinct(
    peer: PeerView,
    torrent: TorrentView,
    piece: usize,
    blocks: Vec<BlockInfo>,
    peer_after: PeerView,
    torrent_after: TorrentView,
    result: Result<Step, Halt>,
)
    requires
        blocks@.no_duplicates(),
        session::outcome(
            peer,
            torrent,
            Wait::Blocks(piece),
            Event::Blocks(blocks),
            peer_after,
            torrent_after,
            result,
        ),
    ensures
        result is Ok,
        result->Ok_0.actions@.no_duplicates(),
{
    let requested = session::blocks_of(blocks@, piece);
    let actions = result->Ok_0.actions@;
    lemma_filter_keeps_distinct(blocks@, |block: BlockInfo| block.index == piece);
    assert forall|i: int, j: int|
        0 <= i < actions.len() && 0 <= j < actions.len() && i != j implies actions[i]
        != actions[j] by {
        assert(actions[i] == Action::Send(Message::Request(requested[i])));
        assert(actions[j] == Action::Send(Message::Request(requested[j])));
    }
}

/// What was requested on one answer of the disk is not requested on another, to this peer or to
/// another, if no block is in both answers.
pub proof fn law_answers_are_not_requested_again(
    peer: PeerView,
    torrent: TorrentView,
    piece: usize,
    blocks: Vec<BlockInfo>,
    peer_after: PeerView,
    torrent_after: TorrentView,
    result: Result<Step, Halt>,
    other_peer: PeerView,
    other_torrent: TorrentView,
    other_piece: usize,
    other_blocks: Vec<BlockInfo>,
    other_peer_after: PeerView,
    other_torrent_after: TorrentView,
    other_result: Result<Step, Halt>,
)
    requires
        session::outcome(
            peer,
            torrent,
            Wait::Blocks(piece),
            Event::Blocks(blocks),
            peer_after,
            torrent_after,
            result,
        ),
        session::outcome(
            other_peer,
            other_torrent,
            Wait::Blocks(other_piece),
            Event::Blocks(other_blocks),
            other_peer_after,
            other_torrent_after,
            other_result,
        ),
        forall|block: BlockInfo|
            #[trigger] blocks@.contains(block) ==> !other_blocks@.contains(block),
    ensures
        result is Ok,
        other_result is Ok,
        forall|action: Action|
            #[trigger] result->Ok_0.actions@.contains(action)
                ==> !other_result->Ok_0.actions@.contains(action),
{
    law_requests_are_for_the_wanted_piece(
        peer,
        torrent,
        piece,
        blocks,
        peer_after,
        torrent_after,
        result,
    );
    law_requests_are_for_the_wanted_piece(
        other_peer,
        other_torrent,
        other_piece,
        other_blocks,
        other_peer_after,
        other_torrent_after,
        other_result,
    );
}

/// Every block of the piece asked for that the disk hands out is requested, while the peer has the
/// piece and the torrent has not.
pub proof fn law_wanted_blocks_are_requested(
    peer: PeerView,
    torrent: TorrentView,
    piece: usize,
    blocks: Vec<BlockInfo>,
    peer_after: PeerView,
    torrent_after: TorrentView,
    result: Result<Step, Halt>,
    block: BlockInfo,
)
    requires
        session::outcome(
            peer,
            torrent,
            Wait::Blocks(piece),
            Event::Blocks(blocks),
            peer_after,
            torrent_after,
            result,
        ),
        session::wanted(peer.pieces, torrent.pieces, piece as int),
        blocks@.contains(block),
        block.index == piece,
    ensures
        result is Ok,
        result->Ok_0.actions@.contains(Action::Send(Message::Request(block))),
{
    let belongs = |block: BlockInfo| block.index == piece;
    let requested = session::blocks_of(blocks@, piece);
    let i = choose|i: int| 0 <= i < blocks@.len() && blocks@[i] == block;
    blocks@.lemma_filter_contains(belongs, i);
    let j = choose|j: int| 0 <= j < requested.len() && requested[j] == block;
    assert(result->Ok_0.actions@[j] == Action::Send(Message::Request(block)));
}

/// Pieces are asked for one after another: while the torrent loses no piece and no request, a
/// later question is not for an earlier piece, and it is for a later one once the torrent has the
/// piece that was asked for, or once that was fully requested.
pub proof fn law_pieces_are_asked_for_in_order(
    peer_pieces: Seq<bool>,
    torrent: TorrentView,
    later_torrent: TorrentView,
)
    requires
        peer_pieces.len() <= usize::MAX,
        later_torrent.info == torrent.info,
        forall|i: int|
            0 <= i < torrent.pieces.len() && #[trigger] torrent.pieces[i] ==> i
                < later_torrent.pieces.len() && later_torrent.pieces[i],
        forall|block: BlockInfo|
            torrent.requested_blocks.contains(block)
                ==> #[trigger] later_torrent.requested_blocks.contains(block),
    ensures
        session::next_piece(peer_pieces, torrent) is None ==> session::next_piece(
            peer_pieces,
            later_torrent,
        ) is None,
        session::next_piece(peer_pieces, later_torrent) matches Some(later) ==> {
            let piece = session::next_piece(peer_pieces, torrent)->0;
            &&& piece <= later
            &&& (piece < later_torrent.pieces.len() && later_torrent.pieces[piece as int])
                || later_torrent.fully_requested(piece as int) ==> piece < later
        },
{
    lemma_next_piece_from(peer_pieces, torrent, 0);
    lemma_next_piece_from(peer_pieces, later_torrent, 0);
    if let Some(later) = session::next_piece(peer_pieces, later_torrent) {
        assert(session::open_piece(peer_pieces, later_torrent, later as int));
        if torrent.fully_requested(later as int) {
            lemma_requests_stay(torrent, later_torrent, later as int);
        }
        assert(session::open_piece(peer_pieces, torrent, later as int));
    }
}

proof fn lemma_requests_stay(torrent: TorrentView, later_torrent: TorrentView, piece: int)
    requires
        later_torrent.info == torrent.info,
        torrent.fully_requested(piece),
        forall|block: BlockInfo|
            torrent.requested_blocks.contains(block)
                ==> #[trigger] later_torrent.requested_blocks.contains(block),
    ensures
        later_torrent.fully_requested(piece),
{
    let before = torrent.requested_blocks;
    let after = later_torrent.requested_blocks;
    assert forall|k: int| 0 <= k < torrent.info.blocks_per_piece() implies
        #[trigger] torrent::block_requested(after, piece, k) by {
        assert(torrent::block_requested(before, piece, k));
        let i = choose|i: int|
            0 <= i < before.len() && (#[trigger] before[i]).index == piece && before[i].begin == k
                * BLOCK_LEN;
        assert(before.contains(before[i]));
        assert(after.contains(before[i]));
        let j = choose|j: int| 0 <= j < after.len() && after[j] == before[i];
        assert(after[j].index == piece);
    }
}

/// While blocks are missing from the download, exactly the blocks that were requested and not
/// downloaded are requested again.
pub proof fn law_missing_blocks_are_requested_again(torrent: TorrentView, block: BlockInfo)
    requires
        blocks::low_32(torrent.downloaded_blocks.len() as int) < torrent.info.block_count(),
    ensures
        session::repeated_requests(torrent).contains(Action::TrySend(Message::Request(block)))
            <==> torrent.requested_blocks.contains(block) && !torrent.downloaded_blocks.contains(
            block,
        ),
{
    let wanted = |b: BlockInfo| !torrent.downloaded_blocks.contains(b);
    let missing = torrent::missing_of(torrent.requested_blocks, torrent.downloaded_blocks);
    let requests = session::repeated_requests(torrent);
    let request = Action::TrySend(Message::Request(block));
    if requests.contains(request) {
        let i = choose|i: int| 0 <= i < requests.len() && requests[i] == request;
        assert(missing[i] == block);
        torrent.requested_blocks.lemma_filter_pred(wanted, i);
        torrent.requested_blocks.lemma_filter_contains_rev(wanted, block);
    }
    if torrent.requested_blocks.contains(block) && !torrent.downloaded_blocks.contains(block) {
        let i = choose|i: int|
            0 <= i < torrent.requested_blocks.len() && torrent.requested_blocks[i] == block;
        torrent.requested_blocks.lemma_filter_contains(wanted, i);
        let j = choose|j: int| 0 <= j < missing.len() && missing[j] == block;
        assert(requests[j] == request);
    }
}

/// The pieces of the info are joined in the order of their numbers.
pub proof fn law_info_pieces_are_joined_in_order(dict: Map<u32, Seq<u8>>, parts: Seq<Seq<u8>>)
    requires
        parts.len() <= 0x1_0000_0000,
        forall|k: u32| #[trigger] dict.contains_key(k) <==> k < parts.len(),
        forall|k: u32| k < parts.len() ==> #[trigger] dict[k] == parts[k as int],
    ensures
        torrent::joined(dict) == parts.flatten(),
{
    lemma_joined_prefix(dict, parts, parts.len() as int);
    assert(parts.take(parts.len() as int) =~= parts);
    torrent::lemma_joined_gap(dict, parts.len() as int, 0x1_0000_0000);
}

proof fn lemma_joined_prefix(dict: Map<u32, Seq<u8>>, parts: Seq<Seq<u8>>, n: int)
    requires
        0 <= n <= parts.len() <= 0x1_0000_0000,
        forall|k: u32| #[trigger] dict.contains_key(k) <==> k < parts.len(),
        forall|k: u32| k < parts.len() ==> #[trigger] dict[k] == parts[k as int],
    ensures
        torrent::joined_below(dict, n) == parts.take(n).flatten(),
    decreases n,
{
    if n > 0 {
        lemma_joined_prefix(dict, parts, n - 1);
        let k = (n - 1) as u32;
        assert(dict.contains_key(k) && dict[k] == parts[n - 1]);
        assert(parts.take(n) =~= parts.take(n - 1).push(parts[n - 1]));
        parts.take(n - 1).lemma_flatten_push(parts[n - 1]);
    } else {
        assert(parts.take(0) =~= Seq::empty());
    }
}

/// With a spacing that divides a block, rounding to the spacing changes the number of blocks only
/// where it rounds down to a whole number of blocks.
proof fn lemma_rounded_blocks(size: int, spacing: int, per_block: int, rounded: int)
    requires
        spacing > 0,
        spacing * per_block == BLOCK_LEN,
        rounded == size / spacing * spacing || (rounded == (size / spacing + 1) * spacing && size
            % spacing > 0),
        !(rounded < size && rounded % BLOCK_LEN as int == 0),
    ensures
        (rounded + BLOCK_LEN - 1) / BLOCK_LEN as int * BLOCK_LEN >= size,
        ((rounded + BLOCK_LEN - 1) / BLOCK_LEN as int - 1) * BLOCK_LEN < size,
{
    let steps = size / spacing;
    let blocks = (rounded + BLOCK_LEN - 1) / BLOCK_LEN as int;
    vstd::arithmetic::div_mod::lemma_fundamental_div_mod(size, spacing);
    vstd::arithmetic::div_mod::lemma_mod_bound(size, spacing);
    let t = if rounded == steps * spacing {
        steps
    } else {
        steps + 1
    };
    assert(steps * spacing <= size < (steps + 1) * spacing) by (nonlinear_arith)
        requires
            size == spacing * steps + size % spacing,
            0 <= size % spacing < spacing,
    ;
    assert(blocks * BLOCK_LEN == blocks * per_block * spacing) by (nonlinear_arith)
        requires
            spacing * per_block == BLOCK_LEN,
    ;
    assert((blocks - 1) * BLOCK_LEN == (blocks - 1) * per_block * spacing) by (nonlinear_arith)
        requires
            spacing * per_block == BLOCK_LEN,
    ;
    if rounded >= size {
        let before = (blocks - 1) * per_block;
        assert(before * spacing < t * spacing);
        assert(before * spacing <= t * spacing - spacing) by (nonlinear_arith)
            requires
                before * spacing < t * spacing,
                spacing > 0,
        ;
        assert((steps + 1) * spacing == steps * spacing + spacing) by (nonlinear_arith);
    } else {
        let after = blocks * per_block;
        assert(after * spacing > steps * spacing);
        assert(after * spacing >= (steps + 1) * spacing) by (nonlinear_arith)
            requires
                after * spacing > steps * spacing,
                spacing > 0,
        ;
    }
}

/// The pieces of the metadata are as many as it takes to hold it, and no more, unless single
/// precision rounds its size down to a whole number of pieces.
pub proof fn law_metadata_pieces_hold_the_metadata(size: u32)
    requires
        !(extension::nearest_single(size as int) < size && extension::nearest_single(size as int)
            % BLOCK_LEN as int == 0),
    ensures
        extension::pieces_for(size as int) * BLOCK_LEN >= size,
        (extension::pieces_for(size as int) - 1) * BLOCK_LEN < size,
{
    let spacing = extension::single_spacing(size as int);
    let per_block = BLOCK_LEN as int / spacing;
    lemma_rounded_blocks(
        size as int,
        spacing,
        per_block,
        extension::nearest_single(size as int),
    );
}

/// A change of one bit keeps the others, and the later of two changes of a bit counts.
pub proof fn law_bits_are_independent(
    bits: Seq<bool>,
    index: int,
    value: bool,
    other: int,
    later: bool,
)
    ensures
        bitfield::with_bit(bits, index, value).len() == bits.len(),
        0 <= index < bits.len() ==> bitfield::with_bit(bits, index, value)[index] == value,
        index != other && 0 <= other < bits.len() ==> bitfield::with_bit(bits, index, value)[other]
            == bits[other],
        bitfield::with_bit(bitfield::with_bit(bits, index, value), index, later)
            == bitfield::with_bit(bits, index, later),
{
    assert(bitfield::with_bit(bitfield::with_bit(bits, index, value), index, later)
        =~= bitfield::with_bit(bits, index, later));
}

} // verus!
