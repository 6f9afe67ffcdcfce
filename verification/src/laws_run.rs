//! What [`Peer::run`] does, event by event.
//!
//! Each law speaks of the call itself: of its arguments, before and after, and of its result.

use crate::bitfield::Bitfield;
use crate::blocks::{Block, BlockInfo};
use crate::disk::DiskMsg;
use crate::error::Error;
use crate::laws;
use crate::messages::{Handshake, Message};
use crate::peer::{Peer, PeerView};
use crate::session::{self, Abort, Action, Event, Halt, Step, Wait};
use crate::torrent::{self, TorrentMsg, TorrentState, TorrentView};
use vstd::prelude::*;

verus! {

// ---------------------------------------------------------------------------------------
// The opening

/// The value of a hexadecimal digit, or -1.
pub open spec fn nibble(c: char) -> int {
    let code = c as int;
    if 48 <= code <= 57 {
        code - 48
    } else if 97 <= code <= 102 {
        code - 87
    } else if 65 <= code <= 70 {
        code - 55
    } else {
        -1
    }
}

/// On connection the client writes 68 bytes: the length and the name of the protocol, eight bytes
/// of which only the bit for extensions is set, the hash that the magnet link spells in 40
/// hexadecimal digits, and its own id. With any other link it stops.
pub proof fn law_connection_sends_the_handshake(
    peer: &mut Peer,
    torrent: &mut TorrentState,
    result: Result<Step, Halt>,
)
    requires
        call_ensures(Peer::run, (peer, torrent, Wait::Start, Event::Connected), result),
        old(peer).torrent_ctx is Some,
        old(peer).torrent_ctx->0.magnet.xt is Some,
    ensures
        final(peer)@ == old(peer)@,
        final(torrent)@ == old(torrent)@,
        ({
            let xt = old(peer).torrent_ctx->0.magnet.xt->0@;
            let spelled = xt.len() == 40 && forall|i: int|
                0 <= i < 40 ==> nibble(#[trigger] xt[i]) >= 0;
            &&& !spelled ==> result == Err::<Step, Halt>(Halt::Abort(Abort::InvalidInfoHash))
            &&& spelled ==> {
                &&& result is Ok
                &&& result->Ok_0.actions@.len() == 1
                &&& result->Ok_0.actions@[0] matches Action::Write(bytes)
                &&& bytes@.len() == 68
                &&& bytes@[0] == 19
                &&& bytes@.subrange(1, 20) == seq![
                    66u8, 105, 116, 84, 111, 114, 114, 101, 110, 116, 32, 112, 114, 111, 116, 111,
                    99, 111, 108,
                ]
                &&& forall|i: int|
                    20 <= i < 28 ==> #[trigger] bytes@[i] == if i == 25 {
                        16int
                    } else {
                        0
                    }
                &&& forall|i: int|
                    0 <= i < 20 ==> #[trigger] bytes@.subrange(28, 48)[i] == 16 * nibble(xt[2 * i])
                        + nibble(xt[2 * i + 1])
                &&& bytes@.subrange(48, 68) == old(peer).tracker_ctx.peer_id@
                &&& result->Ok_0.wait matches Wait::Handshake(ours)
                &&& ours.info_hash@ == bytes@.subrange(28, 48)
            }
        }),
{
    let xt = old(peer).torrent_ctx->0.magnet.xt->0@;
    assert forall|c: char| #[trigger] crate::digest::hex_value(c) == (if nibble(c) >= 0 {
        Some(nibble(c))
    } else {
        None
    }) by {}
    if result is Ok {
        let ours = result->Ok_0.wait->Handshake_0;
        let wire = ours.wire();
        assert(wire.subrange(1, 20) =~= ours.pstr@);
        assert(wire.subrange(20, 28) =~= ours.reserved@);
        assert(wire.subrange(28, 48) =~= ours.info_hash@);
        assert(wire.subrange(48, 68) =~= ours.peer_id@);
        assert forall|i: int| 20 <= i < 28 implies #[trigger] wire[i] == if i == 25 {
            16int
        } else {
            0
        } by {
            assert(wire[i] == ours.reserved@[i - 20]);
        }
        assert forall|i: int| 0 <= i < 20 implies #[trigger] wire.subrange(28, 48)[i] == 16 * nibble(
            xt[2 * i],
        ) + nibble(xt[2 * i + 1]) by {
            assert(nibble(xt[2 * i]) >= 0 && nibble(xt[2 * i + 1]) >= 0);
        }
    }
}

/// The handshake of the peer is accepted exactly if it names the protocol and the torrent. The
/// client
/// then keeps the id in its last 20 bytes, and says that it is interested; before that it sends an
/// empty extended handshake, exactly if the bit 0x10 of byte 25 is set, whatever else is.
pub proof fn law_handshake_is_answered(
    peer: &mut Peer,
    torrent: &mut TorrentState,
    ours: Handshake,
    bytes: Vec<u8>,
    result: Result<Step, Halt>,
)
    requires
        call_ensures(
            Peer::run,
            (peer, torrent, Wait::Handshake(ours), Event::Handshake(bytes)),
            result,
        ),
        bytes@.len() == 68,
    ensures
        final(torrent)@ == old(torrent)@,
        ({
            let accepted = bytes@[0] == 19 && bytes@.subrange(1, 20) == seq![
                66u8, 105, 116, 84, 111, 114, 114, 101, 110, 116, 32, 112, 114, 111, 116, 111, 99,
                111, 108,
            ] && bytes@.subrange(28, 48) == ours.info_hash@;
            let actions = result->Ok_0.actions@;
            let extensible = (bytes@[25] as int / 16) % 2 == 1;
            &&& !accepted ==> final(peer)@ == old(peer)@ && result == Err::<Step, Halt>(
                Halt::Error(Error::HandshakeInvalid),
            )
            &&& accepted ==> {
                &&& final(peer).id is Some
                &&& final(peer).id->0@ == bytes@.subrange(48, 68)
                &&& final(peer)@ == (PeerView { id: final(peer).id, ..old(peer)@ })
                &&& result is Ok
                &&& result->Ok_0.wait == Wait::Interested
                &&& actions.len() == if extensible {
                    2int
                } else {
                    1
                }
                &&& actions[actions.len() - 1] == Action::Send(Message::Interested)
                &&& extensible ==> (actions[0] matches Action::Send(Message::Extended(extended))
                    && extended.0 == 0 && extended.1@.len() == 0)
            }
        }),
{
    let byte = bytes@[25];
    assert(((byte & (0x80u8 >> 3u8)) != 0) == ((byte / 16) % 2 == 1)) by (bit_vector);
}

/// Once the peer was told of the interest, the client is interested, and tells the peer that it is
/// not choked.
pub proof fn law_interest_is_followed_by_unchoking(
    peer: &mut Peer,
    torrent: &mut TorrentState,
    result: Result<Step, Halt>,
)
    requires
        call_ensures(Peer::run, (peer, torrent, Wait::Interested, Event::Sent), result),
    ensures
        final(peer)@ == (PeerView { am_interested: true, ..old(peer)@ }),
        final(torrent)@ == old(torrent)@,
        result is Ok,
        result->Ok_0.actions@ == seq![Action::Send(Message::Unchoke)],
        result->Ok_0.wait == Wait::Unchoke,
{
}

/// Once the peer was told that it is not choked, it is not, and the client listens.
pub proof fn law_unchoking_is_followed_by_listening(
    peer: &mut Peer,
    torrent: &mut TorrentState,
    result: Result<Step, Halt>,
)
    requires
        call_ensures(Peer::run, (peer, torrent, Wait::Unchoke, Event::Sent), result),
    ensures
        final(peer)@ == (PeerView { am_choking: false, ..old(peer)@ }),
        final(torrent)@ == old(torrent)@,
        result is Ok,
        result->Ok_0.actions@.len() == 0,
        result->Ok_0.wait == Wait::Message,
{
}

// ---------------------------------------------------------------------------------------
// The timers

/// A keep-alive is sent when the last one was two minutes ago or more, and not before.
pub proof fn law_keep_alive_is_sent_when_due(
    peer: &mut Peer,
    torrent: &mut TorrentState,
    elapsed: u64,
    result: Result<Step, Halt>,
)
    requires
        call_ensures(
            Peer::run,
            (peer, torrent, Wait::Message, Event::KeepAliveTick(elapsed)),
            result,
        ),
    ensures
        final(peer)@ == old(peer)@,
        final(torrent)@ == old(torrent)@,
        result is Ok,
        result->Ok_0.wait == Wait::Message,
        elapsed < 120 ==> result->Ok_0.actions@.len() == 0,
        elapsed >= 120 ==> result->Ok_0.actions@ == seq![
            Action::RestartKeepAlive,
            Action::Send(Message::KeepAlive),
        ],
{
}

/// When the request timer fires, whatever the flags of the peer, the blocks that were requested and
/// not downloaded are requested again, in order, while fewer blocks were downloaded than the
/// torrent has; else nothing is sent.
pub proof fn law_request_timer_repeats_the_missing(
    peer: &mut Peer,
    torrent: &mut TorrentState,
    result: Result<Step, Halt>,
)
    requires
        call_ensures(Peer::run, (peer, torrent, Wait::Message, Event::RequestTick), result),
    ensures
        final(peer)@ == old(peer)@,
        final(torrent)@ == old(torrent)@,
        result is Ok,
        result->Ok_0.wait == Wait::Message,
        ({
            let requested = old(torrent).requested_blocks@;
            let downloaded = old(torrent).downloaded_blocks@;
            let actions = result->Ok_0.actions@;
            let done = downloaded.len() as int % 0x1_0000_0000;
            let length = old(torrent).info.piece_length as int;
            let total = (old(torrent).info.pieces@.len() as int / 20) * ((length + 16383) / 16384);
            let complete = done >= total || done >= 0xffff_ffff;
            &&& complete ==> actions.len() == 0
            &&& !complete ==> actions == requested.filter(
                |block: BlockInfo| !downloaded.contains(block),
            ).map_values(|block: BlockInfo| Action::TrySend(Message::Request(block)))
            &&& !complete ==> forall|block: BlockInfo|
                #[trigger] actions.contains(Action::TrySend(Message::Request(block)))
                    <==> requested.contains(block) && !downloaded.contains(block)
        }),
{
    let view = old(torrent)@;
    if crate::blocks::low_32(view.downloaded_blocks.len() as int) < view.info.block_count() {
        assert forall|block: BlockInfo|
            #[trigger] result->Ok_0.actions@.contains(Action::TrySend(Message::Request(block)))
                <==> view.requested_blocks.contains(block) && !view.downloaded_blocks.contains(
                block,
            ) by {
            laws::law_missing_blocks_are_requested_again(view, block);
        }
    }
}

// ---------------------------------------------------------------------------------------
// Asking for blocks

/// No block that was requested begins at `begin` in `piece`.
pub open spec fn never_requested(requested: Seq<BlockInfo>, piece: int, begin: int) -> bool {
    forall|j: int|
        0 <= j < requested.len() ==> !((#[trigger] requested[j]).index == piece
            && requested[j].begin == begin)
}

/// The peer has the piece, the torrent has not, and some block of it was never requested, or there
/// is no info yet to tell its blocks by.
pub open spec fn can_ask(pieces: Seq<bool>, torrent: TorrentState, piece: int) -> bool {
    &&& 0 <= piece < pieces.len()
    &&& pieces[piece]
    &&& piece < torrent.pieces@.len() ==> !torrent.pieces@[piece]
    &&& torrent.info.piece_length == 0 || exists|begin: int|
        0 <= begin < torrent.info.piece_length && begin % 16384 == 0
            && #[trigger] never_requested(torrent.requested_blocks@, piece, begin)
}

/// The disk is asked for five blocks of the first piece that can be asked for, and waited for; if
/// there is none, nothing is asked.
pub open spec fn asks_for_the_first(
    pieces: Seq<bool>,
    torrent: TorrentState,
    actions: Seq<Action>,
    wait: Wait,
) -> bool {
    &&& forall|piece: usize|
        #[trigger] can_ask(pieces, torrent, piece as int) && (forall|q: int|
            0 <= q < piece ==> !can_ask(pieces, torrent, q)) ==> actions == seq![
            Action::Disk(DiskMsg::RequestBlocks { count: 5, piece }),
        ] && wait == Wait::Blocks(piece)
    &&& (forall|q: int| !can_ask(pieces, torrent, q)) ==> actions.len() == 0 && wait
        == Wait::Message
}

/// A piece is fully requested if no multiple of 16 KiB in it was left out.
pub proof fn lemma_fully_requested(torrent: TorrentState, i: int)
    ensures
        torrent@.fully_requested(i) == (torrent.info.piece_length > 0 && !(exists|begin: int|
            0 <= begin < torrent.info.piece_length && begin % 16384 == 0
                && #[trigger] never_requested(torrent.requested_blocks@, i, begin))),
{
    let requested = torrent.requested_blocks@;
    let length = torrent.info.piece_length;
    if torrent@.fully_requested(i) {
        assert forall|begin: int| 0 <= begin < length && begin % 16384 == 0 implies
            !#[trigger] never_requested(requested, i, begin) by {
            let k = begin / 16384;
            assert(0 <= k < torrent@.info.blocks_per_piece());
            assert(torrent::block_requested(torrent@.requested_blocks, i, k));
        }
    } else if length > 0 {
        let k = choose|k: int|
            0 <= k < torrent@.info.blocks_per_piece() && !#[trigger] torrent::block_requested(
                requested,
                i,
                k,
            );
        assert(never_requested(requested, i, k * 16384));
    }
}

proof fn lemma_can_ask(pieces: Seq<bool>, torrent: TorrentState, i: int)
    ensures
        can_ask(pieces, torrent, i) == session::open_piece(pieces, torrent@, i),
{
    lemma_fully_requested(torrent, i);
}

/// The question that is put is the one for the first piece.
pub proof fn lemma_asks_for_the_first(pieces: Seq<bool>, peer: PeerView, torrent: TorrentState)
    requires
        peer.pieces == pieces,
        pieces.len() <= usize::MAX,
    ensures
        asks_for_the_first(
            pieces,
            torrent,
            session::ask_for_blocks(peer, torrent@),
            session::wait_for_blocks(peer, torrent@),
        ),
{
    assert forall|i: int| #[trigger] can_ask(pieces, torrent, i) == session::open_piece(
        pieces,
        torrent@,
        i,
    ) by {
        lemma_can_ask(pieces, torrent, i);
    }
    laws::law_next_piece_is_the_first_missing(pieces, torrent@);
    if let Some(next) = session::next_piece(pieces, torrent@) {
        assert(can_ask(pieces, torrent, next as int));
        assert forall|q: int| 0 <= q < next implies !can_ask(pieces, torrent, q) by {
            assert(!session::wanted(pieces, torrent@.pieces, q) || torrent@.fully_requested(q));
        }
        assert forall|piece: usize|
            can_ask(pieces, torrent, piece as int) && (forall|q: int|
                0 <= q < piece ==> !can_ask(pieces, torrent, q)) implies piece == next by {
            if next < piece {
                assert(!can_ask(pieces, torrent, next as int));
            }
        }
    } else {
        assert forall|q: int| !can_ask(pieces, torrent, q) by {
            assert(q < 0 || !session::wanted(pieces, torrent@.pieces, q)
                || torrent@.fully_requested(q));
        }
    }
}

/// Asking for the next piece is asking the disk for five blocks of the first piece that the peer
/// has, that the torrent has not, and of which some block was never requested; without such a
/// piece, nothing is asked.
pub proof fn law_first_piece_is_asked_for(peer: Peer, torrent: TorrentState, step: Step)
    requires
        call_ensures(Peer::request_next_piece, (&peer, &torrent), step),
        peer.pieces@.len() <= usize::MAX,
    ensures
        asks_for_the_first(peer.pieces@, torrent, step.actions@, step.wait),
{
    lemma_asks_for_the_first(peer.pieces@, peer@, torrent);
}

/// An unchoke is noted, and starts the download if the client is interested, whether the peer was
/// choking before or not.
pub proof fn law_unchoke_starts_the_download(
    peer: &mut Peer,
    torrent: &mut TorrentState,
    result: Result<Step, Halt>,
)
    requires
        call_ensures(
            Peer::run,
            (peer, torrent, Wait::Message, Event::Message(Message::Unchoke)),
            result,
        ),
        old(peer).pieces@.len() <= usize::MAX,
    ensures
        final(peer)@ == (PeerView { peer_choking: false, ..old(peer)@ }),
        final(torrent)@ == old(torrent)@,
        result is Ok,
        old(peer).am_interested ==> asks_for_the_first(
            old(peer).pieces@,
            *final(torrent),
            result->Ok_0.actions@,
            result->Ok_0.wait,
        ),
        !old(peer).am_interested ==> result->Ok_0.actions@.len() == 0 && result->Ok_0.wait
            == Wait::Message,
{
    lemma_asks_for_the_first(old(peer).pieces@, old(peer)@, *final(torrent));
}

/// Of the blocks that the disk hands out, those of the piece that was asked for are requested, in
/// order, while the peer has the piece and the torrent has not; else none is.
pub proof fn law_handed_out_blocks_are_requested(
    peer: &mut Peer,
    torrent: &mut TorrentState,
    piece: usize,
    blocks: Vec<BlockInfo>,
    result: Result<Step, Halt>,
)
    requires
        call_ensures(
            Peer::run,
            (peer, torrent, Wait::Blocks(piece), Event::Blocks(blocks)),
            result,
        ),
    ensures
        final(peer)@ == old(peer)@,
        final(torrent)@ == old(torrent)@,
        result is Ok,
        result->Ok_0.wait == Wait::Message,
        ({
            let theirs = old(peer).pieces@;
            let ours = old(torrent).pieces@;
            let wanted = piece < theirs.len() && theirs[piece as int] && (piece < ours.len()
                ==> !ours[piece as int]);
            let actions = result->Ok_0.actions@;
            &&& !wanted ==> actions.len() == 0
            &&& wanted ==> actions == blocks@.filter(
                |block: BlockInfo| block.index == piece,
            ).map_values(|block: BlockInfo| Action::Send(Message::Request(block)))
        }),
{
}

// ---------------------------------------------------------------------------------------
// Messages

/// A keep-alive changes nothing.
pub proof fn law_keep_alive_changes_nothing(
    peer: &mut Peer,
    torrent: &mut TorrentState,
    result: Result<Step, Halt>,
)
    requires
        call_ensures(
            Peer::run,
            (peer, torrent, Wait::Message, Event::Message(Message::KeepAlive)),
            result,
        ),
    ensures
        final(peer)@ == old(peer)@,
        final(torrent)@ == old(torrent)@,
        result is Ok,
        result->Ok_0.actions@.len() == 0,
        result->Ok_0.wait == Wait::Message,
{
}

/// A cancel changes nothing.
pub proof fn law_cancel_changes_nothing(
    peer: &mut Peer,
    torrent: &mut TorrentState,
    block: BlockInfo,
    result: Result<Step, Halt>,
)
    requires
        call_ensures(
            Peer::run,
            (peer, torrent, Wait::Message, Event::Message(Message::Cancel(block))),
            result,
        ),
    ensures
        final(peer)@ == old(peer)@,
        final(torrent)@ == old(torrent)@,
        result is Ok,
        result->Ok_0.actions@.len() == 0,
        result->Ok_0.wait == Wait::Message,
{
}

/// A choke is noted.
pub proof fn law_choke_is_noted(
    peer: &mut Peer,
    torrent: &mut TorrentState,
    result: Result<Step, Halt>,
)
    requires
        call_ensures(
            Peer::run,
            (peer, torrent, Wait::Message, Event::Message(Message::Choke)),
            result,
        ),
    ensures
        final(peer)@ == (PeerView { peer_choking: true, ..old(peer)@ }),
        final(torrent)@ == old(torrent)@,
        result is Ok,
        result->Ok_0.actions@.len() == 0,
        result->Ok_0.wait == Wait::Message,
{
}

/// Interest is noted.
pub proof fn law_interest_is_noted(
    peer: &mut Peer,
    torrent: &mut TorrentState,
    result: Result<Step, Halt>,
)
    requires
        call_ensures(
            Peer::run,
            (peer, torrent, Wait::Message, Event::Message(Message::Interested)),
            result,
        ),
    ensures
        final(peer)@ == (PeerView { peer_interested: true, ..old(peer)@ }),
        final(torrent)@ == old(torrent)@,
        result is Ok,
        result->Ok_0.actions@.len() == 0,
        result->Ok_0.wait == Wait::Message,
{
}

/// The end of interest is noted.
pub proof fn law_end_of_interest_is_noted(
    peer: &mut Peer,
    torrent: &mut TorrentState,
    result: Result<Step, Halt>,
)
    requires
        call_ensures(
            Peer::run,
            (peer, torrent, Wait::Message, Event::Message(Message::NotInterested)),
            result,
        ),
    ensures
        final(peer)@ == (PeerView { peer_interested: false, ..old(peer)@ }),
        final(torrent)@ == old(torrent)@,
        result is Ok,
        result->Ok_0.actions@.len() == 0,
        result->Ok_0.wait == Wait::Message,
{
}

/// A bitfield becomes that of the peer, and the torrent is told how many bytes it has.
pub proof fn law_bitfield_is_taken(
    peer: &mut Peer,
    torrent: &mut TorrentState,
    pieces: Bitfield,
    result: Result<Step, Halt>,
)
    requires
        call_ensures(
            Peer::run,
            (peer, torrent, Wait::Message, Event::Message(Message::Bitfield(pieces))),
            result,
        ),
        pieces@.len() <= usize::MAX,
    ensures
        final(peer)@ == (PeerView { pieces: pieces@, ..old(peer)@ }),
        final(torrent)@ == old(torrent)@,
        result is Ok,
        result->Ok_0.actions@.len() == 1,
        result->Ok_0.actions@[0] matches Action::Torrent(TorrentMsg::UpdateBitfield(bytes))
            && bytes == pieces@.len() / 8,
        result->Ok_0.wait == Wait::Message,
{
}

/// A have adds its piece to those of the peer, if the bitfield has a place for it, and no other.
pub proof fn law_have_adds_its_piece(
    peer: &mut Peer,
    torrent: &mut TorrentState,
    piece: usize,
    result: Result<Step, Halt>,
)
    requires
        call_ensures(
            Peer::run,
            (peer, torrent, Wait::Message, Event::Message(Message::Have(piece))),
            result,
        ),
    ensures
        final(peer)@ == (PeerView { pieces: final(peer).pieces@, ..old(peer)@ }),
        final(peer).pieces@.len() == old(peer).pieces@.len(),
        forall|i: int|
            0 <= i < old(peer).pieces@.len() ==> #[trigger] final(peer).pieces@[i] == (i == piece
                || old(peer).pieces@[i]),
        final(torrent)@ == old(torrent)@,
        result is Ok,
        result->Ok_0.actions@.len() == 0,
        result->Ok_0.wait == Wait::Message,
{
}

/// A request is handed to the disk, which is waited for.
pub proof fn law_request_goes_to_the_disk(
    peer: &mut Peer,
    torrent: &mut TorrentState,
    block: BlockInfo,
    result: Result<Step, Halt>,
)
    requires
        call_ensures(
            Peer::run,
            (peer, torrent, Wait::Message, Event::Message(Message::Request(block))),
            result,
        ),
    ensures
        final(peer)@ == old(peer)@,
        final(torrent)@ == old(torrent)@,
        result is Ok,
        result->Ok_0.actions@ == seq![Action::Disk(DiskMsg::ReadBlock(block))],
        result->Ok_0.wait == Wait::Read(block),
{
}

/// The bytes that the disk read are sent as the block that was requested; if it read none, nothing
/// is
/// sent.
pub proof fn law_read_block_is_sent(
    peer: &mut Peer,
    torrent: &mut TorrentState,
    place: BlockInfo,
    read: Option<Vec<u8>>,
    result: Result<Step, Halt>,
)
    requires
        call_ensures(Peer::run, (peer, torrent, Wait::Read(place), Event::Read(read)), result),
    ensures
        final(peer)@ == old(peer)@,
        final(torrent)@ == old(torrent)@,
        result is Ok,
        result->Ok_0.wait == Wait::Message,
        read is None ==> result->Ok_0.actions@.len() == 0,
        read is Some ==> {
            &&& result->Ok_0.actions@.len() == 1
            &&& result->Ok_0.actions@[0] matches Action::TrySend(Message::Piece(block))
            &&& block.index == place.index
            &&& block.begin == place.begin
            &&& block.block@ == read->0@
        },
{
}

// ---------------------------------------------------------------------------------------
// Blocks

/// A block of more than 16 KiB is dropped: the torrent counts its piece as missing, keeps all else,
/// and the next blocks are asked for.
pub proof fn law_too_long_block_is_dropped(
    peer: &mut Peer,
    torrent: &mut TorrentState,
    block: Block,
    result: Result<Step, Halt>,
)
    requires
        call_ensures(
            Peer::run,
            (peer, torrent, Wait::Message, Event::Message(Message::Piece(block))),
            result,
        ),
        old(peer).pieces@.len() <= usize::MAX,
        block.block@.len() > 16384,
    ensures
        final(peer)@ == old(peer)@,
        final(torrent)@ == (TorrentView { pieces: final(torrent).pieces@, ..old(torrent)@ }),
        final(torrent).pieces@.len() == old(torrent).pieces@.len(),
        forall|i: int|
            0 <= i < old(torrent).pieces@.len() ==> #[trigger] final(torrent).pieces@[i] == (i
                != block.index && old(torrent).pieces@[i]),
        result is Ok,
        asks_for_the_first(
            old(peer).pieces@,
            *final(torrent),
            result->Ok_0.actions@,
            result->Ok_0.wait,
        ),
{
    lemma_asks_for_the_first(old(peer).pieces@, old(peer)@, *final(torrent));
}

/// A block of at most 16 KiB that does not reach the end of its piece is written.
pub proof fn law_inner_block_is_written(
    peer: &mut Peer,
    torrent: &mut TorrentState,
    block: Block,
    result: Result<Step, Halt>,
)
    requires
        call_ensures(
            Peer::run,
            (peer, torrent, Wait::Message, Event::Message(Message::Piece(block))),
            result,
        ),
        block.block@.len() <= 16384,
        block.begin + block.block@.len() < old(torrent).info.piece_length,
    ensures
        final(peer)@ == old(peer)@,
        final(torrent)@ == old(torrent)@,
        result is Ok,
        result->Ok_0.actions@ == seq![Action::Disk(DiskMsg::WriteBlock(block))],
        result->Ok_0.wait matches Wait::Write(place) && place.index == block.index as int % 0x1_0000_0000
            && place.begin == block.begin && place.len == block.block@.len(),
{
}

/// A block of at most 16 KiB that reaches the end of its piece has the piece checked.
pub proof fn law_last_block_has_its_piece_checked(
    peer: &mut Peer,
    torrent: &mut TorrentState,
    block: Block,
    result: Result<Step, Halt>,
)
    requires
        call_ensures(
            Peer::run,
            (peer, torrent, Wait::Message, Event::Message(Message::Piece(block))),
            result,
        ),
        block.block@.len() <= 16384,
        block.begin + block.block@.len() >= old(torrent).info.piece_length,
    ensures
        final(peer)@ == old(peer)@,
        final(torrent)@ == old(torrent)@,
        result is Ok,
        result->Ok_0.actions@ == seq![Action::Disk(DiskMsg::ValidatePiece(block.index))],
        result->Ok_0.wait == Wait::Validation(block),
{
}

/// After the check the block is written, and the torrent has the piece if it was valid.
pub proof fn law_checked_block_is_written(
    peer: &mut Peer,
    torrent: &mut TorrentState,
    block: Block,
    valid: bool,
    result: Result<Step, Halt>,
)
    requires
        call_ensures(
            Peer::run,
            (peer, torrent, Wait::Validation(block), Event::Validated(valid)),
            result,
        ),
    ensures
        final(peer)@ == old(peer)@,
        final(torrent)@ == (TorrentView { pieces: final(torrent).pieces@, ..old(torrent)@ }),
        final(torrent).pieces@.len() == old(torrent).pieces@.len(),
        forall|i: int|
            0 <= i < old(torrent).pieces@.len() ==> #[trigger] final(torrent).pieces@[i] == ((valid
                && i == block.index) || old(torrent).pieces@[i]),
        result is Ok,
        result->Ok_0.actions@ == seq![Action::Disk(DiskMsg::WriteBlock(block))],
        result->Ok_0.wait matches Wait::Write(place) && place.index == block.index as int % 0x1_0000_0000
            && place.begin == block.begin && place.len == block.block@.len() as int
            % 0x1_0000_0000,
{
}

/// A block that was written counts as downloaded, the latest first and each once; one that was not
/// written does not. Then the next blocks are asked for.
pub proof fn law_written_block_counts(
    peer: &mut Peer,
    torrent: &mut TorrentState,
    place: BlockInfo,
    written: bool,
    result: Result<Step, Halt>,
)
    requires
        call_ensures(
            Peer::run,
            (peer, torrent, Wait::Write(place), Event::Written(written)),
            result,
        ),
        old(peer).pieces@.len() <= usize::MAX,
    ensures
        final(peer)@ == old(peer)@,
        final(torrent)@ == (TorrentView {
            downloaded_blocks: final(torrent).downloaded_blocks@,
            ..old(torrent)@
        }),
        ({
            let before = old(torrent).downloaded_blocks@;
            let after = final(torrent).downloaded_blocks@;
            &&& !written || before.contains(place) ==> after == before
            &&& written && !before.contains(place) ==> after == seq![place] + before
        }),
        result is Ok,
        asks_for_the_first(
            old(peer).pieces@,
            *final(torrent),
            result->Ok_0.actions@,
            result->Ok_0.wait,
        ),
{
    lemma_asks_for_the_first(old(peer).pieces@, old(peer)@, *final(torrent));
}

/// An inner block of at most 16 KiB goes to the disk, and counts as downloaded once it is written.
pub proof fn law_inner_block_counts_once_written(
    peer: &mut Peer,
    torrent: &mut TorrentState,
    block: Block,
    receipt: Result<Step, Halt>,
    later_peer: &mut Peer,
    later_torrent: &mut TorrentState,
    result: Result<Step, Halt>,
)
    requires
        block.block@.len() <= 16384,
        block.begin + block.block@.len() < old(torrent).info.piece_length,
        call_ensures(
            Peer::run,
            (peer, torrent, Wait::Message, Event::Message(Message::Piece(block))),
            receipt,
        ),
        call_ensures(
            Peer::run,
            (later_peer, later_torrent, receipt->Ok_0.wait, Event::Written(true)),
            result,
        ),
    ensures
        receipt is Ok,
        receipt->Ok_0.actions@ == seq![Action::Disk(DiskMsg::WriteBlock(block))],
        exists|i: int|
            0 <= i < final(later_torrent).downloaded_blocks@.len() && {
                let place = #[trigger] final(later_torrent).downloaded_blocks@[i];
                place.index == block.index as int % 0x1_0000_0000 && place.begin == block.begin
                    && place.len == block.block@.len()
            },
{
    let place = receipt->Ok_0.wait->Write_0;
    let before = old(later_torrent).downloaded_blocks@;
    let after = final(later_torrent).downloaded_blocks@;
    if before.contains(place) {
        let i = choose|i: int| 0 <= i < before.len() && before[i] == place;
        assert(after[i] == place);
    } else {
        assert(after[0] == place);
    }
}

// ---------------------------------------------------------------------------------------
// What is taken, and what is not awaited

/// An event that is not awaited changes nothing, and the wait goes on.
pub proof fn law_unawaited_event_changes_nothing(
    peer: &mut Peer,
    torrent: &mut TorrentState,
    wait: Wait,
    event: Event,
    result: Result<Step, Halt>,
)
    requires
        call_ensures(Peer::run, (peer, torrent, wait, event), result),
        !(wait is Start && event is Connected),
        !(wait is Handshake && event is Handshake),
        !(wait is Interested && event is Sent),
        !(wait is Unchoke && event is Sent),
        !(wait is Metadata && event is Sent),
        !(wait is Message && (event is KeepAliveTick || event is RequestTick || event is Message)),
        !(wait is Blocks && event is Blocks),
        !(wait is Validation && event is Validated),
        !(wait is Write && event is Written),
        !(wait is Read && event is Read),
    ensures
        final(peer)@ == old(peer)@,
        final(torrent)@ == old(torrent)@,
        result is Ok,
        result->Ok_0.actions@.len() == 0,
        result->Ok_0.wait == wait,
{
}

/// Any event can be handed to a peer of a torrent with a hash, except for a handshake that has not
/// 68 bytes, a block of at most 16 KiB that ends beyond 32 bits, and what needs the disk while
/// there
/// is none.
pub proof fn law_events_are_taken(
    peer: &mut Peer,
    torrent: &mut TorrentState,
    wait: Wait,
    event: Event,
)
    requires
        old(peer).torrent_ctx is Some,
        old(peer).torrent_ctx->0.magnet.xt is Some,
        wait is Handshake && event is Handshake ==> event->Handshake_0@.len() == 68,
        wait is Message ==> (event matches Event::Message(Message::Piece(block))
            ==> block.block@.len() > 16384 || block.begin + block.block@.len() <= 0xffff_ffff),
        !old(peer).has_disk ==> {
            &&& !(wait is Validation && event is Validated)
            &&& !(wait is Write && event is Written)
            &&& wait is Message && event is Message ==> !(event->Message_0 is Piece)
                && !(event->Message_0 is Request) && !(event->Message_0 is Unchoke
                && old(peer).am_interested)
        },
    ensures
        call_requires(Peer::run, (peer, torrent, wait, event)),
{
}

/// The views of a peer and of a torrent show their fields.
pub proof fn law_views_show_the_fields(peer: Peer, torrent: TorrentState)
    ensures
        peer@.am_choking == peer.am_choking,
        peer@.am_interested == peer.am_interested,
        peer@.peer_choking == peer.peer_choking,
        peer@.peer_interested == peer.peer_interested,
        peer@.pieces == peer.pieces@,
        peer@.addr == peer.addr,
        peer@.extension == peer.extension,
        peer@.id == peer.id,
        peer@.torrent_ctx == peer.torrent_ctx,
        peer@.own_id == peer.tracker_ctx.peer_id@,
        peer@.has_disk == peer.has_disk,
        torrent@.pieces == torrent.pieces@,
        torrent@.requested_blocks == torrent.requested_blocks@,
        torrent@.downloaded_blocks == torrent.downloaded_blocks@,
        torrent@.info.piece_length == torrent.info.piece_length,
        torrent@.info.pieces == torrent.info.pieces@,
        torrent@.info.bytes == torrent.info.bytes@,
        torrent@.info_dict.dom() == torrent.info_dict@.dom(),
        forall|k: u32|
            torrent.info_dict@.contains_key(k) ==> #[trigger] torrent@.info_dict[k]
                == torrent.info_dict@[k]@,
{
}

} // verus!
