use std::sync::Arc;
use torrent_peer::bitfield::Bitfield;
use torrent_peer::blocks::{Block, BlockInfo, BLOCK_LEN};
use torrent_peer::disk::DiskMsg;
use torrent_peer::error::Error;
use torrent_peer::extension::{Extension, M};
use torrent_peer::magnet::{get_info_hash, Magnet};
use torrent_peer::messages::{Handshake, Message};
use torrent_peer::metainfo::Info;
use torrent_peer::peer::{Peer, PeerAddr, PeerIp};
use torrent_peer::session::{Abort, Action, Event, Halt, Step, Wait};
use torrent_peer::torrent::{TorrentCtx, TorrentMsg, TorrentState};
use torrent_peer::tracker::TrackerCtx;

const INFO: &[u8] = b"d6:lengthi20000e4:name4:file12:piece lengthi16384e6:pieces40:\
AAAAAAAAAAAAAAAAAAAABBBBBBBBBBBBBBBBBBBBe";
const INFO_HASH: &str = "388e2aa647d64c9d2f0fc4b2d887ac91fc1bf638";

fn ctx() -> Arc<TorrentCtx> {
    Arc::new(TorrentCtx { magnet: Magnet { xt: Some(INFO_HASH.to_string()) } })
}

fn joined_peer() -> Peer {
    let mut peer = Peer::new(ctx());
    peer.has_disk = true;
    peer.tracker_ctx = Arc::new(TrackerCtx { peer_id: [7; 20] });
    peer
}

fn receive(peer: &mut Peer, torrent: &mut TorrentState, message: Message) -> Step {
    peer.run(torrent, Wait::Message, Event::Message(message)).unwrap()
}

fn idle() -> Step {
    Step { actions: vec![], wait: Wait::Message }
}

fn ask(piece: usize) -> Action {
    Action::Disk(DiskMsg::RequestBlocks { count: 5, piece })
}

fn block_info(index: u32) -> BlockInfo {
    BlockInfo { index, begin: 0, len: BLOCK_LEN }
}

fn torrent_of(pieces: Vec<u8>, piece_length: u32) -> TorrentState {
    let mut torrent = TorrentState::default();
    torrent.pieces = Bitfield::from(pieces);
    torrent.info = Info { piece_length, pieces: vec![0; 160], bytes: vec![] };
    torrent
}

#[test]
fn can_get_requested_blocks_but_not_downloaded() {
    let requested = vec![0, 1, 2, 3, 4, 5, 6];
    let downloaded = [0, 1, 2, 3];

    let mut torrent = TorrentState::default();
    torrent.requested_blocks = requested.iter().map(|index| block_info(*index)).collect();
    torrent.downloaded_blocks = downloaded.iter().map(|index| block_info(*index)).collect();
    let missing: Vec<u32> = torrent.missing_blocks().iter().map(|block| block.index).collect();

    assert_eq!(missing, vec![4, 5, 6]);
}

#[test]
fn validate_block() {
    // requested pieces from torrent
    let rp = Bitfield::from(vec![0b1000_0000]);
    // block received from Piece
    let block = Block {
        index: 0,
        block: vec![0u8; BLOCK_LEN as usize],
        begin: 0,
    };
    let was_requested = rp.find(|b| b.index == block.index);

    // check if we requested this block
    assert!(was_requested.is_some());

    if was_requested.is_some() {
        // check if the block is 16 <= KiB
        assert!(block.is_valid());
    }
}

// building peers

#[test]
fn a_new_peer_chokes_and_is_choked() {
    let peer = Peer::default();
    assert!(peer.am_choking);
    assert!(!peer.am_interested);
    assert!(peer.peer_choking);
    assert!(!peer.peer_interested);
    assert_eq!(peer.pieces.len(), 0);
    assert_eq!(peer.addr, PeerAddr { ip: PeerIp::V4([0, 0, 0, 0]), port: 0 });
    assert_eq!(peer.extension, Extension::default());
    assert_eq!(peer.id, None);
    assert!(peer.torrent_ctx.is_none());
    assert_eq!(*peer.tracker_ctx, TrackerCtx::default());
    assert!(!peer.has_disk);
}

#[test]
fn a_peer_is_made_from_its_address() {
    let addr = PeerAddr { ip: PeerIp::V4([10, 0, 0, 1]), port: 6881 };
    let peer = Peer::from(addr);
    assert_eq!(peer.addr, addr);
    assert!(peer.am_choking && peer.torrent_ctx.is_none());
}

#[test]
fn builders_change_one_thing() {
    let addr = PeerAddr { ip: PeerIp::V6 { octets: [1; 16], flowinfo: 2, scope_id: 3 }, port: 4 };
    let shared = ctx();
    let peer = Peer::default().addr(addr).torrent_ctx(shared.clone()).id([5; 20]);
    assert_eq!(peer.addr, addr);
    assert!(Arc::ptr_eq(peer.torrent_ctx.as_ref().unwrap(), &shared));
    assert_eq!(peer.id, Some([5; 20]));
    let copy = peer.clone();
    assert_eq!(copy.addr, addr);
    assert_eq!(copy.id, peer.id);
    assert!(Arc::ptr_eq(copy.torrent_ctx.as_ref().unwrap(), &shared));
}

// the opening

#[test]
fn the_client_sends_its_handshake_first() {
    let mut peer = joined_peer();
    let mut torrent = TorrentState::default();
    let step = peer.run(&mut torrent, Wait::Start, Event::Connected).unwrap();
    let ours = Handshake::new(get_info_hash(INFO_HASH).unwrap(), [7; 20]);
    assert_eq!(step.actions, vec![Action::Write(ours.serialize())]);
    assert_eq!(step.wait, Wait::Handshake(ours));
}

#[test]
fn a_magnet_link_without_hash_stops_the_client() {
    let magnet = Magnet { xt: Some("not a hash".to_string()) };
    let mut peer = Peer::new(Arc::new(TorrentCtx { magnet }));
    let mut torrent = TorrentState::default();
    let result = peer.run(&mut torrent, Wait::Start, Event::Connected);
    assert!(matches!(result, Err(Halt::Abort(Abort::InvalidInfoHash))));
}

#[test]
fn the_opening_ends_interested_and_unchoking() {
    let mut peer = joined_peer();
    let mut torrent = TorrentState::default();
    let ours = Handshake::new([1; 20], [7; 20]);
    let theirs = Handshake::new([1; 20], [9; 20]);
    let step = peer
        .run(&mut torrent, Wait::Handshake(ours), Event::Handshake(theirs.serialize()))
        .unwrap();
    assert_eq!(peer.id, Some([9; 20]));
    assert!(!peer.am_interested);
    assert_eq!(
        step.actions,
        vec![Action::Send(Message::Extended((0, vec![]))), Action::Send(Message::Interested)]
    );
    let step = peer.run(&mut torrent, step.wait, Event::Sent).unwrap();
    assert!(peer.am_interested && peer.am_choking);
    assert_eq!(step.actions, vec![Action::Send(Message::Unchoke)]);
    let step = peer.run(&mut torrent, step.wait, Event::Sent).unwrap();
    assert!(peer.am_interested && !peer.am_choking);
    assert_eq!(step, idle());
}

#[test]
fn a_peer_without_extensions_gets_no_extended_handshake() {
    let mut peer = joined_peer();
    let mut torrent = TorrentState::default();
    let ours = Handshake::new([1; 20], [7; 20]);
    let mut theirs = Handshake::new([1; 20], [9; 20]);
    theirs.reserved = [0; 8];
    let step = peer
        .run(&mut torrent, Wait::Handshake(ours), Event::Handshake(theirs.serialize()))
        .unwrap();
    assert_eq!(step.actions, vec![Action::Send(Message::Interested)]);
}

#[test]
fn a_handshake_for_another_torrent_is_refused() {
    let mut peer = joined_peer();
    let mut torrent = TorrentState::default();
    let ours = Handshake::new([1; 20], [7; 20]);
    let theirs = Handshake::new([2; 20], [9; 20]);
    let result =
        peer.run(&mut torrent, Wait::Handshake(ours), Event::Handshake(theirs.serialize()));
    assert!(matches!(result, Err(Halt::Error(Error::HandshakeInvalid))));
    assert_eq!(peer.id, None);
}

// timers

#[test]
fn a_keep_alive_is_sent_every_two_minutes() {
    let mut peer = joined_peer();
    let mut torrent = TorrentState::default();
    let early = peer.run(&mut torrent, Wait::Message, Event::KeepAliveTick(119)).unwrap();
    assert_eq!(early, idle());
    let due = peer.run(&mut torrent, Wait::Message, Event::KeepAliveTick(120)).unwrap();
    assert_eq!(due.actions, vec![Action::RestartKeepAlive, Action::Send(Message::KeepAlive)]);
}

#[test]
fn missing_blocks_are_requested_again() {
    let mut peer = joined_peer();
    let mut torrent = torrent_of(vec![0], 16384);
    torrent.requested_blocks = [0, 1, 2].iter().map(|index| block_info(*index)).collect();
    torrent.downloaded_blocks = [1].iter().map(|index| block_info(*index)).collect();
    let step = peer.run(&mut torrent, Wait::Message, Event::RequestTick).unwrap();
    assert_eq!(
        step.actions,
        vec![
            Action::TrySend(Message::Request(block_info(0))),
            Action::TrySend(Message::Request(block_info(2))),
        ]
    );
    // Nothing is requested again once as many blocks were downloaded as there are.
    torrent.downloaded_blocks = [1, 3, 4, 5, 6, 7, 8, 9].iter().map(|i| block_info(*i)).collect();
    assert_eq!(peer.run(&mut torrent, Wait::Message, Event::RequestTick).unwrap(), idle());
}

// messages

#[test]
fn a_bitfield_replaces_the_pieces_of_the_peer() {
    let mut peer = joined_peer();
    let mut torrent = TorrentState::default();
    let step = receive(&mut peer, &mut torrent, Message::Bitfield(Bitfield::from(vec![0xf0, 0x01])));
    assert_eq!(step.actions, vec![Action::Torrent(TorrentMsg::UpdateBitfield(2))]);
    assert_eq!(peer.pieces, Bitfield::from(vec![0xf0, 0x01]));
    assert_eq!(receive(&mut peer, &mut torrent, Message::Have(4)), idle());
    assert_eq!(peer.pieces, Bitfield::from(vec![0xf8, 0x01]));
    assert_eq!(receive(&mut peer, &mut torrent, Message::Have(400)), idle());
    assert_eq!(peer.pieces, Bitfield::from(vec![0xf8, 0x01]));
}

#[test]
fn an_unchoke_starts_the_download() {
    let mut peer = joined_peer();
    let mut torrent = torrent_of(vec![0b1000_0000], 16384);
    peer.pieces = Bitfield::from(vec![0b1010_0000]);
    assert_eq!(receive(&mut peer, &mut torrent, Message::Unchoke), idle());
    assert!(!peer.peer_choking);
    peer.am_interested = true;
    let step = receive(&mut peer, &mut torrent, Message::Unchoke);
    assert_eq!(step, Step { actions: vec![ask(2)], wait: Wait::Blocks(2) });
    let second = BlockInfo { index: 2, begin: BLOCK_LEN, len: BLOCK_LEN };
    let blocks = vec![block_info(2), second];
    let step = peer.run(&mut torrent, step.wait, Event::Blocks(blocks)).unwrap();
    assert_eq!(
        step.actions,
        vec![
            Action::Send(Message::Request(block_info(2))),
            Action::Send(Message::Request(second)),
        ]
    );
    assert_eq!(step.wait, Wait::Message);
}

#[test]
fn only_blocks_of_the_wanted_piece_are_requested() {
    let mut peer = joined_peer();
    let mut torrent = torrent_of(vec![0], 16384);
    peer.pieces = Bitfield::from(vec![0b1100_0000]);
    let step = peer.request_next_piece(&torrent);
    assert_eq!(step, Step { actions: vec![ask(0)], wait: Wait::Blocks(0) });
    let blocks = || vec![block_info(1), block_info(0), block_info(3)];
    let step = peer.run(&mut torrent, Wait::Blocks(0), Event::Blocks(blocks())).unwrap();
    assert_eq!(step.actions, vec![Action::Send(Message::Request(block_info(0)))]);
    // A piece that the torrent has got meanwhile is not requested.
    torrent.pieces.set(0);
    let step = peer.run(&mut torrent, Wait::Blocks(0), Event::Blocks(blocks())).unwrap();
    assert_eq!(step, idle());
    // Nor is one that the peer has not.
    let step = peer.run(&mut torrent, Wait::Blocks(3), Event::Blocks(blocks())).unwrap();
    assert_eq!(step, idle());
}

#[test]
fn a_fully_requested_piece_does_not_hide_the_next() {
    let mut peer = joined_peer();
    let mut torrent = torrent_of(vec![0], 40000);
    peer.pieces = Bitfield::from(vec![0b1100_0000]);
    let block = |index, begin, len| BlockInfo { index, begin, len };
    torrent.requested_blocks.push_back(block(0, 0, 16384));
    torrent.requested_blocks.push_back(block(0, 32768, 7232));
    torrent.requested_blocks.push_back(block(1, 16384, 16384));
    // The second block of piece 0 was not requested yet.
    assert!(!torrent.fully_requested(0));
    assert_eq!(peer.request_next_piece(&torrent).wait, Wait::Blocks(0));
    torrent.requested_blocks.push_back(block(0, 16384, 16384));
    assert!(torrent.fully_requested(0) && !torrent.fully_requested(1));
    let step = peer.request_next_piece(&torrent);
    assert_eq!(step, Step { actions: vec![ask(1)], wait: Wait::Blocks(1) });
    // The last blocks of a piece are marked as requested when they are handed out.
    let last = vec![block(0, 16384, 16384)];
    let step = peer.run(&mut torrent, Wait::Blocks(0), Event::Blocks(last)).unwrap();
    assert_eq!(step.actions, vec![Action::Send(Message::Request(block(0, 16384, 16384)))]);
    torrent.requested_blocks.push_back(block(1, 0, 16384));
    torrent.requested_blocks.push_back(block(1, 32768, 7232));
    assert_eq!(peer.request_next_piece(&torrent), idle());
    // Without the info nothing is known to be requested.
    assert!(!TorrentState::default().fully_requested(0));
}

#[test]
fn answers_of_the_disk_are_requested_once() {
    let mut peer = joined_peer();
    let mut torrent = torrent_of(vec![0], 65536);
    peer.pieces = Bitfield::from(vec![0b1000_0000]);
    let block = |begin| BlockInfo { index: 0, begin, len: 16384 };
    let mut requested = Vec::new();
    for answer in [vec![block(0), block(16384)], vec![block(32768), block(49152)]] {
        let step = peer.run(&mut torrent, Wait::Blocks(0), Event::Blocks(answer)).unwrap();
        for action in step.actions {
            assert!(!requested.contains(&action));
            requested.push(action);
        }
    }
    assert_eq!(requested.len(), 4);
}

#[test]
fn a_peer_without_a_wanted_piece_is_asked_for_nothing() {
    let mut peer = joined_peer();
    let mut torrent = torrent_of(vec![0b1100_0000], 16384);
    peer.am_interested = true;
    assert_eq!(peer.request_next_piece(&torrent), idle());
    peer.pieces = Bitfield::from(vec![0b1100_0000]);
    assert_eq!(peer.request_next_piece(&torrent), idle());
    assert_eq!(receive(&mut peer, &mut torrent, Message::Unchoke), idle());
}

#[test]
fn pieces_are_asked_for_in_order() {
    let mut peer = joined_peer();
    let mut torrent = torrent_of(vec![0], 16384);
    peer.pieces = Bitfield::from(vec![0b0101_0001]);
    let mut asked = Vec::new();
    loop {
        let step = peer.request_next_piece(&torrent);
        match step.wait {
            Wait::Blocks(piece) => {
                assert_eq!(step.actions, vec![ask(piece)]);
                asked.push(piece);
                torrent.pieces.set(piece);
            }
            _ => {
                assert_eq!(step, idle());
                break;
            }
        }
    }
    assert_eq!(asked, vec![1, 3, 7]);
    // A piece that the torrent does not know of yet is missing too.
    torrent.pieces = Bitfield::default();
    peer.am_interested = true;
    assert_eq!(peer.request_next_piece(&torrent).actions, vec![ask(1)]);
}

#[test]
fn the_last_word_on_choking_and_interest_counts() {
    let mut peer = joined_peer();
    let mut torrent = TorrentState::default();
    receive(&mut peer, &mut torrent, Message::Unchoke);
    receive(&mut peer, &mut torrent, Message::Choke);
    assert!(peer.peer_choking);
    receive(&mut peer, &mut torrent, Message::Interested);
    assert!(peer.peer_interested);
    receive(&mut peer, &mut torrent, Message::NotInterested);
    assert!(!peer.peer_interested);
    // Whatever comes in between.
    receive(&mut peer, &mut torrent, Message::Interested);
    receive(&mut peer, &mut torrent, Message::Unchoke);
    receive(&mut peer, &mut torrent, Message::Have(0));
    peer.run(&mut torrent, Wait::Message, Event::RequestTick).unwrap();
    assert!(peer.peer_interested && !peer.peer_choking);
    assert_eq!(receive(&mut peer, &mut torrent, Message::KeepAlive), idle());
    assert_eq!(receive(&mut peer, &mut torrent, Message::Cancel(block_info(1))), idle());
}

#[test]
fn a_request_is_answered_from_the_disk() {
    let mut peer = joined_peer();
    let mut torrent = TorrentState::default();
    let requested = BlockInfo { index: 3, begin: 5, len: 2 };
    let step = receive(&mut peer, &mut torrent, Message::Request(requested));
    assert_eq!(step.actions, vec![Action::Disk(DiskMsg::ReadBlock(requested))]);
    assert_eq!(step.wait, Wait::Read(requested));
    let answer = peer.run(&mut torrent, step.wait, Event::Read(Some(vec![1, 2]))).unwrap();
    let block = Block { index: 3, begin: 5, block: vec![1, 2] };
    assert_eq!(block.info(), requested);
    assert_eq!(answer.actions, vec![Action::TrySend(Message::Piece(block))]);
    let silence = peer.run(&mut torrent, Wait::Read(requested), Event::Read(None)).unwrap();
    assert_eq!(silence, idle());
}

#[test]
fn a_block_inside_a_piece_is_written() {
    let mut peer = joined_peer();
    let mut torrent = torrent_of(vec![0], 65536);
    let block = || Block { index: 1, begin: 16384, block: vec![0; 16384] };
    let step = receive(&mut peer, &mut torrent, Message::Piece(block()));
    assert_eq!(step.actions, vec![Action::Disk(DiskMsg::WriteBlock(block()))]);
    let step = peer.run(&mut torrent, step.wait, Event::Written(true)).unwrap();
    assert_eq!(step, idle());
    assert_eq!(torrent.downloaded_blocks, vec![block().info()]);
    // Once more: it is not noted twice.
    let step = receive(&mut peer, &mut torrent, Message::Piece(block()));
    peer.run(&mut torrent, step.wait, Event::Written(true)).unwrap();
    assert_eq!(torrent.downloaded_blocks, vec![block().info()]);
}

#[test]
fn a_block_that_was_not_written_does_not_count() {
    let mut peer = joined_peer();
    let mut torrent = torrent_of(vec![0], 65536);
    peer.pieces = Bitfield::from(vec![0b0100_0000]);
    let wait = Wait::Write(block_info(1));
    let step = peer.run(&mut torrent, wait, Event::Written(false)).unwrap();
    assert_eq!(step, Step { actions: vec![ask(1)], wait: Wait::Blocks(1) });
    assert!(torrent.downloaded_blocks.is_empty());
}

#[test]
fn the_last_block_of_a_piece_is_checked() {
    let mut peer = joined_peer();
    let mut torrent = torrent_of(vec![0], 32768);
    peer.pieces = Bitfield::from(vec![0b0011_0000]);
    let block = || Block { index: 2, begin: 16384, block: vec![0; 16384] };
    let step = receive(&mut peer, &mut torrent, Message::Piece(block()));
    assert_eq!(step.actions, vec![Action::Disk(DiskMsg::ValidatePiece(2))]);
    let step = peer.run(&mut torrent, step.wait, Event::Validated(true)).unwrap();
    assert_eq!(step.actions, vec![Action::Disk(DiskMsg::WriteBlock(block()))]);
    assert_eq!(torrent.pieces, Bitfield::from(vec![0b0010_0000]));
    let step = peer.run(&mut torrent, step.wait, Event::Written(true)).unwrap();
    assert_eq!(step, Step { actions: vec![ask(3)], wait: Wait::Blocks(3) });
    assert_eq!(torrent.downloaded_blocks, vec![block().info()]);
}

#[test]
fn a_piece_with_a_wrong_hash_does_not_count() {
    let mut peer = joined_peer();
    let mut torrent = torrent_of(vec![0], 16384);
    let block = || Block { index: 2, begin: 0, block: vec![0; 16384] };
    let step = receive(&mut peer, &mut torrent, Message::Piece(block()));
    let step = peer.run(&mut torrent, step.wait, Event::Validated(false)).unwrap();
    assert_eq!(step.actions, vec![Action::Disk(DiskMsg::WriteBlock(block()))]);
    assert_eq!(torrent.pieces, Bitfield::from(vec![0]));
}

#[test]
fn a_block_that_is_too_long_is_dropped() {
    let mut peer = joined_peer();
    let mut torrent = torrent_of(vec![0xff], 16384);
    peer.pieces = Bitfield::from(vec![0xff]);
    let block = Block { index: 2, begin: 0, block: vec![0; 16385] };
    let step = receive(&mut peer, &mut torrent, Message::Piece(block));
    assert_eq!(step, Step { actions: vec![ask(2)], wait: Wait::Blocks(2) });
    assert_eq!(torrent.pieces, Bitfield::from(vec![0b1101_1111]));
    assert!(torrent.downloaded_blocks.is_empty());
}

#[test]
fn an_event_that_is_not_awaited_changes_nothing() {
    let mut peer = joined_peer();
    let mut torrent = TorrentState::default();
    let step = peer.run(&mut torrent, Wait::Blocks(0), Event::Written(true)).unwrap();
    assert_eq!(step, Step { actions: vec![], wait: Wait::Blocks(0) });
    assert!(torrent.downloaded_blocks.is_empty());
}

// the exchange of metadata

fn extended(payload: &[u8]) -> Message {
    Message::Extended((0, payload.to_vec()))
}

fn data(piece: u32, info: &[u8]) -> Message {
    let header = format!("d8:msg_typei1e5:piecei{}e10:total_sizei102ee", piece);
    let mut payload = header.into_bytes();
    payload.extend_from_slice(info);
    Message::Extended((0, payload))
}

#[test]
fn the_whole_metadata_is_requested() {
    let mut peer = joined_peer();
    let mut torrent = TorrentState::default();
    let payload = b"d1:md11:ut_metadatai3ee13:metadata_sizei31235ee";
    let step = receive(&mut peer, &mut torrent, extended(payload));
    assert_eq!(
        peer.extension,
        Extension { m: M { ut_metadata: Some(3) }, metadata_size: Some(31235) }
    );
    assert_eq!(
        step.actions,
        vec![
            Action::Send(Message::Extended((3, b"d8:msg_typei0e5:piecei0ee".to_vec()))),
            Action::Send(Message::Extended((3, b"d8:msg_typei0e5:piecei1ee".to_vec()))),
        ]
    );
    assert_eq!(step.wait, Wait::Metadata(payload.to_vec()));
    assert_eq!(peer.run(&mut torrent, step.wait, Event::Sent).unwrap(), idle());
}

#[test]
fn requests_depend_on_what_the_peer_said() {
    let mut peer = joined_peer();
    let mut torrent = TorrentState::default();
    let said = Extension { m: M { ut_metadata: Some(8) }, metadata_size: Some(1) };
    let step = peer.extension_received(&mut torrent, said, vec![]).unwrap();
    assert_eq!(
        step.actions,
        vec![Action::Send(Message::Extended((8, b"d8:msg_typei0e5:piecei0ee".to_vec())))]
    );
    let silent = Extension { m: M { ut_metadata: None }, metadata_size: Some(1) };
    assert_eq!(peer.extension_received(&mut torrent, silent, vec![]).unwrap(), idle());
    assert_eq!(peer.extension, silent);
}

#[test]
fn a_peer_that_hides_the_size_stops_the_client() {
    let mut peer = joined_peer();
    let mut torrent = TorrentState::default();
    let message = extended(b"d1:md11:ut_metadatai3eee");
    let result = peer.run(&mut torrent, Wait::Message, Event::Message(message));
    assert!(matches!(result, Err(Halt::Abort(Abort::MissingMetadataSize))));
    assert_eq!(peer.extension.m.ut_metadata, Some(3));
    // The same with any later payload.
    let result = peer.run(&mut torrent, Wait::Message, Event::Message(extended(b"")));
    assert!(matches!(result, Err(Halt::Abort(Abort::MissingMetadataSize))));
}

#[test]
fn a_malformed_extended_handshake_ends_the_conversation() {
    let mut peer = joined_peer();
    let mut torrent = TorrentState::default();
    let result = peer.run(&mut torrent, Wait::Message, Event::Message(extended(b"x")));
    assert!(matches!(result, Err(Halt::Error(Error::BencodeError))));
    assert_eq!(peer.extension, Extension::default());
}

#[test]
fn other_extended_messages_are_ignored() {
    let mut peer = joined_peer();
    let mut torrent = TorrentState::default();
    let message = Message::Extended((1, b"x".to_vec()));
    assert_eq!(receive(&mut peer, &mut torrent, message), idle());
}

fn peer_with_metadata() -> Peer {
    let mut peer = joined_peer();
    peer.extension =
        Extension { m: M { ut_metadata: Some(3) }, metadata_size: Some(INFO.len() as u32) };
    peer
}

#[test]
fn the_info_of_the_magnet_link_is_accepted() {
    assert_eq!(INFO.len(), 102);
    let mut peer = peer_with_metadata();
    let mut torrent = TorrentState::default();
    let step = receive(&mut peer, &mut torrent, data(0, INFO));
    let info = Info::from_bencode(INFO.to_vec()).unwrap();
    assert_eq!(step.actions, vec![Action::Disk(DiskMsg::NewTorrent(info.clone()))]);
    assert_eq!(step.wait, Wait::Message);
    assert_eq!(torrent.info, info);
    assert_eq!(torrent.info.piece_length, 16384);
    assert_eq!(torrent.info_dict.get(&0), Some(&INFO.to_vec()));
}

#[test]
fn an_unchoked_client_downloads_once_it_knows_the_info() {
    let mut peer = peer_with_metadata();
    peer.am_interested = true;
    peer.peer_choking = false;
    peer.pieces = Bitfield::from(vec![0b1100_0000]);
    let mut torrent = TorrentState::default();
    let step = receive(&mut peer, &mut torrent, data(0, INFO));
    assert_eq!(step.actions.len(), 2);
    assert_eq!(step.actions[1], ask(0));
    assert_eq!(step.wait, Wait::Blocks(0));
    // Without a piece to ask for, the disk is told of the info and asked nothing.
    peer.pieces = Bitfield::default();
    let mut torrent = TorrentState::default();
    let step = receive(&mut peer, &mut torrent, data(0, INFO));
    assert_eq!(step.actions.len(), 1);
    assert_eq!(step.wait, Wait::Message);
}

#[test]
fn the_info_of_another_torrent_stops_the_client() {
    let mut other = INFO.to_vec();
    other[100] = b'C';
    let mut peer = peer_with_metadata();
    let mut torrent = TorrentState::default();
    let result = peer.run(&mut torrent, Wait::Message, Event::Message(data(0, &other)));
    assert!(matches!(result, Err(Halt::Abort(Abort::InfoHashMismatch))));
    assert_eq!(torrent.info, Info::default());
    assert_eq!(torrent.info_dict.len(), 1);
}

#[test]
fn info_that_cannot_be_read_ends_the_conversation() {
    let mut peer = peer_with_metadata();
    let mut torrent = TorrentState::default();
    let result = peer.run(&mut torrent, Wait::Message, Event::Message(data(0, &[b'x'; 102])));
    assert!(matches!(result, Err(Halt::Error(Error::BencodeError))));
    // A header that cannot be read does as well, and stores nothing.
    let mut torrent = TorrentState::default();
    let result = peer.run(&mut torrent, Wait::Message, Event::Message(extended(&[b'x'; 110])));
    assert!(matches!(result, Err(Halt::Error(Error::BencodeError))));
    assert!(torrent.info_dict.is_empty());
}

#[test]
fn the_digest_decides() {
    let peer = peer_with_metadata();
    let info = Info::from_bencode(INFO.to_vec()).unwrap();
    let mut torrent = TorrentState::default();
    let result = peer.info_received(&mut torrent, info.clone(), [0; 20]);
    assert!(matches!(result, Err(Halt::Abort(Abort::InfoHashMismatch))));
    let digest = get_info_hash(INFO_HASH).unwrap();
    assert_eq!(sha1_smol::Sha1::from(INFO).digest().bytes(), digest);
    peer.info_received(&mut torrent, info.clone(), digest).unwrap();
    assert_eq!(torrent.info, info);
}

#[test]
fn an_accepted_info_needs_a_disk() {
    let mut peer = peer_with_metadata();
    peer.has_disk = false;
    let mut torrent = TorrentState::default();
    let result = peer.run(&mut torrent, Wait::Message, Event::Message(data(0, INFO)));
    assert!(matches!(result, Err(Halt::Abort(Abort::NoDisk))));
    assert_eq!(torrent.info.piece_length, 16384);
}

#[test]
fn the_info_is_joined_in_the_order_of_its_pieces() {
    let peer = peer_with_metadata();
    let mut torrent = TorrentState::default();
    let size = 3 * 16384;
    let (a, b, c) = (INFO[..10].to_vec(), INFO[10..50].to_vec(), INFO[50..].to_vec());
    assert_eq!(peer.info_piece_received(&mut torrent, size, 2, c).unwrap(), idle());
    assert_eq!(peer.info_piece_received(&mut torrent, size, 0, a).unwrap(), idle());
    assert_eq!(torrent.info, Info::default());
    let step = peer.info_piece_received(&mut torrent, size, 1, b).unwrap();
    assert_eq!(step.actions.len(), 1);
    assert_eq!(torrent.info.bytes, INFO.to_vec());
    assert_eq!(torrent.info_bytes(), INFO.to_vec());
}

#[test]
fn a_short_payload_is_no_metadata() {
    let mut peer = peer_with_metadata();
    let mut torrent = TorrentState::default();
    assert_eq!(receive(&mut peer, &mut torrent, extended(&[b'x'; 101])), idle());
    assert!(torrent.info_dict.is_empty());
}

#[test]
fn the_metadata_is_requested_once() {
    let mut peer = joined_peer();
    let mut torrent = TorrentState::default();
    let payload = b"d1:md11:ut_metadatai3ee13:metadata_sizei31235ee";
    let step = receive(&mut peer, &mut torrent, extended(payload));
    assert_eq!(step.actions.len(), 2);
    peer.run(&mut torrent, step.wait, Event::Sent).unwrap();
    let before = peer.extension;
    assert_eq!(receive(&mut peer, &mut torrent, extended(payload)), idle());
    assert_eq!(peer.extension, before);
}

#[test]
fn the_number_of_a_single_piece_does_not_matter() {
    let mut peer = peer_with_metadata();
    let mut torrent = TorrentState::default();
    receive(&mut peer, &mut torrent, data(7, INFO));
    assert_eq!(torrent.info.bytes, INFO.to_vec());
}

#[test]
fn the_client_stays_interested_and_unchoking() {
    let mut peer = joined_peer();
    let mut torrent = TorrentState::default();
    peer.am_interested = true;
    peer.am_choking = false;
    for message in [Message::Choke, Message::NotInterested, Message::Interested] {
        receive(&mut peer, &mut torrent, message);
        assert!(peer.am_interested && !peer.am_choking);
    }
}
