//! What the functions on peers, torrents and formats do.
//!
//! Each law speaks of calls: of their arguments and results.

use crate::bitfield::{BitItem, Bitfield};
use crate::blocks::{Block, BlockInfo};
use crate::error::Error;
use crate::extension::{Extension, Metadata};
use crate::laws_metadata;
use crate::laws_run;
use crate::magnet;
use crate::messages::Handshake;
use crate::metainfo::Info;
use crate::peer::{Peer, PeerAddr, PeerIp, PeerView};
use crate::session;
use crate::torrent::{self, TorrentCtx, TorrentState, TorrentView};
use crate::tracker::TrackerCtx;
use std::io::Error as IoError;
use std::sync::Arc;
use vstd::prelude::*;

verus! {

// ---------------------------------------------------------------------------------------
// Bitfields

/// A bitfield has eight bits for each byte that it is made from, the most significant one first.
pub proof fn law_bitfield_unpacks_bytes(bytes: Vec<u8>, bitfield: Bitfield, i: int)
    requires
        call_ensures(Bitfield::from, (bytes,), bitfield),
        0 <= i < 8 * bytes@.len(),
    ensures
        bitfield@.len() == 8 * bytes@.len(),
        bitfield@[i] == ((bytes@[i / 8] >> ((7 - i % 8) as u8)) & 1 == 1),
{
    let byte = bytes@[i / 8];
    let offset = (i % 8) as u8;
    assert(((byte & (0x80u8 >> offset)) != 0) == ((byte >> ((7 - offset) as u8)) & 1 == 1))
        by (bit_vector)
        requires
            offset < 8,
    ;
}

/// The bits of a bitfield can be counted, in bits and in bytes, and read one by one.
pub proof fn law_bits_are_read(
    bitfield: Bitfield,
    len: usize,
    bytes: usize,
    index: usize,
    item: Option<BitItem>,
    copy: Bitfield,
    empty: Bitfield,
)
    requires
        call_ensures(Bitfield::len, (&bitfield,), len),
        call_ensures(Bitfield::len_bytes, (&bitfield,), bytes),
        call_ensures(Bitfield::get, (&bitfield, index), item),
        call_ensures(<Bitfield as Clone>::clone, (&bitfield,), copy),
        call_ensures(<Bitfield as Default>::default, (), empty),
    ensures
        len == bitfield@.len(),
        8 * bytes == bitfield@.len(),
        index < bitfield@.len() ==> item is Some && item->0.index == index && item->0.bit
            == bitfield@[index as int],
        index >= bitfield@.len() ==> item is None,
        copy@ == bitfield@,
        empty@.len() == 0,
{
}

/// Setting a bit makes it 1 and clearing it makes it 0; the others stay, and so does their number.
pub proof fn law_bits_are_written(
    set: &mut Bitfield,
    cleared: &mut Bitfield,
    index: usize,
    i: int,
)
    requires
        call_ensures(Bitfield::set, (set, index), ()),
        call_ensures(Bitfield::clear, (cleared, index), ()),
    ensures
        final(set)@.len() == old(set)@.len(),
        0 <= i < old(set)@.len() ==> final(set)@[i] == (i == index || old(set)@[i]),
        final(cleared)@.len() == old(cleared)@.len(),
        0 <= i < old(cleared)@.len() ==> final(cleared)@[i] == (i != index && old(cleared)@[i]),
{
}

/// The bit that is found is one that is accepted, and no earlier one is.
pub proof fn law_first_accepted_bit_is_found<F: Fn(&BitItem) -> bool>(
    bitfield: Bitfield,
    wanted: F,
    found: BitItem,
    item: BitItem,
)
    requires
        call_ensures(Bitfield::find::<F>, (&bitfield, wanted), Some(found)),
    ensures
        found.index < bitfield@.len(),
        found.bit == bitfield@[found.index as int],
        call_ensures(wanted, (&found,), true),
        item.index < found.index && item.bit == bitfield@[item.index as int] ==> call_ensures(
            wanted,
            (&item,),
            false,
        ),
{
    assert(item.bit == bitfield@[item.index as int] ==> crate::bitfield::item_at(
        bitfield@,
        item.index as int,
    ) == item);
}

/// If no bit is found, none is accepted.
pub proof fn law_no_bit_is_found_if_none_is_accepted<F: Fn(&BitItem) -> bool>(
    bitfield: Bitfield,
    wanted: F,
    item: BitItem,
)
    requires
        call_ensures(Bitfield::find::<F>, (&bitfield, wanted), None::<BitItem>),
        item.index < bitfield@.len(),
        item.bit == bitfield@[item.index as int],
    ensures
        call_ensures(wanted, (&item,), false),
{
    assert(crate::bitfield::item_at(bitfield@, item.index as int) == item);
}

// ---------------------------------------------------------------------------------------
// Blocks

/// A block is valid if it has at most 16 KiB; its place is its piece, where it begins and how long
/// it
/// is, each cut to 32 bits.
pub proof fn law_block_tells_its_place(block: Block, valid: bool, info: BlockInfo)
    requires
        call_ensures(Block::is_valid, (&block,), valid),
        call_ensures(Block::info, (&block,), info),
    ensures
        valid == (block.block@.len() <= 16384),
        info.index == block.index as int % 0x1_0000_0000,
        info.begin == block.begin,
        info.len == block.block@.len() as int % 0x1_0000_0000,
{
}

// ---------------------------------------------------------------------------------------
// Hashes and handshakes

/// The hash of a magnet link are the 20 bytes that its 40 hexadecimal digits spell; there is none
/// if
/// it is anything else.
pub proof fn law_hash_is_what_the_link_spells(xt: &str, hash: Option<[u8; 20]>)
    requires
        call_ensures(magnet::get_info_hash, (xt,), hash),
    ensures
        hash is Some <==> xt@.len() == 40 && forall|i: int|
            0 <= i < 40 ==> laws_run::nibble(#[trigger] xt@[i]) >= 0,
        hash is Some ==> forall|i: int|
            0 <= i < 20 ==> #[trigger] hash->0@[i] == 16 * laws_run::nibble(xt@[2 * i])
                + laws_run::nibble(xt@[2 * i + 1]),
{
    assert forall|c: char| #[trigger] crate::digest::hex_value(c) == (if laws_run::nibble(c) >= 0 {
        Some(laws_run::nibble(c))
    } else {
        None
    }) by {}
    if let Some(hash) = hash {
        assert forall|i: int| 0 <= i < 40 implies laws_run::nibble(#[trigger] xt@[i]) >= 0 by {
            assert(crate::digest::hex_value(xt@[i]) is Some);
        }
        assert forall|i: int| 0 <= i < 20 implies #[trigger] hash@[i] == 16 * laws_run::nibble(
            xt@[2 * i],
        ) + laws_run::nibble(xt@[2 * i + 1]) by {
            assert(laws_run::nibble(xt@[2 * i]) >= 0 && laws_run::nibble(xt@[2 * i + 1]) >= 0);
        }
    }
}

/// A digest is that of a magnet link if the link spells it in lower case.
pub proof fn law_digest_is_compared_with_the_link(digest: [u8; 20], xt: String, same: bool)
    requires
        call_ensures(session::is_info_hash, (&digest, &xt), same),
    ensures
        same == laws_metadata::spells(xt@, digest@),
{
    laws_metadata::lemma_spells(xt@, digest@);
}

/// The handshake of the client names the protocol, supports extensions and nothing else, and holds
/// the hash and the id that it is made from.
pub proof fn law_new_handshake_names_the_torrent(
    info_hash: [u8; 20],
    peer_id: [u8; 20],
    handshake: Handshake,
)
    requires
        call_ensures(Handshake::new, (info_hash, peer_id), handshake),
    ensures
        handshake.pstr_len == 19,
        handshake.pstr@ == seq![
            66u8, 105, 116, 84, 111, 114, 114, 101, 110, 116, 32, 112, 114, 111, 116, 111, 99, 111,
            108,
        ],
        handshake.reserved@ == seq![0u8, 0, 0, 0, 0, 16, 0, 0],
        handshake.info_hash == info_hash,
        handshake.peer_id == peer_id,
{
}

/// The 68 bytes of a handshake are its parts in order, and reading them gives the handshake back.
pub proof fn law_handshake_is_read_back(
    handshake: Handshake,
    bytes: Vec<u8>,
    slice: &[u8],
    read: Handshake,
)
    requires
        call_ensures(Handshake::serialize, (&handshake,), bytes),
        slice@ == bytes@,
        call_ensures(Handshake::deserialize, (slice,), read),
    ensures
        bytes@.len() == 68,
        bytes@[0] == handshake.pstr_len,
        bytes@.subrange(1, 20) == handshake.pstr@,
        bytes@.subrange(20, 28) == handshake.reserved@,
        bytes@.subrange(28, 48) == handshake.info_hash@,
        bytes@.subrange(48, 68) == handshake.peer_id@,
        read == handshake,
{
    crate::messages::lemma_handshake_wire_is_injective(handshake, read);
    assert(bytes@.subrange(1, 20) =~= handshake.pstr@);
    assert(bytes@.subrange(20, 28) =~= handshake.reserved@);
    assert(bytes@.subrange(28, 48) =~= handshake.info_hash@);
    assert(bytes@.subrange(48, 68) =~= handshake.peer_id@);
}

/// A handshake is read from its parts, and any 68 bytes can be read.
pub proof fn law_handshake_is_read_from_its_parts(slice: &[u8], read: Handshake)
    requires
        call_ensures(Handshake::deserialize, (slice,), read),
        slice@.len() == 68,
    ensures
        call_requires(Handshake::deserialize, (slice,)),
        read.pstr_len == slice@[0],
        read.pstr@ == slice@.subrange(1, 20),
        read.reserved@ == slice@.subrange(20, 28),
        read.info_hash@ == slice@.subrange(28, 48),
        read.peer_id@ == slice@.subrange(48, 68),
{
    let wire = read.wire();
    assert(wire.subrange(1, 20) =~= read.pstr@);
    assert(wire.subrange(20, 28) =~= read.reserved@);
    assert(wire.subrange(28, 48) =~= read.info_hash@);
    assert(wire.subrange(48, 68) =~= read.peer_id@);
}

/// A handshake supports extensions if the bit 0x10 of its sixth reserved byte is set, whatever the
/// others are; it answers another if it names the protocol and has the same hash, whatever the
/// rest is.
pub proof fn law_handshake_is_judged(
    theirs: Handshake,
    ours: Handshake,
    supported: bool,
    valid: bool,
)
    requires
        call_ensures(Handshake::supports_extensions, (&theirs,), supported),
        call_ensures(Handshake::validate, (&theirs, &ours), valid),
    ensures
        supported == ((theirs.reserved@[5] as int / 16) % 2 == 1),
        valid == (theirs.pstr_len == 19 && theirs.pstr@ == seq![
            66u8, 105, 116, 84, 111, 114, 114, 101, 110, 116, 32, 112, 114, 111, 116, 111, 99, 111,
            108,
        ] && theirs.info_hash@ == ours.info_hash@),
{
    let byte = theirs.reserved@[5];
    assert(((byte & (0x80u8 >> 3u8)) != 0) == ((byte / 16) % 2 == 1)) by (bit_vector);
}

// ---------------------------------------------------------------------------------------
// Torrents

/// A torrent has as many blocks as its pieces have, of which there is one for every 20 bytes of
/// hashes; beyond the largest 32-bit number, that.
pub proof fn law_blocks_are_counted(info: Info, blocks: u32, copy: Info, empty: Info)
    requires
        call_ensures(Info::blocks_len, (&info,), blocks),
        call_ensures(<Info as Clone>::clone, (&info,), copy),
        call_ensures(<Info as Default>::default, (), empty),
    ensures
        ({
            let total = (info.pieces@.len() as int / 20) * ((info.piece_length + 16383) / 16384);
            &&& total <= 0xffff_ffff ==> blocks == total
            &&& total > 0xffff_ffff ==> blocks == 0xffff_ffff
        }),
        copy.piece_length == info.piece_length,
        copy.pieces@ == info.pieces@,
        copy.bytes@ == info.bytes@,
        empty.piece_length == 0,
        empty.pieces@.len() == 0,
        empty.bytes@.len() == 0,
{
}

/// The missing blocks are those requested that were not downloaded, in order.
pub proof fn law_missing_blocks_are_those_not_downloaded(
    torrent: TorrentState,
    missing: Vec<BlockInfo>,
)
    requires
        call_ensures(TorrentState::missing_blocks, (&torrent,), missing),
    ensures
        missing@ == torrent.requested_blocks@.filter(
            |block: BlockInfo| !torrent.downloaded_blocks@.contains(block),
        ),
{
}

/// A piece is fully requested if, the info being known, a request begins at every multiple of 16
/// KiB
/// in it.
pub proof fn law_full_requests_cover_the_piece(torrent: TorrentState, piece: usize, full: bool)
    requires
        call_ensures(TorrentState::fully_requested, (&torrent, piece), full),
    ensures
        full == (torrent.info.piece_length > 0 && !(exists|begin: int|
            0 <= begin < torrent.info.piece_length && begin % 16384 == 0
                && #[trigger] laws_run::never_requested(
                torrent.requested_blocks@,
                piece as int,
                begin,
            ))),
{
    laws_run::lemma_fully_requested(torrent, piece as int);
}

/// A block is noted as downloaded at the front, and once; a piece of the info is stored under its
/// number. Nothing else of the torrent changes.
pub proof fn law_progress_is_noted(
    torrent: &mut TorrentState,
    block: BlockInfo,
    other: &mut TorrentState,
    piece: u32,
    bytes: Vec<u8>,
)
    requires
        call_ensures(TorrentState::note_download, (torrent, block), ()),
        call_ensures(TorrentState::note_info_piece, (other, piece, bytes), ()),
    ensures
        final(torrent)@ == (TorrentView {
            downloaded_blocks: final(torrent).downloaded_blocks@,
            ..old(torrent)@
        }),
        old(torrent).downloaded_blocks@.contains(block) ==> final(torrent).downloaded_blocks@
            == old(torrent).downloaded_blocks@,
        !old(torrent).downloaded_blocks@.contains(block) ==> final(torrent).downloaded_blocks@
            == seq![block] + old(torrent).downloaded_blocks@,
        final(other)@ == (TorrentView {
            info_dict: old(other)@.info_dict.insert(piece, bytes@),
            ..old(other)@
        }),
{
}

/// The info is joined from its pieces in the ascending order of their numbers.
pub proof fn law_info_is_joined(torrent: TorrentState, keys: Seq<u32>, bytes: Vec<u8>)
    requires
        call_ensures(TorrentState::info_bytes, (&torrent,), bytes),
        forall|i: int, j: int| 0 <= i < j < keys.len() ==> keys[i] < keys[j],
        keys.to_set() == torrent.info_dict@.dom(),
    ensures
        bytes@ == Seq::new(keys.len(), |i: int| torrent.info_dict@[keys[i]]@).flatten(),
{
    let dict = torrent@.info_dict;
    let parts = Seq::new(keys.len(), |i: int| torrent.info_dict@[keys[i]]@);
    assert(dict.dom() =~= torrent.info_dict@.dom());
    lemma_joined_keys(dict, keys, parts, keys.len() as int);
    assert(parts.take(keys.len() as int) =~= parts);
    torrent::lemma_joined_gap(
        dict,
        if keys.len() == 0 {
            0
        } else {
            keys[keys.len() - 1] + 1
        },
        0x1_0000_0000,
    );
}

proof fn lemma_joined_keys(
    dict: Map<u32, Seq<u8>>,
    keys: Seq<u32>,
    parts: Seq<Seq<u8>>,
    n: int,
)
    requires
        0 <= n <= keys.len(),
        parts.len() == keys.len(),
        forall|i: int, j: int| 0 <= i < j < keys.len() ==> keys[i] < keys[j],
        keys.to_set() == dict.dom(),
        forall|i: int| 0 <= i < keys.len() ==> #[trigger] parts[i] == dict[keys[i]],
    ensures
        torrent::joined_below(
            dict,
            if n == 0 {
                0
            } else {
                keys[n - 1] + 1
            },
        ) == parts.take(n).flatten(),
        forall|k: u32|
            #[trigger] dict.contains_key(k) && n < keys.len() && k < keys[n] ==> n > 0 && k
                <= keys[n - 1],
        n == keys.len() ==> forall|k: u32| #[trigger] dict.contains_key(k) ==> n > 0 && k <= keys[n
            - 1],
    decreases n,
{
    assert forall|k: u32| #[trigger] dict.contains_key(k) implies exists|j: int|
        0 <= j < keys.len() && keys[j] == k by {
        assert(keys.to_set().contains(k));
    }
    if n > 0 {
        lemma_joined_keys(dict, keys, parts, n - 1);
        let k = keys[n - 1];
        assert(keys.to_set().contains(k));
        assert(dict.contains_key(k));
        torrent::lemma_joined_gap(
            dict,
            if n == 1 {
                0
            } else {
                keys[n - 2] + 1
            },
            k as int,
        );
        assert(parts.take(n) =~= parts.take(n - 1).push(parts[n - 1]));
        parts.take(n - 1).lemma_flatten_push(parts[n - 1]);
    } else {
        assert(parts.take(0) =~= Seq::empty());
    }
}

/// A torrent of which nothing is known has and knows nothing; a client without an id has zeros for
/// one; and a peer that has said nothing has no extension.
pub proof fn law_beginnings_are_empty(
    torrent: TorrentState,
    tracker: TrackerCtx,
    extension: Extension,
)
    requires
        call_ensures(<TorrentState as Default>::default, (), torrent),
        call_ensures(<TrackerCtx as Default>::default, (), tracker),
        call_ensures(<Extension as Default>::default, (), extension),
    ensures
        torrent.pieces@.len() == 0,
        torrent.requested_blocks@.len() == 0,
        torrent.downloaded_blocks@.len() == 0,
        torrent.info.piece_length == 0,
        torrent.info.pieces@.len() == 0,
        torrent.info.bytes@.len() == 0,
        torrent@.info_dict.dom().is_empty(),
        forall|i: int| 0 <= i < 20 ==> #[trigger] tracker.peer_id@[i] == 0,
        extension.m.ut_metadata is None,
        extension.metadata_size is None,
{
}

// ---------------------------------------------------------------------------------------
// Peers

/// A new peer chokes and is choked, nobody is interested, and nothing is known of it. One is made
/// of
/// nothing, with the address of no host; one of an address, with it; and one of a torrent, with
/// it.
pub proof fn law_new_peers_are_strangers(
    peer: Peer,
    addr: PeerAddr,
    announced: Peer,
    ctx: Arc<TorrentCtx>,
    joined: Peer,
)
    requires
        call_ensures(<Peer as Default>::default, (), peer),
        call_ensures(<Peer as From<PeerAddr>>::from, (addr,), announced),
        call_ensures(Peer::new, (ctx,), joined),
    ensures
        peer.am_choking && !peer.am_interested,
        peer.peer_choking && !peer.peer_interested,
        peer.pieces@.len() == 0,
        peer.addr.port == 0,
        peer.addr.ip matches PeerIp::V4(octets) && octets@ == seq![0u8, 0, 0, 0],
        peer.extension.m.ut_metadata is None,
        peer.extension.metadata_size is None,
        peer.id is None,
        peer.torrent_ctx is None,
        forall|i: int| 0 <= i < 20 ==> #[trigger] peer.tracker_ctx.peer_id@[i] == 0,
        !peer.has_disk,
        announced@ == (PeerView { addr, ..peer@ }),
        joined.torrent_ctx == Some(ctx),
        joined.addr.port == 0,
        joined.addr.ip matches PeerIp::V4(octets) && octets@ == seq![0u8, 0, 0, 0],
        joined@ == (PeerView { torrent_ctx: Some(ctx), addr: joined.addr, ..peer@ }),
{
    assert(peer.tracker_ctx.peer_id@ == Seq::new(20, |i: int| 0u8));
}

/// The builders change what they are named after and nothing else, and a copy is the same.
pub proof fn law_builders_change_one_thing(
    peer: Peer,
    addr: PeerAddr,
    moved: Peer,
    ctx: Arc<TorrentCtx>,
    joined: Peer,
    id: [u8; 20],
    named: Peer,
    copy: Peer,
)
    requires
        call_ensures(Peer::addr, (peer, addr), moved),
        call_ensures(Peer::torrent_ctx, (peer, ctx), joined),
        call_ensures(Peer::id, (peer, id), named),
        call_ensures(<Peer as Clone>::clone, (&peer,), copy),
    ensures
        moved.addr == addr,
        moved@ == (PeerView { addr, ..peer@ }),
        joined.torrent_ctx == Some(ctx),
        joined@ == (PeerView { torrent_ctx: Some(ctx), ..peer@ }),
        named.id == Some(id),
        named@ == (PeerView { id: Some(id), ..peer@ }),
        copy@ == peer@,
{
}

// ---------------------------------------------------------------------------------------
// Errors

/// Each error has a sentence of its own; that of `bincode` is told in its own words.
pub proof fn law_errors_are_told(error: Error, text: String)
    requires
        call_ensures(Error::message, (&error,), text),
    ensures
        error is ConnectSendFailed ==> text@ == "Failed to send a connect request to the tracker"@,
        error is TrackerSocketAddrs ==> text@ == "Failed to resolve socket address"@,
        error is TrackerNoHosts ==> text@ == "Tracker resolved to no unusable addresses"@,
        error is TrackerResponse ==> text@
            == "The response received from the connect handshake was wrong"@,
        error is Bincode ==> vstd::string::to_string_from_display_ensures::<
            Box<bincode::ErrorKind>,
        >(&error->Bincode_0, text),
        error is HandshakeInvalid ==> text@ == "The handshake received from the peer is invalid"@,
        error is BencodeError ==> text@
            == "The bencoded bytes received from the peer are malformed"@,
{
}

/// An error of a socket or of `bincode` is kept inside.
pub proof fn law_errors_are_wrapped(
    io: IoError,
    wrapped_io: Error,
    kind: Box<bincode::ErrorKind>,
    wrapped_kind: Error,
)
    requires
        call_ensures(<Error as From<IoError>>::from, (io,), wrapped_io),
        call_ensures(<Error as From<Box<bincode::ErrorKind>>>::from, (kind,), wrapped_kind),
    ensures
        wrapped_io == Error::TrackerSocketAddrs(io),
        wrapped_kind == Error::Bincode(kind),
{
}

// ---------------------------------------------------------------------------------------
// What is asked of callers

/// Functions with a condition take every argument that meets it in these words: a bitfield has an
/// index for each bit, a message about metadata ends within its payload, blocks are asked for of a
/// peer with a torrent and a disk, and the info is looked at for a torrent with a hash.
pub proof fn law_calls_are_taken(
    bytes: Vec<u8>,
    begin: usize,
    peer: &mut Peer,
    torrent: &mut TorrentState,
    said: Extension,
    size: u32,
    piece: u32,
    info: Info,
    digest: [u8; 20],
)
    ensures
        8 * bytes@.len() <= usize::MAX ==> call_requires(Bitfield::from, (bytes,)),
        begin <= bytes@.len() ==> call_requires(Metadata::extract, (bytes, begin)),
        old(peer).torrent_ctx is Some && old(peer).has_disk ==> call_requires(
            Peer::request_next_piece,
            (&*old(peer), &*old(torrent)),
        ),
        old(peer).torrent_ctx is Some && old(peer).torrent_ctx->0.magnet.xt is Some ==> {
            &&& call_requires(Peer::extension_received, (peer, torrent, said, bytes))
            &&& call_requires(
                Peer::info_piece_received,
                (&*old(peer), torrent, size, piece, bytes),
            )
            &&& call_requires(Peer::info_received, (&*old(peer), torrent, info, digest))
        },
{
}

/// A keep-alive is looked for every second and sent every two minutes, requests are repeated every
/// five seconds, a handshake has 68 bytes, and a block has 16 KiB.
pub proof fn law_constants()
    ensures
        session::KEEP_ALIVE_TICK_SECS == 1,
        session::KEEP_ALIVE_SECS == 120,
        session::REQUEST_TICK_SECS == 5,
        session::BLOCKS_PER_REQUEST == 5,
        crate::messages::HANDSHAKE_LEN == 68,
        crate::blocks::BLOCK_LEN == 16384,
{
}

} // verus!
