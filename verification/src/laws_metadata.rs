//! How the info of a torrent is fetched from a peer.
//!
//! Each law speaks of a call of [`Peer::run`]: of its arguments, before and after, and of its
//! result.

use crate::bencode;
use crate::digest;
use crate::disk::DiskMsg;
use crate::error::Error;
use crate::extension::{self, Extension, Metadata};
use crate::laws_run;
use crate::messages::Message;
use crate::metainfo::Info;
use crate::peer::{Peer, PeerView};
use crate::session::{Abort, Action, Event, Halt, Step, Wait};
use crate::torrent::{TorrentState, TorrentView};
use vstd::prelude::*;
use vstd::string::StringSliceAdditionalSpecFns;

verus! {

// ---------------------------------------------------------------------------------------
// Single precision

/// `rounded` is the number of 24 significant bits nearest to `size`; the last of these bits counts
/// `spacing`. Of two such numbers it is the one whose last bit is 0.
pub open spec fn rounds_to(size: int, rounded: int, spacing: int) -> bool {
    &&& spacing == 1 || spacing == 2 || spacing == 4 || spacing == 8 || spacing == 16 || spacing
        == 32 || spacing == 64 || spacing == 128 || spacing == 256
    &&& size < spacing * 0x100_0000
    &&& spacing == 1 || size >= spacing * 0x80_0000
    &&& rounded % spacing == 0
    &&& 2 * (rounded - size) <= spacing
    &&& 2 * (size - rounded) <= spacing
    &&& 2 * (rounded - size) == spacing || 2 * (size - rounded) == spacing ==> (rounded / spacing)
        % 2 == 0
}

proof fn lemma_rounds_to(size: u32, rounded: int, spacing: int)
    requires
        rounds_to(size as int, rounded, spacing),
    ensures
        extension::nearest_single(size as int) == rounded,
{
    assert(extension::single_spacing(size as int) == spacing);
    let steps = size as int / spacing;
    let over = size as int % spacing;
    if spacing == 1 {
    } else if spacing == 2 {
        assert(rounded == steps * 2 || rounded == (steps + 1) * 2);
    } else if spacing == 4 {
        assert(rounded == steps * 4 || rounded == (steps + 1) * 4);
    } else if spacing == 8 {
        assert(rounded == steps * 8 || rounded == (steps + 1) * 8);
    } else if spacing == 16 {
        assert(rounded == steps * 16 || rounded == (steps + 1) * 16);
    } else if spacing == 32 {
        assert(rounded == steps * 32 || rounded == (steps + 1) * 32);
    } else if spacing == 64 {
        assert(rounded == steps * 64 || rounded == (steps + 1) * 64);
    } else if spacing == 128 {
        assert(rounded == steps * 128 || rounded == (steps + 1) * 128);
    } else {
        assert(rounded == steps * 256 || rounded == (steps + 1) * 256);
    }
}

/// Metadata travels in as many pieces of 16 KiB as it takes to hold its size in single precision.
pub proof fn law_pieces_hold_the_rounded_size(size: u32, rounded: int, spacing: int, pieces: u32)
    requires
        call_ensures(extension::metadata_pieces, (size,), pieces),
        rounds_to(size as int, rounded, spacing),
    ensures
        pieces * 16384 >= rounded,
        (pieces - 1) * 16384 < rounded,
{
    lemma_rounds_to(size, rounded, spacing);
}

// ---------------------------------------------------------------------------------------
// The extended handshake

proof fn lemma_request_bytes(piece: u32)
    ensures
        bencode::encoded_numbers(
            (Metadata { msg_type: 0, piece, total_size: None }).pairs(),
        ) == seq![
            100u8, 56, 58, 109, 115, 103, 95, 116, 121, 112, 101, 105, 48, 101, 53, 58, 112, 105,
            101, 99, 101, 105,
        ] + bencode::decimal(piece as nat) + seq![101u8, 101],
{
    let pairs = (Metadata { msg_type: 0, piece, total_size: None }).pairs();
    reveal_strlit("msg_type");
    reveal_strlit("piece");
    vstd::string::is_ascii_spec_bytes("msg_type");
    vstd::string::is_ascii_spec_bytes("piece");
    let msg_type = seq![109u8, 115, 103, 95, 116, 121, 112, 101];
    let name = seq![112u8, 105, 101, 99, 101];
    assert("msg_type".spec_bytes() =~= msg_type);
    assert("piece".spec_bytes() =~= name);
    let one = pairs.drop_last();
    assert(one =~= seq![(msg_type, 0nat)]);
    assert(one.drop_last() =~= Seq::empty());
    assert(bencode::encoded_pairs(one.drop_last()) =~= Seq::empty());
    assert(bencode::decimal(8) =~= seq![56u8]);
    assert(bencode::decimal(5) =~= seq![53u8]);
    assert(bencode::decimal(0) =~= seq![48u8]);
    assert(bencode::encoded_pairs(one) =~= seq![56u8, 58] + msg_type + seq![105u8, 48, 101]);
    assert(bencode::encoded_numbers(pairs) =~= seq![
        100u8, 56, 58, 109, 115, 103, 95, 116, 121, 112, 101, 105, 48, 101, 53, 58, 112, 105, 101,
        99, 101, 105,
    ] + bencode::decimal(piece as nat) + seq![101u8, 101]);
}

/// A peer that tells, while no piece of the info has come and for the first time, that it exchanges
/// metadata under `id` and that there are `size` bytes of it, is asked for all of it: for every
/// piece
/// of 16 KiB that the size in single precision takes, in order, and for each once. The k-th message
/// is `d8:msg_typei0e5:piecei`, the number k in decimal, and `ee`.
pub proof fn law_all_metadata_is_requested(
    peer: &mut Peer,
    torrent: &mut TorrentState,
    payload: Vec<u8>,
    bytes: &[u8],
    said: Extension,
    id: u8,
    size: u32,
    rounded: int,
    spacing: int,
    result: Result<Step, Halt>,
)
    requires
        call_ensures(
            Peer::run,
            (peer, torrent, Wait::Message, Event::Message(Message::Extended((0, payload)))),
            result,
        ),
        old(torrent).info_dict@.dom().is_empty(),
        old(peer).extension.m.ut_metadata is None,
        bytes@ == payload@,
        call_ensures(Extension::from_bencode, (bytes,), Ok::<Extension, Error>(said)),
        said.m.ut_metadata == Some(id),
        said.metadata_size == Some(size),
        rounds_to(size as int, rounded, spacing),
    ensures
        final(peer)@ == (PeerView { extension: said, ..old(peer)@ }),
        final(torrent)@ == old(torrent)@,
        result is Ok,
        result->Ok_0.actions@.len() * 16384 >= rounded,
        (result->Ok_0.actions@.len() - 1) * 16384 < rounded,
        forall|k: int|
            0 <= k < result->Ok_0.actions@.len() ==> {
                &&& #[trigger] result->Ok_0.actions@[k] matches Action::Send(
                    Message::Extended(extended),
                )
                &&& extended.0 == id
                &&& extended.1@ == seq![
                    100u8, 56, 58, 109, 115, 103, 95, 116, 121, 112, 101, 105, 48, 101, 53, 58, 112,
                    105, 101, 99, 101, 105,
                ] + bencode::decimal(k as nat) + seq![101u8, 101]
            },
        result->Ok_0.wait == Wait::Metadata(payload),
{
    assert(old(torrent)@.info_dict.dom() =~= old(torrent).info_dict@.dom());
    lemma_rounds_to(size, rounded, spacing);
    let actions = result->Ok_0.actions@;
    assert forall|k: int| 0 <= k < actions.len() implies {
        &&& #[trigger] actions[k] matches Action::Send(Message::Extended(extended))
        &&& extended.0 == id
        &&& extended.1@ == seq![
            100u8, 56, 58, 109, 115, 103, 95, 116, 121, 112, 101, 105, 48, 101, 53, 58, 112, 105,
            101, 99, 101, 105,
        ] + bencode::decimal(k as nat) + seq![101u8, 101]
    } by {
        lemma_request_bytes(k as u32);
    }
}

/// Up to 16 MiB, where single precision is exact, as many pieces are requested as hold the
/// metadata:
/// a piece for every multiple of 16 KiB below the size, and no other.
pub proof fn law_every_piece_of_metadata_is_requested(
    peer: &mut Peer,
    torrent: &mut TorrentState,
    payload: Vec<u8>,
    bytes: &[u8],
    said: Extension,
    id: u8,
    size: u32,
    result: Result<Step, Halt>,
)
    requires
        call_ensures(
            Peer::run,
            (peer, torrent, Wait::Message, Event::Message(Message::Extended((0, payload)))),
            result,
        ),
        old(torrent).info_dict@.dom().is_empty(),
        old(peer).extension.m.ut_metadata is None,
        bytes@ == payload@,
        call_ensures(Extension::from_bencode, (bytes,), Ok::<Extension, Error>(said)),
        said.m.ut_metadata == Some(id),
        said.metadata_size == Some(size),
        size <= 0x100_0000,
    ensures
        result is Ok,
        result->Ok_0.actions@.len() == (size + 16383) / 16384,
        forall|k: int|
            0 <= k < result->Ok_0.actions@.len() ==> {
                &&& #[trigger] result->Ok_0.actions@[k] matches Action::Send(
                    Message::Extended(extended),
                )
                &&& extended.0 == id
                &&& extended.1@ == seq![
                    100u8, 56, 58, 109, 115, 103, 95, 116, 121, 112, 101, 105, 48, 101, 53, 58, 112,
                    105, 101, 99, 101, 105,
                ] + bencode::decimal(k as nat) + seq![101u8, 101]
            },
{
    assert(old(torrent)@.info_dict.dom() =~= old(torrent).info_dict@.dom());
    let spacing: int = if size < 0x100_0000 {
        1
    } else {
        2
    };
    lemma_rounds_to(size, size as int, spacing);
    let actions = result->Ok_0.actions@;
    assert forall|k: int| 0 <= k < actions.len() implies {
        &&& #[trigger] actions[k] matches Action::Send(Message::Extended(extended))
        &&& extended.0 == id
        &&& extended.1@ == seq![
            100u8, 56, 58, 109, 115, 103, 95, 116, 121, 112, 101, 105, 48, 101, 53, 58, 112, 105,
            101, 99, 101, 105,
        ] + bencode::decimal(k as nat) + seq![101u8, 101]
    } by {
        lemma_request_bytes(k as u32);
    }
}

/// What a peer tells of its extensions is kept, whether it exchanges metadata or not; if it does
/// and
/// does not say how much there is, the client stops; if it does not, nothing is sent.
pub proof fn law_extensions_are_kept(
    peer: &mut Peer,
    torrent: &mut TorrentState,
    payload: Vec<u8>,
    bytes: &[u8],
    said: Extension,
    result: Result<Step, Halt>,
)
    requires
        call_ensures(
            Peer::run,
            (peer, torrent, Wait::Message, Event::Message(Message::Extended((0, payload)))),
            result,
        ),
        old(torrent).info_dict@.dom().is_empty(),
        old(peer).extension.m.ut_metadata is None,
        bytes@ == payload@,
        call_ensures(Extension::from_bencode, (bytes,), Ok::<Extension, Error>(said)),
    ensures
        final(peer)@ == (PeerView { extension: said, ..old(peer)@ }),
        final(torrent)@ == old(torrent)@,
        said.m.ut_metadata is Some && said.metadata_size is None ==> result == Err::<Step, Halt>(
            Halt::Abort(Abort::MissingMetadataSize),
        ),
        said.m.ut_metadata is None ==> result is Ok && result->Ok_0.actions@.len() == 0
            && result->Ok_0.wait == Wait::Message,
{
    assert(old(torrent)@.info_dict.dom() =~= old(torrent).info_dict@.dom());
}

/// An extended handshake that cannot be read ends the conversation and changes nothing.
pub proof fn law_unreadable_extensions_end_the_conversation(
    peer: &mut Peer,
    torrent: &mut TorrentState,
    payload: Vec<u8>,
    bytes: &[u8],
    error: Error,
    result: Result<Step, Halt>,
)
    requires
        call_ensures(
            Peer::run,
            (peer, torrent, Wait::Message, Event::Message(Message::Extended((0, payload)))),
            result,
        ),
        old(torrent).info_dict@.dom().is_empty(),
        old(peer).extension.m.ut_metadata is None,
        bytes@ == payload@,
        call_ensures(Extension::from_bencode, (bytes,), Err::<Extension, Error>(error)),
    ensures
        final(peer)@ == old(peer)@,
        final(torrent)@ == old(torrent)@,
        result == Err::<Step, Halt>(Halt::Error(Error::BencodeError)),
{
    assert(old(torrent)@.info_dict.dom() =~= old(torrent).info_dict@.dom());
}

/// A message of the extension protocol under another id than 0 changes nothing.
pub proof fn law_other_extensions_change_nothing(
    peer: &mut Peer,
    torrent: &mut TorrentState,
    id: u8,
    payload: Vec<u8>,
    result: Result<Step, Halt>,
)
    requires
        call_ensures(
            Peer::run,
            (peer, torrent, Wait::Message, Event::Message(Message::Extended((id, payload)))),
            result,
        ),
        id != 0,
    ensures
        final(peer)@ == old(peer)@,
        final(torrent)@ == old(torrent)@,
        result is Ok,
        result->Ok_0.actions@.len() == 0,
        result->Ok_0.wait == Wait::Message,
{
}

// ---------------------------------------------------------------------------------------
// The pieces of the info

/// A payload under the id 0 is looked at for a piece of the info: at once if the peer has told
/// before
/// that it exchanges metadata or a piece of the info has come before, and else when the metadata
/// was requested.
pub open spec fn looks_for_info(
    peer: Peer,
    torrent: TorrentState,
    payload: Vec<u8>,
    wait: Wait,
    event: Event,
) -> bool {
    ||| {
        &&& wait is Message
        &&& event == Event::Message(Message::Extended((0, payload)))
        &&& peer.extension.m.ut_metadata is Some || !torrent.info_dict@.dom().is_empty()
    }
    ||| wait == Wait::Metadata(payload) && event is Sent
}

/// Nothing is done with a payload of a peer that does not exchange metadata, nor with one that is
/// shorter than the metadata.
pub proof fn law_payload_without_info_changes_nothing(
    peer: &mut Peer,
    torrent: &mut TorrentState,
    payload: Vec<u8>,
    wait: Wait,
    event: Event,
    result: Result<Step, Halt>,
)
    requires
        call_ensures(Peer::run, (peer, torrent, wait, event), result),
        looks_for_info(*old(peer), *old(torrent), payload, wait, event),
        old(peer).extension.m.ut_metadata is None || (old(peer).extension.metadata_size is Some
            && payload@.len() as int % 0x1_0000_0000 < old(peer).extension.metadata_size->0),
    ensures
        final(peer)@ == old(peer)@,
        final(torrent)@ == old(torrent)@,
        result is Ok,
        result->Ok_0.actions@.len() == 0,
        result->Ok_0.wait == Wait::Message,
{
    assert(old(torrent)@.info_dict.dom() =~= old(torrent).info_dict@.dom());
}

/// A payload of a peer that exchanges metadata and has not said how much there is stops the client.
pub proof fn law_unknown_size_stops_the_client(
    peer: &mut Peer,
    torrent: &mut TorrentState,
    payload: Vec<u8>,
    wait: Wait,
    event: Event,
    result: Result<Step, Halt>,
)
    requires
        call_ensures(Peer::run, (peer, torrent, wait, event), result),
        looks_for_info(*old(peer), *old(torrent), payload, wait, event),
        old(peer).extension.m.ut_metadata is Some,
        old(peer).extension.metadata_size is None,
    ensures
        final(peer)@ == old(peer)@,
        final(torrent)@ == old(torrent)@,
        result == Err::<Step, Halt>(Halt::Abort(Abort::MissingMetadataSize)),
{
    assert(old(torrent)@.info_dict.dom() =~= old(torrent).info_dict@.dom());
}

/// A payload whose beginning cannot be read as a message about metadata ends the conversation and
/// changes nothing.
pub proof fn law_unreadable_metadata_ends_the_conversation(
    peer: &mut Peer,
    torrent: &mut TorrentState,
    payload: Vec<u8>,
    wait: Wait,
    event: Event,
    size: u32,
    begin: usize,
    error: Error,
    result: Result<Step, Halt>,
)
    requires
        call_ensures(Peer::run, (peer, torrent, wait, event), result),
        looks_for_info(*old(peer), *old(torrent), payload, wait, event),
        old(peer).extension.m.ut_metadata is Some,
        old(peer).extension.metadata_size == Some(size),
        payload@.len() as int % 0x1_0000_0000 >= size,
        begin + size == payload@.len(),
        call_ensures(
            Metadata::extract,
            (payload, begin),
            Err::<(Metadata, Vec<u8>), Error>(error),
        ),
    ensures
        final(peer)@ == old(peer)@,
        final(torrent)@ == old(torrent)@,
        result == Err::<Step, Halt>(Halt::Error(Error::BencodeError)),
{
    assert(old(torrent)@.info_dict.dom() =~= old(torrent).info_dict@.dom());
}

/// A piece of the info is stored under its number. While there are fewer than the info has, nothing
/// else is done.
pub proof fn law_pieces_of_info_are_collected(
    peer: &mut Peer,
    torrent: &mut TorrentState,
    payload: Vec<u8>,
    wait: Wait,
    event: Event,
    size: u32,
    begin: usize,
    metadata: Metadata,
    part: Vec<u8>,
    rounded: int,
    spacing: int,
    result: Result<Step, Halt>,
)
    requires
        call_ensures(Peer::run, (peer, torrent, wait, event), result),
        looks_for_info(*old(peer), *old(torrent), payload, wait, event),
        old(peer).extension.m.ut_metadata is Some,
        old(peer).extension.metadata_size == Some(size),
        payload@.len() as int % 0x1_0000_0000 >= size,
        begin + size == payload@.len(),
        call_ensures(
            Metadata::extract,
            (payload, begin),
            Ok::<(Metadata, Vec<u8>), Error>((metadata, part)),
        ),
        rounds_to(size as int, rounded, spacing),
        old(torrent)@.info_dict.insert(metadata.piece, part@).len() as int % 0x1_0000_0000 * 16384
            < rounded,
    ensures
        final(peer)@ == old(peer)@,
        final(torrent)@ == (TorrentView {
            info_dict: old(torrent)@.info_dict.insert(metadata.piece, part@),
            ..old(torrent)@
        }),
        result is Ok,
        result->Ok_0.actions@.len() == 0,
        result->Ok_0.wait == Wait::Message,
{
    assert(old(torrent)@.info_dict.dom() =~= old(torrent).info_dict@.dom());
    lemma_rounds_to(size, rounded, spacing);
}

/// Once all pieces are there and cannot be read as an info, the conversation ends, and the torrent
/// has
/// no other info than before.
pub proof fn law_unreadable_info_ends_the_conversation(
    peer: &mut Peer,
    torrent: &mut TorrentState,
    payload: Vec<u8>,
    wait: Wait,
    event: Event,
    size: u32,
    begin: usize,
    metadata: Metadata,
    part: Vec<u8>,
    rounded: int,
    spacing: int,
    whole: Vec<u8>,
    error: Error,
    result: Result<Step, Halt>,
)
    requires
        call_ensures(Peer::run, (peer, torrent, wait, event), result),
        looks_for_info(*old(peer), *old(torrent), payload, wait, event),
        old(peer).extension.m.ut_metadata is Some,
        old(peer).extension.metadata_size == Some(size),
        payload@.len() as int % 0x1_0000_0000 >= size,
        begin + size == payload@.len(),
        call_ensures(
            Metadata::extract,
            (payload, begin),
            Ok::<(Metadata, Vec<u8>), Error>((metadata, part)),
        ),
        rounds_to(size as int, rounded, spacing),
        call_ensures(TorrentState::info_bytes, (final(torrent),), whole),
        whole@.len() < 0x2000_0000_0000_0000,
        old(torrent)@.info_dict.insert(metadata.piece, part@).len() as int % 0x1_0000_0000 * 16384
            >= rounded,
        call_ensures(Info::from_bencode, (whole,), Err::<Info, Error>(error)),
    ensures
        final(peer)@ == old(peer)@,
        final(torrent)@ == (TorrentView {
            info_dict: old(torrent)@.info_dict.insert(metadata.piece, part@),
            ..old(torrent)@
        }),
        result == Err::<Step, Halt>(Halt::Error(Error::BencodeError)),
{
    assert(old(torrent)@.info_dict.dom() =~= old(torrent).info_dict@.dom());
    lemma_rounds_to(size, rounded, spacing);
}

/// An info of 2^61 bytes or more, of which no digest can be taken, stops the client, if it can be
/// read
/// at all; the torrent does not take it.
pub proof fn law_endless_info_stops_the_client(
    peer: &mut Peer,
    torrent: &mut TorrentState,
    payload: Vec<u8>,
    wait: Wait,
    event: Event,
    size: u32,
    begin: usize,
    metadata: Metadata,
    part: Vec<u8>,
    rounded: int,
    spacing: int,
    whole: Vec<u8>,
    read: Result<Info, Error>,
    result: Result<Step, Halt>,
)
    requires
        call_ensures(Peer::run, (peer, torrent, wait, event), result),
        looks_for_info(*old(peer), *old(torrent), payload, wait, event),
        old(peer).extension.m.ut_metadata is Some,
        old(peer).extension.metadata_size == Some(size),
        payload@.len() as int % 0x1_0000_0000 >= size,
        begin + size == payload@.len(),
        call_ensures(
            Metadata::extract,
            (payload, begin),
            Ok::<(Metadata, Vec<u8>), Error>((metadata, part)),
        ),
        rounds_to(size as int, rounded, spacing),
        call_ensures(TorrentState::info_bytes, (final(torrent),), whole),
        whole@.len() >= 0x2000_0000_0000_0000,
        old(torrent)@.info_dict.insert(metadata.piece, part@).len() as int % 0x1_0000_0000 * 16384
            >= rounded,
        call_ensures(Info::from_bencode, (whole,), read),
    ensures
        final(peer)@ == old(peer)@,
        final(torrent)@ == (TorrentView {
            info_dict: old(torrent)@.info_dict.insert(metadata.piece, part@),
            ..old(torrent)@
        }),
        read is Ok ==> result == Err::<Step, Halt>(Halt::Abort(Abort::InfoTooLong)),
        read is Err ==> result == Err::<Step, Halt>(Halt::Error(Error::BencodeError)),
{
    assert(old(torrent)@.info_dict.dom() =~= old(torrent).info_dict@.dom());
    lemma_rounds_to(size, rounded, spacing);
}

/// Whether `xt` spells `bytes` in lower-case hexadecimal digits.
pub open spec fn spells(xt: Seq<char>, bytes: Seq<u8>) -> bool {
    &&& xt.len() == 2 * bytes.len()
    &&& forall|i: int|
        0 <= i < bytes.len() ==> {
            let high = #[trigger] bytes[i] as int / 16;
            let low = bytes[i] as int % 16;
            &&& xt[2 * i] as int == if high < 10 {
                48 + high
            } else {
                87 + high
            }
            &&& xt[2 * i + 1] as int == if low < 10 {
                48 + low
            } else {
                87 + low
            }
        }
}

/// The spelling is the one that digests are given.
pub proof fn lemma_spells(xt: Seq<char>, bytes: Seq<u8>)
    ensures
        spells(xt, bytes) == (digest::hex_text(bytes) == xt),
{
    let text = digest::hex_text(bytes);
    if spells(xt, bytes) {
        assert forall|i: int| 0 <= i < text.len() implies text[i] == xt[i] by {
            let j = i / 2;
            let b = bytes[j];
        }
        assert(text =~= xt);
    }
    if text == xt {
        assert forall|i: int| 0 <= i < bytes.len() implies {
            let high = #[trigger] bytes[i] as int / 16;
            let low = bytes[i] as int % 16;
            &&& xt[2 * i] as int == if high < 10 {
                48 + high
            } else {
                87 + high
            }
            &&& xt[2 * i + 1] as int == if low < 10 {
                48 + low
            } else {
                87 + low
            }
        } by {
            assert((2 * i) / 2 == i && (2 * i + 1) / 2 == i);
            assert((2 * i) % 2 == 0 && (2 * i + 1) % 2 == 1);
        }
    }
}

/// An info whose SHA-1 digest the magnet link does not spell stops the client, and the torrent
/// does not
/// take it.
pub proof fn law_info_of_another_torrent_is_refused(
    peer: &mut Peer,
    torrent: &mut TorrentState,
    payload: Vec<u8>,
    wait: Wait,
    event: Event,
    size: u32,
    begin: usize,
    metadata: Metadata,
    part: Vec<u8>,
    rounded: int,
    spacing: int,
    whole: Vec<u8>,
    info: Info,
    result: Result<Step, Halt>,
)
    requires
        call_ensures(Peer::run, (peer, torrent, wait, event), result),
        looks_for_info(*old(peer), *old(torrent), payload, wait, event),
        old(peer).extension.m.ut_metadata is Some,
        old(peer).extension.metadata_size == Some(size),
        payload@.len() as int % 0x1_0000_0000 >= size,
        begin + size == payload@.len(),
        call_ensures(
            Metadata::extract,
            (payload, begin),
            Ok::<(Metadata, Vec<u8>), Error>((metadata, part)),
        ),
        rounds_to(size as int, rounded, spacing),
        call_ensures(TorrentState::info_bytes, (final(torrent),), whole),
        whole@.len() < 0x2000_0000_0000_0000,
        old(torrent)@.info_dict.insert(metadata.piece, part@).len() as int % 0x1_0000_0000 * 16384
            >= rounded,
        call_ensures(Info::from_bencode, (whole,), Ok::<Info, Error>(info)),
        old(peer).torrent_ctx is Some,
        old(peer).torrent_ctx->0.magnet.xt is Some,
        !spells(old(peer).torrent_ctx->0.magnet.xt->0@, digest::sha1_of(whole@)),
    ensures
        final(peer)@ == old(peer)@,
        final(torrent)@ == (TorrentView {
            info_dict: old(torrent)@.info_dict.insert(metadata.piece, part@),
            ..old(torrent)@
        }),
        result == Err::<Step, Halt>(Halt::Abort(Abort::InfoHashMismatch)),
{
    assert(old(torrent)@.info_dict.dom() =~= old(torrent).info_dict@.dom());
    lemma_rounds_to(size, rounded, spacing);
    lemma_spells(old(peer).torrent_ctx->0.magnet.xt->0@, digest::sha1_of(whole@));
}

/// An info whose SHA-1 digest the magnet link spells is taken by the torrent, and the disk is told
/// of
/// it. Then the next blocks are asked for, if the client is interested and the peer does not choke
/// it. Without a disk the client stops.
pub proof fn law_info_of_the_torrent_is_taken(
    peer: &mut Peer,
    torrent: &mut TorrentState,
    payload: Vec<u8>,
    wait: Wait,
    event: Event,
    size: u32,
    begin: usize,
    metadata: Metadata,
    part: Vec<u8>,
    rounded: int,
    spacing: int,
    whole: Vec<u8>,
    info: Info,
    result: Result<Step, Halt>,
)
    requires
        call_ensures(Peer::run, (peer, torrent, wait, event), result),
        looks_for_info(*old(peer), *old(torrent), payload, wait, event),
        old(peer).extension.m.ut_metadata is Some,
        old(peer).extension.metadata_size == Some(size),
        payload@.len() as int % 0x1_0000_0000 >= size,
        begin + size == payload@.len(),
        call_ensures(
            Metadata::extract,
            (payload, begin),
            Ok::<(Metadata, Vec<u8>), Error>((metadata, part)),
        ),
        rounds_to(size as int, rounded, spacing),
        call_ensures(TorrentState::info_bytes, (final(torrent),), whole),
        whole@.len() < 0x2000_0000_0000_0000,
        old(torrent)@.info_dict.insert(metadata.piece, part@).len() as int % 0x1_0000_0000 * 16384
            >= rounded,
        call_ensures(Info::from_bencode, (whole,), Ok::<Info, Error>(info)),
        old(peer).torrent_ctx is Some,
        old(peer).torrent_ctx->0.magnet.xt is Some,
        spells(old(peer).torrent_ctx->0.magnet.xt->0@, digest::sha1_of(whole@)),
        old(peer).pieces@.len() <= usize::MAX,
    ensures
        final(peer)@ == old(peer)@,
        final(torrent)@ == (TorrentView {
            info: info@,
            info_dict: old(torrent)@.info_dict.insert(metadata.piece, part@),
            ..old(torrent)@
        }),
        !old(peer).has_disk ==> result == Err::<Step, Halt>(Halt::Abort(Abort::NoDisk)),
        old(peer).has_disk ==> {
            let told = result->Ok_0.actions@;
            &&& result is Ok
            &&& told.len() > 0
            &&& told[0] matches Action::Disk(DiskMsg::NewTorrent(new))
            &&& new@ == info@
            &&& !old(peer).am_interested || old(peer).peer_choking ==> told.len() == 1
                && result->Ok_0.wait == Wait::Message
            &&& old(peer).am_interested && !old(peer).peer_choking
                ==> laws_run::asks_for_the_first(
                old(peer).pieces@,
                *final(torrent),
                told.subrange(1, told.len() as int),
                result->Ok_0.wait,
            )
        },
{
    assert(old(torrent)@.info_dict.dom() =~= old(torrent).info_dict@.dom());
    lemma_rounds_to(size, rounded, spacing);
    lemma_spells(old(peer).torrent_ctx->0.magnet.xt->0@, digest::sha1_of(whole@));
    laws_run::lemma_asks_for_the_first(old(peer).pieces@, old(peer)@, *final(torrent));
    if result is Ok {
        let told = result->Ok_0.actions@;
        if old(peer).am_interested && !old(peer).peer_choking {
            assert(told.subrange(1, told.len() as int) =~= crate::session::ask_for_blocks(
                old(peer)@,
                final(torrent)@,
            ));
        }
    }
}

// ---------------------------------------------------------------------------------------
// The same, from what was read

/// What a peer has told is kept. If it exchanges metadata and has said how much there is, all of it
/// is requested, in order; if it has not said, the client stops.
pub proof fn law_told_extension_is_acted_upon(
    peer: &mut Peer,
    torrent: &mut TorrentState,
    said: Extension,
    payload: Vec<u8>,
    id: u8,
    size: u32,
    rounded: int,
    spacing: int,
    result: Result<Step, Halt>,
)
    requires
        call_ensures(Peer::extension_received, (peer, torrent, said, payload), result),
        rounds_to(size as int, rounded, spacing),
    ensures
        final(peer)@ == (PeerView { extension: said, ..old(peer)@ }),
        final(torrent)@ == old(torrent)@,
        said.m.ut_metadata is None ==> result is Ok && result->Ok_0.actions@.len() == 0
            && result->Ok_0.wait == Wait::Message,
        said.m.ut_metadata is Some && said.metadata_size is None ==> result == Err::<Step, Halt>(
            Halt::Abort(Abort::MissingMetadataSize),
        ),
        said.m.ut_metadata == Some(id) && said.metadata_size == Some(size) ==> {
            &&& result is Ok
            &&& result->Ok_0.wait == Wait::Metadata(payload)
            &&& result->Ok_0.actions@.len() * 16384 >= rounded
            &&& (result->Ok_0.actions@.len() - 1) * 16384 < rounded
            &&& forall|k: int|
                0 <= k < result->Ok_0.actions@.len() ==> {
                    &&& #[trigger] result->Ok_0.actions@[k] matches Action::Send(
                        Message::Extended(extended),
                    )
                    &&& extended.0 == id
                    &&& extended.1@ == seq![
                        100u8, 56, 58, 109, 115, 103, 95, 116, 121, 112, 101, 105, 48, 101, 53, 58,
                        112, 105, 101, 99, 101, 105,
                    ] + bencode::decimal(k as nat) + seq![101u8, 101]
                }
        },
{
    lemma_rounds_to(size, rounded, spacing);
    if said.m.ut_metadata == Some(id) && said.metadata_size == Some(size) {
        let actions = result->Ok_0.actions@;
        assert forall|k: int| 0 <= k < actions.len() implies {
            &&& #[trigger] actions[k] matches Action::Send(Message::Extended(extended))
            &&& extended.0 == id
            &&& extended.1@ == seq![
                100u8, 56, 58, 109, 115, 103, 95, 116, 121, 112, 101, 105, 48, 101, 53, 58, 112, 105,
                101, 99, 101, 105,
            ] + bencode::decimal(k as nat) + seq![101u8, 101]
        } by {
            lemma_request_bytes(k as u32);
        }
    }
}

/// A piece of the info is stored. The info is looked at once there are as many pieces as it has: if
/// it cannot be read, the conversation ends; if the magnet link does not spell its digest, the
/// client stops; else the torrent takes it.
pub proof fn law_piece_of_info_is_acted_upon(
    peer: Peer,
    torrent: &mut TorrentState,
    size: u32,
    piece: u32,
    bytes: Vec<u8>,
    rounded: int,
    spacing: int,
    whole: Vec<u8>,
    read: Result<Info, Error>,
    result: Result<Step, Halt>,
)
    requires
        call_ensures(Peer::info_piece_received, (&peer, torrent, size, piece, bytes), result),
        rounds_to(size as int, rounded, spacing),
        call_ensures(TorrentState::info_bytes, (final(torrent),), whole),
        call_ensures(Info::from_bencode, (whole,), read),
        whole@.len() < 0x2000_0000_0000_0000,
        peer.torrent_ctx is Some,
        peer.torrent_ctx->0.magnet.xt is Some,
    ensures
        ({
            let stored = TorrentView {
                info_dict: old(torrent)@.info_dict.insert(piece, bytes@),
                ..old(torrent)@
            };
            let all = stored.info_dict.len() as int % 0x1_0000_0000 * 16384 >= rounded;
            let same = spells(peer.torrent_ctx->0.magnet.xt->0@, digest::sha1_of(whole@));
            &&& !all ==> final(torrent)@ == stored && result is Ok && result->Ok_0.actions@.len()
                == 0 && result->Ok_0.wait == Wait::Message
            &&& all && read is Err ==> final(torrent)@ == stored && result == Err::<Step, Halt>(
                Halt::Error(Error::BencodeError),
            )
            &&& all && read is Ok && !same ==> final(torrent)@ == stored && result == Err::<
                Step,
                Halt,
            >(Halt::Abort(Abort::InfoHashMismatch))
            &&& all && read is Ok && same ==> final(torrent)@ == (TorrentView {
                info: read->Ok_0@,
                ..stored
            }) && (peer.has_disk <==> result is Ok)
        }),
{
    lemma_rounds_to(size, rounded, spacing);
    lemma_spells(peer.torrent_ctx->0.magnet.xt->0@, digest::sha1_of(whole@));
}

/// An info is taken if the magnet link spells its digest, and the disk is told of it, before blocks
/// are asked for; if the link does not, the client stops, and without a disk it stops as well.
pub proof fn law_digest_decides_on_the_info(
    peer: Peer,
    torrent: &mut TorrentState,
    info: Info,
    digest: [u8; 20],
    result: Result<Step, Halt>,
)
    requires
        call_ensures(Peer::info_received, (&peer, torrent, info, digest), result),
        peer.pieces@.len() <= usize::MAX,
        peer.torrent_ctx is Some,
        peer.torrent_ctx->0.magnet.xt is Some,
    ensures
        !spells(peer.torrent_ctx->0.magnet.xt->0@, digest@) ==> final(torrent)@ == old(torrent)@
            && result == Err::<Step, Halt>(Halt::Abort(Abort::InfoHashMismatch)),
        spells(peer.torrent_ctx->0.magnet.xt->0@, digest@) ==> final(torrent)@ == (TorrentView {
            info: info@,
            ..old(torrent)@
        }) && (!peer.has_disk ==> result == Err::<Step, Halt>(Halt::Abort(Abort::NoDisk))),
        spells(peer.torrent_ctx->0.magnet.xt->0@, digest@) && peer.has_disk ==> {
            let told = result->Ok_0.actions@;
            &&& result is Ok
            &&& told.len() > 0
            &&& told[0] matches Action::Disk(DiskMsg::NewTorrent(new))
            &&& new@ == info@
            &&& !peer.am_interested || peer.peer_choking ==> told.len() == 1
                && result->Ok_0.wait == Wait::Message
            &&& peer.am_interested && !peer.peer_choking ==> laws_run::asks_for_the_first(
                peer.pieces@,
                *final(torrent),
                told.subrange(1, told.len() as int),
                result->Ok_0.wait,
            )
        },
{
    lemma_spells(peer.torrent_ctx->0.magnet.xt->0@, digest@);
    laws_run::lemma_asks_for_the_first(peer.pieces@, peer@, *final(torrent));
    if result is Ok && peer.am_interested && !peer.peer_choking {
        let told = result->Ok_0.actions@;
        assert(told.subrange(1, told.len() as int) =~= crate::session::ask_for_blocks(
            peer@,
            final(torrent)@,
        ));
    }
}

} // verus!
