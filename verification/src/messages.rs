//! What peers say to each other.

use crate::bencode::same_bytes;
use crate::bitfield;
use crate::bitfield::Bitfield;
use crate::blocks::{Block, BlockInfo};
use bitlab::SingleBits;
use vstd::prelude::*;

verus! {

/// A message of the peer wire protocol.
#[derive(Debug, PartialEq, Eq)]
pub enum Message {
    KeepAlive,
    Choke,
    Unchoke,
    Interested,
    NotInterested,
    Have(usize),
    Bitfield(Bitfield),
    Request(BlockInfo),
    Piece(Block),
    Cancel(BlockInfo),
    /// A message of the extension protocol: its id and its payload.
    Extended((u8, Vec<u8>)),
}

/// The name of the protocol, `BitTorrent protocol`.
pub open spec fn protocol_name() -> Seq<u8> {
    seq![
        66u8, 105, 116, 84, 111, 114, 114, 101, 110, 116, 32, 112, 114, 111, 116, 111, 99, 111, 108,
    ]
}

/// The first message in each direction.
#[derive(Debug, Clone, Copy, PartialEq, Eq)]
pub struct Handshake {
    pub pstr_len: u8,
    pub pstr: [u8; 19],
    pub reserved: [u8; 8],
    pub info_hash: [u8; 20],
    pub peer_id: [u8; 20],
}

/// How many bytes a handshake has.
pub const HANDSHAKE_LEN: usize = 68;

fn append(bytes: &mut Vec<u8>, more: &[u8])
    ensures
        final(bytes)@ == old(bytes)@ + more@,
{
    bytes.extend_from_slice(more);
    assert(bytes@ =~= old(bytes)@ + more@);
}

fn array_from<const N: usize>(bytes: &[u8], start: usize) -> (array: [u8; N])
    requires
        start + N <= bytes@.len(),
    ensures
        array@ == bytes@.subrange(start as int, start + N),
{
    let mut array: [u8; N] = [0;N];
    let mut i: usize = 0;
    while i < N
        invariant
            0 <= i <= N,
            start + N <= bytes@.len(),
            forall|k: int| 0 <= k < i ==> array@[k] == bytes@[start + k],
        decreases N - i,
    {
        assert(start + N <= bytes.len());
        array[i] = bytes[start + i];
        i += 1;
    }
    assert(array@ =~= bytes@.subrange(start as int, start + N));
    array
}

/// Calls `bitlab::SingleBits::get_bit`. What is claimed: it fails where the byte has no such bit,
/// and else gives the bit, counted from the most significant one.
#[verifier::external_body]
fn get_bit(byte: u8, offset: u32) -> (bit: Result<bool, String>)
    ensures
        match bit {
            Ok(set) => offset < 8 && set == bitfield::bit_of(byte, offset as int),
            Err(_) => offset >= 8,
        },
{
    byte.get_bit(offset)
}

impl Handshake {
    /// The bytes of the handshake on the wire.
    pub open spec fn wire(self) -> Seq<u8> {
        seq![self.pstr_len] + self.pstr@ + self.reserved@ + self.info_hash@ + self.peer_id@
    }

    /// Whether this handshake names the protocol and the torrent of `ours`.
    pub open spec fn answers(self, ours: Handshake) -> bool {
        &&& self.pstr_len == 19
        &&& self.pstr@ == protocol_name()
        &&& self.info_hash@ == ours.info_hash@
    }

    /// Whether the sender supports the extension protocol.
    pub open spec fn extensible(self) -> bool {
        bitfield::bit_of(self.reserved@[5], 3)
    }

    /// The handshake of a client that supports the extension protocol.
    pub fn new(info_hash: [u8; 20], peer_id: [u8; 20]) -> (handshake: Handshake)
        ensures
            handshake.pstr_len == 19,
            handshake.pstr@ == protocol_name(),
            handshake.reserved@ == seq![0u8, 0, 0, 0, 0, 0x10, 0, 0],
            handshake.extensible(),
            handshake.info_hash == info_hash,
            handshake.peer_id == peer_id,
    {
        let pstr: [u8; 19] = [
            66, 105, 116, 84, 111, 114, 114, 101, 110, 116, 32, 112, 114, 111, 116, 111, 99, 111,
            108,
        ];
        let reserved: [u8; 8] = [0, 0, 0, 0, 0, 0x10, 0, 0];
        assert(pstr@ =~= protocol_name());
        assert(reserved@ =~= seq![0u8, 0, 0, 0, 0, 0x10, 0, 0]);
        assert(0x10u8 & (0x80u8 >> 3u8) != 0) by (bit_vector);
        Handshake { pstr_len: 19, pstr, reserved, info_hash, peer_id }
    }

    /// The bytes to write to the socket.
    pub fn serialize(&self) -> (bytes: Vec<u8>)
        ensures
            bytes@ == self.wire(),
            bytes@.len() == HANDSHAKE_LEN,
    {
        let mut bytes: Vec<u8> = Vec::new();
        bytes.push(self.pstr_len);
        append(&mut bytes, self.pstr.as_slice());
        append(&mut bytes, self.reserved.as_slice());
        append(&mut bytes, self.info_hash.as_slice());
        append(&mut bytes, self.peer_id.as_slice());
        assert(bytes@ =~= self.wire());
        bytes
    }

    /// The handshake whose bytes were read from the socket.
    pub fn deserialize(bytes: &[u8]) -> (handshake: Handshake)
        requires
            bytes@.len() == HANDSHAKE_LEN,
        ensures
            handshake.wire() == bytes@,
    {
        let handshake = Handshake {
            pstr_len: bytes[0],
            pstr: array_from::<19>(bytes, 1),
            reserved: array_from::<8>(bytes, 20),
            info_hash: array_from::<20>(bytes, 28),
            peer_id: array_from::<20>(bytes, 48),
        };
        assert(handshake.wire() =~= bytes@);
        handshake
    }

    /// Whether the sender supports the extension protocol.
    pub fn supports_extensions(&self) -> (supported: bool)
        ensures
            supported == self.extensible(),
    {
        match get_bit(self.reserved[5], 3) {
            Ok(set) => set,
            Err(_) => false,
        }
    }

    /// Whether this handshake names the protocol and the torrent of `ours`.
    pub fn validate(&self, ours: &Handshake) -> (valid: bool)
        ensures
            valid == self.answers(*ours),
    {
        let model = Handshake::new(ours.info_hash, ours.peer_id);
        self.pstr_len == 19 && same_bytes(self.pstr.as_slice(), model.pstr.as_slice()) && same_bytes(
            self.info_hash.as_slice(),
            ours.info_hash.as_slice(),
        )
    }
}

/// Two handshakes with the same bytes are the same: reading what was written gives it back.
pub proof fn lemma_handshake_wire_is_injective(a: Handshake, b: Handshake)
    requires
        a.wire() == b.wire(),
    ensures
        a == b,
{
    let (x, y) = (a.wire(), b.wire());
    assert(x[0] == a.pstr_len && y[0] == b.pstr_len);
    assert(a.pstr@ =~= x.subrange(1, 20) && b.pstr@ =~= y.subrange(1, 20));
    assert(a.reserved@ =~= x.subrange(20, 28) && b.reserved@ =~= y.subrange(20, 28));
    assert(a.info_hash@ =~= x.subrange(28, 48) && b.info_hash@ =~= y.subrange(28, 48));
    assert(a.peer_id@ =~= x.subrange(48, 68) && b.peer_id@ =~= y.subrange(48, 68));
    assert(a.pstr =~= b.pstr);
    assert(a.reserved =~= b.reserved);
    assert(a.info_hash =~= b.info_hash);
    assert(a.peer_id =~= b.peer_id);
}

} // verus!
