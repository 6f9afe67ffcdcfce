//! The extension protocol (BEP 10), and the exchange of metadata over it (BEP 9).

use crate::bencode::{
    self, dictionary_at, encode_numbers, find_value, read_number_at, read_tokens, Entry, Token,
};
use crate::blocks::BLOCK_LEN;
use crate::error::Error;
use vstd::prelude::*;
use vstd::string::StringSliceAdditionalSpecFns;

verus! {

/// The extension messages that a peer supports.
#[derive(Debug, Clone, Copy, PartialEq, Eq)]
pub struct M {
    /// The id under which the peer takes metadata messages.
    pub ut_metadata: Option<u8>,
}

/// What a peer says of itself in its extended handshake.
#[derive(Debug, Clone, Copy, PartialEq, Eq)]
pub struct Extension {
    pub m: M,
    /// How many bytes the info dictionary of the torrent has.
    pub metadata_size: Option<u32>,
}

/// The extension of a peer that has said nothing.
pub open spec fn no_extension() -> Extension {
    Extension { m: M { ut_metadata: None }, metadata_size: None }
}

impl Default for Extension {
    fn default() -> (extension: Extension)
        ensures
            extension == no_extension(),
    {
        Extension { m: M { ut_metadata: None }, metadata_size: None }
    }
}

/// The number under `key`: `Some(None)` if there is no such key, `None` if there is something
/// else than a number up to `max`.
pub open spec fn optional_number(
    tokens: Seq<bencode::TokenView>,
    entries: Seq<(Seq<u8>, int)>,
    key: Seq<u8>,
    max: nat,
) -> Option<Option<nat>> {
    match bencode::value_of(entries, key) {
        None => Some(None),
        Some(at) => match bencode::number_at(tokens, at, max) {
            Some(n) => Some(Some(n)),
            None => None,
        },
    }
}

fn read_optional_number(
    tokens: &Vec<Token>,
    entries: &Vec<Entry>,
    key: &str,
    max: u32,
    Ghost(view): Ghost<Seq<(Seq<u8>, int)>>,
) -> (number: Option<Option<u32>>)
    requires
        bencode::entries_are(bencode::token_views(tokens@), entries@, view),
    ensures
        match number {
            Some(Some(n)) => n <= max && optional_number(
                bencode::token_views(tokens@),
                view,
                key.spec_bytes(),
                max as nat,
            ) == Some(Some(n as nat)),
            Some(None) => optional_number(
                bencode::token_views(tokens@),
                view,
                key.spec_bytes(),
                max as nat,
            ) == Some(None::<nat>),
            None => optional_number(
                bencode::token_views(tokens@),
                view,
                key.spec_bytes(),
                max as nat,
            ) is None,
        },
{
    match find_value(tokens, entries, key, Ghost(view)) {
        None => Some(None),
        Some(at) => match read_number_at(tokens, at, max) {
            Some(n) => Some(Some(n)),
            None => None,
        },
    }
}

/// The dictionary of supported messages that begins at `at`.
pub open spec fn m_at(tokens: Seq<bencode::TokenView>, at: int) -> Option<M> {
    match bencode::entries_at(tokens, at) {
        None => None,
        Some(entries) => match optional_number(
            tokens,
            entries,
            "ut_metadata".spec_bytes(),
            255,
        ) {
            None => None,
            Some(None) => Some(M { ut_metadata: None }),
            Some(Some(id)) => Some(M { ut_metadata: Some(id as u8) }),
        },
    }
}

/// The extended handshake that the tokens are: a dictionary in which `m`, if present, is a
/// dictionary whose `ut_metadata`, if present, is a byte, and `metadata_size`, if present, is a
/// 32-bit number. Other keys do not matter, nor does what follows the dictionary.
pub open spec fn extension_of(tokens: Seq<bencode::TokenView>) -> Option<Extension> {
    match bencode::entries_at(tokens, 0) {
        None => None,
        Some(entries) => {
            let m = match bencode::value_of(entries, "m".spec_bytes()) {
                None => Some(M { ut_metadata: None }),
                Some(at) => m_at(tokens, at),
            };
            let size = optional_number(
                tokens,
                entries,
                "metadata_size".spec_bytes(),
                u32::MAX as nat,
            );
            match (m, size) {
                (Some(m), Some(None)) => Some(Extension { m, metadata_size: None }),
                (Some(m), Some(Some(n))) => Some(Extension { m, metadata_size: Some(n as u32) }),
                _ => None,
            }
        },
    }
}

fn read_m(tokens: &Vec<Token>, at: usize) -> (m: Option<M>)
    ensures
        m == m_at(bencode::token_views(tokens@), at as int),
{
    let ghost views = bencode::token_views(tokens@);
    match dictionary_at(tokens, at) {
        None => None,
        Some(entries) => {
            let ghost view = bencode::entries_at(views, at as int)->0;
            match read_optional_number(tokens, &entries, "ut_metadata", 255, Ghost(view)) {
                None => None,
                Some(None) => Some(M { ut_metadata: None }),
                Some(Some(id)) => Some(M { ut_metadata: Some(id as u8) }),
            }
        },
    }
}

impl Extension {
    /// The extended handshake that the tokens are, or `None` if they are none.
    pub fn from_tokens(tokens: &Vec<Token>) -> (extension: Option<Extension>)
        ensures
            extension == extension_of(bencode::token_views(tokens@)),
    {
        let ghost views = bencode::token_views(tokens@);
        let entries = match dictionary_at(tokens, 0) {
            None => {
                return None;
            },
            Some(entries) => entries,
        };
        let ghost view = bencode::entries_at(views, 0)->0;
        let m = match find_value(tokens, &entries, "m", Ghost(view)) {
            None => M { ut_metadata: None },
            Some(at) => match read_m(tokens, at) {
                None => {
                    return None;
                },
                Some(m) => m,
            },
        };
        match read_optional_number(tokens, &entries, "metadata_size", u32::MAX, Ghost(view)) {
            None => None,
            Some(metadata_size) => Some(Extension { m, metadata_size }),
        }
    }

    /// The extended handshake that a payload is.
    pub fn from_bencode(payload: &[u8]) -> (extension: Result<Extension, Error>)
        ensures
            match extension_of(bencode::bencode_tokens(payload@)) {
                Some(decoded) => extension == Ok::<Extension, Error>(decoded),
                None => extension == Err::<Extension, Error>(Error::BencodeError),
            },
    {
        let tokens = read_tokens(payload);
        match Extension::from_tokens(&tokens) {
            Some(extension) => Ok(extension),
            None => Err(Error::BencodeError),
        }
    }
}

// ---------------------------------------------------------------------------------------
// Metadata

/// The distance between the single-precision numbers around `n`.
pub open spec fn single_spacing(n: int) -> int {
    if n < 0x100_0000 {
        1
    } else if n < 0x200_0000 {
        2
    } else if n < 0x400_0000 {
        4
    } else if n < 0x800_0000 {
        8
    } else if n < 0x1000_0000 {
        16
    } else if n < 0x2000_0000 {
        32
    } else if n < 0x4000_0000 {
        64
    } else if n < 0x8000_0000 {
        128
    } else {
        256
    }
}

/// The single-precision number nearest to `n`; of two, the one with the even significand.
pub open spec fn nearest_single(n: int) -> int {
    let spacing = single_spacing(n);
    let steps = n / spacing;
    let over = n % spacing;
    if 2 * over < spacing || (2 * over == spacing && steps % 2 == 0) {
        steps * spacing
    } else {
        (steps + 1) * spacing
    }
}

/// In how many pieces metadata of `size` bytes travels: the size in single precision, divided
/// by [`BLOCK_LEN`] and rounded up.
pub open spec fn pieces_for(size: int) -> int {
    (nearest_single(size) + BLOCK_LEN - 1) / BLOCK_LEN as int
}

/// In how many pieces metadata of `size` bytes travels.
pub fn metadata_pieces(size: u32) -> (pieces: u32)
    ensures
        pieces == pieces_for(size as int),
        pieces <= 0x4_0000,
{
    let n: u64 = size as u64;
    let spacing: u64 = if n < 0x100_0000 {
        1
    } else if n < 0x200_0000 {
        2
    } else if n < 0x400_0000 {
        4
    } else if n < 0x800_0000 {
        8
    } else if n < 0x1000_0000 {
        16
    } else if n < 0x2000_0000 {
        32
    } else if n < 0x4000_0000 {
        64
    } else if n < 0x8000_0000 {
        128
    } else {
        256
    };
    let steps: u64 = n / spacing;
    let over: u64 = n % spacing;
    proof {
        vstd::arithmetic::div_mod::lemma_fundamental_div_mod(n as int, spacing as int);
        assert(steps * spacing <= n) by (nonlinear_arith)
            requires
                n == spacing * steps + over,
                over >= 0,
        ;
        assert((steps + 1) * spacing == steps * spacing + spacing) by (nonlinear_arith);
    }
    let nearest: u64 = if 2 * over < spacing || (2 * over == spacing && steps % 2 == 0) {
        steps * spacing
    } else {
        (steps + 1) * spacing
    };
    proof {
        assert(nearest <= 0x1_0000_0000) by {
            if nearest > n {
                // The top of the range is a multiple of every spacing.
                assert(steps < 0x1_0000_0000int / spacing as int) by (nonlinear_arith)
                    requires
                        n < 0x1_0000_0000,
                        steps * spacing <= n,
                        spacing == 1 || spacing == 2 || spacing == 4 || spacing == 8 || spacing
                            == 16 || spacing == 32 || spacing == 64 || spacing == 128 || spacing
                            == 256,
                ;
                assert((steps + 1) * spacing <= 0x1_0000_0000) by (nonlinear_arith)
                    requires
                        steps < 0x1_0000_0000int / spacing as int,
                        spacing == 1 || spacing == 2 || spacing == 4 || spacing == 8 || spacing
                            == 16 || spacing == 32 || spacing == 64 || spacing == 128 || spacing
                            == 256,
                ;
            }
        }
    }
    ((nearest + (BLOCK_LEN as u64 - 1)) / BLOCK_LEN as u64) as u32
}

/// A message about the metadata of the torrent.
#[derive(Debug, Clone, Copy, PartialEq, Eq)]
pub struct Metadata {
    /// 0 for a request, 1 for data, 2 for a refusal.
    pub msg_type: u8,
    /// The piece of the metadata that the message is about.
    pub piece: u32,
    /// How many bytes the whole metadata has.
    pub total_size: Option<u32>,
}

/// The metadata message that the tokens are: a dictionary in which `msg_type` is a byte and
/// `piece` a 32-bit number, both present, and `total_size`, if present, a 32-bit number.
pub open spec fn metadata_of(tokens: Seq<bencode::TokenView>) -> Option<Metadata> {
    match bencode::entries_at(tokens, 0) {
        None => None,
        Some(entries) => match (
            optional_number(tokens, entries, "msg_type".spec_bytes(), 255),
            optional_number(tokens, entries, "piece".spec_bytes(), u32::MAX as nat),
            optional_number(tokens, entries, "total_size".spec_bytes(), u32::MAX as nat),
        ) {
            (Some(Some(msg_type)), Some(Some(piece)), Some(None)) => Some(
                Metadata { msg_type: msg_type as u8, piece: piece as u32, total_size: None },
            ),
            (Some(Some(msg_type)), Some(Some(piece)), Some(Some(size))) => Some(
                Metadata {
                    msg_type: msg_type as u8,
                    piece: piece as u32,
                    total_size: Some(size as u32),
                },
            ),
            _ => None,
        },
    }
}

proof fn lemma_metadata_keys()
    ensures
        "msg_type".spec_bytes().len() > 0,
        "piece".spec_bytes().len() > 0,
        "total_size".spec_bytes().len() > 0,
        "msg_type".spec_bytes()[0] == 0x6d,
        "piece".spec_bytes()[0] == 0x70,
        "total_size".spec_bytes()[0] == 0x74,
{
    reveal_strlit("msg_type");
    reveal_strlit("piece");
    reveal_strlit("total_size");
    vstd::string::is_ascii_spec_bytes("msg_type");
    vstd::string::is_ascii_spec_bytes("piece");
    vstd::string::is_ascii_spec_bytes("total_size");
}

fn key_bytes(key: &str) -> (bytes: Vec<u8>)
    ensures
        bytes@ == key.spec_bytes(),
{
    vstd::slice::slice_to_vec(key.as_bytes())
}

impl Metadata {
    /// The pairs of the dictionary that the message is.
    pub open spec fn pairs(self) -> Seq<(Seq<u8>, nat)> {
        let required = seq![
            ("msg_type".spec_bytes(), self.msg_type as nat),
            ("piece".spec_bytes(), self.piece as nat),
        ];
        match self.total_size {
            Some(size) => required.push(("total_size".spec_bytes(), size as nat)),
            None => required,
        }
    }

    /// The request for a piece of the metadata.
    pub fn request(piece: u32) -> (metadata: Metadata)
        ensures
            metadata == (Metadata { msg_type: 0, piece, total_size: None }),
    {
        Metadata { msg_type: 0, piece, total_size: None }
    }

    /// The payload of the message. Reading it gives the message back.
    pub fn to_bencode(&self) -> (payload: Result<Vec<u8>, Error>)
        ensures
            payload is Ok,
            payload->Ok_0@ == bencode::encoded_numbers(self.pairs()),
            metadata_of(bencode::bencode_tokens(payload->Ok_0@)) == Some(*self),
    {
        let mut pairs: Vec<(Vec<u8>, u32)> = Vec::new();
        pairs.push((key_bytes("msg_type"), self.msg_type as u32));
        pairs.push((key_bytes("piece"), self.piece));
        if let Some(size) = self.total_size {
            pairs.push((key_bytes("total_size"), size));
        }
        proof {
            lemma_metadata_keys();
            assert forall|i: int, j: int| 0 <= i < j < pairs@.len() implies bencode::precedes(
                #[trigger] pairs@[i].0@,
                #[trigger] pairs@[j].0@,
            ) by {
                assert(pairs@[i].0@.take(0) =~= pairs@[j].0@.take(0));
            }
            assert(bencode::pair_views(pairs@) =~= self.pairs());
        }
        match encode_numbers(pairs) {
            Ok(payload) => {
                proof {
                    lemma_metadata_tokens(*self);
                }
                Ok(payload)
            },
            Err(_) => Err(Error::BencodeError),
        }
    }

    /// The metadata message that the tokens are, or `None` if they are none.
    pub fn from_tokens(tokens: &Vec<Token>) -> (metadata: Option<Metadata>)
        ensures
            metadata == metadata_of(bencode::token_views(tokens@)),
    {
        let ghost views = bencode::token_views(tokens@);
        let entries = match dictionary_at(tokens, 0) {
            None => {
                return None;
            },
            Some(entries) => entries,
        };
        let ghost view = bencode::entries_at(views, 0)->0;
        let msg_type = read_optional_number(tokens, &entries, "msg_type", 255, Ghost(view));
        let piece = read_optional_number(tokens, &entries, "piece", u32::MAX, Ghost(view));
        let size = read_optional_number(tokens, &entries, "total_size", u32::MAX, Ghost(view));
        match (msg_type, piece, size) {
            (Some(Some(msg_type)), Some(Some(piece)), Some(total_size)) => Some(
                Metadata { msg_type: msg_type as u8, piece, total_size },
            ),
            _ => None,
        }
    }

    /// Cuts a payload into the metadata message at its beginning and the bytes that follow from
    /// `info_begin` on.
    pub fn extract(payload: Vec<u8>, info_begin: usize) -> (parts: Result<
        (Metadata, Vec<u8>),
        Error,
    >)
        requires
            info_begin <= payload@.len(),
        ensures
            match metadata_of(bencode::bencode_tokens(payload@.take(info_begin as int))) {
                Some(metadata) => {
                    &&& parts is Ok
                    &&& parts->Ok_0.0 == metadata
                    &&& parts->Ok_0.1@ == payload@.skip(info_begin as int)
                },
                None => parts == Err::<(Metadata, Vec<u8>), Error>(Error::BencodeError),
            },
    {
        let mut header = payload;
        let info = header.split_off(info_begin);
        proof {
            assert(header@ =~= payload@.take(info_begin as int));
            assert(info@ =~= payload@.skip(info_begin as int));
        }
        let tokens = read_tokens(header.as_slice());
        match Metadata::from_tokens(&tokens) {
            Some(metadata) => Ok((metadata, info)),
            None => Err(Error::BencodeError),
        }
    }
}

/// The tokens of a metadata message are read as the message.
proof fn lemma_metadata_tokens(metadata: Metadata)
    ensures
        metadata_of(
            seq![bencode::TokenView::Dict] + bencode::pair_tokens(metadata.pairs()) + seq![
                bencode::TokenView::End,
            ],
        ) == Some(metadata),
{
    lemma_metadata_keys();
    let pairs = metadata.pairs();
    let tokens = seq![bencode::TokenView::Dict] + bencode::pair_tokens(pairs) + seq![
        bencode::TokenView::End,
    ];
    bencode::lemma_number_dictionary(pairs);
    let entries = bencode::entries_at(tokens, 0)->0;
    bencode::lemma_decimal_round_trip(metadata.msg_type as nat);
    bencode::lemma_decimal_round_trip(metadata.piece as nat);
    assert(pairs[0] == ("msg_type".spec_bytes(), metadata.msg_type as nat));
    assert(pairs[1] == ("piece".spec_bytes(), metadata.piece as nat));
    assert(entries[0] == ("msg_type".spec_bytes(), 2int));
    assert(entries[1] == ("piece".spec_bytes(), 4int));
    assert(entries.drop_first()[0] == entries[1]);
    reveal_with_fuel(bencode::value_of, 4);
    match metadata.total_size {
        Some(size) => {
            bencode::lemma_decimal_round_trip(size as nat);
            assert(pairs[2] == ("total_size".spec_bytes(), size as nat));
            assert(entries[2] == ("total_size".spec_bytes(), 6int));
            assert(entries.drop_first().drop_first()[0] == entries[2]);
        },
        None => {
            assert(entries.drop_first().drop_first() =~= Seq::empty());
        },
    }
}

} // verus!
