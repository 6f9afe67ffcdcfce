//! The info dictionary of a torrent.

use crate::bencode::{self, dictionary_at, find_value, read_number_at, read_tokens, Token};
use crate::blocks::BLOCK_LEN;
use crate::error::Error;
use vstd::prelude::*;
use vstd::string::StringSliceAdditionalSpecFns;

verus! {

/// The info dictionary of a torrent.
#[derive(Debug, PartialEq, Eq)]
pub struct Info {
    /// How many bytes a piece has.
    pub piece_length: u32,
    /// The hashes of the pieces, 20 bytes for each.
    pub pieces: Vec<u8>,
    /// The dictionary as it was received. It also names the files, which the disk needs.
    pub bytes: Vec<u8>,
}

pub struct InfoView {
    pub piece_length: u32,
    pub pieces: Seq<u8>,
    pub bytes: Seq<u8>,
}

impl View for Info {
    type V = InfoView;

    open spec fn view(&self) -> InfoView {
        InfoView { piece_length: self.piece_length, pieces: self.pieces@, bytes: self.bytes@ }
    }
}

/// The length of a piece and the hashes of the pieces, from the tokens of an info dictionary:
/// `piece length` is a 32-bit number and `pieces` a byte string, both present.
pub open spec fn piece_fields_of(tokens: Seq<bencode::TokenView>) -> Option<(u32, Seq<u8>)> {
    match bencode::entries_at(tokens, 0) {
        None => None,
        Some(entries) => match (
            bencode::value_of(entries, "piece length".spec_bytes()),
            bencode::value_of(entries, "pieces".spec_bytes()),
        ) {
            (Some(length_at), Some(pieces_at)) => match (
                bencode::number_at(tokens, length_at, u32::MAX as nat),
                tokens[pieces_at],
            ) {
                (Some(length), bencode::TokenView::Bytes(pieces)) => Some((length as u32, pieces)),
                _ => None,
            },
            _ => None,
        },
    }
}

/// The info dictionary that `bytes` encode.
pub open spec fn info_of(bytes: Seq<u8>) -> Option<InfoView> {
    match piece_fields_of(bencode::bencode_tokens(bytes)) {
        Some((piece_length, pieces)) => Some(InfoView { piece_length, pieces, bytes }),
        None => None,
    }
}

fn copy_of(bytes: &Vec<u8>) -> (copy: Vec<u8>)
    ensures
        copy@ == bytes@,
{
    vstd::slice::slice_to_vec(bytes.as_slice())
}

impl InfoView {
    /// In how many blocks a piece travels.
    pub open spec fn blocks_per_piece(self) -> int {
        (self.piece_length + BLOCK_LEN - 1) / BLOCK_LEN as int
    }

    /// In how many blocks the torrent travels if its last piece is a full one, and at most the
    /// largest `u32`.
    pub open spec fn block_count(self) -> int {
        let blocks = (self.pieces.len() as int / 20) * self.blocks_per_piece();
        if blocks <= u32::MAX {
            blocks
        } else {
            u32::MAX as int
        }
    }
}

impl Info {
    /// The length of a piece and the hashes of the pieces, or `None` if the tokens are not those
    /// of an info dictionary.
    pub fn piece_fields(tokens: &Vec<Token>) -> (fields: Option<(u32, Vec<u8>)>)
        ensures
            match fields {
                Some(f) => piece_fields_of(bencode::token_views(tokens@)) == Some((f.0, f.1@)),
                None => piece_fields_of(bencode::token_views(tokens@)) is None,
            },
    {
        let ghost views = bencode::token_views(tokens@);
        let entries = match dictionary_at(tokens, 0) {
            None => {
                return None;
            },
            Some(entries) => entries,
        };
        let ghost view = bencode::entries_at(views, 0)->0;
        let length_at = find_value(tokens, &entries, "piece length", Ghost(view));
        let pieces_at = find_value(tokens, &entries, "pieces", Ghost(view));
        match (length_at, pieces_at) {
            (Some(length_at), Some(pieces_at)) => {
                let length = match read_number_at(tokens, length_at, u32::MAX) {
                    None => {
                        return None;
                    },
                    Some(length) => length,
                };
                assert(views[pieces_at as int] == tokens@[pieces_at as int]@);
                match &tokens[pieces_at] {
                    Token::Bytes(pieces) => Some((length, copy_of(pieces))),
                    _ => None,
                }
            },
            _ => None,
        }
    }

    /// The info dictionary that `bytes` encode.
    pub fn from_bencode(bytes: Vec<u8>) -> (info: Result<Info, Error>)
        ensures
            match info_of(bytes@) {
                Some(decoded) => info is Ok && info->Ok_0@ == decoded,
                None => info == Err::<Info, Error>(Error::BencodeError),
            },
    {
        let tokens = read_tokens(bytes.as_slice());
        match Info::piece_fields(&tokens) {
            Some((piece_length, pieces)) => Ok(Info { piece_length, pieces, bytes }),
            None => Err(Error::BencodeError),
        }
    }

    /// In how many blocks the torrent travels if its last piece is a full one, and at most the
    /// largest `u32`.
    pub fn blocks_len(&self) -> (n: u32)
        ensures
            n == self@.block_count(),
    {
        let pieces: u64 = self.pieces.len() as u64 / 20;
        let per_piece: u64 = (self.piece_length as u64 + (BLOCK_LEN as u64 - 1)) / BLOCK_LEN as u64;
        assert(per_piece <= 0x4_0000);
        if per_piece == 0 {
            assert(self@.block_count() == 0) by {
                assert(pieces * 0 == 0) by (nonlinear_arith);
            }
            return 0;
        }
        if pieces > u32::MAX as u64 {
            proof {
                assert(pieces * per_piece > u32::MAX) by (nonlinear_arith)
                    requires
                        pieces > u32::MAX,
                        per_piece >= 1,
                ;
            }
            return u32::MAX;
        }
        proof {
            assert(pieces * per_piece <= 0xffff_ffff * 0x4_0000) by (nonlinear_arith)
                requires
                    pieces <= 0xffff_ffff,
                    per_piece <= 0x4_0000,
            ;
        }
        let blocks: u64 = pieces * per_piece;
        if blocks <= u32::MAX as u64 {
            blocks as u32
        } else {
            u32::MAX
        }
    }
}

impl Default for Info {
    fn default() -> (info: Info)
        ensures
            info@ == (InfoView { piece_length: 0, pieces: Seq::empty(), bytes: Seq::empty() }),
    {
        Info { piece_length: 0, pieces: Vec::new(), bytes: Vec::new() }
    }
}

impl Clone for Info {
    fn clone(&self) -> (copy: Info)
        ensures
            copy@ == self@,
    {
        Info {
            piece_length: self.piece_length,
            pieces: copy_of(&self.pieces),
            bytes: copy_of(&self.bytes),
        }
    }
}

} // verus!
