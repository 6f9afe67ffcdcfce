use torrent_peer::bencode::Token;
use torrent_peer::bitfield::{BitItem, Bitfield};
use torrent_peer::blocks::{Block, BlockInfo, BLOCK_LEN};
use torrent_peer::error::Error;
use torrent_peer::extension::{metadata_pieces, Extension, Metadata, M};
use torrent_peer::magnet::get_info_hash;
use torrent_peer::messages::{Handshake, HANDSHAKE_LEN};
use torrent_peer::metainfo::Info;
use torrent_peer::session::is_info_hash;

const SHA1_OF_NOTHING: &str = "da39a3ee5e6b4b0d3255bfef95601890afd80709";

// bitfields

#[test]
fn bits_are_packed_from_the_most_significant_one() {
    let bits = Bitfield::from(vec![0b1000_0001, 0b0100_0000]);
    assert_eq!(bits.len(), 16);
    assert_eq!(bits.len_bytes(), 2);
    let set: Vec<usize> = (0..16).filter(|i| bits.get(*i).unwrap().bit).collect();
    assert_eq!(set, vec![0, 7, 9]);
    assert_eq!(bits.get(9), Some(BitItem { index: 9, bit: true }));
    assert_eq!(bits.get(16), None);
}

#[test]
fn bits_are_set_and_cleared_alone() {
    let mut bits = Bitfield::from(vec![0, 0]);
    bits.set(3);
    bits.set(15);
    assert_eq!(bits, Bitfield::from(vec![0b0001_0000, 0b0000_0001]));
    bits.clear(3);
    assert_eq!(bits, Bitfield::from(vec![0, 1]));
    bits.clear(3);
    assert_eq!(bits, Bitfield::from(vec![0, 1]));
}

#[test]
fn bits_out_of_range_do_not_matter() {
    let mut bits = Bitfield::from(vec![0b1010_1010]);
    bits.set(8);
    bits.clear(100);
    assert_eq!(bits, Bitfield::from(vec![0b1010_1010]));
    let mut none = Bitfield::default();
    none.set(0);
    assert_eq!(none.len(), 0);
    assert_eq!(none.clone(), Bitfield::from(vec![]));
}

#[test]
fn find_gives_the_first_bit() {
    let bits = Bitfield::from(vec![0b0010_0100]);
    assert_eq!(bits.find(|item| item.bit), Some(BitItem { index: 2, bit: true }));
    assert_eq!(bits.find(|item| item.bit && item.index > 2), Some(BitItem { index: 5, bit: true }));
    assert_eq!(bits.find(|item| item.index > 7), None);
}

// blocks

#[test]
fn blocks_up_to_16_kib_are_valid() {
    let block = |len: usize| Block { index: 0, begin: 0, block: vec![0u8; len] };
    assert!(block(0).is_valid());
    assert!(block(16384).is_valid());
    assert!(!block(16385).is_valid());
    assert_eq!(BLOCK_LEN, 16384);
}

#[test]
fn a_block_knows_its_place() {
    let block = Block { index: 7, begin: 32768, block: vec![0u8; 10] };
    assert_eq!(block.info(), BlockInfo { index: 7, begin: 32768, len: 10 });
}

// hashes

#[test]
fn info_hash_of_a_magnet_link() {
    let hash = get_info_hash(SHA1_OF_NOTHING).unwrap();
    assert_eq!(hash[0], 0xda);
    assert_eq!(hash[19], 0x09);
    assert_eq!(get_info_hash(&SHA1_OF_NOTHING.to_uppercase()), Some(hash));
    assert!(get_info_hash("").is_none());
    assert!(get_info_hash("da39").is_none());
    assert!(get_info_hash("zz39a3ee5e6b4b0d3255bfef95601890afd80709").is_none());
    assert!(get_info_hash("da39a3ee5e6b4b0d3255bfef95601890afd8070").is_none());
}

#[test]
fn digests_are_compared_in_lower_case() {
    let hash = get_info_hash(SHA1_OF_NOTHING).unwrap();
    assert!(is_info_hash(&hash, &SHA1_OF_NOTHING.to_string()));
    assert!(!is_info_hash(&hash, &SHA1_OF_NOTHING.to_uppercase()));
    assert!(!is_info_hash(&[0; 20], &SHA1_OF_NOTHING.to_string()));
}

// handshakes

#[test]
fn a_handshake_has_68_bytes() {
    let handshake = Handshake::new([0x11; 20], [0x22; 20]);
    let bytes = handshake.serialize();
    assert_eq!(bytes.len(), HANDSHAKE_LEN);
    assert_eq!(bytes.len(), 68);
    assert_eq!(&bytes[..20], b"\x13BitTorrent protocol");
    assert_eq!(&bytes[20..28], &[0, 0, 0, 0, 0, 0x10, 0, 0]);
    assert_eq!(&bytes[28..48], &[0x11; 20]);
    assert_eq!(&bytes[48..], &[0x22; 20]);
}

#[test]
fn a_handshake_is_read_as_it_was_written() {
    let mut handshake = Handshake::new([1; 20], [2; 20]);
    handshake.reserved = [1, 2, 3, 4, 5, 6, 7, 8];
    assert_eq!(Handshake::deserialize(&handshake.serialize()), handshake);
}

#[test]
fn a_handshake_answers_one_for_the_same_torrent() {
    let ours = Handshake::new([1; 20], [2; 20]);
    let theirs = Handshake::new([1; 20], [3; 20]);
    assert!(theirs.validate(&ours));
    assert!(!Handshake::new([9; 20], [3; 20]).validate(&ours));
    let mut other = theirs;
    other.pstr_len = 18;
    assert!(!other.validate(&ours));
    let mut other = theirs;
    other.pstr[0] = b'b';
    assert!(!other.validate(&ours));
}

#[test]
fn extensions_are_announced_in_one_bit() {
    let mut handshake = Handshake::new([1; 20], [2; 20]);
    assert!(handshake.supports_extensions());
    handshake.reserved = [0xff, 0xff, 0xff, 0xff, 0xff, 0xef, 0xff, 0xff];
    assert!(!handshake.supports_extensions());
    handshake.reserved = [0, 0, 0, 0, 0, 0x10, 0, 0];
    assert!(handshake.supports_extensions());
}

// extensions

#[test]
fn an_extended_handshake_is_read() {
    let payload = b"d1:md11:ut_metadatai3e6:ut_pexi1ee13:metadata_sizei31235e1:v4:teste";
    assert_eq!(
        Extension::from_bencode(payload).unwrap(),
        Extension { m: M { ut_metadata: Some(3) }, metadata_size: Some(31235) }
    );
    assert_eq!(Extension::from_bencode(b"de").unwrap(), Extension::default());
    assert_eq!(
        Extension::from_bencode(b"d1:mdee").unwrap(),
        Extension { m: M { ut_metadata: None }, metadata_size: None }
    );
    // What follows the dictionary does not matter.
    assert_eq!(Extension::from_bencode(b"de!").unwrap(), Extension::default());
    // Nor does what is nested under another key.
    assert_eq!(
        Extension::from_bencode(b"d1:ad13:metadata_sizei1eee").unwrap(),
        Extension::default()
    );
}

#[test]
fn a_malformed_extended_handshake_is_refused() {
    let malformed: [&[u8]; 10] = [
        b"",
        b"i1e",
        b"le",
        b"d",
        b"d1:mi1ee",
        b"d1:md11:ut_metadatai256eee",
        b"d1:md11:ut_metadatai-1eee",
        b"d13:metadata_sizei4294967296ee",
        b"d13:metadata_size1:1e",
        b"d1:v4:test1:mdee",
    ];
    for payload in malformed {
        assert!(matches!(Extension::from_bencode(payload), Err(Error::BencodeError)));
    }
}

#[test]
fn tokens_decide_what_an_extension_is() {
    let tokens = vec![
        Token::Dict,
        Token::Bytes(b"metadata_size".to_vec()),
        Token::Integer(b"4294967295".to_vec()),
        Token::End,
    ];
    assert_eq!(
        Extension::from_tokens(&tokens),
        Some(Extension { m: M { ut_metadata: None }, metadata_size: Some(u32::MAX) })
    );
    assert_eq!(Extension::from_tokens(&vec![Token::Dict]), None);
    assert_eq!(Extension::from_tokens(&vec![]), None);
    let misplaced = vec![Token::Dict, Token::List, Token::End, Token::End];
    assert_eq!(Extension::from_tokens(&misplaced), None);
}

#[test]
fn a_metadata_request_is_bencoded() {
    assert_eq!(
        Metadata::request(0).to_bencode().unwrap(),
        b"d8:msg_typei0e5:piecei0ee".to_vec()
    );
    assert_eq!(
        Metadata::request(1234567).to_bencode().unwrap(),
        b"d8:msg_typei0e5:piecei1234567ee".to_vec()
    );
    let data = Metadata { msg_type: 1, piece: 2, total_size: Some(34256) };
    assert_eq!(
        data.to_bencode().unwrap(),
        b"d8:msg_typei1e5:piecei2e10:total_sizei34256ee".to_vec()
    );
}

#[test]
fn a_metadata_message_is_read_as_it_was_written() {
    for total_size in [None, Some(0), Some(u32::MAX)] {
        let message = Metadata { msg_type: 255, piece: u32::MAX, total_size };
        let payload = message.to_bencode().unwrap();
        let end = payload.len();
        assert_eq!(Metadata::extract(payload, end).unwrap(), (message, vec![]));
    }
}

#[test]
fn metadata_is_cut_from_its_header() {
    let payload = b"d8:msg_typei1e5:piecei0e10:total_sizei4eeINFO".to_vec();
    let begin = payload.len() - 4;
    let (message, info) = Metadata::extract(payload, begin).unwrap();
    assert_eq!(message, Metadata { msg_type: 1, piece: 0, total_size: Some(4) });
    assert_eq!(info, b"INFO".to_vec());
}

#[test]
fn malformed_metadata_is_refused() {
    let malformed: [&[u8]; 4] = [
        b"d8:msg_typei1ee",
        b"d5:piecei1ee",
        b"d8:msg_typei1e5:piece1:1e",
        b"d8:msg_typei1e5:piecei1e10:total_sizelee",
    ];
    for payload in malformed {
        let end = payload.len();
        assert!(matches!(Metadata::extract(payload.to_vec(), end), Err(Error::BencodeError)));
    }
    assert_eq!(Metadata::from_tokens(&vec![Token::Dict, Token::End]), None);
}

#[test]
fn metadata_travels_in_blocks() {
    assert_eq!(metadata_pieces(0), 0);
    assert_eq!(metadata_pieces(1), 1);
    assert_eq!(metadata_pieces(16384), 1);
    assert_eq!(metadata_pieces(16385), 2);
    assert_eq!(metadata_pieces(31235), 2);
    assert_eq!(metadata_pieces(16777216), 1024);
    // Above 2^24 the size is rounded first.
    assert_eq!(metadata_pieces(16777217), 1024);
    assert_eq!(metadata_pieces(u32::MAX), 262144);
}

#[test]
fn metadata_pieces_are_counted_in_single_precision() {
    let count = |size: u32| (size as f32 / BLOCK_LEN as f32).ceil() as u32;
    let mut size: u64 = 0;
    while size <= u32::MAX as u64 {
        for near in [size, size + 1, size + 2, size + 3, size + 127, size + 128, size + 129] {
            if near <= u32::MAX as u64 {
                assert_eq!(metadata_pieces(near as u32), count(near as u32));
            }
        }
        size += 16384 * 61;
    }
    for bit in 14..32 {
        for offset in -300i64..300 {
            let near = (1i64 << bit) + offset;
            assert_eq!(metadata_pieces(near as u32), count(near as u32));
        }
    }
}

// metainfo

fn info(piece_length: u32, pieces: usize) -> Info {
    Info { piece_length, pieces: vec![0; 20 * pieces], bytes: vec![] }
}

#[test]
fn an_info_dictionary_is_read() {
    let bytes = b"d6:lengthi20000e4:name4:file12:piece lengthi16384e6:pieces20:AAAAAAAAAAAAAAAAAAAAe";
    let info = Info::from_bencode(bytes.to_vec()).unwrap();
    assert_eq!(info.piece_length, 16384);
    assert_eq!(info.pieces, vec![b'A'; 20]);
    assert_eq!(info.bytes, bytes.to_vec());
    assert_eq!(info.blocks_len(), 1);
    assert_eq!(info.clone(), info);
}

#[test]
fn a_malformed_info_dictionary_is_refused() {
    let malformed: [&[u8]; 4] = [
        b"d6:pieces1:Ae",
        b"d12:piece lengthi1ee",
        b"d12:piece lengthi1e6:piecesi1ee",
        b"d12:piece length1:16:pieces1:Ae",
    ];
    for bytes in malformed {
        assert!(matches!(Info::from_bencode(bytes.to_vec()), Err(Error::BencodeError)));
    }
    assert!(Info::piece_fields(&vec![]).is_none());
}

#[test]
fn blocks_of_a_torrent_are_counted() {
    assert_eq!(Info::default().blocks_len(), 0);
    assert_eq!(info(16384, 3).blocks_len(), 3);
    assert_eq!(info(262144, 3).blocks_len(), 48);
    assert_eq!(info(16385, 3).blocks_len(), 6);
    assert_eq!(info(0, 3).blocks_len(), 0);
    assert_eq!(info(u32::MAX, 20000).blocks_len(), u32::MAX);
}

// errors

#[test]
fn errors_tell_what_happened() {
    let io = || std::io::Error::new(std::io::ErrorKind::Other, "refused");
    let cases = [
        (Error::ConnectSendFailed, "Failed to send a connect request to the tracker"),
        (Error::TrackerSocketAddrs(io()), "Failed to resolve socket address"),
        (Error::TrackerNoHosts, "Tracker resolved to no unusable addresses"),
        (Error::TrackerResponse, "The response received from the connect handshake was wrong"),
        (Error::Bincode(Box::new(bincode::ErrorKind::SizeLimit)), "the size limit has been reached"),
        (Error::HandshakeInvalid, "The handshake received from the peer is invalid"),
        (Error::BencodeError, "The bencoded bytes received from the peer are malformed"),
    ];
    for (error, text) in cases {
        assert_eq!(error.message(), text);
    }
}

#[test]
fn outside_errors_are_wrapped() {
    let io = std::io::Error::new(std::io::ErrorKind::Other, "refused");
    assert!(matches!(Error::from(io), Error::TrackerSocketAddrs(_)));
    let bincode: bincode::Error = Box::new(bincode::ErrorKind::SizeLimit);
    assert!(matches!(Error::from(bincode), Error::Bincode(_)));
}

#[test]
fn faults_are_no_values() {
    let fault = vec![Token::Dict, Token::Bytes(b"x".to_vec()), Token::Fault];
    assert_eq!(Extension::from_tokens(&fault), None);
    let inside = vec![Token::Dict, Token::Bytes(b"x".to_vec()), Token::Fault, Token::End];
    assert_eq!(Extension::from_tokens(&inside), None);
    assert!(Extension::from_bencode(b"d1:xli-0eee").is_err());
    assert!(Extension::from_bencode(b"d1:x99:e").is_err());
    // What follows the dictionary does not matter.
    assert_eq!(Extension::from_bencode(b"de-").unwrap(), Extension::default());
}
