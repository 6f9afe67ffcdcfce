//! What a magnet link says of the torrent.

use crate::digest::hex_decode;
use vstd::prelude::*;

verus! {

/// A magnet link.
#[derive(Debug)]
pub struct Magnet {
    /// The info hash of the torrent, in hexadecimal.
    pub xt: Option<String>,
}

/// The info hash that `xt` spells, if it spells one.
pub open spec fn info_hash_of(xt: Seq<char>) -> Option<Seq<u8>> {
    match crate::digest::hex_bytes(xt) {
        Some(bytes) => if bytes.len() == 20 {
            Some(bytes)
        } else {
            None
        },
        None => None,
    }
}

/// The info hash that the `xt` of a magnet link spells in hexadecimal, or `None` if it is not
/// 40 hexadecimal digits.
pub fn get_info_hash(xt: &str) -> (info_hash: Option<[u8; 20]>)
    ensures
        match info_hash {
            Some(hash) => info_hash_of(xt@) == Some(hash@),
            None => info_hash_of(xt@) is None,
        },
{
    match hex_decode(xt) {
        Ok(bytes) => {
            if bytes.len() != 20 {
                return None;
            }
            let mut hash: [u8; 20] = [0;20];
            let mut i: usize = 0;
            while i < 20
                invariant
                    0 <= i <= 20,
                    bytes@.len() == 20,
                    forall|k: int| 0 <= k < i ==> hash@[k] == bytes@[k],
                decreases 20 - i,
            {
                hash[i] = bytes[i];
                i += 1;
            }
            assert(hash@ =~= bytes@);
            Some(hash)
        },
        Err(_) => None,
    }
}

} // verus!
