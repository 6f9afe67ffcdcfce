//! SHA-1 digests and their hexadecimal spelling.

use vstd::prelude::*;

verus! {

/// The SHA-1 digest of `bytes`.
pub uninterp spec fn sha1_of(bytes: Seq<u8>) -> Seq<u8>;

/// Calls `sha1_smol::Sha1::update` once on a fresh hash, and then `digest` and `bytes`.
/// What is claimed: the 20 bytes depend on the input alone. The hash counts its input in
/// bits, so that the input must be shorter than 2^61 bytes.
#[verifier::external_body]
pub(crate) fn sha1_digest(bytes: &[u8]) -> (digest: [u8; 20])
    requires
        bytes@.len() < 0x2000_0000_0000_0000,
    ensures
        digest@ == sha1_of(bytes@),
{
    let mut hash = sha1_smol::Sha1::new();
    hash.update(bytes);
    hash.digest().bytes()
}

/// The lower-case hexadecimal digit for `n`.
pub open spec fn hex_digit(n: int) -> char {
    if n < 10 {
        (48 + n) as char
    } else {
        (87 + n) as char
    }
}

/// The number that a hexadecimal digit stands for, in either case; `None` for another
/// character.
pub open spec fn hex_value(c: char) -> Option<int> {
    if '0' <= c <= '9' {
        Some(c as int - 48)
    } else if 'a' <= c <= 'f' {
        Some(c as int - 87)
    } else if 'A' <= c <= 'F' {
        Some(c as int - 55)
    } else {
        None
    }
}

/// The lower-case hexadecimal spelling of `bytes`, two digits for each byte.
pub open spec fn hex_text(bytes: Seq<u8>) -> Seq<char> {
    Seq::new(
        2 * bytes.len(),
        |i: int|
            hex_digit(
                if i % 2 == 0 {
                    bytes[i / 2] as int / 16
                } else {
                    bytes[i / 2] as int % 16
                },
            ),
    )
}

/// The bytes that `text` spells in hexadecimal; `None` if it is no such spelling.
pub open spec fn hex_bytes(text: Seq<char>) -> Option<Seq<u8>> {
    if text.len() % 2 == 0 && (forall|i: int|
        0 <= i < text.len() ==> hex_value(#[trigger] text[i]) is Some) {
        Some(
            Seq::new(
                text.len() / 2,
                |i: int| (16 * hex_value(text[2 * i])->0 + hex_value(text[2 * i + 1])->0) as u8,
            ),
        )
    } else {
        None
    }
}

/// Calls `hex::encode`. What is claimed: the result is the lower-case spelling.
#[verifier::external_body]
pub(crate) fn hex_encode(bytes: &[u8]) -> (text: String)
    requires
        2 * bytes@.len() <= isize::MAX,
    ensures
        text@ == hex_text(bytes@),
{
    hex::encode(bytes)
}

/// The error of `hex::decode`.
#[verifier::external_type_specification]
#[verifier::external_body]
pub struct ExFromHexError(hex::FromHexError);

/// Calls `hex::decode`. What is claimed: it succeeds on an even number of hexadecimal digits
/// and on nothing else, and gives the bytes that they spell.
#[verifier::external_body]
pub(crate) fn hex_decode(text: &str) -> (bytes: Result<Vec<u8>, hex::FromHexError>)
    ensures
        match bytes {
            Ok(b) => hex_bytes(text@) == Some(b@),
            Err(_) => hex_bytes(text@) is None,
        },
{
    hex::decode(text)
}

/// Reading the hexadecimal spelling of some bytes gives the bytes back.
pub proof fn lemma_hex_round_trip(bytes: Seq<u8>)
    ensures
        hex_bytes(hex_text(bytes)) == Some(bytes),
{
    let text = hex_text(bytes);
    assert forall|i: int| 0 <= i < text.len() implies hex_value(#[trigger] text[i]) == Some(
        if i % 2 == 0 {
            bytes[i / 2] as int / 16
        } else {
            bytes[i / 2] as int % 16
        },
    ) by {}
    assert(hex_bytes(text)->0 =~= bytes);
}

} // verus!
