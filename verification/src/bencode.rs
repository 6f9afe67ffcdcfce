//! Bencoded dictionaries, as the extension protocol and the metainfo use them.
//!
//! The bytes are cut into tokens by the `bendy` crate, which also checks that the tokens
//! nest properly and that the keys of a dictionary are byte strings in ascending order.
//! What the tokens mean is decided here.

use bendy::decoding::Decoder;
use bendy::encoding::{Error as EncodingError, ToBencode};
use std::collections::BTreeMap;
use vstd::prelude::*;
use vstd::string::StringSliceAdditionalSpecFns;

verus! {

/// A piece of a bencoded document.
#[derive(Debug, PartialEq, Eq)]
pub enum Token {
    /// The beginning of a list.
    List,
    /// The beginning of a dictionary.
    Dict,
    /// The end of a list or of a dictionary.
    End,
    /// A byte string.
    Bytes(Vec<u8>),
    /// An integer, as the characters between its delimiters.
    Integer(Vec<u8>),
    /// Something that is no bencoding, or an end that comes too early.
    Fault,
}

pub enum TokenView {
    List,
    Dict,
    End,
    Bytes(Seq<u8>),
    Integer(Seq<u8>),
    Fault,
}

impl View for Token {
    type V = TokenView;

    open spec fn view(&self) -> TokenView {
        match self {
            Token::List => TokenView::List,
            Token::Dict => TokenView::Dict,
            Token::End => TokenView::End,
            Token::Bytes(bytes) => TokenView::Bytes(bytes@),
            Token::Integer(text) => TokenView::Integer(text@),
            Token::Fault => TokenView::Fault,
        }
    }
}

pub open spec fn token_views(tokens: Seq<Token>) -> Seq<TokenView> {
    tokens.map_values(|token: Token| token@)
}

/// The tokens that `bendy` reads from `bytes`, up to the end or to a fault.
pub uninterp spec fn bencode_tokens(bytes: Seq<u8>) -> Seq<TokenView>;

/// Calls `bendy::decoding::Decoder::tokens` and collects what it yields, with a fault for an
/// error. What is claimed: the tokens depend on the bytes alone.
#[verifier::external_body]
pub(crate) fn read_tokens(bytes: &[u8]) -> (tokens: Vec<Token>)
    ensures
        token_views(tokens@) == bencode_tokens(bytes@),
{
    Decoder::new(bytes)
        .tokens()
        .map(|token| match token {
            Ok(bendy::state_tracker::Token::List) => Token::List,
            Ok(bendy::state_tracker::Token::Dict) => Token::Dict,
            Ok(bendy::state_tracker::Token::End) => Token::End,
            Ok(bendy::state_tracker::Token::String(bytes)) => Token::Bytes(bytes.to_vec()),
            Ok(bendy::state_tracker::Token::Num(text)) => Token::Integer(text.as_bytes().to_vec()),
            Err(_) => Token::Fault,
        })
        .collect()
}

// ---------------------------------------------------------------------------------------
// Decimal numbers

/// The decimal digits of `n`, in ASCII.
pub open spec fn decimal(n: nat) -> Seq<u8>
    decreases n,
{
    if n < 10 {
        seq![(48 + n) as u8]
    } else {
        decimal(n / 10).push((48 + n % 10) as u8)
    }
}

/// The number that `text` spells in decimal digits; `None` if it spells none.
pub open spec fn decimal_value(text: Seq<u8>) -> Option<nat>
    decreases text.len(),
{
    if text.len() == 0 || !(48 <= text.last() <= 57) {
        None
    } else if text.len() == 1 {
        Some((text.last() - 48) as nat)
    } else {
        match decimal_value(text.drop_last()) {
            Some(high) => Some((10 * high + (text.last() - 48)) as nat),
            None => None,
        }
    }
}

/// Reading the digits of a number gives the number back.
pub proof fn lemma_decimal_round_trip(n: nat)
    ensures
        decimal_value(decimal(n)) == Some(n),
    decreases n,
{
    if n >= 10 {
        lemma_decimal_round_trip(n / 10);
        assert(decimal(n).drop_last() =~= decimal(n / 10));
        assert(decimal(n / 10).len() >= 1);
    }
}

/// What `text` spells, if it is at most `max`.
pub open spec fn bounded_value(text: Seq<u8>, max: nat) -> Option<nat> {
    match decimal_value(text) {
        Some(n) => if n <= max {
            Some(n)
        } else {
            None
        },
        None => None,
    }
}

proof fn lemma_prefix_value(text: Seq<u8>, k: int)
    requires
        0 < k <= text.len(),
        decimal_value(text) is Some,
    ensures
        decimal_value(text.take(k)) is Some,
        decimal_value(text.take(k))->0 <= decimal_value(text)->0,
    decreases text.len(),
{
    if k == text.len() {
        assert(text.take(k) =~= text);
    } else {
        lemma_prefix_value(text.drop_last(), k);
        assert(text.drop_last().take(k) =~= text.take(k));
    }
}

/// The number that `text` spells, if it is at most `max`.
fn read_number(text: &Vec<u8>, max: u32) -> (number: Option<u32>)
    ensures
        match number {
            Some(n) => bounded_value(text@, max as nat) == Some(n as nat),
            None => bounded_value(text@, max as nat) is None,
        },
{
    if text.len() == 0 {
        return None;
    }
    let mut value: u64 = 0;
    let mut i: usize = 0;
    while i < text.len()
        invariant
            0 <= i <= text@.len(),
            text@.len() > 0,
            value <= max,
            i == 0 ==> value == 0,
            i > 0 ==> decimal_value(text@.take(i as int)) == Some(value as nat),
        decreases text.len() - i,
    {
        let digit: u8 = text[i];
        proof {
            assert(text@.take(i + 1).drop_last() =~= text@.take(i as int));
            assert(text@.take(i + 1).last() == digit);
            if decimal_value(text@) is Some {
                lemma_prefix_value(text@, i + 1);
            }
        }
        if digit < 48 || digit > 57 {
            return None;
        }
        value = value * 10 + (digit - 48) as u64;
        if value > max as u64 {
            return None;
        }
        i += 1;
    }
    proof {
        assert(text@.take(i as int) =~= text@);
    }
    Some(value as u32)
}

// ---------------------------------------------------------------------------------------
// Dictionaries

/// Where the object that begins at `at` is over, given that `depth` lists and dictionaries
/// around it are to end as well; `None` if the tokens stop before, or are at fault.
pub open spec fn object_end(tokens: Seq<TokenView>, at: int, depth: int) -> Option<int>
    decreases tokens.len() - at,
{
    if !(0 <= at < tokens.len()) {
        None
    } else {
        let open = match tokens[at] {
            TokenView::List | TokenView::Dict => depth + 1,
            TokenView::End => depth - 1,
            TokenView::Bytes(_) | TokenView::Integer(_) => depth,
            TokenView::Fault => -1,
        };
        if open < 0 {
            None
        } else if open == 0 {
            Some(at + 1)
        } else {
            object_end(tokens, at + 1, open)
        }
    }
}

pub proof fn lemma_object_end_after(tokens: Seq<TokenView>, at: int, depth: int)
    ensures
        object_end(tokens, at, depth) matches Some(end) ==> at < end <= tokens.len(),
    decreases tokens.len() - at,
{
    if 0 <= at < tokens.len() {
        lemma_object_end_after(tokens, at + 1, depth + 1);
        lemma_object_end_after(tokens, at + 1, depth - 1);
        lemma_object_end_after(tokens, at + 1, depth);
    }
}

/// The entries of a dictionary of which `at` is inside, from `at` on: each key, and where its
/// value begins. `None` if the dictionary does not end.
pub open spec fn entries_from(tokens: Seq<TokenView>, at: int) -> Option<Seq<(Seq<u8>, int)>>
    decreases tokens.len() - at,
{
    if !(0 <= at < tokens.len()) {
        None
    } else {
        match tokens[at] {
            TokenView::End => Some(Seq::empty()),
            TokenView::Bytes(key) => {
                proof {
                    lemma_object_end_after(tokens, at + 1, 0);
                }
                match object_end(tokens, at + 1, 0) {
                    Some(next) => match entries_from(tokens, next) {
                        Some(rest) => Some(seq![(key, at + 1)] + rest),
                        None => None,
                    },
                    None => None,
                }
            },
            _ => None,
        }
    }
}

/// The entries of the dictionary that begins at `at`; `None` if none does.
pub open spec fn entries_at(tokens: Seq<TokenView>, at: int) -> Option<Seq<(Seq<u8>, int)>> {
    if 0 <= at < tokens.len() && tokens[at] == TokenView::Dict {
        entries_from(tokens, at + 1)
    } else {
        None
    }
}

/// Where the value of the first entry with this key begins.
pub open spec fn value_of(entries: Seq<(Seq<u8>, int)>, key: Seq<u8>) -> Option<int>
    decreases entries.len(),
{
    if entries.len() == 0 {
        None
    } else if entries[0].0 == key {
        Some(entries[0].1)
    } else {
        value_of(entries.drop_first(), key)
    }
}

/// An entry of a dictionary, as positions of its key and of its value among the tokens.
pub struct Entry {
    key: usize,
    value: usize,
}

pub closed spec fn entry_view(tokens: Seq<TokenView>, entry: Entry) -> (Seq<u8>, int) {
    (tokens[entry.key as int]->Bytes_0, entry.value as int)
}

pub closed spec fn entry_in(tokens: Seq<TokenView>, entry: Entry) -> bool {
    &&& entry.key < tokens.len()
    &&& entry.value < tokens.len()
    &&& tokens[entry.key as int] is Bytes
}

/// `entries` are positions among `tokens` and stand for `view`.
pub open spec fn entries_are(
    tokens: Seq<TokenView>,
    entries: Seq<Entry>,
    view: Seq<(Seq<u8>, int)>,
) -> bool {
    &&& entries.len() == view.len()
    &&& forall|i: int|
        0 <= i < entries.len() ==> entry_in(tokens, #[trigger] entries[i]) && entry_view(
            tokens,
            entries[i],
        ) == view[i]
}

fn find_object_end(tokens: &Vec<Token>, at: usize) -> (end: Option<usize>)
    ensures
        match end {
            Some(n) => object_end(token_views(tokens@), at as int, 0) == Some(n as int) && n
                <= tokens@.len(),
            None => object_end(token_views(tokens@), at as int, 0) is None,
        },
{
    let mut i: usize = at;
    let mut depth: usize = 0;
    while i < tokens.len()
        invariant
            at <= i,
            depth <= i - at,
            object_end(token_views(tokens@), at as int, 0) == object_end(
                token_views(tokens@),
                i as int,
                depth as int,
            ),
        decreases tokens.len() - i,
    {
        assert(token_views(tokens@)[i as int] == tokens@[i as int]@);
        match &tokens[i] {
            Token::List | Token::Dict => {
                depth += 1;
            },
            Token::End => {
                if depth == 0 {
                    return None;
                }
                depth -= 1;
            },
            Token::Bytes(_) | Token::Integer(_) => {},
            Token::Fault => {
                return None;
            },
        }
        i += 1;
        if depth == 0 {
            return Some(i);
        }
    }
    None
}

/// The entries of the dictionary that begins at `at`, or `None` if none does.
pub(crate) fn dictionary_at(tokens: &Vec<Token>, at: usize) -> (entries: Option<Vec<Entry>>)
    ensures
        match entries {
            Some(list) => {
                &&& entries_at(token_views(tokens@), at as int) is Some
                &&& entries_are(
                    token_views(tokens@),
                    list@,
                    entries_at(token_views(tokens@), at as int)->0,
                )
            },
            None => entries_at(token_views(tokens@), at as int) is None,
        },
{
    let ghost views = token_views(tokens@);
    if at >= tokens.len() {
        return None;
    }
    assert(views[at as int] == tokens@[at as int]@);
    match &tokens[at] {
        Token::Dict => {},
        _ => {
            return None;
        },
    }
    let mut list: Vec<Entry> = Vec::new();
    let mut i: usize = at + 1;
    let ghost mut seen: Seq<(Seq<u8>, int)> = Seq::empty();
    proof {
        if let Some(rest) = entries_from(views, i as int) {
            assert(seen + rest =~= rest);
        }
    }
    while i < tokens.len()
        invariant
            views == token_views(tokens@),
            at < tokens@.len(),
            entries_at(views, at as int) == entries_from(views, at + 1),
            entries_are(views, list@, seen),
            entries_from(views, at + 1) == (match entries_from(views, i as int) {
                Some(rest) => Some(seen + rest),
                None => None,
            }),
        decreases tokens.len() - i,
    {
        assert(views[i as int] == tokens@[i as int]@);
        match &tokens[i] {
            Token::End => {
                assert(seen + Seq::<(Seq<u8>, int)>::empty() =~= seen);
                return Some(list);
            },
            Token::Bytes(key) => {
                proof {
                    lemma_object_end_after(views, i + 1, 0);
                }
                match find_object_end(tokens, i + 1) {
                    Some(next) => {
                        let ghost before = seen;
                        list.push(Entry { key: i, value: i + 1 });
                        proof {
                            seen = seen.push((key@, i + 1));
                            if let Some(rest) = entries_from(views, next as int) {
                                assert(before + (seq![(key@, i + 1)] + rest) =~= seen + rest);
                            }
                        }
                        i = next;
                    },
                    None => {
                        return None;
                    },
                }
            },
            _ => {
                return None;
            },
        }
    }
    None
}

/// Whether two byte strings are the same.
pub(crate) fn same_bytes(a: &[u8], b: &[u8]) -> (same: bool)
    ensures
        same == (a@ == b@),
{
    if a.len() != b.len() {
        return false;
    }
    let mut i: usize = 0;
    while i < a.len()
        invariant
            0 <= i <= a@.len(),
            a@.len() == b@.len(),
            forall|k: int| 0 <= k < i ==> a@[k] == b@[k],
        decreases a.len() - i,
    {
        if a[i] != b[i] {
            return false;
        }
        i += 1;
    }
    assert(a@ =~= b@);
    true
}

/// Where the value of the first entry with this key begins.
pub(crate) fn find_value(tokens: &Vec<Token>, entries: &Vec<Entry>, key: &str, Ghost(view): Ghost<
    Seq<(Seq<u8>, int)>,
>) -> (at: Option<usize>)
    requires
        entries_are(token_views(tokens@), entries@, view),
    ensures
        match at {
            Some(n) => value_of(view, key.spec_bytes()) == Some(n as int) && n < tokens@.len(),
            None => value_of(view, key.spec_bytes()) is None,
        },
{
    let wanted: &[u8] = key.as_bytes();
    let ghost views = token_views(tokens@);
    let mut i: usize = 0;
    assert(view.skip(0) =~= view);
    while i < entries.len()
        invariant
            views == token_views(tokens@),
            wanted@ == key.spec_bytes(),
            0 <= i <= entries@.len(),
            entries_are(views, entries@, view),
            value_of(view, key.spec_bytes()) == value_of(view.skip(i as int), key.spec_bytes()),
        decreases entries.len() - i,
    {
        let entry = &entries[i];
        assert(entry_in(views, entries@[i as int]));
        assert(views[entry.key as int] == tokens@[entry.key as int]@);
        proof {
            assert(view.skip(i as int)[0] == view[i as int]);
            assert(view.skip(i as int).drop_first() =~= view.skip(i + 1));
        }
        match &tokens[entry.key] {
            Token::Bytes(found) => {
                if same_bytes(found.as_slice(), wanted) {
                    return Some(entry.value);
                }
            },
            _ => {},
        }
        i += 1;
    }
    None
}

/// The number at `at`, if there is an integer from 0 to `max`.
pub open spec fn number_at(tokens: Seq<TokenView>, at: int, max: nat) -> Option<nat> {
    match tokens[at] {
        TokenView::Integer(text) => bounded_value(text, max),
        _ => None,
    }
}

pub(crate) fn read_number_at(tokens: &Vec<Token>, at: usize, max: u32) -> (number: Option<u32>)
    requires
        at < tokens@.len(),
    ensures
        match number {
            Some(n) => number_at(token_views(tokens@), at as int, max as nat) == Some(n as nat)
                && n <= max,
            None => number_at(token_views(tokens@), at as int, max as nat) is None,
        },
{
    assert(token_views(tokens@)[at as int] == tokens@[at as int]@);
    match &tokens[at] {
        Token::Integer(text) => read_number(text, max),
        _ => None,
    }
}

// ---------------------------------------------------------------------------------------
// Encoding

/// Whether `a` comes before `b` in the order of byte strings.
pub open spec fn precedes(a: Seq<u8>, b: Seq<u8>) -> bool {
    exists|k: int|
        0 <= k <= a.len() && k < b.len() && a.take(k) == #[trigger] b.take(k) && (k == a.len()
            || a[k] < b[k])
}

/// The pairs of a dictionary, in order.
pub open spec fn encoded_pairs(pairs: Seq<(Seq<u8>, nat)>) -> Seq<u8>
    decreases pairs.len(),
{
    if pairs.len() == 0 {
        Seq::empty()
    } else {
        let (key, number) = pairs.last();
        encoded_pairs(pairs.drop_last()) + decimal(key.len()) + seq![0x3au8] + key + seq![0x69u8]
            + decimal(number) + seq![0x65u8]
    }
}

/// The bencoding of a dictionary of numbers: `d`, then for each pair the length of the key,
/// `:`, the key, `i`, the number and `e`, and at the end `e`.
pub open spec fn encoded_numbers(pairs: Seq<(Seq<u8>, nat)>) -> Seq<u8> {
    seq![0x64u8] + encoded_pairs(pairs) + seq![0x65u8]
}

/// The tokens of the pairs of a dictionary, in order.
pub open spec fn pair_tokens(pairs: Seq<(Seq<u8>, nat)>) -> Seq<TokenView>
    decreases pairs.len(),
{
    if pairs.len() == 0 {
        Seq::empty()
    } else {
        let (key, number) = pairs.last();
        pair_tokens(pairs.drop_last()) + seq![
            TokenView::Bytes(key),
            TokenView::Integer(decimal(number)),
        ]
    }
}

pub open spec fn pair_views(pairs: Seq<(Vec<u8>, u32)>) -> Seq<(Seq<u8>, nat)> {
    pairs.map_values(|pair: (Vec<u8>, u32)| (pair.0@, pair.1 as nat))
}

/// The error of the encoder of `bendy`.
#[verifier::external_type_specification]
#[verifier::external_body]
pub struct ExEncodingError(EncodingError);

/// Calls `bendy::encoding::ToBencode::to_bencode` on the map from the keys to the numbers.
/// What is claimed: with the keys in ascending order it succeeds, the bytes are the
/// canonical bencoding of the dictionary, and reading them gives its tokens back.
#[verifier::external_body]
pub(crate) fn encode_numbers(pairs: Vec<(Vec<u8>, u32)>) -> (encoded: Result<
    Vec<u8>,
    EncodingError,
>)
    requires
        forall|i: int, j: int|
            0 <= i < j < pairs@.len() ==> precedes(#[trigger] pairs@[i].0@, #[trigger] pairs@[j].0@),
    ensures
        encoded is Ok,
        encoded->Ok_0@ == encoded_numbers(pair_views(pairs@)),
        bencode_tokens(encoded->Ok_0@) == seq![TokenView::Dict] + pair_tokens(pair_views(pairs@))
            + seq![TokenView::End],
{
    pairs.into_iter().collect::<BTreeMap<Vec<u8>, u32>>().to_bencode()
}

proof fn lemma_pair_tokens(pairs: Seq<(Seq<u8>, nat)>)
    ensures
        pair_tokens(pairs).len() == 2 * pairs.len(),
        forall|i: int|
            0 <= i < pairs.len() ==> #[trigger] pair_tokens(pairs)[2 * i] == TokenView::Bytes(
                pairs[i].0,
            ) && pair_tokens(pairs)[2 * i + 1] == TokenView::Integer(decimal(pairs[i].1)),
    decreases pairs.len(),
{
    if pairs.len() > 0 {
        lemma_pair_tokens(pairs.drop_last());
        assert forall|i: int| 0 <= i < pairs.len() implies #[trigger] pair_tokens(pairs)[2 * i]
            == TokenView::Bytes(pairs[i].0) && pair_tokens(pairs)[2 * i + 1] == TokenView::Integer(
            decimal(pairs[i].1),
        ) by {
            if i < pairs.len() - 1 {
                let shorter = pairs.drop_last();
                assert(pair_tokens(shorter)[2 * i] == TokenView::Bytes(shorter[i].0));
            }
        }
    }
}

proof fn lemma_number_entries(pairs: Seq<(Seq<u8>, nat)>, k: int)
    requires
        0 <= k <= pairs.len(),
    ensures
        ({
            let tokens = seq![TokenView::Dict] + pair_tokens(pairs) + seq![TokenView::End];
            entries_from(tokens, 1 + 2 * k) == Some(
                Seq::new(
                    (pairs.len() - k) as nat,
                    |i: int| (pairs[k + i].0, 2 * (k + i) + 2),
                ),
            )
        }),
    decreases pairs.len() - k,
{
    let tokens = seq![TokenView::Dict] + pair_tokens(pairs) + seq![TokenView::End];
    let expected = Seq::new(
        (pairs.len() - k) as nat,
        |i: int| (pairs[k + i].0, 2 * (k + i) + 2),
    );
    lemma_pair_tokens(pairs);
    if k == pairs.len() {
        assert(tokens[1 + 2 * k] == TokenView::End);
        assert(expected =~= Seq::empty());
    } else {
        lemma_number_entries(pairs, k + 1);
        assert(pair_tokens(pairs)[2 * k] == TokenView::Bytes(pairs[k].0));
        assert(tokens[1 + 2 * k] == TokenView::Bytes(pairs[k].0));
        assert(tokens[2 + 2 * k] == TokenView::Integer(decimal(pairs[k].1)));
        assert(object_end(tokens, 2 + 2 * k, 0) == Some(3 + 2 * k));
        let rest = entries_from(tokens, 3 + 2 * k)->0;
        assert(seq![(pairs[k].0, 2 + 2 * k)] + rest =~= expected);
    }
}

/// The entries of a dictionary of numbers are its pairs, and the value of each is its number.
pub proof fn lemma_number_dictionary(pairs: Seq<(Seq<u8>, nat)>)
    ensures
        ({
            let tokens = seq![TokenView::Dict] + pair_tokens(pairs) + seq![TokenView::End];
            &&& entries_at(tokens, 0) == Some(
                Seq::new(pairs.len(), |i: int| (pairs[i].0, 2 * i + 2)),
            )
            &&& forall|i: int|
                0 <= i < pairs.len() ==> #[trigger] tokens[2 * i + 2] == TokenView::Integer(
                    decimal(pairs[i].1),
                )
        }),
{
    let tokens = seq![TokenView::Dict] + pair_tokens(pairs) + seq![TokenView::End];
    lemma_pair_tokens(pairs);
    lemma_number_entries(pairs, 0);
    assert(entries_at(tokens, 0)->0 =~= Seq::new(pairs.len(), |i: int| (pairs[i].0, 2 * i + 2)));
    assert forall|i: int| 0 <= i < pairs.len() implies #[trigger] tokens[2 * i + 2]
        == TokenView::Integer(decimal(pairs[i].1)) by {
        assert(pair_tokens(pairs)[2 * i] == TokenView::Bytes(pairs[i].0));
    }
}

} // verus!
