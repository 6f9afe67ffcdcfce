//! How dictionaries are read from tokens.

use crate::bencode::{self, Token, TokenView};
use crate::error::Error;
use crate::extension::{self, Extension, Metadata};
use crate::metainfo::Info;
use vstd::arithmetic::power::pow;
use vstd::prelude::*;
use vstd::string::StringSliceAdditionalSpecFns;

verus! {

// ---------------------------------------------------------------------------------------
// Numbers

/// `text` are decimal digits in ASCII, and `n` the number that they spell: the digit at the j-th
/// place from the right counts the j-th power of ten.
pub open spec fn spells(text: Seq<u8>, n: int) -> bool {
    &&& text.len() > 0
    &&& 0 <= n < pow(10, text.len())
    &&& forall|j: int|
        0 <= j < text.len() ==> #[trigger] text[text.len() - 1 - j] == 48 + (n / pow(10, j as nat))
            % 10
}

proof fn lemma_power_step(n: int, j: nat)
    requires
        0 <= n,
        j > 0,
    ensures
        n / pow(10, j) == (n / 10) / pow(10, (j - 1) as nat),
        pow(10, j) == 10 * pow(10, (j - 1) as nat),
        pow(10, (j - 1) as nat) > 0,
{
    vstd::arithmetic::power::lemma_pow_positive(10, (j - 1) as nat);
    reveal(pow);
    vstd::arithmetic::div_mod::lemma_div_denominator(n, 10, pow(10, (j - 1) as nat));
}

/// A number is read from exactly the digits that spell it.
pub proof fn law_number_is_what_the_digits_spell(text: Seq<u8>, n: nat)
    ensures
        bencode::decimal_value(text) == Some(n) <==> spells(text, n as int),
    decreases text.len(),
{
    reveal(pow);
    if text.len() == 0 {
    } else if text.len() == 1 {
        assert(pow(10, 0) == 1 && pow(10, 1) == 10);
        assert(text.last() == text[text.len() - 1 - 0]);
        if spells(text, n as int) {
            assert(text[text.len() - 1 - 0] == 48 + (n as int / pow(10, 0)) % 10);
        }
    } else {
        let high = text.drop_last();
        let h = n / 10;
        law_number_is_what_the_digits_spell(high, h);
        assert(pow(10, 0) == 1);
        lemma_power_step(n as int, text.len());
        if bencode::decimal_value(text) == Some(n) {
            assert(bencode::decimal_value(high) == Some(h));
            assert forall|j: int| 0 <= j < text.len() implies #[trigger] text[text.len() - 1 - j]
                == 48 + (n as int / pow(10, j as nat)) % 10 by {
                if j > 0 {
                    lemma_power_step(n as int, j as nat);
                    assert(high[high.len() - 1 - (j - 1)] == text[text.len() - 1 - j]);
                }
            }
        }
        if spells(text, n as int) {
            assert(text[text.len() - 1 - 0] == 48 + (n as int / pow(10, 0)) % 10);
            assert forall|j: int| 0 <= j < high.len() implies #[trigger] high[high.len() - 1 - j]
                == 48 + (h as int / pow(10, j as nat)) % 10 by {
                lemma_power_step(n as int, (j + 1) as nat);
                assert(text[text.len() - 1 - (j + 1)] == high[high.len() - 1 - j]);
            }
        }
    }
}

/// The digits of a number spell it, without a leading zero.
pub proof fn law_decimal_spells_its_number(n: nat)
    ensures
        spells(bencode::decimal(n), n as int),
        bencode::decimal(n)[0] == 48 ==> n == 0,
    decreases n,
{
    bencode::lemma_decimal_round_trip(n);
    law_number_is_what_the_digits_spell(bencode::decimal(n), n);
    if n >= 10 {
        law_decimal_spells_its_number(n / 10);
        assert(bencode::decimal(n)[0] == bencode::decimal(n / 10)[0]);
    }
}

// ---------------------------------------------------------------------------------------
// Objects

/// How many more lists and dictionaries begin in `tokens` than end.
pub open spec fn depth(tokens: Seq<TokenView>) -> int
    decreases tokens.len(),
{
    if tokens.len() == 0 {
        0
    } else {
        depth(tokens.drop_first()) + match tokens[0] {
            TokenView::List | TokenView::Dict => 1int,
            TokenView::End => -1,
            _ => 0,
        }
    }
}

/// `tokens` are one object: nothing is at fault, everything that begins in them ends, and it does
/// not
/// before the last token.
pub open spec fn is_object(tokens: Seq<TokenView>) -> bool {
    ends_first(tokens, 0)
}

/// The same, with `open` lists and dictionaries begun before.
pub open spec fn ends_first(tokens: Seq<TokenView>, open: int) -> bool {
    &&& tokens.len() > 0
    &&& forall|i: int| 0 <= i < tokens.len() ==> !(#[trigger] tokens[i] is Fault)
    &&& open + depth(tokens) == 0
    &&& forall|k: int| 0 < k < tokens.len() ==> open + depth(#[trigger] tokens.take(k)) > 0
}

proof fn lemma_object_end(tokens: Seq<TokenView>, at: int, open: int, end: int)
    requires
        0 <= at,
        0 <= open,
    ensures
        bencode::object_end(tokens, at, open) == Some(end) <==> at < end <= tokens.len()
            && ends_first(tokens.subrange(at, end), open),
    decreases tokens.len() - at,
{
    if at < tokens.len() {
        let step = match tokens[at] {
            TokenView::List | TokenView::Dict => 1int,
            TokenView::End => -1,
            _ => 0,
        };
        if at < end <= tokens.len() {
            let all = tokens.subrange(at, end);
            assert(all[0] == tokens[at]);
            assert(all.drop_first() =~= tokens.subrange(at + 1, end));
            assert(depth(all) == step + depth(all.drop_first()));
            assert(depth(Seq::<TokenView>::empty()) == 0);
            assert forall|k: int| 0 < k < all.len() implies depth(#[trigger] all.take(k)) == step
                + depth(all.drop_first().take(k - 1)) by {
                assert(all.take(k).drop_first() =~= all.drop_first().take(k - 1));
                assert(all.take(k)[0] == all[0]);
            }
            if end == at + 1 {
                assert(all.drop_first() =~= Seq::empty());
            } else {
                assert(all.drop_first().take(0) =~= Seq::empty());
                assert(depth(all.take(1)) == step);
            }
            if open + step > 0 {
                lemma_object_end(tokens, at + 1, open + step, end);
                let rest = all.drop_first();
                if ends_first(all, open) {
                    assert(end > at + 1);
                    assert forall|i: int| 0 <= i < rest.len() implies !(#[trigger] rest[i] is Fault) by {
                        assert(rest[i] == all[i + 1]);
                    }
                    assert forall|k: int| 0 < k < rest.len() implies open + step + depth(
                        #[trigger] rest.take(k),
                    ) > 0 by {
                        assert(open + depth(all.take(k + 1)) > 0);
                    }
                }
                if !(tokens[at] is Fault) && end > at + 1 && ends_first(rest, open + step) {
                    assert forall|i: int| 0 <= i < all.len() implies !(#[trigger] all[i] is Fault) by {
                        if i > 0 {
                            assert(rest[i - 1] == all[i]);
                        }
                    }
                    assert forall|k: int| 0 < k < all.len() implies open + depth(
                        #[trigger] all.take(k),
                    ) > 0 by {
                        if k > 1 {
                            assert(open + step + depth(rest.take(k - 1)) > 0);
                        }
                    }
                }
            }
        }
        if open + step > 0 {
            lemma_object_end(tokens, at + 1, open + step, end);
        }
    }
}

/// The object that begins at `at` is over at `end` exactly if the tokens from `at` up to `end` are
/// one.
pub proof fn law_object_ends_where_it_is_whole(tokens: Seq<TokenView>, at: int, end: int)
    requires
        0 <= at,
    ensures
        bencode::object_end(tokens, at, 0) == Some(end) <==> at < end <= tokens.len() && is_object(
            tokens.subrange(at, end),
        ),
{
    lemma_object_end(tokens, at, 0, end);
}

// ---------------------------------------------------------------------------------------
// Dictionaries

/// From `at` on stand the entries of a dictionary, up to the token at `end`, which ends it: each
/// is a byte string, and behind it an object. The entries give the byte strings and where the
/// objects begin.
pub open spec fn entries_stand(
    tokens: Seq<TokenView>,
    at: int,
    entries: Seq<(Seq<u8>, int)>,
    end: int,
) -> bool {
    &&& 0 <= at <= end < tokens.len()
    &&& tokens[end] is End
    &&& entries.len() == 0 ==> end == at
    &&& entries.len() > 0 ==> entries[0].1 == at + 1
    &&& forall|i: int| 0 <= i < entries.len() ==> #[trigger] entry_stands(tokens, entries, end, i)
}

/// The entry at `i` stands among the tokens, right before the next one or the end.
pub open spec fn entry_stands(
    tokens: Seq<TokenView>,
    entries: Seq<(Seq<u8>, int)>,
    end: int,
    i: int,
) -> bool {
    let (key, begin) = entries[i];
    let next = if i + 1 < entries.len() {
        entries[i + 1].1 - 1
    } else {
        end
    };
    &&& 0 < begin < next < tokens.len()
    &&& tokens[begin - 1] == TokenView::Bytes(key)
    &&& is_object(tokens.subrange(begin, next))
}

proof fn lemma_entries_read(tokens: Seq<TokenView>, at: int, entries: Seq<(Seq<u8>, int)>, end: int)
    requires
        entries_stand(tokens, at, entries, end),
    ensures
        bencode::entries_from(tokens, at) == Some(entries),
    decreases entries.len(),
{
    if entries.len() == 0 {
        assert(entries =~= Seq::empty());
    } else {
        let first = entries[0];
        let rest = entries.drop_first();
        let next = if entries.len() > 1 {
            entries[1].1 - 1
        } else {
            end
        };
        assert(first.1 == at + 1);
        assert(entry_stands(tokens, entries, end, 0));
        law_object_ends_where_it_is_whole(tokens, at + 1, next);
        assert(next <= end) by {
            lemma_entries_ascend(tokens, at, entries, end, 0);
        }
        assert forall|i: int| 0 <= i < rest.len() implies #[trigger] entry_stands(
            tokens,
            rest,
            end,
            i,
        ) by {
            assert(entry_stands(tokens, entries, end, i + 1));
            assert(rest[i] == entries[i + 1]);
            if i + 1 < rest.len() {
                assert(rest[i + 1] == entries[i + 2]);
            }
        }
        if rest.len() > 0 {
            assert(rest[0] == entries[1]);
        }
        lemma_entries_read(tokens, next, rest, end);
        assert(seq![first] + rest =~= entries);
    }
}

proof fn lemma_entries_ascend(
    tokens: Seq<TokenView>,
    at: int,
    entries: Seq<(Seq<u8>, int)>,
    end: int,
    i: int,
)
    requires
        entries_stand(tokens, at, entries, end),
        0 <= i < entries.len(),
    ensures
        i + 1 < entries.len() ==> entries[i + 1].1 - 1 <= end,
    decreases entries.len() - i,
{
    if i + 1 < entries.len() {
        lemma_entries_ascend(tokens, at, entries, end, i + 1);
        assert(entry_stands(tokens, entries, end, i + 1));
    }
}

proof fn lemma_read_entries_stand(tokens: Seq<TokenView>, at: int) -> (end: int)
    requires
        0 <= at,
        bencode::entries_from(tokens, at) is Some,
    ensures
        entries_stand(tokens, at, bencode::entries_from(tokens, at)->0, end),
    decreases tokens.len() - at,
{
    let entries = bencode::entries_from(tokens, at)->0;
    if tokens[at] is End {
        at
    } else {
        bencode::lemma_object_end_after(tokens, at + 1, 0);
        let next = bencode::object_end(tokens, at + 1, 0)->0;
        law_object_ends_where_it_is_whole(tokens, at + 1, next);
        let end = lemma_read_entries_stand(tokens, next);
        let rest = bencode::entries_from(tokens, next)->0;
        assert(entries =~= seq![(tokens[at]->Bytes_0, at + 1)] + rest);
        assert forall|i: int| 0 <= i < entries.len() implies #[trigger] entry_stands(
            tokens,
            entries,
            end,
            i,
        ) by {
            if i > 0 {
                assert(entry_stands(tokens, rest, end, i - 1));
                assert(entries[i] == rest[i - 1]);
            }
            if i + 1 < entries.len() {
                assert(entries[i + 1] == rest[i]);
            }
        }
        end
    }
}

/// A dictionary begins at `at`, with these entries.
pub open spec fn dictionary(tokens: Seq<TokenView>, at: int, entries: Seq<(Seq<u8>, int)>) -> bool {
    &&& 0 <= at < tokens.len()
    &&& tokens[at] is Dict
    &&& exists|end: int| #[trigger] entries_stand(tokens, at + 1, entries, end)
}

/// The entries that are read are those of the dictionary that stands there, and none are read where
/// none stands.
pub proof fn law_dictionary_is_read(tokens: Seq<TokenView>, at: int, entries: Seq<(Seq<u8>, int)>)
    ensures
        bencode::entries_at(tokens, at) == Some(entries) <==> dictionary(tokens, at, entries),
{
    if dictionary(tokens, at, entries) {
        let end = choose|end: int| #[trigger] entries_stand(tokens, at + 1, entries, end);
        lemma_entries_read(tokens, at + 1, entries, end);
    }
    if bencode::entries_at(tokens, at) == Some(entries) {
        let end = lemma_read_entries_stand(tokens, at + 1);
    }
}

/// `at` is where the value of the first entry with this key begins.
pub open spec fn first_value(entries: Seq<(Seq<u8>, int)>, key: Seq<u8>, at: int) -> bool {
    exists|i: int| #[trigger] first_entry(entries, key, i) && entries[i].1 == at
}

/// The entry at `i` has this key, and none before it.
pub open spec fn first_entry(entries: Seq<(Seq<u8>, int)>, key: Seq<u8>, i: int) -> bool {
    &&& 0 <= i < entries.len()
    &&& entries[i].0 == key
    &&& forall|j: int| 0 <= j < i ==> (#[trigger] entries[j]).0 != key
}

/// No entry has this key.
pub open spec fn no_entry(entries: Seq<(Seq<u8>, int)>, key: Seq<u8>) -> bool {
    forall|j: int| 0 <= j < entries.len() ==> (#[trigger] entries[j]).0 != key
}

/// A key has the value of its first entry, and none without an entry.
pub proof fn law_value_is_that_of_the_first_entry(
    entries: Seq<(Seq<u8>, int)>,
    key: Seq<u8>,
    at: int,
)
    ensures
        bencode::value_of(entries, key) == Some(at) <==> first_value(entries, key, at),
        bencode::value_of(entries, key) is None <==> no_entry(entries, key),
    decreases entries.len(),
{
    if entries.len() > 0 {
        let rest = entries.drop_first();
        if entries[0].0 == key {
            assert(first_entry(entries, key, 0));
            if first_value(entries, key, at) {
                let i = choose|i: int|
                    #[trigger] first_entry(entries, key, i) && entries[i].1 == at;
                if i > 0 {
                    assert(entries[0].0 != key);
                }
            }
        } else {
            law_value_is_that_of_the_first_entry(rest, key, at);
            if first_value(rest, key, at) {
                let i = choose|i: int| #[trigger] first_entry(rest, key, i) && rest[i].1 == at;
                assert forall|j: int| 0 <= j < i + 1 implies (#[trigger] entries[j]).0 != key by {
                    if j > 0 {
                        assert(rest[j - 1] == entries[j]);
                    }
                }
                assert(first_entry(entries, key, i + 1));
            }
            if first_value(entries, key, at) {
                let i = choose|i: int|
                    #[trigger] first_entry(entries, key, i) && entries[i].1 == at;
                assert forall|j: int| 0 <= j < i - 1 implies (#[trigger] rest[j]).0 != key by {
                    assert(rest[j] == entries[j + 1]);
                }
                assert(first_entry(rest, key, i - 1));
            }
            if no_entry(rest, key) {
                assert forall|j: int| 0 <= j < entries.len() implies (#[trigger] entries[j]).0
                    != key by {
                    if j > 0 {
                        assert(rest[j - 1] == entries[j]);
                    }
                }
            }
            if no_entry(entries, key) {
                assert forall|j: int| 0 <= j < rest.len() implies (#[trigger] rest[j]).0 != key by {
                    assert(rest[j] == entries[j + 1]);
                }
            }
        }
    }
}

// ---------------------------------------------------------------------------------------
// What is read from dictionaries

proof fn lemma_keys()
    ensures
        "m".spec_bytes() == seq![109u8],
        "metadata_size".spec_bytes() == seq![
            109u8, 101, 116, 97, 100, 97, 116, 97, 95, 115, 105, 122, 101,
        ],
        "ut_metadata".spec_bytes() == seq![117u8, 116, 95, 109, 101, 116, 97, 100, 97, 116, 97],
        "msg_type".spec_bytes() == seq![109u8, 115, 103, 95, 116, 121, 112, 101],
        "piece".spec_bytes() == seq![112u8, 105, 101, 99, 101],
        "total_size".spec_bytes() == seq![116u8, 111, 116, 97, 108, 95, 115, 105, 122, 101],
        "piece length".spec_bytes() == seq![
            112u8, 105, 101, 99, 101, 32, 108, 101, 110, 103, 116, 104,
        ],
        "pieces".spec_bytes() == seq![112u8, 105, 101, 99, 101, 115],
{
    reveal_strlit("m");
    vstd::string::is_ascii_spec_bytes("m");
    assert("m".spec_bytes() =~= seq![109u8]);
    reveal_strlit("metadata_size");
    vstd::string::is_ascii_spec_bytes("metadata_size");
    assert("metadata_size".spec_bytes() =~= seq![
        109u8, 101, 116, 97, 100, 97, 116, 97, 95, 115, 105, 122, 101,
    ]);
    reveal_strlit("ut_metadata");
    vstd::string::is_ascii_spec_bytes("ut_metadata");
    assert("ut_metadata".spec_bytes() =~= seq![
        117u8, 116, 95, 109, 101, 116, 97, 100, 97, 116, 97,
    ]);
    reveal_strlit("msg_type");
    vstd::string::is_ascii_spec_bytes("msg_type");
    assert("msg_type".spec_bytes() =~= seq![109u8, 115, 103, 95, 116, 121, 112, 101]);
    reveal_strlit("piece");
    vstd::string::is_ascii_spec_bytes("piece");
    assert("piece".spec_bytes() =~= seq![112u8, 105, 101, 99, 101]);
    reveal_strlit("total_size");
    vstd::string::is_ascii_spec_bytes("total_size");
    assert("total_size".spec_bytes() =~= seq![116u8, 111, 116, 97, 108, 95, 115, 105, 122, 101]);
    reveal_strlit("piece length");
    vstd::string::is_ascii_spec_bytes("piece length");
    assert("piece length".spec_bytes() =~= seq![
        112u8, 105, 101, 99, 101, 32, 108, 101, 110, 103, 116, 104,
    ]);
    reveal_strlit("pieces");
    vstd::string::is_ascii_spec_bytes("pieces");
    assert("pieces".spec_bytes() =~= seq![112u8, 105, 101, 99, 101, 115]);
}

/// The views of tokens are those of each token, in order.
pub proof fn law_token_views_show_the_tokens(tokens: Seq<Token>, i: int)
    requires
        0 <= i < tokens.len(),
    ensures
        bencode::token_views(tokens).len() == tokens.len(),
        match tokens[i] {
            Token::List => bencode::token_views(tokens)[i] is List,
            Token::Dict => bencode::token_views(tokens)[i] is Dict,
            Token::End => bencode::token_views(tokens)[i] is End,
            Token::Bytes(bytes) => bencode::token_views(tokens)[i] == TokenView::Bytes(bytes@),
            Token::Integer(text) => bencode::token_views(tokens)[i] == TokenView::Integer(text@),
            Token::Fault => bencode::token_views(tokens)[i] is Fault,
        },
{
}

/// The integer `n` stands at `at`.
pub open spec fn number_stands(tokens: Seq<TokenView>, at: int, n: int) -> bool {
    tokens[at] is Integer && spells(tokens[at]->Integer_0, n)
}

/// The key has no entry and `n` is `None`, or its value is the integer `n`, and at most `max`.
pub open spec fn optional(
    tokens: Seq<TokenView>,
    entries: Seq<(Seq<u8>, int)>,
    key: Seq<u8>,
    max: int,
    n: Option<int>,
) -> bool {
    match n {
        None => no_entry(entries, key),
        Some(n) => n <= max && exists|at: int|
            #[trigger] first_value(entries, key, at) && number_stands(tokens, at, n),
    }
}

/// The key has an entry, and its value is no integer from 0 to `max`.
pub open spec fn not_optional(
    tokens: Seq<TokenView>,
    entries: Seq<(Seq<u8>, int)>,
    key: Seq<u8>,
    max: int,
) -> bool {
    exists|at: int|
        #[trigger] first_value(entries, key, at) && forall|n: int|
            #[trigger] number_stands(tokens, at, n) ==> n > max
}

/// The number that the digits spell, as it is read.
proof fn lemma_number_at(tokens: Seq<TokenView>, at: int, max: nat)
    ensures
        forall|n: int| #[trigger] number_stands(tokens, at, n) && n <= max ==> bencode::number_at(
            tokens,
            at,
            max,
        ) == Some(n as nat),
        (forall|n: int| #[trigger] number_stands(tokens, at, n) ==> n > max) ==> bencode::number_at(
            tokens,
            at,
            max,
        ) is None,
{
    if tokens[at] is Integer {
        let text = tokens[at]->Integer_0;
        assert forall|n: int| #[trigger] number_stands(tokens, at, n) implies 0 <= n
            && bencode::decimal_value(text) == Some(n as nat) by {
            law_number_is_what_the_digits_spell(text, n as nat);
        }
        if let Some(n) = bencode::decimal_value(text) {
            law_number_is_what_the_digits_spell(text, n);
            assert(number_stands(tokens, at, n as int));
        }
    }
}

proof fn lemma_optional(
    tokens: Seq<TokenView>,
    entries: Seq<(Seq<u8>, int)>,
    key: Seq<u8>,
    max: nat,
    n: Option<int>,
)
    ensures
        optional(tokens, entries, key, max as int, n) ==> extension::optional_number(
            tokens,
            entries,
            key,
            max,
        ) == Some(
            match n {
                Some(n) => Some(n as nat),
                None => None,
            },
        ) && (n matches Some(n) ==> n >= 0),
        not_optional(tokens, entries, key, max as int) ==> extension::optional_number(
            tokens,
            entries,
            key,
            max,
        ) is None,
{
    law_value_is_that_of_the_first_entry(entries, key, 0);
    if let Some(n) = n {
        if optional(tokens, entries, key, max as int, Some(n)) {
            let at = choose|at: int|
                #[trigger] first_value(entries, key, at) && number_stands(tokens, at, n);
            law_value_is_that_of_the_first_entry(entries, key, at);
            lemma_number_at(tokens, at, max);
        }
    }
    if not_optional(tokens, entries, key, max as int) {
        let at = choose|at: int|
            #[trigger] first_value(entries, key, at) && forall|n: int|
                #[trigger] number_stands(tokens, at, n) ==> n > max;
        law_value_is_that_of_the_first_entry(entries, key, at);
        lemma_number_at(tokens, at, max);
    }
}

/// An extended handshake is a dictionary. The number under `metadata_size`, and the number under
/// `ut_metadata` in the dictionary under `m`, are read where they are; other entries do not matter.
pub proof fn law_extension_is_read(
    tokens: Vec<Token>,
    entries: Seq<(Seq<u8>, int)>,
    inner: Seq<(Seq<u8>, int)>,
    ut_metadata: Option<int>,
    metadata_size: Option<int>,
    read: Option<Extension>,
)
    requires
        call_ensures(Extension::from_tokens, (&tokens,), read),
        dictionary(bencode::token_views(tokens@), 0, entries),
        ({
            let views = bencode::token_views(tokens@);
            let m = seq![109u8];
            let id = seq![117u8, 116, 95, 109, 101, 116, 97, 100, 97, 116, 97];
            ||| no_entry(entries, m) && ut_metadata is None
            ||| exists|at: int|
                #[trigger] first_value(entries, m, at) && dictionary(views, at, inner) && optional(
                    views,
                    inner,
                    id,
                    255,
                    ut_metadata,
                )
        }),
        optional(
            bencode::token_views(tokens@),
            entries,
            seq![109u8, 101, 116, 97, 100, 97, 116, 97, 95, 115, 105, 122, 101],
            0xffff_ffff,
            metadata_size,
        ),
    ensures
        read is Some,
        match ut_metadata {
            Some(n) => read->0.m.ut_metadata is Some && read->0.m.ut_metadata->0 == n,
            None => read->0.m.ut_metadata is None,
        },
        match metadata_size {
            Some(n) => read->0.metadata_size is Some && read->0.metadata_size->0 == n,
            None => read->0.metadata_size is None,
        },
{
    lemma_keys();
    let views = bencode::token_views(tokens@);
    law_dictionary_is_read(views, 0, entries);
    lemma_optional(views, entries, "metadata_size".spec_bytes(), u32::MAX as nat, metadata_size);
    law_value_is_that_of_the_first_entry(entries, "m".spec_bytes(), 0);
    if !no_entry(entries, "m".spec_bytes()) {
        let at = choose|at: int|
            #[trigger] first_value(entries, "m".spec_bytes(), at) && dictionary(views, at, inner)
                && optional(views, inner, "ut_metadata".spec_bytes(), 255, ut_metadata);
        law_value_is_that_of_the_first_entry(entries, "m".spec_bytes(), at);
        law_dictionary_is_read(views, at, inner);
        lemma_optional(views, inner, "ut_metadata".spec_bytes(), 255, ut_metadata);
    }
}

/// Tokens are no extended handshake if no dictionary begins with the first one, if under
/// `metadata_size` stands something else than a 32-bit number, or under `m` something else than a
/// dictionary, or in it under `ut_metadata` something else than a byte.
pub proof fn law_other_tokens_are_no_extension(
    tokens: Vec<Token>,
    entries: Seq<(Seq<u8>, int)>,
    inner: Seq<(Seq<u8>, int)>,
    at: int,
    read: Option<Extension>,
)
    requires
        call_ensures(Extension::from_tokens, (&tokens,), read),
        ({
            let views = bencode::token_views(tokens@);
            let size = seq![109u8, 101, 116, 97, 100, 97, 116, 97, 95, 115, 105, 122, 101];
            ||| forall|e: Seq<(Seq<u8>, int)>| !#[trigger] dictionary(views, 0, e)
            ||| dictionary(views, 0, entries) && not_optional(views, entries, size, 0xffff_ffff)
            ||| dictionary(views, 0, entries) && first_value(entries, seq![109u8], at) && forall|
                e: Seq<(Seq<u8>, int)>,
            | !#[trigger] dictionary(views, at, e)
            ||| dictionary(views, 0, entries) && first_value(entries, seq![109u8], at) && dictionary(
                views,
                at,
                inner,
            ) && not_optional(
                views,
                inner,
                seq![117u8, 116, 95, 109, 101, 116, 97, 100, 97, 116, 97],
                255,
            )
        }),
    ensures
        read is None,
{
    lemma_keys();
    let views = bencode::token_views(tokens@);
    if let Some(e) = bencode::entries_at(views, 0) {
        law_dictionary_is_read(views, 0, e);
        law_dictionary_is_read(views, 0, entries);
        lemma_optional(views, entries, "metadata_size".spec_bytes(), u32::MAX as nat, None);
        law_value_is_that_of_the_first_entry(entries, "m".spec_bytes(), at);
        if let Some(i) = bencode::entries_at(views, at) {
            law_dictionary_is_read(views, at, i);
            law_dictionary_is_read(views, at, inner);
        }
        lemma_optional(views, inner, "ut_metadata".spec_bytes(), 255, None);
    }
}

/// A message about metadata is a dictionary with a byte under `msg_type` and a 32-bit number under
/// `piece`, and with a 32-bit number under `total_size` or nothing.
pub proof fn law_metadata_is_read(
    tokens: Vec<Token>,
    entries: Seq<(Seq<u8>, int)>,
    msg_type: int,
    piece: int,
    total_size: Option<int>,
    read: Option<Metadata>,
)
    requires
        call_ensures(Metadata::from_tokens, (&tokens,), read),
        dictionary(bencode::token_views(tokens@), 0, entries),
        optional(
            bencode::token_views(tokens@),
            entries,
            seq![109u8, 115, 103, 95, 116, 121, 112, 101],
            255,
            Some(msg_type),
        ),
        optional(
            bencode::token_views(tokens@),
            entries,
            seq![112u8, 105, 101, 99, 101],
            0xffff_ffff,
            Some(piece),
        ),
        optional(
            bencode::token_views(tokens@),
            entries,
            seq![116u8, 111, 116, 97, 108, 95, 115, 105, 122, 101],
            0xffff_ffff,
            total_size,
        ),
    ensures
        read is Some,
        read->0.msg_type == msg_type,
        read->0.piece == piece,
        match total_size {
            Some(n) => read->0.total_size is Some && read->0.total_size->0 == n,
            None => read->0.total_size is None,
        },
{
    lemma_keys();
    let views = bencode::token_views(tokens@);
    law_dictionary_is_read(views, 0, entries);
    lemma_optional(views, entries, "msg_type".spec_bytes(), 255, Some(msg_type));
    lemma_optional(views, entries, "piece".spec_bytes(), u32::MAX as nat, Some(piece));
    lemma_optional(views, entries, "total_size".spec_bytes(), u32::MAX as nat, total_size);
}

/// Tokens are no message about metadata if no dictionary begins with the first one, if `msg_type`
/// or
/// `piece` is missing, or if something else than a number stands where one should.
pub proof fn law_other_tokens_are_no_metadata(
    tokens: Vec<Token>,
    entries: Seq<(Seq<u8>, int)>,
    read: Option<Metadata>,
)
    requires
        call_ensures(Metadata::from_tokens, (&tokens,), read),
        ({
            let views = bencode::token_views(tokens@);
            let msg_type = seq![109u8, 115, 103, 95, 116, 121, 112, 101];
            let piece = seq![112u8, 105, 101, 99, 101];
            let size = seq![116u8, 111, 116, 97, 108, 95, 115, 105, 122, 101];
            ||| forall|e: Seq<(Seq<u8>, int)>| !#[trigger] dictionary(views, 0, e)
            ||| dictionary(views, 0, entries) && no_entry(entries, msg_type)
            ||| dictionary(views, 0, entries) && no_entry(entries, piece)
            ||| dictionary(views, 0, entries) && not_optional(views, entries, msg_type, 255)
            ||| dictionary(views, 0, entries) && not_optional(views, entries, piece, 0xffff_ffff)
            ||| dictionary(views, 0, entries) && not_optional(views, entries, size, 0xffff_ffff)
        }),
    ensures
        read is None,
{
    lemma_keys();
    let views = bencode::token_views(tokens@);
    if let Some(e) = bencode::entries_at(views, 0) {
        law_dictionary_is_read(views, 0, e);
        law_dictionary_is_read(views, 0, entries);
        lemma_optional(views, entries, "msg_type".spec_bytes(), 255, None);
        lemma_optional(views, entries, "piece".spec_bytes(), u32::MAX as nat, None);
        lemma_optional(views, entries, "total_size".spec_bytes(), u32::MAX as nat, None);
    }
}

/// An info is a dictionary with a 32-bit number under `piece length` and a byte string under
/// `pieces`; these are read.
pub proof fn law_info_is_read(
    tokens: Vec<Token>,
    entries: Seq<(Seq<u8>, int)>,
    length: int,
    at: int,
    read: Option<(u32, Vec<u8>)>,
)
    requires
        call_ensures(Info::piece_fields, (&tokens,), read),
        dictionary(bencode::token_views(tokens@), 0, entries),
        optional(
            bencode::token_views(tokens@),
            entries,
            seq![112u8, 105, 101, 99, 101, 32, 108, 101, 110, 103, 116, 104],
            0xffff_ffff,
            Some(length),
        ),
        first_value(entries, seq![112u8, 105, 101, 99, 101, 115], at),
    ensures
        bencode::token_views(tokens@)[at] is Bytes ==> (read matches Some((read_length, pieces))
            && read_length == length && pieces@ == bencode::token_views(tokens@)[at]->Bytes_0),
        !(bencode::token_views(tokens@)[at] is Bytes) ==> read is None,
{
    lemma_keys();
    let views = bencode::token_views(tokens@);
    law_dictionary_is_read(views, 0, entries);
    law_value_is_that_of_the_first_entry(entries, "pieces".spec_bytes(), at);
    let length_at = choose|length_at: int|
        #[trigger] first_value(entries, "piece length".spec_bytes(), length_at) && number_stands(
            views,
            length_at,
            length,
        );
    law_value_is_that_of_the_first_entry(entries, "piece length".spec_bytes(), length_at);
    lemma_number_at(views, length_at, u32::MAX as nat);
}

/// Tokens are no info if no dictionary begins with the first one, if `piece length` or `pieces` is
/// missing, or if under `piece length` stands something else than a 32-bit number.
pub proof fn law_other_tokens_are_no_info(
    tokens: Vec<Token>,
    entries: Seq<(Seq<u8>, int)>,
    read: Option<(u32, Vec<u8>)>,
)
    requires
        call_ensures(Info::piece_fields, (&tokens,), read),
        ({
            let views = bencode::token_views(tokens@);
            let length = seq![112u8, 105, 101, 99, 101, 32, 108, 101, 110, 103, 116, 104];
            let pieces = seq![112u8, 105, 101, 99, 101, 115];
            ||| forall|e: Seq<(Seq<u8>, int)>| !#[trigger] dictionary(views, 0, e)
            ||| dictionary(views, 0, entries) && no_entry(entries, length)
            ||| dictionary(views, 0, entries) && no_entry(entries, pieces)
            ||| dictionary(views, 0, entries) && not_optional(views, entries, length, 0xffff_ffff)
        }),
    ensures
        read is None,
{
    lemma_keys();
    let views = bencode::token_views(tokens@);
    if let Some(e) = bencode::entries_at(views, 0) {
        law_dictionary_is_read(views, 0, e);
        law_dictionary_is_read(views, 0, entries);
        law_value_is_that_of_the_first_entry(entries, "piece length".spec_bytes(), 0);
        law_value_is_that_of_the_first_entry(entries, "pieces".spec_bytes(), 0);
        lemma_optional(views, entries, "piece length".spec_bytes(), u32::MAX as nat, None);
    }
}

/// What bytes are read as is what their tokens are read as; where these are read as nothing, that
/// is
/// an error. Of a payload the beginning is read, and the end is kept as it is.
pub proof fn law_bytes_are_read_as_their_tokens(
    tokens: Vec<Token>,
    bytes: &[u8],
    whole: Vec<u8>,
    begin: usize,
    extension: Option<Extension>,
    extension_read: Result<Extension, Error>,
    metadata: Option<Metadata>,
    parts: Result<(Metadata, Vec<u8>), Error>,
    fields: Option<(u32, Vec<u8>)>,
    info_read: Result<Info, Error>,
)
    requires
        call_ensures(Extension::from_tokens, (&tokens,), extension),
        call_ensures(Extension::from_bencode, (bytes,), extension_read),
        call_ensures(Metadata::from_tokens, (&tokens,), metadata),
        call_ensures(Metadata::extract, (whole, begin), parts),
        begin <= whole@.len(),
        call_ensures(Info::piece_fields, (&tokens,), fields),
        call_ensures(Info::from_bencode, (whole,), info_read),
    ensures
        bencode::bencode_tokens(bytes@) == bencode::token_views(tokens@) ==> match extension {
            Some(read) => extension_read == Ok::<Extension, Error>(read),
            None => extension_read == Err::<Extension, Error>(Error::BencodeError),
        },
        bencode::bencode_tokens(whole@.subrange(0, begin as int)) == bencode::token_views(tokens@)
            ==> match metadata {
            Some(read) => parts is Ok && parts->Ok_0.0 == read && parts->Ok_0.1@
                == whole@.subrange(begin as int, whole@.len() as int),
            None => parts == Err::<(Metadata, Vec<u8>), Error>(Error::BencodeError),
        },
        bencode::bencode_tokens(whole@) == bencode::token_views(tokens@) ==> match fields {
            Some(read) => info_read is Ok && info_read->Ok_0.piece_length == read.0
                && info_read->Ok_0.pieces@ == read.1@ && info_read->Ok_0.bytes@ == whole@,
            None => info_read == Err::<Info, Error>(Error::BencodeError),
        },
{
    assert(whole@.take(begin as int) =~= whole@.subrange(0, begin as int));
    assert(whole@.skip(begin as int) =~= whole@.subrange(begin as int, whole@.len() as int));
}

/// A request is a message of type 0 about its piece, and the bytes of a message are read as the
/// message.
pub proof fn law_messages_about_metadata_are_read_back(
    piece: u32,
    request: Metadata,
    message: Metadata,
    payload: Result<Vec<u8>, Error>,
    tokens: Vec<Token>,
    read: Option<Metadata>,
)
    requires
        call_ensures(Metadata::request, (piece,), request),
        call_ensures(Metadata::to_bencode, (&message,), payload),
        bencode::bencode_tokens(payload->Ok_0@) == bencode::token_views(tokens@),
        call_ensures(Metadata::from_tokens, (&tokens,), read),
    ensures
        request.msg_type == 0,
        request.piece == piece,
        request.total_size is None,
        payload is Ok,
        read == Some(message),
{
}

} // verus!
