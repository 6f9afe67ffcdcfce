//! The set of pieces that a peer, or the torrent itself, has and has not.

use vstd::prelude::*;

verus! {

/// Bit `offset` of `byte`, where offset 0 is the most significant bit.
pub open spec fn bit_of(byte: u8, offset: int) -> bool {
    (byte & (0x80u8 >> (offset as u8))) != 0
}

/// One bit of a [`Bitfield`], with its position.
#[derive(Debug, Clone, Copy, PartialEq, Eq)]
pub struct BitItem {
    pub index: usize,
    pub bit: bool,
}

/// A sequence of bits, packed into bytes from the most significant bit down.
/// The bit of piece `n` is 1 if the owner of the bitfield has that piece.
#[derive(Debug, PartialEq, Eq)]
pub struct Bitfield {
    inner: Vec<u8>,
}

impl View for Bitfield {
    type V = Seq<bool>;

    closed spec fn view(&self) -> Seq<bool> {
        bits_of(self.inner@)
    }
}

/// The bits of `bytes`, eight for each byte.
pub open spec fn bits_of(bytes: Seq<u8>) -> Seq<bool> {
    Seq::new(8 * bytes.len(), |i: int| bit_of(bytes[i / 8], i % 8))
}

/// The bit at `index`, with its position.
pub open spec fn item_at(bits: Seq<bool>, index: int) -> BitItem {
    BitItem { index: index as usize, bit: bits[index] }
}

/// `bits` with the bit at `index` made `value`; unchanged where there is no such bit.
pub open spec fn with_bit(bits: Seq<bool>, index: int, value: bool) -> Seq<bool> {
    if 0 <= index < bits.len() {
        bits.update(index, value)
    } else {
        bits
    }
}

/// Whether `wanted` accepts none of the bits.
pub open spec fn rejects_all<F: Fn(&BitItem) -> bool>(bits: Seq<bool>, wanted: F) -> bool {
    forall|i: int|
        0 <= i < bits.len() ==> call_ensures(wanted, (&#[trigger] item_at(bits, i),), false)
}

proof fn lemma_masks(byte: u8, at: u8, offset: u8)
    by (bit_vector)
    requires
        at < 8,
        offset < 8,
    ensures
        ((byte | (0x80u8 >> at)) & (0x80u8 >> offset)) != 0 <==> (at == offset || (byte & (0x80u8
            >> offset)) != 0),
        ((byte & !(0x80u8 >> at)) & (0x80u8 >> offset)) != 0 <==> (at != offset && (byte & (0x80u8
            >> offset)) != 0),
{
}

impl Bitfield {
    /// Every bit has an index.
    #[verifier::type_invariant]
    spec fn indexable(self) -> bool {
        8 * self.inner@.len() <= usize::MAX
    }

    /// The bitfield that `bytes` packs.
    pub fn from(bytes: Vec<u8>) -> (bitfield: Bitfield)
        requires
            8 * bytes@.len() <= usize::MAX,
        ensures
            bitfield@ == bits_of(bytes@),
    {
        Bitfield { inner: bytes }
    }

    /// How many bits there are.
    pub fn len(&self) -> (n: usize)
        ensures
            n == self@.len(),
    {
        proof {
            use_type_invariant(self);
        }
        self.inner.len() * 8
    }

    /// How many bytes the bits are packed into.
    pub fn len_bytes(&self) -> (n: usize)
        ensures
            8 * n == self@.len(),
    {
        self.inner.len()
    }

    /// The bit at `index`, or `None` where there is none.
    pub fn get(&self, index: usize) -> (item: Option<BitItem>)
        ensures
            item == (if index < self@.len() {
                Some(item_at(self@, index as int))
            } else {
                None
            }),
    {
        let slot: usize = index / 8;
        if slot < self.inner.len() {
            let offset: u8 = (index % 8) as u8;
            let bit = (self.inner[slot] & (0x80u8 >> offset)) != 0;
            Some(BitItem { index, bit })
        } else {
            None
        }
    }

    /// Makes the bit at `index` 1, if there is one.
    pub fn set(&mut self, index: usize)
        ensures
            final(self)@ == with_bit(old(self)@, index as int, true),
    {
        let slot: usize = index / 8;
        if slot < self.inner.len() {
            let offset: u8 = (index % 8) as u8;
            let byte: u8 = self.inner[slot];
            proof {
                use_type_invariant(&*self);
            }
            self.inner[slot] = byte | (0x80u8 >> offset);
            proof {
                assert forall|i: int| 0 <= i < self@.len() implies self@[i] == with_bit(
                    old(self)@,
                    index as int,
                    true,
                )[i] by {
                    lemma_masks(byte, offset, (i % 8) as u8);
                }
            }
        }
    }

    /// Makes the bit at `index` 0, if there is one.
    pub fn clear(&mut self, index: usize)
        ensures
            final(self)@ == with_bit(old(self)@, index as int, false),
    {
        let slot: usize = index / 8;
        if slot < self.inner.len() {
            let offset: u8 = (index % 8) as u8;
            let byte: u8 = self.inner[slot];
            proof {
                use_type_invariant(&*self);
            }
            self.inner[slot] = byte & !(0x80u8 >> offset);
            proof {
                assert forall|i: int| 0 <= i < self@.len() implies self@[i] == with_bit(
                    old(self)@,
                    index as int,
                    false,
                )[i] by {
                    lemma_masks(byte, offset, (i % 8) as u8);
                }
            }
        }
    }

    /// The first bit that `wanted` accepts, looking from index 0 up.
    pub fn find<F: Fn(&BitItem) -> bool>(&self, wanted: F) -> (item: Option<BitItem>)
        requires
            forall|i: int|
                0 <= i < self@.len() ==> call_requires(wanted, (&#[trigger] item_at(self@, i),)),
        ensures
            match item {
                Some(found) => {
                    &&& found.index < self@.len()
                    &&& found == item_at(self@, found.index as int)
                    &&& call_ensures(wanted, (&found,), true)
                    &&& forall|i: int|
                        0 <= i < found.index ==> call_ensures(
                            wanted,
                            (&#[trigger] item_at(self@, i),),
                            false,
                        )
                },
                None => forall|i: int|
                    0 <= i < self@.len() ==> call_ensures(
                        wanted,
                        (&#[trigger] item_at(self@, i),),
                        false,
                    ),
            },
            item is None ==> rejects_all(self@, wanted),
    {
        let len: usize = self.len();
        let mut index: usize = 0;
        while index < len
            invariant
                len == self@.len(),
                index <= len,
                forall|i: int|
                    0 <= i < self@.len() ==> call_requires(wanted, (&#[trigger] item_at(self@, i),)),
                forall|i: int|
                    0 <= i < index ==> call_ensures(
                        wanted,
                        (&#[trigger] item_at(self@, i),),
                        false,
                    ),
            decreases len - index,
        {
            if let Some(item) = self.get(index) {
                if wanted(&item) {
                    return Some(item);
                }
            }
            index += 1;
        }
        None
    }
}

impl Clone for Bitfield {
    fn clone(&self) -> (copy: Bitfield)
        ensures
            copy@ == self@,
    {
        proof {
            use_type_invariant(self);
        }
        Bitfield { inner: vstd::slice::slice_to_vec(self.inner.as_slice()) }
    }
}

impl Default for Bitfield {
    fn default() -> (bitfield: Bitfield)
        ensures
            bitfield@ == Seq::<bool>::empty(),
    {
        Bitfield { inner: Vec::new() }
    }
}

} // verus!
