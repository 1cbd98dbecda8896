//! Paletted storage: a palette of distinct entries and, where the palette has
//! more than one entry, an array of 64-bit words into which one palette index
//! per position is packed.
//!
//! Every index takes the same number of bits: as many as the largest palette
//! index needs. A word holds `64 / width` indices; an index never crosses into
//! the next word, so the bits that are left over at the top of a word are
//! padding. Within a word the first index sits in the most significant group
//! below the padding and the last one in the least significant bits.

use crate::entries::{find, holds_key, lemma_first_is_position, position};
use crate::error::{Error, Fault};
use vstd::arithmetic::power2::{lemma2_to64, lemma_pow2_pos, lemma_pow2_unfold, pow2};
use vstd::bits::{
    lemma_u64_low_bits_mask_is_mod, lemma_u64_pow2_no_overflow, lemma_u64_shl_is_mul,
    lemma_u64_shr_is_div, low_bits_mask,
};
use vstd::prelude::*;

verus! {

/// The number of binary digits of `n`; none for zero.
pub open spec fn bit_length(n: nat) -> nat
    decreases n,
{
    if n == 0 {
        0
    } else {
        1 + bit_length(n / 2)
    }
}

/// The width of one packed index for a palette of `len` entries: the bits that
/// the largest index, `len - 1`, needs. A palette of one entry needs none, and
/// neither does an empty one.
pub open spec fn index_width(len: nat) -> nat {
    if len == 0 {
        0
    } else {
        bit_length((len - 1) as nat)
    }
}

/// How many indices of `width` bits one word holds.
pub open spec fn indices_per_word(width: nat) -> nat
    recommends
        1 <= width <= 64,
{
    64nat / width
}

/// The word that holds the index of position `index`.
pub open spec fn word_of(index: nat, width: nat) -> nat
    recommends
        1 <= width <= 64,
{
    index / indices_per_word(width)
}

/// How far the index of position `index` sits above the least significant bit
/// of its word.
pub open spec fn shift_of(index: nat, width: nat) -> nat
    recommends
        1 <= width <= 64,
{
    ((indices_per_word(width) - 1 - index % indices_per_word(width)) * width) as nat
}

/// The palette index of position `index`, taken out of the word that holds it.
pub open spec fn unpack(word: u64, index: nat, width: nat) -> nat
    recommends
        1 <= width <= 64,
{
    (word as nat / pow2(shift_of(index, width))) % pow2(width)
}

/// A number below `2^k` has at most `k` binary digits.
pub proof fn lemma_bit_length_bound(n: nat, k: nat)
    requires
        n < pow2(k),
    ensures
        bit_length(n) <= k,
    decreases n,
{
    if n > 0 {
        if k == 0 {
            lemma2_to64();
        } else {
            lemma_pow2_unfold(k);
            lemma_bit_length_bound(n / 2, (k - 1) as nat);
        }
    }
}

/// A number of `w` binary digits lies in `[2^(w-1), 2^w)`: `w` bits are enough
/// for it and `w - 1` are not.
pub proof fn lemma_bit_length_is_minimal(n: nat)
    requires
        n > 0,
    ensures
        pow2((bit_length(n) - 1) as nat) <= n < pow2(bit_length(n)),
    decreases n,
{
    lemma2_to64();
    if n == 1 {
        assert(bit_length(1) == 1 + bit_length(0));
    } else {
        lemma_bit_length_is_minimal(n / 2);
        lemma_pow2_unfold(bit_length(n / 2));
        lemma_pow2_unfold(bit_length(n));
    }
}

/// The shift of a position stays inside the word, below the padding.
pub proof fn lemma_shift_in_word(index: nat, width: nat)
    requires
        1 <= width <= 64,
    ensures
        1 <= indices_per_word(width) <= 64,
        shift_of(index, width) + width <= 64,
        shift_of(index, width) == (indices_per_word(width) - 1 - index % indices_per_word(width))
            * width,
{
    let per_word = indices_per_word(width) as int;
    let slot = (index % indices_per_word(width)) as int;
    assert(1 <= per_word <= 64 && per_word * (width as int) <= 64) by (nonlinear_arith)
        requires
            per_word == 64int / (width as int),
            1 <= width <= 64,
    ;
    assert(0 <= slot < per_word);
    assert(0 <= (per_word - 1 - slot) * (width as int) <= per_word * (width as int) - width)
        by (nonlinear_arith)
        requires
            0 <= slot < per_word,
            width >= 1,
    ;
}

/// Two positions that share a word have their indices in groups of bits that
/// do not overlap: the later position sits wholly below the earlier one.
pub proof fn lemma_groups_are_apart(first: nat, second: nat, width: nat)
    requires
        1 <= width <= 64,
        first < second,
        word_of(first, width) == word_of(second, width),
    ensures
        shift_of(second, width) + width <= shift_of(first, width),
{
    let per_word = indices_per_word(width) as int;
    lemma_shift_in_word(first, width);
    lemma_shift_in_word(second, width);
    let word = (first as int) / per_word;
    let first_slot = (first as int) % per_word;
    let second_slot = (second as int) % per_word;
    assert(first_slot < second_slot) by {
        vstd::arithmetic::div_mod::lemma_fundamental_div_mod(first as int, per_word);
        vstd::arithmetic::div_mod::lemma_fundamental_div_mod(second as int, per_word);
    }
    assert((per_word - 1 - second_slot) * (width as int) + width <= (per_word - 1 - first_slot) * (
    width as int)) by (nonlinear_arith)
        requires
            0 <= first_slot < second_slot < per_word,
            width >= 1,
    ;
}

proof fn lemma_shift_and_mask(word: u64, shift: u64, width: u64)
    requires
        shift < 64,
        1 <= width < 64,
    ensures
        (1u64 << width) >= 1,
        ((word >> shift) & (((1u64 << width) - 1) as u64)) as nat == (word as nat / pow2(
            shift as nat,
        )) % pow2(width as nat),
{
    lemma_u64_pow2_no_overflow(width as nat);
    lemma_pow2_pos(width as nat);
    lemma_u64_shl_is_mul(1u64, width);
    lemma_u64_shr_is_div(word, shift);
    let shifted: u64 = word >> shift;
    assert(((1u64 << width) - 1) as u64 == low_bits_mask(width as nat) as u64);
    lemma_u64_low_bits_mask_is_mod(shifted, width as nat);
}

/// One block of a section: its name and its properties.
#[derive(Debug, Clone)]
pub struct BlockState {
    pub name: String,
    /// Property names with their values. Where a name occurs twice, the first
    /// occurrence counts.
    pub properties: Vec<(String, String)>,
}

/// What a [`BlockState`] stands for: a name, and a map from property names to
/// values.
pub struct BlockStateModel {
    pub name: Seq<char>,
    pub properties: Map<Seq<char>, Seq<char>>,
}

/// Keyed strings as a map.
pub open spec fn text_map(entries: Seq<(String, String)>) -> Map<Seq<char>, Seq<char>> {
    Map::new(
        |key: Seq<char>| holds_key(entries, key),
        |key: Seq<char>| entries[position(entries, key)].1@,
    )
}

impl DeepView for BlockState {
    type V = BlockStateModel;

    open spec fn deep_view(&self) -> BlockStateModel {
        BlockStateModel { name: self.name@, properties: text_map(self.properties@) }
    }
}

impl BlockState {
    /// The value of the property `key`, if the block has it.
    pub fn property(&self, key: &str) -> (value: Option<&String>)
        ensures
            match value {
                Some(text) => self.deep_view().properties.contains_key(key@)
                    && self.deep_view().properties[key@] == text@,
                None => !self.deep_view().properties.contains_key(key@),
            },
    {
        match find(&self.properties, key) {
            Some(i) => {
                proof {
                    lemma_first_is_position(self.properties@, key@, i as int);
                }
                Some(&self.properties[i].1)
            },
            None => None,
        }
    }
}

/// A palette with the packed indices of `SIZE` positions.
///
/// A container whose palette has a single entry needs no indices: every
/// position holds that entry, and `data` is not looked at.
#[derive(Debug, Clone)]
pub struct PalettedContainer<const SIZE: usize, T> {
    pub palette: Vec<T>,
    pub data: Option<Vec<i64>>,
}

/// What a [`PalettedContainer`] stands for.
pub struct ContainerModel<E> {
    pub palette: Seq<E>,
    pub data: Option<Seq<i64>>,
}

impl<const SIZE: usize, T: DeepView> DeepView for PalettedContainer<SIZE, T> {
    type V = ContainerModel<T::V>;

    open spec fn deep_view(&self) -> ContainerModel<T::V> {
        ContainerModel {
            palette: self.palette.deep_view(),
            data: match self.data {
                Some(words) => Some(words@),
                None => None,
            },
        }
    }
}

/// The width of one packed index for a palette of `len` entries.
pub fn width_for(len: usize) -> (width: u32)
    ensures
        width == index_width(len as nat),
        width <= 64,
        len >= 2 ==> width >= 1,
{
    if len == 0 {
        return 0;
    }
    let mut rest: usize = len - 1;
    let mut width: u32 = 0;
    proof {
        lemma2_to64();
        lemma_bit_length_bound((len - 1) as nat, 64);
    }
    while rest > 0
        invariant
            index_width(len as nat) == width + bit_length(rest as nat),
            index_width(len as nat) <= 64,
        decreases rest,
    {
        rest = rest / 2;
        width = width + 1;
    }
    width
}

impl<const SIZE: usize, T> PalettedContainer<SIZE, T> {
    /// Where the entry of position `index` stands in the palette, or why the
    /// container has no entry for it.
    pub open spec fn slot(&self, index: usize) -> Result<int, Fault> {
        let len = self.palette@.len();
        if index >= SIZE {
            Err(Fault::IndexOutOfRange(index, SIZE))
        } else if len == 1 {
            Ok(0)
        } else if len == 0 {
            Err(Fault::PaletteIndexOutOfRange(0, 0))
        } else {
            let width = index_width(len);
            let word = word_of(index as nat, width);
            match self.data {
                Some(words) => if word < words@.len() {
                    let stored = unpack(words@[word as int] as u64, index as nat, width);
                    if stored < len {
                        Ok(stored as int)
                    } else {
                        Err(Fault::PaletteIndexOutOfRange(stored as u64, len as usize))
                    }
                } else {
                    Err(Fault::MissingIndexData(word as usize))
                },
                None => Err(Fault::MissingIndexData(word as usize)),
            }
        }
    }

    /// The entry at position `index`.
    ///
    /// Fails for a position at or past `SIZE`, for a position whose word the
    /// index array does not hold, and for a stored index that points past the
    /// palette. A palette of one entry answers every position below `SIZE`
    /// with that entry.
    pub fn get(&self, index: usize) -> (r: Result<&T, Error>)
        ensures
            match r {
                Ok(entry) => self.slot(index) matches Ok(at) && 0 <= at < self.palette@.len()
                    && *entry == self.palette@[at],
                Err(error) => self.slot(index) == Err::<int, Fault>(error@),
            },
    {
        let len: usize = self.palette.len();
        if index >= SIZE {
            return Err(Error::IndexOutOfRange(index, SIZE));
        }
        if len == 1 {
            return Ok(&self.palette[0]);
        }
        if len == 0 {
            return Err(Error::PaletteIndexOutOfRange(0, 0));
        }
        let width: u32 = width_for(len);
        proof {
            lemma_shift_in_word(index as nat, width as nat);
        }
        let per_word: usize = (64 / width) as usize;
        let word: usize = index / per_word;
        let slot: usize = index % per_word;
        let shift: u32 = ((per_word - 1 - slot) as u32) * width;
        match &self.data {
            Some(words) => {
                if word < words.len() {
                    let bits: u64 = #[verifier::truncate]
                    (words[word] as u64);
                    let stored: u64 = if width >= 64 {
                        proof {
                            lemma2_to64();
                            assert(shift == 0);
                            assert(bits as nat / 1 == bits as nat);
                            assert((bits as nat) % 0x1_0000_0000_0000_0000 == bits as nat);
                        }
                        bits
                    } else {
                        proof {
                            lemma_shift_and_mask(bits, shift as u64, width as u64);
                        }
                        (bits >> shift) & ((1u64 << width) - 1)
                    };
                    assert(stored as nat == unpack(bits, index as nat, width as nat));
                    if stored < len as u64 {
                        Ok(&self.palette[stored as usize])
                    } else {
                        Err(Error::PaletteIndexOutOfRange(stored, len))
                    }
                } else {
                    Err(Error::MissingIndexData(word))
                }
            },
            None => Err(Error::MissingIndexData(word)),
        }
    }
}

/// A palette of one entry answers every position of the container with that
/// entry, whatever the index array holds and whether or not there is one.
pub proof fn lemma_single_entry_palette<const SIZE: usize, T>(
    container: PalettedContainer<SIZE, T>,
    index: usize,
)
    requires
        container.palette@.len() == 1,
        index < SIZE,
    ensures
        container.slot(index) == Ok::<int, Fault>(0),
{
}

/// The index width is the least that can write every palette index: each index
/// below `len` fits in it, and the largest does not fit in one bit less.
pub proof fn lemma_index_width_is_minimal(len: nat)
    requires
        len >= 2,
    ensures
        index_width(len) >= 1,
        len <= pow2(index_width(len)),
        pow2((index_width(len) - 1) as nat) <= len - 1,
{
    lemma_bit_length_is_minimal((len - 1) as nat);
}

} // verus!
