//! The world-level flags byte.
//!
//! Three bits gate optional per-chunk fields. Every other set bit announces one
//! extension block per chunk, which a reader has to step over without looking
//! inside.

use vstd::prelude::*;

verus! {

/// How many of the eight bits of `byte` are set.
pub open spec fn ones(byte: u8) -> nat {
    (byte as int % 2 + (byte as int / 2) % 2 + (byte as int / 4) % 2 + (byte as int / 8) % 2 + (
    byte as int / 16) % 2 + (byte as int / 32) % 2 + (byte as int / 64) % 2 + (byte as int / 128)
        % 2) as nat
}

/// How many of the five bits above the three named ones are set.
pub open spec fn extension_count(byte: u8) -> nat {
    ((byte as int / 8) % 2 + (byte as int / 16) % 2 + (byte as int / 32) % 2 + (byte as int / 64)
        % 2 + (byte as int / 128) % 2) as nat
}

/// One byte read as independent feature flags.
#[derive(Default, Debug, Clone, Copy)]
pub struct WorldFlags(pub u8);

impl View for WorldFlags {
    type V = u8;

    open spec fn view(&self) -> u8 {
        self.0
    }
}

impl From<u8> for WorldFlags {
    fn from(value: u8) -> (flags: Self)
        ensures
            flags@ == value,
    {
        Self(value)
    }
}

impl vstd::std_specs::convert::FromSpecImpl<u8> for WorldFlags {
    open spec fn obeys_from_spec() -> bool {
        true
    }

    open spec fn from_spec(value: u8) -> Self {
        WorldFlags(value)
    }
}

impl WorldFlags {
    /// The byte the flags were read from.
    pub fn bits(&self) -> (byte: u8)
        ensures
            byte == self@,
    {
        self.0
    }

    /// Bit 0: every chunk carries a point-of-interest tag.
    pub open spec fn has_poi_chunks(self) -> bool {
        self@ as int % 2 == 1
    }

    /// Bit 1: every chunk carries a fluid-tick tag.
    pub open spec fn has_fluid_ticks(self) -> bool {
        (self@ as int / 2) % 2 == 1
    }

    /// Bit 2: every chunk carries a block-tick tag.
    pub open spec fn has_block_ticks(self) -> bool {
        (self@ as int / 4) % 2 == 1
    }

    /// The number of extension blocks that follow the optional tags of each
    /// chunk: one per set bit that has no name.
    pub open spec fn extensions(self) -> nat {
        extension_count(self@)
    }

    /// Whether chunks carry a point-of-interest tag.
    pub fn poi_chunks(&self) -> (set: bool)
        ensures
            set == self.has_poi_chunks(),
    {
        let byte: u8 = self.0;
        assert(byte & 1 == 1 <==> byte % 2 == 1) by (bit_vector);
        byte & 1 == 1
    }

    /// Whether chunks carry a fluid-tick tag.
    pub fn fluid_ticks(&self) -> (set: bool)
        ensures
            set == self.has_fluid_ticks(),
    {
        let byte: u8 = self.0;
        assert(byte & 2 == 2 <==> (byte / 2) % 2 == 1) by (bit_vector);
        byte & 2 == 2
    }

    /// Whether chunks carry a block-tick tag.
    pub fn block_ticks(&self) -> (set: bool)
        ensures
            set == self.has_block_ticks(),
    {
        let byte: u8 = self.0;
        assert(byte & 4 == 4 <==> (byte / 4) % 2 == 1) by (bit_vector);
        byte & 4 == 4
    }

    /// How many extension blocks each chunk carries.
    pub fn other_flag_count(&self) -> (count: u32)
        ensures
            count == self.extensions(),
            count <= 5,
    {
        let byte: u8 = self.0;
        assert(((byte >> 3) & 1) == (byte / 8) % 2) by (bit_vector);
        assert(((byte >> 4) & 1) == (byte / 16) % 2) by (bit_vector);
        assert(((byte >> 5) & 1) == (byte / 32) % 2) by (bit_vector);
        assert(((byte >> 6) & 1) == (byte / 64) % 2) by (bit_vector);
        assert(((byte >> 7) & 1) == (byte / 128) % 2) by (bit_vector);
        let b3: u8 = (byte >> 3) & 1;
        let b4: u8 = (byte >> 4) & 1;
        let b5: u8 = (byte >> 5) & 1;
        let b6: u8 = (byte >> 6) & 1;
        let b7: u8 = (byte >> 7) & 1;
        (b3 + b4 + b5 + b6 + b7) as u32
    }
}

/// The extension count is the number of bits set in the byte, less one for
/// each named flag that is set.
pub proof fn lemma_extensions_are_unnamed_bits(flags: WorldFlags)
    ensures
        flags.extensions() == ones(flags@) - (if flags.has_poi_chunks() {
            1int
        } else {
            0int
        }) - (if flags.has_fluid_ticks() {
            1int
        } else {
            0int
        }) - (if flags.has_block_ticks() {
            1int
        } else {
            0int
        }),
        flags.extensions() <= 5,
        flags@ < 8 ==> flags.extensions() == 0,
{
}

} // verus!
