//! What can go wrong while decoding a world, and what an error stands for in
//! contracts.

use vstd::prelude::*;

verus! {

/// The tagged value that was being read when a failure occurred.
#[derive(Debug, Clone, Copy, PartialEq, Eq, Structural)]
pub enum Field {
    BlockStates,
    Biomes,
    Heightmaps,
    PoiChunks,
    BlockTicks,
    FluidTicks,
    TileEntities,
    Entities,
    Extra,
}

/// What an [`Error`] stands for in contracts: the same failure, with a message
/// as the characters it holds.
pub enum Fault {
    /// The input ended inside a field.
    UnexpectedEof,
    /// The first two bytes are not the magic value; the value found.
    MagicBytes(u16),
    /// The format version is not the supported one; the version found.
    UnsupportedVersion(u8),
    /// A length or a count is negative; the value found.
    InvalidLength(i32),
    /// The codec rejected the compressed payload; its message.
    Decompress(Seq<char>),
    /// The payload decompressed to another size than declared: the declared
    /// size, then the actual one.
    DecompressSize(usize, usize),
    /// A tagged value could not be read for its field: the parser rejected its
    /// bytes, with the parser's message, or the value has another shape than
    /// the field requires, with [`wrong_shape`].
    Nbt(Field, Seq<char>),
    /// A lookup past the capacity of a paletted container: the index, then the
    /// capacity.
    IndexOutOfRange(usize, usize),
    /// The packed word that holds an index is not there: the word's position.
    MissingIndexData(usize),
    /// A stored index points past the palette: the index, then the palette's
    /// length.
    PaletteIndexOutOfRange(u64, usize),
}

/// A decoding failure. Every failure ends the whole decode: no partial world is
/// ever returned.
///
/// `Decompress` carries the message of the codec. `Nbt` names the tagged value
/// that could not be read and carries the message of the parser, or
/// [`wrong_shape`] where the value parsed but has another shape than its field
/// requires.
#[derive(Debug, Clone, PartialEq, Eq)]
pub enum Error {
    UnexpectedEof,
    MagicBytes(u16),
    UnsupportedVersion(u8),
    InvalidLength(i32),
    Decompress(String),
    DecompressSize(usize, usize),
    Nbt(Field, String),
    IndexOutOfRange(usize, usize),
    MissingIndexData(usize),
    PaletteIndexOutOfRange(u64, usize),
}

impl View for Error {
    type V = Fault;

    open spec fn view(&self) -> Fault {
        match self {
            Error::UnexpectedEof => Fault::UnexpectedEof,
            Error::MagicBytes(found) => Fault::MagicBytes(*found),
            Error::UnsupportedVersion(found) => Fault::UnsupportedVersion(*found),
            Error::InvalidLength(found) => Fault::InvalidLength(*found),
            Error::Decompress(message) => Fault::Decompress(message@),
            Error::DecompressSize(declared, actual) => Fault::DecompressSize(*declared, *actual),
            Error::Nbt(field, message) => Fault::Nbt(*field, message@),
            Error::IndexOutOfRange(index, capacity) => Fault::IndexOutOfRange(*index, *capacity),
            Error::MissingIndexData(word) => Fault::MissingIndexData(*word),
            Error::PaletteIndexOutOfRange(index, len) => Fault::PaletteIndexOutOfRange(
                *index,
                *len,
            ),
        }
    }
}

/// The message of a tagged value that parsed, but has another shape than its
/// field requires.
pub open spec fn wrong_shape() -> Seq<char> {
    "the tagged value has another shape than its field requires"@
}

impl Error {
    /// The failure of a tagged value that parsed, but has another shape than
    /// `field` requires.
    pub fn shape(field: Field) -> (error: Error)
        ensures
            error@ == Fault::Nbt(field, wrong_shape()),
    {
        Error::Nbt(field, "the tagged value has another shape than its field requires".to_owned())
    }
}

/// What a reader hands back: the value and the position after it, or the
/// failure.
///
/// `outcome` is the executable result and `expected` what the format gives for
/// the same bytes: they agree when both succeed with the same value (seen
/// through its deep view) and end, or both fail in the same way.
pub open spec fn agrees<T: DeepView>(
    outcome: Result<(T, usize), Error>,
    expected: Result<(T::V, int), Fault>,
) -> bool {
    match outcome {
        Ok((value, next)) => expected == Ok::<(T::V, int), Fault>((value.deep_view(), next as int)),
        Err(error) => expected == Err::<(T::V, int), Fault>(error@),
    }
}

/// As [`agrees`], for a result that carries no position.
pub open spec fn agrees_value<T: DeepView>(
    outcome: Result<T, Error>,
    expected: Result<T::V, Fault>,
) -> bool {
    match outcome {
        Ok(value) => expected == Ok::<T::V, Fault>(value.deep_view()),
        Err(error) => expected == Err::<T::V, Fault>(error@),
    }
}

} // verus!
