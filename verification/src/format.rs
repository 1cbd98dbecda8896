//! The layout of a world, as functions from bytes to what they hold.
//!
//! A world is a header, then a compressed payload. The payload holds a count of
//! chunks and the chunks one after another. Each function here reads one part
//! at a position and gives the part with the position after it, or the failure
//! that ends the decode.

use crate::codec::zstd_decode;
use crate::error::{wrong_shape, Fault, Field};
use crate::flags::WorldFlags;
use crate::model::{ChunkModel, SectionModel, WorldModel};
use crate::schema::{block_states_of, tile_entities_of};
use crate::tag::{nbt_decode, TagModel};
use crate::wire::{block_at, byte_at, bytes_at, i32_at, length_at, u16_at};
use vstd::prelude::*;

verus! {

/// The two bytes every world starts with.
pub const MAGIC: u16 = 0xB10B;

/// The one format version that is understood.
pub const FORMAT_VERSION: u8 = 13;

/// The size of a light array.
pub const LIGHT_BYTES: usize = 2048;

/// A length-prefixed tagged value at `pos`, read for `field`: where the parser
/// rejects the bytes, the failure names the field and carries its message.
pub open spec fn tag_at(s: Seq<u8>, pos: int, field: Field) -> Result<(TagModel, int), Fault> {
    match block_at(s, pos) {
        Ok((bytes, next)) => match nbt_decode(bytes) {
            Ok(tag) => Ok((tag, next)),
            Err(message) => Err(Fault::Nbt(field, message)),
        },
        Err(fault) => Err(fault),
    }
}

/// A tagged value that is there only where `present` holds; where it does not,
/// nothing is read, not even a length.
pub open spec fn optional_tag_at(s: Seq<u8>, pos: int, present: bool, field: Field) -> Result<
    (Option<TagModel>, int),
    Fault,
> {
    if present {
        match tag_at(s, pos, field) {
            Ok((tag, next)) => Ok((Some(tag), next)),
            Err(fault) => Err(fault),
        }
    } else {
        Ok((None, pos))
    }
}

/// A light array that is there only where `present` holds.
pub open spec fn light_at(s: Seq<u8>, pos: int, present: bool) -> Result<
    (Option<Seq<u8>>, int),
    Fault,
> {
    if present {
        match bytes_at(s, pos, LIGHT_BYTES as int) {
            Ok((bytes, next)) => Ok((Some(bytes), next)),
            Err(fault) => Err(fault),
        }
    } else {
        Ok((None, pos))
    }
}

/// One section: a flags byte, the sky light if bit 0 is set, the block light
/// if bit 1 is set, the block states, the biomes. Block states of another
/// shape than a palette with its data fail as a tagged value that could not be
/// read.
#[verifier::opaque]
pub open spec fn section_at(s: Seq<u8>, pos: int) -> Result<(SectionModel, int), Fault> {
    match byte_at(s, pos) {
        Err(fault) => Err(fault),
        Ok((flags, after_flags)) => match light_at(s, after_flags, flags as int % 2 == 1) {
            Err(fault) => Err(fault),
            Ok((sky_light, after_sky)) => match light_at(
                s,
                after_sky,
                (flags as int / 2) % 2 == 1,
            ) {
                Err(fault) => Err(fault),
                Ok((block_light, after_light)) => match tag_at(
                    s,
                    after_light,
                    Field::BlockStates,
                ) {
                    Err(fault) => Err(fault),
                    Ok((states, after_states)) => match block_states_of(states) {
                        None => Err(Fault::Nbt(Field::BlockStates, wrong_shape())),
                        Some(block_states) => match tag_at(s, after_states, Field::Biomes) {
                            Err(fault) => Err(fault),
                            Ok((biomes, next)) => Ok(
                                (SectionModel { sky_light, block_light, block_states, biomes }, next),
                            ),
                        },
                    },
                },
            },
        },
    }
}

/// `count` sections, one after another.
pub open spec fn sections_at(s: Seq<u8>, pos: int, count: nat) -> Result<
    (Seq<SectionModel>, int),
    Fault,
>
    decreases count,
{
    if count == 0 {
        Ok((Seq::empty(), pos))
    } else {
        match sections_at(s, pos, (count - 1) as nat) {
            Err(fault) => Err(fault),
            Ok((sections, last)) => match section_at(s, last) {
                Err(fault) => Err(fault),
                Ok((section, next)) => Ok((sections.push(section), next)),
            },
        }
    }
}

/// `count` extension blocks, stepped over: the position after the last.
pub open spec fn extensions_at(s: Seq<u8>, pos: int, count: nat) -> Result<((), int), Fault>
    decreases count,
{
    if count == 0 {
        Ok(((), pos))
    } else {
        match extensions_at(s, pos, (count - 1) as nat) {
            Err(fault) => Err(fault),
            Ok((_, last)) => match block_at(s, last) {
                Err(fault) => Err(fault),
                Ok((_, next)) => Ok(((), next)),
            },
        }
    }
}

/// The trailing tag of a chunk: a length, and a tagged value of that many
/// bytes unless the length is zero.
pub open spec fn extra_at(s: Seq<u8>, pos: int) -> Result<(Option<TagModel>, int), Fault> {
    match length_at(s, pos) {
        Err(fault) => Err(fault),
        Ok((len, after_len)) => if len == 0 {
            Ok((None, after_len))
        } else {
            match bytes_at(s, after_len, len as int) {
                Err(fault) => Err(fault),
                Ok((bytes, next)) => match nbt_decode(bytes) {
                    Ok(tag) => Ok((Some(tag), next)),
                    Err(message) => Err(Fault::Nbt(Field::Extra, message)),
                },
            }
        },
    }
}

/// The start of a chunk: its coordinates and its sections.
pub open spec fn chunk_head_at(s: Seq<u8>, pos: int) -> Result<
    ((i32, i32, Seq<SectionModel>), int),
    Fault,
> {
    match i32_at(s, pos) {
        Err(fault) => Err(fault),
        Ok((x, after_x)) => match i32_at(s, after_x) {
            Err(fault) => Err(fault),
            Ok((z, after_z)) => match length_at(s, after_z) {
                Err(fault) => Err(fault),
                Ok((count, after_count)) => match sections_at(s, after_count, count as nat) {
                    Err(fault) => Err(fault),
                    Ok((sections, next)) => Ok(((x, z, sections), next)),
                },
            },
        },
    }
}

/// The tags of a chunk that stand before its extension blocks: the heightmaps
/// and, each where the world's flags announce it, the points of interest, the
/// block ticks and the fluid ticks.
pub open spec fn chunk_tags_at(s: Seq<u8>, pos: int, flags: WorldFlags) -> Result<
    ((TagModel, Option<TagModel>, Option<TagModel>, Option<TagModel>), int),
    Fault,
> {
    match tag_at(s, pos, Field::Heightmaps) {
        Err(fault) => Err(fault),
        Ok((heightmaps, after_heightmaps)) => match optional_tag_at(
            s,
            after_heightmaps,
            flags.has_poi_chunks(),
            Field::PoiChunks,
        ) {
            Err(fault) => Err(fault),
            Ok((poi_chunks, after_poi)) => match optional_tag_at(
                s,
                after_poi,
                flags.has_block_ticks(),
                Field::BlockTicks,
            ) {
                Err(fault) => Err(fault),
                Ok((block_ticks, after_block)) => match optional_tag_at(
                    s,
                    after_block,
                    flags.has_fluid_ticks(),
                    Field::FluidTicks,
                ) {
                    Err(fault) => Err(fault),
                    Ok((fluid_ticks, next)) => Ok(
                        ((heightmaps, poi_chunks, block_ticks, fluid_ticks), next),
                    ),
                },
            },
        },
    }
}

/// The end of a chunk, after its extension blocks: the tile entities, the
/// entities and the trailing tag. Tile entities of another shape than a
/// compound with its list fail as a tagged value that could not be read.
pub open spec fn chunk_tail_at(s: Seq<u8>, pos: int) -> Result<
    ((Seq<TagModel>, TagModel, Option<TagModel>), int),
    Fault,
> {
    match tag_at(s, pos, Field::TileEntities) {
        Err(fault) => Err(fault),
        Ok((tiles, after_tiles)) => match tile_entities_of(tiles) {
            None => Err(Fault::Nbt(Field::TileEntities, wrong_shape())),
            Some(tile_entities) => match tag_at(s, after_tiles, Field::Entities) {
                Err(fault) => Err(fault),
                Ok((entities, after_entities)) => match extra_at(s, after_entities) {
                    Err(fault) => Err(fault),
                    Ok((extra, next)) => Ok(((tile_entities, entities, extra), next)),
                },
            },
        },
    }
}

/// One chunk of a world with the given flags: its start, the tags before the
/// extension blocks, one extension block for every flag bit without a name,
/// and its end.
#[verifier::opaque]
pub open spec fn chunk_at(s: Seq<u8>, pos: int, flags: WorldFlags) -> Result<
    (ChunkModel, int),
    Fault,
> {
    match chunk_head_at(s, pos) {
        Err(fault) => Err(fault),
        Ok(((x, z, sections), after_head)) => match chunk_tags_at(s, after_head, flags) {
            Err(fault) => Err(fault),
            Ok(((heightmaps, poi_chunks, block_ticks, fluid_ticks), after_tags)) => match extensions_at(
                s,
                after_tags,
                flags.extensions(),
            ) {
                Err(fault) => Err(fault),
                Ok((_, after_extensions)) => match chunk_tail_at(s, after_extensions) {
                    Err(fault) => Err(fault),
                    Ok(((tile_entities, entities, extra), next)) => Ok(
                        (
                            ChunkModel {
                                x,
                                z,
                                sections,
                                heightmaps,
                                poi_chunks,
                                block_ticks,
                                fluid_ticks,
                                tile_entities,
                                entities,
                                extra,
                            },
                            next,
                        ),
                    ),
                },
            },
        },
    }
}

/// `count` chunks, one after another.
pub open spec fn chunks_at(s: Seq<u8>, pos: int, count: nat, flags: WorldFlags) -> Result<
    (Seq<ChunkModel>, int),
    Fault,
>
    decreases count,
{
    if count == 0 {
        Ok((Seq::empty(), pos))
    } else {
        match chunks_at(s, pos, (count - 1) as nat, flags) {
            Err(fault) => Err(fault),
            Ok((chunks, last)) => match chunk_at(s, last, flags) {
                Err(fault) => Err(fault),
                Ok((chunk, next)) => Ok((chunks.push(chunk), next)),
            },
        }
    }
}

/// The chunks of a decompressed payload: a count, then that many chunks. What
/// follows the last chunk is not looked at.
pub open spec fn chunks_of(payload: Seq<u8>, flags: WorldFlags) -> Result<Seq<ChunkModel>, Fault> {
    match length_at(payload, 0) {
        Err(fault) => Err(fault),
        Ok((count, after_count)) => match chunks_at(payload, after_count, count as nat, flags) {
            Err(fault) => Err(fault),
            Ok((chunks, _)) => Ok(chunks),
        },
    }
}

/// The header: the magic value, the format version, the world's version and
/// the flags byte.
pub open spec fn header_at(s: Seq<u8>, pos: int) -> Result<((u8, i32, u8), int), Fault> {
    match u16_at(s, pos) {
        Err(fault) => Err(fault),
        Ok((magic, after_magic)) => if magic != MAGIC {
            Err(Fault::MagicBytes(magic))
        } else {
            match byte_at(s, after_magic) {
                Err(fault) => Err(fault),
                Ok((version, after_version)) => if version != FORMAT_VERSION {
                    Err(Fault::UnsupportedVersion(version))
                } else {
                    match i32_at(s, after_version) {
                        Err(fault) => Err(fault),
                        Ok((world_version, after_world)) => match byte_at(s, after_world) {
                            Err(fault) => Err(fault),
                            Ok((flags, next)) => Ok(((version, world_version, flags), next)),
                        },
                    }
                },
            }
        },
    }
}

/// What the payload must be once decompressed: of the declared size.
pub open spec fn checked_payload(compressed: Seq<u8>, declared: usize) -> Result<Seq<u8>, Fault> {
    match zstd_decode(compressed) {
        Err(message) => Err(Fault::Decompress(message)),
        Ok(data) => if data.len() != declared {
            Err(Fault::DecompressSize(declared, data.len() as usize))
        } else {
            Ok(data)
        },
    }
}

/// The compressed payload: the compressed size, the size once decompressed,
/// then the compressed bytes; the decompressed data.
pub open spec fn payload_at(s: Seq<u8>, pos: int) -> Result<(Seq<u8>, int), Fault> {
    match length_at(s, pos) {
        Err(fault) => Err(fault),
        Ok((compressed_size, after_size)) => match length_at(s, after_size) {
            Err(fault) => Err(fault),
            Ok((declared, after_declared)) => match bytes_at(
                s,
                after_declared,
                compressed_size as int,
            ) {
                Err(fault) => Err(fault),
                Ok((compressed, next)) => match checked_payload(compressed, declared) {
                    Err(fault) => Err(fault),
                    Ok(data) => Ok((data, next)),
                },
            },
        },
    }
}

/// The world that `s` holds. What follows the compressed payload is not looked
/// at.
pub open spec fn world_of(s: Seq<u8>) -> Result<WorldModel, Fault> {
    match header_at(s, 0) {
        Err(fault) => Err(fault),
        Ok(((version, world_version, flags), after_header)) => match payload_at(s, after_header) {
            Err(fault) => Err(fault),
            Ok((payload, _)) => match chunks_of(payload, WorldFlags(flags)) {
                Err(fault) => Err(fault),
                Ok(chunks) => Ok(
                    WorldModel { version, world_version, world_flags: flags, chunks },
                ),
            },
        },
    }
}

/// Once a section fails, so does every longer run of sections.
pub proof fn lemma_sections_fail(s: Seq<u8>, pos: int, failing: nat, count: nat)
    requires
        sections_at(s, pos, failing) is Err,
        failing <= count,
    ensures
        sections_at(s, pos, count) == sections_at(s, pos, failing),
    decreases count,
{
    if failing < count {
        lemma_sections_fail(s, pos, failing, (count - 1) as nat);
    }
}

/// Once an extension block fails, so does every longer run of them.
pub proof fn lemma_extensions_fail(s: Seq<u8>, pos: int, failing: nat, count: nat)
    requires
        extensions_at(s, pos, failing) is Err,
        failing <= count,
    ensures
        extensions_at(s, pos, count) == extensions_at(s, pos, failing),
    decreases count,
{
    if failing < count {
        lemma_extensions_fail(s, pos, failing, (count - 1) as nat);
    }
}

/// Once a chunk fails, so does every longer run of chunks.
pub proof fn lemma_chunks_fail(s: Seq<u8>, pos: int, failing: nat, count: nat, flags: WorldFlags)
    requires
        chunks_at(s, pos, failing, flags) is Err,
        failing <= count,
    ensures
        chunks_at(s, pos, count, flags) == chunks_at(s, pos, failing, flags),
    decreases count,
{
    if failing < count {
        lemma_chunks_fail(s, pos, failing, (count - 1) as nat, flags);
    }
}

} // verus!
