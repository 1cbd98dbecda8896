//! The decoder: one reader per part of the layout, each proved to give what
//! the format says the bytes hold.

use crate::codec::decode_all;
use crate::error::{agrees, agrees_value, Error, Fault, Field};
use crate::flags::WorldFlags;
use crate::format::{
    checked_payload, chunk_at, chunk_head_at, chunk_tags_at, chunk_tail_at, chunks_at, chunks_of,
    extensions_at, extra_at, header_at, lemma_chunks_fail, lemma_extensions_fail,
    lemma_sections_fail, light_at, optional_tag_at, payload_at, section_at, sections_at, tag_at,
    world_of, FORMAT_VERSION, LIGHT_BYTES, MAGIC,
};
use crate::model::{Chunk, ChunkModel, Section, SectionModel, SlimeWorld};
use crate::schema::{block_states_from, tile_entities_from};
use crate::tag::{parse_tag, Tag};
use crate::wire::{
    length_at, read_block, read_exact, read_i32, read_length, read_u16, read_u8,
};
use vstd::prelude::*;
use vstd::slice::slice_to_vec;

verus! {

/// Reads a length-prefixed tagged value; `field` says which one, for the
/// error.
pub fn read_sized(buf: &[u8], pos: usize, field: Field) -> (r: Result<(Tag, usize), Error>)
    ensures
        agrees(r, tag_at(buf@, pos as int, field)),
{
    match read_block(buf, pos) {
        Ok((bytes, next)) => match parse_tag(bytes) {
            Ok(tag) => Ok((tag, next)),
            Err(message) => Err(Error::Nbt(field, message)),
        },
        Err(error) => Err(error),
    }
}

/// Reads a tagged value if `present` holds, and nothing otherwise.
pub fn read_if(buf: &[u8], pos: usize, present: bool, field: Field) -> (r: Result<
    (Option<Tag>, usize),
    Error,
>)
    ensures
        agrees(r, optional_tag_at(buf@, pos as int, present, field)),
{
    if present {
        match read_sized(buf, pos, field) {
            Ok((tag, next)) => Ok((Some(tag), next)),
            Err(error) => Err(error),
        }
    } else {
        Ok((None, pos))
    }
}

/// Reads a light array if `present` holds, and nothing otherwise.
pub fn read_light(buf: &[u8], pos: usize, present: bool) -> (r: Result<
    (Option<Vec<u8>>, usize),
    Error,
>)
    ensures
        agrees(r, light_at(buf@, pos as int, present)),
{
    if present {
        match read_exact(buf, pos, LIGHT_BYTES) {
            Ok((bytes, next)) => {
                let light: Vec<u8> = slice_to_vec(bytes);
                proof {
                    assert(light.deep_view() =~= bytes@);
                }
                Ok((Some(light), next))
            },
            Err(error) => Err(error),
        }
    } else {
        Ok((None, pos))
    }
}

/// Reads one section.
pub fn read_section(buf: &[u8], pos: usize) -> (r: Result<(Section, usize), Error>)
    ensures
        agrees(r, section_at(buf@, pos as int)),
{
    reveal(section_at);
    let (flags, pos) = match read_u8(buf, pos) {
        Ok(read) => read,
        Err(error) => {
            return Err(error);
        },
    };
    proof {
        assert(flags & 1 == 1 <==> flags % 2 == 1) by (bit_vector);
        assert(flags & 2 == 2 <==> (flags / 2) % 2 == 1) by (bit_vector);
    }
    let (sky_light, pos) = match read_light(buf, pos, flags & 1 == 1) {
        Ok(read) => read,
        Err(error) => {
            return Err(error);
        },
    };
    let (block_light, pos) = match read_light(buf, pos, flags & 2 == 2) {
        Ok(read) => read,
        Err(error) => {
            return Err(error);
        },
    };
    let (states, pos) = match read_sized(buf, pos, Field::BlockStates) {
        Ok(read) => read,
        Err(error) => {
            return Err(error);
        },
    };
    let block_states = match block_states_from(&states) {
        Some(container) => container,
        None => {
            return Err(Error::shape(Field::BlockStates));
        },
    };
    let (biomes, pos) = match read_sized(buf, pos, Field::Biomes) {
        Ok(read) => read,
        Err(error) => {
            return Err(error);
        },
    };
    Ok((Section { sky_light, block_light, block_states, biomes }, pos))
}

/// Reads `count` sections.
pub fn read_sections(buf: &[u8], pos: usize, count: usize) -> (r: Result<
    (Vec<Section>, usize),
    Error,
>)
    ensures
        agrees(r, sections_at(buf@, pos as int, count as nat)),
{
    let mut sections: Vec<Section> = Vec::new();
    let mut at: usize = pos;
    let mut done: usize = 0;
    proof {
        assert(sections.deep_view() =~= Seq::<SectionModel>::empty());
    }
    while done < count
        invariant
            done <= count,
            sections_at(buf@, pos as int, done as nat) == Ok::<(Seq<SectionModel>, int), Fault>(
                (sections.deep_view(), at as int),
            ),
        decreases count - done,
    {
        match read_section(buf, at) {
            Ok((section, next)) => {
                proof {
                    let grown = sections@.push(section);
                    assert(Seq::new(grown.len(), |i: int| grown[i].deep_view())
                        =~= sections.deep_view().push(section.deep_view()));
                }
                sections.push(section);
                at = next;
            },
            Err(error) => {
                proof {
                    lemma_sections_fail(buf@, pos as int, (done + 1) as nat, count as nat);
                }
                return Err(error);
            },
        }
        done += 1;
    }
    Ok((sections, at))
}

/// Steps over `count` extension blocks without looking at what they hold.
pub fn skip_extensions(buf: &[u8], pos: usize, count: u32) -> (r: Result<((), usize), Error>)
    ensures
        agrees(r, extensions_at(buf@, pos as int, count as nat)),
{
    let mut at: usize = pos;
    let mut done: u32 = 0;
    while done < count
        invariant
            done <= count,
            extensions_at(buf@, pos as int, done as nat) == Ok::<((), int), Fault>(((), at as int)),
        decreases count - done,
    {
        match read_block(buf, at) {
            Ok((_, next)) => {
                at = next;
            },
            Err(error) => {
                proof {
                    lemma_extensions_fail(buf@, pos as int, (done + 1) as nat, count as nat);
                }
                return Err(error);
            },
        }
        done += 1;
    }
    Ok(((), at))
}

/// Reads the trailing tag of a chunk.
pub fn read_extra(buf: &[u8], pos: usize) -> (r: Result<(Option<Tag>, usize), Error>)
    ensures
        agrees(r, extra_at(buf@, pos as int)),
{
    let (len, pos) = match read_length(buf, pos) {
        Ok(read) => read,
        Err(error) => {
            return Err(error);
        },
    };
    if len == 0 {
        return Ok((None, pos));
    }
    match read_exact(buf, pos, len) {
        Ok((bytes, next)) => match parse_tag(bytes) {
            Ok(tag) => Ok((Some(tag), next)),
            Err(message) => Err(Error::Nbt(Field::Extra, message)),
        },
        Err(error) => Err(error),
    }
}

/// Reads one chunk of a world with the given flags.
pub fn read_chunk(buf: &[u8], pos: usize, flags: WorldFlags) -> (r: Result<(Chunk, usize), Error>)
    ensures
        agrees(r, chunk_at(buf@, pos as int, flags)),
{
    reveal(chunk_at);
    let ghost start = pos as int;
    let (x, pos) = match read_i32(buf, pos) {
        Ok(read) => read,
        Err(error) => {
            return Err(error);
        },
    };
    let (z, pos) = match read_i32(buf, pos) {
        Ok(read) => read,
        Err(error) => {
            return Err(error);
        },
    };
    let (count, pos) = match read_length(buf, pos) {
        Ok(read) => read,
        Err(error) => {
            return Err(error);
        },
    };
    let (sections, pos) = match read_sections(buf, pos, count) {
        Ok(read) => read,
        Err(error) => {
            return Err(error);
        },
    };
    assert(chunk_head_at(buf@, start) == Ok::<_, Fault>(((x, z, sections.deep_view()), pos as int)));
    let ghost after_head = pos as int;
    let (heightmaps, pos) = match read_sized(buf, pos, Field::Heightmaps) {
        Ok(read) => read,
        Err(error) => {
            return Err(error);
        },
    };
    let (poi_chunks, pos) = match read_if(buf, pos, flags.poi_chunks(), Field::PoiChunks) {
        Ok(read) => read,
        Err(error) => {
            return Err(error);
        },
    };
    let (block_ticks, pos) = match read_if(buf, pos, flags.block_ticks(), Field::BlockTicks) {
        Ok(read) => read,
        Err(error) => {
            return Err(error);
        },
    };
    let (fluid_ticks, pos) = match read_if(buf, pos, flags.fluid_ticks(), Field::FluidTicks) {
        Ok(read) => read,
        Err(error) => {
            return Err(error);
        },
    };
    assert(chunk_tags_at(buf@, after_head, flags) == Ok::<_, Fault>(
        (
            (
                heightmaps.deep_view(),
                poi_chunks.deep_view(),
                block_ticks.deep_view(),
                fluid_ticks.deep_view(),
            ),
            pos as int,
        ),
    ));
    let (_, pos) = match skip_extensions(buf, pos, flags.other_flag_count()) {
        Ok(read) => read,
        Err(error) => {
            return Err(error);
        },
    };
    let ghost after_extensions = pos as int;
    let (tiles, pos) = match read_sized(buf, pos, Field::TileEntities) {
        Ok(read) => read,
        Err(error) => {
            return Err(error);
        },
    };
    let tile_entities = match tile_entities_from(tiles) {
        Some(tiles) => tiles.tile_entities,
        None => {
            return Err(Error::shape(Field::TileEntities));
        },
    };
    let (entities, pos) = match read_sized(buf, pos, Field::Entities) {
        Ok(read) => read,
        Err(error) => {
            return Err(error);
        },
    };
    let (extra, pos) = match read_extra(buf, pos) {
        Ok(read) => read,
        Err(error) => {
            return Err(error);
        },
    };
    assert(chunk_tail_at(buf@, after_extensions) == Ok::<_, Fault>(
        ((tile_entities.deep_view(), entities.deep_view(), extra.deep_view()), pos as int),
    ));
    Ok(
        (
            Chunk {
                x,
                z,
                sections,
                heightmaps,
                poi_chunks,
                block_ticks,
                fluid_ticks,
                tile_entities,
                entities,
                extra,
            },
            pos,
        ),
    )
}

/// Reads the chunks of a decompressed payload.
pub fn read_chunks(payload: &[u8], flags: WorldFlags) -> (r: Result<Vec<Chunk>, Error>)
    ensures
        agrees_value(r, chunks_of(payload@, flags)),
{
    let (count, start) = match read_length(payload, 0) {
        Ok(read) => read,
        Err(error) => {
            return Err(error);
        },
    };
    let mut chunks: Vec<Chunk> = Vec::new();
    let mut at: usize = start;
    let mut done: usize = 0;
    proof {
        assert(chunks.deep_view() =~= Seq::<ChunkModel>::empty());
    }
    while done < count
        invariant
            done <= count,
            length_at(payload@, 0) == Ok::<(usize, int), Fault>((count, start as int)),
            chunks_at(payload@, start as int, done as nat, flags) == Ok::<
                (Seq<ChunkModel>, int),
                Fault,
            >((chunks.deep_view(), at as int)),
        decreases count - done,
    {
        match read_chunk(payload, at, flags) {
            Ok((chunk, next)) => {
                proof {
                    let grown = chunks@.push(chunk);
                    assert(Seq::new(grown.len(), |i: int| grown[i].deep_view())
                        =~= chunks.deep_view().push(chunk.deep_view()));
                }
                chunks.push(chunk);
                at = next;
            },
            Err(error) => {
                proof {
                    lemma_chunks_fail(
                        payload@,
                        start as int,
                        (done + 1) as nat,
                        count as nat,
                        flags,
                    );
                }
                return Err(error);
            },
        }
        done += 1;
    }
    Ok(chunks)
}

/// Reads the header: checks the magic value and the format version, and hands
/// back the format version, the world's version and the flags.
pub fn read_header(buf: &[u8], pos: usize) -> (r: Result<((u8, i32, u8), usize), Error>)
    ensures
        agrees(r, header_at(buf@, pos as int)),
{
    let (magic, pos) = match read_u16(buf, pos) {
        Ok(read) => read,
        Err(error) => {
            return Err(error);
        },
    };
    if magic != MAGIC {
        return Err(Error::MagicBytes(magic));
    }
    let (version, pos) = match read_u8(buf, pos) {
        Ok(read) => read,
        Err(error) => {
            return Err(error);
        },
    };
    if version != FORMAT_VERSION {
        return Err(Error::UnsupportedVersion(version));
    }
    let (world_version, pos) = match read_i32(buf, pos) {
        Ok(read) => read,
        Err(error) => {
            return Err(error);
        },
    };
    let (flags, pos) = match read_u8(buf, pos) {
        Ok(read) => read,
        Err(error) => {
            return Err(error);
        },
    };
    Ok(((version, world_version, flags), pos))
}

/// Decompresses a payload and checks that it has the declared size.
pub fn decompress_checked(compressed: &[u8], declared: usize) -> (r: Result<Vec<u8>, Error>)
    ensures
        match r {
            Ok(data) => checked_payload(compressed@, declared) == Ok::<Seq<u8>, Fault>(data@),
            Err(error) => checked_payload(compressed@, declared) == Err::<Seq<u8>, Fault>(error@),
        },
{
    match decode_all(compressed) {
        Ok(data) => check_size(data, declared),
        Err(message) => Err(Error::Decompress(message)),
    }
}

/// Accepts decompressed data of the declared size and refuses any other.
pub fn check_size(data: Vec<u8>, declared: usize) -> (r: Result<Vec<u8>, Error>)
    ensures
        data@.len() == declared ==> r == Ok::<Vec<u8>, Error>(data),
        data@.len() != declared ==> r == Err::<Vec<u8>, Error>(
            Error::DecompressSize(declared, data@.len() as usize),
        ),
{
    if data.len() != declared {
        Err(Error::DecompressSize(declared, data.len()))
    } else {
        Ok(data)
    }
}

/// Reads the compressed payload and hands back the decompressed data.
pub fn read_compressed(buf: &[u8], pos: usize) -> (r: Result<(Vec<u8>, usize), Error>)
    ensures
        match r {
            Ok((data, next)) => payload_at(buf@, pos as int) == Ok::<(Seq<u8>, int), Fault>(
                (data@, next as int),
            ),
            Err(error) => payload_at(buf@, pos as int) == Err::<(Seq<u8>, int), Fault>(error@),
        },
{
    let (compressed_size, pos) = match read_length(buf, pos) {
        Ok(read) => read,
        Err(error) => {
            return Err(error);
        },
    };
    let (declared, pos) = match read_length(buf, pos) {
        Ok(read) => read,
        Err(error) => {
            return Err(error);
        },
    };
    let (compressed, pos) = match read_exact(buf, pos, compressed_size) {
        Ok(read) => read,
        Err(error) => {
            return Err(error);
        },
    };
    match decompress_checked(compressed, declared) {
        Ok(data) => Ok((data, pos)),
        Err(error) => Err(error),
    }
}

impl SlimeWorld {
    /// Decodes a world from the bytes of a stream that starts with its header.
    ///
    /// The result is the world that the format reads out of `buf`, or the first
    /// failure met on the way: there is no partial world.
    pub fn deserialize(buf: &[u8]) -> (r: Result<SlimeWorld, Error>)
        ensures
            agrees_value(r, world_of(buf@)),
    {
        let ((version, world_version, flags), pos) = match read_header(buf, 0) {
            Ok(read) => read,
            Err(error) => {
                return Err(error);
            },
        };
        let (payload, _) = match read_compressed(buf, pos) {
            Ok(read) => read,
            Err(error) => {
                return Err(error);
            },
        };
        let world_flags = WorldFlags::from(flags);
        let chunks = match read_chunks(payload.as_slice(), world_flags) {
            Ok(chunks) => chunks,
            Err(error) => {
                return Err(error);
            },
        };
        Ok(SlimeWorld { version, world_version, world_flags, chunks })
    }
}

} // verus!
