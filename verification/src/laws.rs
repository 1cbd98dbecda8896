//! What holds of every input: the gates of the header, the size guard of the
//! payload, how a tagged value fails, and the tolerance for extension blocks.

use crate::codec::zstd_decode;
use crate::error::{wrong_shape, Fault, Field};
use crate::flags::WorldFlags;
use crate::format::{
    chunk_at, chunk_head_at, chunk_tags_at, chunk_tail_at, chunks_at, chunks_of, extensions_at,
    extra_at, header_at, lemma_chunks_fail, light_at, optional_tag_at, payload_at, section_at,
    sections_at, tag_at, world_of, FORMAT_VERSION, LIGHT_BYTES, MAGIC,
};
use crate::model::{ChunkModel, WorldModel};
use crate::schema::{block_states_of, tile_entities_of};
use crate::tag::{nbt_decode, TagModel};
use crate::wire::{be_u16, block_at, byte_at, bytes_at, i32_at, length_at};
use vstd::prelude::*;

verus! {

/// A stream that starts with any two bytes but the magic value is refused with
/// the value found, whatever follows them.
pub proof fn lemma_magic_mismatch(s: Seq<u8>)
    requires
        s.len() >= 2,
        be_u16(s.subrange(0, 2)) != MAGIC,
    ensures
        world_of(s) == Err::<WorldModel, Fault>(
            Fault::MagicBytes(be_u16(s.subrange(0, 2))),
        ),
{
}

/// A stream with the magic value and any format version but the supported one
/// is refused with the version found, whatever follows it.
pub proof fn lemma_version_gate(s: Seq<u8>)
    requires
        s.len() >= 3,
        be_u16(s.subrange(0, 2)) == MAGIC,
        s[2] != FORMAT_VERSION,
    ensures
        world_of(s) == Err::<WorldModel, Fault>(Fault::UnsupportedVersion(s[2])),
{
}

/// Where the payload decompresses to another size than the one declared, the
/// decode fails with both sizes, whatever the decompressed data holds: no
/// chunk is read.
///
/// `pos` is where the payload starts, `compressed` the bytes that it holds,
/// `declared` the size that it announces for `data`, what they decompress to.
pub proof fn lemma_size_guard(
    s: Seq<u8>,
    pos: int,
    compressed: Seq<u8>,
    declared: usize,
    data: Seq<u8>,
)
    requires
        length_at(s, pos) is Ok,
        length_at(s, pos + 4) == Ok::<(usize, int), Fault>((declared, pos + 8)),
        bytes_at(s, pos + 8, length_at(s, pos)->Ok_0.0 as int) is Ok,
        bytes_at(s, pos + 8, length_at(s, pos)->Ok_0.0 as int)->Ok_0.0 == compressed,
        zstd_decode(compressed) == Ok::<Seq<u8>, Seq<char>>(data),
        data.len() != declared,
    ensures
        payload_at(s, pos) == Err::<(Seq<u8>, int), Fault>(
            Fault::DecompressSize(declared, data.len() as usize),
        ),
        header_at(s, 0) is Ok && header_at(s, 0)->Ok_0.1 == pos ==> world_of(s) == Err::<
            WorldModel,
            Fault,
        >(Fault::DecompressSize(declared, data.len() as usize)),
{
}

/// A failure in any chunk is the failure of the whole payload: the chunks read
/// before it are not handed back.
///
/// `before` is the number of chunks that decode before the one that fails.
pub proof fn lemma_failed_chunk_fails_the_payload(
    payload: Seq<u8>,
    flags: WorldFlags,
    before: nat,
    fault: Fault,
)
    requires
        length_at(payload, 0) is Ok,
        before < length_at(payload, 0)->Ok_0.0,
        chunks_at(payload, length_at(payload, 0)->Ok_0.1, before, flags) is Ok,
        chunk_at(
            payload,
            chunks_at(payload, length_at(payload, 0)->Ok_0.1, before, flags)->Ok_0.1,
            flags,
        ) == Err::<(ChunkModel, int), Fault>(fault),
    ensures
        chunks_of(payload, flags) == Err::<Seq<ChunkModel>, Fault>(fault),
{
    let (count, start) = length_at(payload, 0)->Ok_0;
    assert(chunks_at(payload, start, before + 1, flags) == Err::<(Seq<ChunkModel>, int), Fault>(
        fault,
    ));
    lemma_chunks_fail(payload, start, before + 1, count as nat, flags);
}

/// A tagged value that the parser rejects fails the read of its field with the
/// parser's message.
pub proof fn lemma_rejected_tag(s: Seq<u8>, pos: int, field: Field, message: Seq<char>)
    requires
        block_at(s, pos) is Ok,
        nbt_decode(block_at(s, pos)->Ok_0.0) == Err::<TagModel, Seq<char>>(message),
    ensures
        tag_at(s, pos, field) == Err::<(TagModel, int), Fault>(Fault::Nbt(field, message)),
{
}

/// Tile entities that parse, but are no compound with a list `tileEntities`,
/// fail as a tagged value that could not be read: the failure names the field,
/// and what follows the tag is not looked at.
pub proof fn lemma_tile_entities_without_list(s: Seq<u8>, pos: int)
    requires
        tag_at(s, pos, Field::TileEntities) is Ok,
        tile_entities_of(tag_at(s, pos, Field::TileEntities)->Ok_0.0) is None,
    ensures
        chunk_tail_at(s, pos) is Err,
        chunk_tail_at(s, pos)->Err_0 == Fault::Nbt(Field::TileEntities, wrong_shape()),
{
}

/// Block states that parse, but are no compound with a palette of block states
/// and, at most, a long array of data, fail as a tagged value that could not be
/// read.
///
/// `flags` is the section's flags byte, `after_sky` and `after_light` are the
/// positions after its two light arrays, and `states` is the tag read there.
pub proof fn lemma_block_states_of_another_shape(
    s: Seq<u8>,
    pos: int,
    flags: u8,
    after_sky: int,
    after_light: int,
    states: TagModel,
)
    requires
        byte_at(s, pos) is Ok,
        byte_at(s, pos)->Ok_0.0 == flags,
        light_at(s, pos + 1, flags as int % 2 == 1) is Ok,
        light_at(s, pos + 1, flags as int % 2 == 1)->Ok_0.1 == after_sky,
        light_at(s, after_sky, (flags as int / 2) % 2 == 1) is Ok,
        light_at(s, after_sky, (flags as int / 2) % 2 == 1)->Ok_0.1 == after_light,
        tag_at(s, after_light, Field::BlockStates) is Ok,
        tag_at(s, after_light, Field::BlockStates)->Ok_0.0 == states,
        block_states_of(states) is None,
    ensures
        section_at(s, pos) is Err,
        section_at(s, pos)->Err_0 == Fault::Nbt(Field::BlockStates, wrong_shape()),
{
    reveal(section_at);
}

/// Whether `a` and `b` have one length and hold the same bytes from `from` up
/// to, not including, `to`.
pub open spec fn same_between(a: Seq<u8>, b: Seq<u8>, from: int, to: int) -> bool {
    &&& a.len() == b.len()
    &&& forall|i: int| from <= i < to && 0 <= i < a.len() ==> a[i] == b[i]
}

proof fn lemma_bytes_frame(a: Seq<u8>, b: Seq<u8>, pos: int, n: int)
    requires
        bytes_at(a, pos, n) is Ok,
        same_between(a, b, pos, pos + n),
    ensures
        bytes_at(b, pos, n) == bytes_at(a, pos, n),
        bytes_at(a, pos, n)->Ok_0.1 == pos + n,
        0 <= pos <= pos + n <= a.len(),
{
    assert(a.subrange(pos, pos + n) =~= b.subrange(pos, pos + n));
}

proof fn lemma_byte_frame(a: Seq<u8>, b: Seq<u8>, pos: int)
    requires
        byte_at(a, pos) is Ok,
        same_between(a, b, pos, pos + 1),
    ensures
        byte_at(b, pos) == byte_at(a, pos),
        byte_at(a, pos)->Ok_0.1 == pos + 1,
        0 <= pos < a.len(),
{
}

proof fn lemma_i32_frame(a: Seq<u8>, b: Seq<u8>, pos: int)
    requires
        i32_at(a, pos) is Ok,
        same_between(a, b, pos, pos + 4),
    ensures
        i32_at(b, pos) == i32_at(a, pos),
        i32_at(a, pos)->Ok_0.1 == pos + 4,
        0 <= pos <= pos + 4 <= a.len(),
{
    assert(a.subrange(pos, pos + 4) =~= b.subrange(pos, pos + 4));
}

proof fn lemma_length_frame(a: Seq<u8>, b: Seq<u8>, pos: int)
    requires
        length_at(a, pos) is Ok,
        same_between(a, b, pos, pos + 4),
    ensures
        length_at(b, pos) == length_at(a, pos),
        length_at(a, pos)->Ok_0.1 == pos + 4,
        0 <= pos <= pos + 4 <= a.len(),
{
    lemma_i32_frame(a, b, pos);
}

proof fn lemma_block_frame(a: Seq<u8>, b: Seq<u8>, pos: int)
    requires
        block_at(a, pos) is Ok,
        same_between(a, b, pos, block_at(a, pos)->Ok_0.1),
    ensures
        block_at(b, pos) == block_at(a, pos),
        0 <= pos <= pos + 4 <= block_at(a, pos)->Ok_0.1 <= a.len(),
{
    lemma_length_frame(a, b, pos);
    lemma_bytes_frame(a, b, pos + 4, length_at(a, pos)->Ok_0.0 as int);
}

proof fn lemma_tag_frame(a: Seq<u8>, b: Seq<u8>, pos: int, field: Field)
    requires
        tag_at(a, pos, field) is Ok,
        same_between(a, b, pos, tag_at(a, pos, field)->Ok_0.1),
    ensures
        tag_at(b, pos, field) == tag_at(a, pos, field),
        0 <= pos <= tag_at(a, pos, field)->Ok_0.1 <= a.len(),
{
    lemma_block_frame(a, b, pos);
}

proof fn lemma_optional_tag_frame(a: Seq<u8>, b: Seq<u8>, pos: int, present: bool, field: Field)
    requires
        0 <= pos <= a.len(),
        optional_tag_at(a, pos, present, field) is Ok,
        same_between(a, b, pos, optional_tag_at(a, pos, present, field)->Ok_0.1),
    ensures
        optional_tag_at(b, pos, present, field) == optional_tag_at(a, pos, present, field),
        pos <= optional_tag_at(a, pos, present, field)->Ok_0.1 <= a.len(),
{
    if present {
        lemma_tag_frame(a, b, pos, field);
    }
}

proof fn lemma_light_frame(a: Seq<u8>, b: Seq<u8>, pos: int, present: bool)
    requires
        0 <= pos <= a.len(),
        light_at(a, pos, present) is Ok,
        same_between(a, b, pos, light_at(a, pos, present)->Ok_0.1),
    ensures
        light_at(b, pos, present) == light_at(a, pos, present),
        pos <= light_at(a, pos, present)->Ok_0.1 <= a.len(),
{
    if present {
        lemma_bytes_frame(a, b, pos, LIGHT_BYTES as int);
    }
}

proof fn lemma_extra_frame(a: Seq<u8>, b: Seq<u8>, pos: int)
    requires
        extra_at(a, pos) is Ok,
        same_between(a, b, pos, extra_at(a, pos)->Ok_0.1),
    ensures
        extra_at(b, pos) == extra_at(a, pos),
        0 <= pos <= extra_at(a, pos)->Ok_0.1 <= a.len(),
{
    lemma_length_frame(a, b, pos);
    let len = length_at(a, pos)->Ok_0.0;
    if len != 0 {
        lemma_bytes_frame(a, b, pos + 4, len as int);
    }
}

proof fn lemma_section_frame(a: Seq<u8>, b: Seq<u8>, pos: int)
    requires
        section_at(a, pos) is Ok,
        same_between(a, b, pos, section_at(a, pos)->Ok_0.1),
    ensures
        section_at(b, pos) == section_at(a, pos),
        0 <= pos <= section_at(a, pos)->Ok_0.1 <= a.len(),
{
    reveal(section_at);
    let flags = byte_at(a, pos)->Ok_0.0;
    let (sky, after_sky) = light_at(a, pos + 1, flags as int % 2 == 1)->Ok_0;
    let (block, after_light) = light_at(a, after_sky, (flags as int / 2) % 2 == 1)->Ok_0;
    let (states, after_states) = tag_at(a, after_light, Field::BlockStates)->Ok_0;
    let next = tag_at(a, after_states, Field::Biomes)->Ok_0.1;
    assert(pos + 1 <= after_sky <= after_light <= after_states <= next <= a.len()) by {
        if flags as int % 2 == 1 {
            lemma_bytes_frame(a, a, pos + 1, LIGHT_BYTES as int);
        }
        if (flags as int / 2) % 2 == 1 {
            lemma_bytes_frame(a, a, after_sky, LIGHT_BYTES as int);
        }
        lemma_tag_frame(a, a, after_light, Field::BlockStates);
        lemma_tag_frame(a, a, after_states, Field::Biomes);
    }
    lemma_byte_frame(a, b, pos);
    lemma_light_frame(a, b, pos + 1, flags as int % 2 == 1);
    lemma_light_frame(a, b, after_sky, (flags as int / 2) % 2 == 1);
    lemma_tag_frame(a, b, after_light, Field::BlockStates);
    lemma_tag_frame(a, b, after_states, Field::Biomes);
}

proof fn lemma_sections_frame(a: Seq<u8>, b: Seq<u8>, pos: int, count: nat)
    requires
        0 <= pos <= a.len(),
        sections_at(a, pos, count) is Ok,
        same_between(a, b, pos, sections_at(a, pos, count)->Ok_0.1),
    ensures
        sections_at(b, pos, count) == sections_at(a, pos, count),
        pos <= sections_at(a, pos, count)->Ok_0.1 <= a.len(),
    decreases count,
{
    if count > 0 {
        let last = sections_at(a, pos, (count - 1) as nat)->Ok_0.1;
        lemma_sections_frame(a, a, pos, (count - 1) as nat);
        lemma_section_frame(a, a, last);
        lemma_sections_frame(a, b, pos, (count - 1) as nat);
        lemma_section_frame(a, b, last);
    }
}

proof fn lemma_chunk_head_frame(a: Seq<u8>, b: Seq<u8>, pos: int)
    requires
        chunk_head_at(a, pos) is Ok,
        same_between(a, b, pos, chunk_head_at(a, pos)->Ok_0.1),
    ensures
        chunk_head_at(b, pos) == chunk_head_at(a, pos),
        0 <= pos <= chunk_head_at(a, pos)->Ok_0.1 <= a.len(),
{
    let count = length_at(a, pos + 8)->Ok_0.0;
    lemma_i32_frame(a, a, pos);
    lemma_i32_frame(a, a, pos + 4);
    lemma_length_frame(a, a, pos + 8);
    lemma_sections_frame(a, a, pos + 12, count as nat);
    lemma_i32_frame(a, b, pos);
    lemma_i32_frame(a, b, pos + 4);
    lemma_length_frame(a, b, pos + 8);
    lemma_sections_frame(a, b, pos + 12, count as nat);
}

proof fn lemma_chunk_tags_frame(a: Seq<u8>, b: Seq<u8>, pos: int, flags: WorldFlags)
    requires
        chunk_tags_at(a, pos, flags) is Ok,
        same_between(a, b, pos, chunk_tags_at(a, pos, flags)->Ok_0.1),
    ensures
        chunk_tags_at(b, pos, flags) == chunk_tags_at(a, pos, flags),
        0 <= pos <= chunk_tags_at(a, pos, flags)->Ok_0.1 <= a.len(),
{
    let after_heightmaps = tag_at(a, pos, Field::Heightmaps)->Ok_0.1;
    let after_poi = optional_tag_at(
        a,
        after_heightmaps,
        flags.has_poi_chunks(),
        Field::PoiChunks,
    )->Ok_0.1;
    let after_block = optional_tag_at(
        a,
        after_poi,
        flags.has_block_ticks(),
        Field::BlockTicks,
    )->Ok_0.1;
    lemma_tag_frame(a, a, pos, Field::Heightmaps);
    lemma_optional_tag_frame(a, a, after_heightmaps, flags.has_poi_chunks(), Field::PoiChunks);
    lemma_optional_tag_frame(a, a, after_poi, flags.has_block_ticks(), Field::BlockTicks);
    lemma_optional_tag_frame(a, a, after_block, flags.has_fluid_ticks(), Field::FluidTicks);
    lemma_tag_frame(a, b, pos, Field::Heightmaps);
    lemma_optional_tag_frame(a, b, after_heightmaps, flags.has_poi_chunks(), Field::PoiChunks);
    lemma_optional_tag_frame(a, b, after_poi, flags.has_block_ticks(), Field::BlockTicks);
    lemma_optional_tag_frame(a, b, after_block, flags.has_fluid_ticks(), Field::FluidTicks);
}

proof fn lemma_chunk_tail_frame(a: Seq<u8>, b: Seq<u8>, pos: int)
    requires
        chunk_tail_at(a, pos) is Ok,
        same_between(a, b, pos, chunk_tail_at(a, pos)->Ok_0.1),
    ensures
        chunk_tail_at(b, pos) == chunk_tail_at(a, pos),
        0 <= pos <= chunk_tail_at(a, pos)->Ok_0.1 <= a.len(),
{
    let after_tiles = tag_at(a, pos, Field::TileEntities)->Ok_0.1;
    let after_entities = tag_at(a, after_tiles, Field::Entities)->Ok_0.1;
    lemma_tag_frame(a, a, pos, Field::TileEntities);
    lemma_tag_frame(a, a, after_tiles, Field::Entities);
    lemma_extra_frame(a, a, after_entities);
    lemma_tag_frame(a, b, pos, Field::TileEntities);
    lemma_tag_frame(a, b, after_tiles, Field::Entities);
    lemma_extra_frame(a, b, after_entities);
}

/// Whether byte `i` of `s` lies inside one of the `count` extension blocks
/// that start at `pos`, after the length that the block begins with.
pub open spec fn in_extension(s: Seq<u8>, pos: int, count: nat, i: int) -> bool
    decreases count,
{
    if count == 0 {
        false
    } else {
        in_extension(s, pos, (count - 1) as nat, i) || match extensions_at(
            s,
            pos,
            (count - 1) as nat,
        ) {
            Ok((_, last)) => match block_at(s, last) {
                Ok((_, next)) => last + 4 <= i < next,
                Err(_) => false,
            },
            Err(_) => false,
        }
    }
}

/// Stepping over extension blocks depends on their lengths alone: where two
/// inputs differ only inside the blocks, the same bytes are skipped in both.
pub proof fn lemma_extensions_skipped_alike(a: Seq<u8>, b: Seq<u8>, pos: int, count: nat)
    requires
        0 <= pos <= a.len(),
        a.len() == b.len(),
        extensions_at(a, pos, count) is Ok,
        forall|i: int|
            pos <= i < extensions_at(a, pos, count)->Ok_0.1 && !in_extension(a, pos, count, i)
                ==> a[i] == b[i],
    ensures
        extensions_at(b, pos, count) == extensions_at(a, pos, count),
        pos <= extensions_at(a, pos, count)->Ok_0.1 <= a.len(),
        forall|i: int|
            in_extension(a, pos, count, i) ==> pos <= i < extensions_at(a, pos, count)->Ok_0.1,
    decreases count,
{
    if count > 0 {
        let fewer = (count - 1) as nat;
        let last = extensions_at(a, pos, fewer)->Ok_0.1;
        let next = block_at(a, last)->Ok_0.1;
        lemma_extensions_skipped_alike(a, a, pos, fewer);
        lemma_block_frame(a, a, last);
        assert forall|i: int| in_extension(a, pos, count, i) == (in_extension(a, pos, fewer, i)
            || last + 4 <= i < next) by {}
        lemma_extensions_skipped_alike(a, b, pos, fewer);
        assert forall|i: int| last <= i < last + 4 implies a[i] == b[i] by {
            assert(!in_extension(a, pos, count, i));
        }
        lemma_length_frame(a, b, last);
    }
}

/// Whether byte `i` of `s` lies inside an extension block of the chunk that
/// starts at `pos`.
pub open spec fn in_chunk_extension(s: Seq<u8>, pos: int, flags: WorldFlags, i: int) -> bool {
    match chunk_head_at(s, pos) {
        Ok((_, after_head)) => match chunk_tags_at(s, after_head, flags) {
            Ok((_, after_tags)) => in_extension(s, after_tags, flags.extensions(), i),
            Err(_) => false,
        },
        Err(_) => false,
    }
}

/// A chunk reads the bytes from its start to its end and no others, and of
/// those it does not read what its extension blocks hold.
proof fn lemma_chunk_frame(a: Seq<u8>, b: Seq<u8>, pos: int, flags: WorldFlags)
    requires
        a.len() == b.len(),
        chunk_at(a, pos, flags) is Ok,
        forall|i: int|
            pos <= i < chunk_at(a, pos, flags)->Ok_0.1 && 0 <= i < a.len() && a[i] != b[i]
                ==> in_chunk_extension(a, pos, flags, i),
    ensures
        chunk_at(b, pos, flags) == chunk_at(a, pos, flags),
        0 <= pos <= chunk_at(a, pos, flags)->Ok_0.1 <= a.len(),
        forall|i: int|
            in_chunk_extension(a, pos, flags, i) ==> pos <= i < chunk_at(a, pos, flags)->Ok_0.1,
{
    reveal(chunk_at);
    let after_head = chunk_head_at(a, pos)->Ok_0.1;
    let after_tags = chunk_tags_at(a, after_head, flags)->Ok_0.1;
    let count = flags.extensions();
    let after_extensions = extensions_at(a, after_tags, count)->Ok_0.1;
    lemma_chunk_head_frame(a, a, pos);
    lemma_chunk_tags_frame(a, a, after_head, flags);
    lemma_extensions_skipped_alike(a, a, after_tags, count);
    lemma_chunk_tail_frame(a, a, after_extensions);
    lemma_chunk_head_frame(a, b, pos);
    lemma_chunk_tags_frame(a, b, after_head, flags);
    lemma_extensions_skipped_alike(a, b, after_tags, count);
    lemma_chunk_tail_frame(a, b, after_extensions);
}

/// A chunk decodes to the same value, and ends at the same place, whatever its
/// extension blocks hold: two inputs that differ only inside those blocks give
/// one result.
pub proof fn lemma_extension_tolerance(a: Seq<u8>, b: Seq<u8>, pos: int, flags: WorldFlags)
    requires
        a.len() == b.len(),
        chunk_at(a, pos, flags) is Ok,
        forall|i: int|
            0 <= i < a.len() && a[i] != b[i] ==> in_chunk_extension(a, pos, flags, i),
    ensures
        chunk_at(b, pos, flags) == chunk_at(a, pos, flags),
{
    lemma_chunk_frame(a, b, pos, flags);
}

/// Whether byte `i` of `s` lies inside an extension block of one of the
/// `count` chunks that start at `pos`.
pub open spec fn in_chunks_extension(
    s: Seq<u8>,
    pos: int,
    count: nat,
    flags: WorldFlags,
    i: int,
) -> bool
    decreases count,
{
    if count == 0 {
        false
    } else {
        in_chunks_extension(s, pos, (count - 1) as nat, flags, i) || match chunks_at(
            s,
            pos,
            (count - 1) as nat,
            flags,
        ) {
            Ok((_, last)) => in_chunk_extension(s, last, flags, i),
            Err(_) => false,
        }
    }
}

proof fn lemma_chunks_frame(a: Seq<u8>, b: Seq<u8>, pos: int, count: nat, flags: WorldFlags)
    requires
        0 <= pos <= a.len(),
        a.len() == b.len(),
        chunks_at(a, pos, count, flags) is Ok,
        forall|i: int|
            pos <= i < chunks_at(a, pos, count, flags)->Ok_0.1 && 0 <= i < a.len() && a[i] != b[i]
                ==> in_chunks_extension(a, pos, count, flags, i),
    ensures
        chunks_at(b, pos, count, flags) == chunks_at(a, pos, count, flags),
        pos <= chunks_at(a, pos, count, flags)->Ok_0.1 <= a.len(),
        forall|i: int|
            in_chunks_extension(a, pos, count, flags, i) ==> pos <= i < chunks_at(
                a,
                pos,
                count,
                flags,
            )->Ok_0.1,
    decreases count,
{
    if count > 0 {
        let fewer = (count - 1) as nat;
        let last = chunks_at(a, pos, fewer, flags)->Ok_0.1;
        lemma_chunks_frame(a, a, pos, fewer, flags);
        lemma_chunk_frame(a, a, last, flags);
        assert forall|i: int| in_chunks_extension(a, pos, count, flags, i) == (
        in_chunks_extension(a, pos, fewer, flags, i) || in_chunk_extension(a, last, flags, i)) by {}
        lemma_chunks_frame(a, b, pos, fewer, flags);
        lemma_chunk_frame(a, b, last, flags);
        let next = chunk_at(a, last, flags)->Ok_0.1;
        assert forall|i: int| in_chunks_extension(a, pos, count, flags, i) implies pos <= i
            < next by {
            if !in_chunks_extension(a, pos, fewer, flags, i) {
                assert(in_chunk_extension(a, last, flags, i));
            }
        }
    }
}

/// Whether byte `i` of a decompressed payload lies inside an extension block
/// of one of its chunks.
pub open spec fn in_payload_extension(payload: Seq<u8>, flags: WorldFlags, i: int) -> bool {
    match length_at(payload, 0) {
        Ok((count, start)) => in_chunks_extension(payload, start, count as nat, flags, i),
        Err(_) => false,
    }
}

/// A payload decodes to the same chunks whatever its extension blocks hold:
/// two payloads that differ only inside those blocks give one result.
pub proof fn lemma_payload_extension_tolerance(a: Seq<u8>, b: Seq<u8>, flags: WorldFlags)
    requires
        a.len() == b.len(),
        chunks_of(a, flags) is Ok,
        forall|i: int|
            0 <= i < a.len() && a[i] != b[i] ==> in_payload_extension(a, flags, i),
    ensures
        chunks_of(b, flags) == chunks_of(a, flags),
{
    let (count, start) = length_at(a, 0)->Ok_0;
    lemma_length_frame(a, a, 0);
    lemma_chunks_frame(a, a, start, count as nat, flags);
    lemma_length_frame(a, b, 0);
    lemma_chunks_frame(a, b, start, count as nat, flags);
}

} // verus!
