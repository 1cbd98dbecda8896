use fastnbt::{LongArray, Value};
use slimeball_lib::decode::{
    check_size, decompress_checked, read_chunks, read_compressed, read_header, read_sized,
    skip_extensions,
};
use slimeball_lib::{Error, Field, SlimeWorld, Tag, WorldFlags};
use std::collections::HashMap;

fn compound(entries: Vec<(&str, Value)>) -> Value {
    let mut map = HashMap::new();
    for (key, value) in entries {
        map.insert(key.to_string(), value);
    }
    Value::Compound(map)
}

fn nbt(value: &Value) -> Vec<u8> {
    fastnbt::to_bytes(value).unwrap()
}

fn be32(value: i32) -> Vec<u8> {
    value.to_be_bytes().to_vec()
}

fn sized(bytes: &[u8]) -> Vec<u8> {
    let mut out = be32(bytes.len() as i32);
    out.extend_from_slice(bytes);
    out
}

fn block_state(name: &str) -> Value {
    compound(vec![("Name", Value::String(name.to_string()))])
}

fn air_states() -> Vec<u8> {
    nbt(&compound(vec![("palette", Value::List(vec![block_state("minecraft:air")]))]))
}

fn named_compound(key: &str, value: i32) -> Vec<u8> {
    nbt(&compound(vec![(key, Value::Int(value))]))
}

fn tiles(count: usize) -> Vec<u8> {
    let items = (0..count).map(|i| compound(vec![("slot", Value::Int(i as i32))])).collect();
    nbt(&compound(vec![("tileEntities", Value::List(items))]))
}

fn section(flags: u8, states: &[u8]) -> Vec<u8> {
    let mut out = vec![flags];
    if flags & 1 == 1 {
        out.extend(std::iter::repeat(0x11).take(2048));
    }
    if flags & 2 == 2 {
        out.extend(std::iter::repeat(0x22).take(2048));
    }
    out.extend(sized(states));
    out.extend(sized(&named_compound("biome", 7)));
    out
}

struct ChunkParts {
    x: i32,
    z: i32,
    sections: Vec<Vec<u8>>,
    flags: u8,
    extensions: Vec<Vec<u8>>,
    tile_count: usize,
    extra: Option<Vec<u8>>,
}

fn plain_chunk() -> ChunkParts {
    ChunkParts {
        x: 3,
        z: -4,
        sections: vec![section(0, &air_states())],
        flags: 0,
        extensions: Vec::new(),
        tile_count: 0,
        extra: None,
    }
}

fn chunk(parts: &ChunkParts) -> Vec<u8> {
    let mut out = be32(parts.x);
    out.extend(be32(parts.z));
    out.extend(be32(parts.sections.len() as i32));
    for section in &parts.sections {
        out.extend_from_slice(section);
    }
    out.extend(sized(&named_compound("height", 64)));
    if parts.flags & 1 == 1 {
        out.extend(sized(&named_compound("poi", 1)));
    }
    if parts.flags & 4 == 4 {
        out.extend(sized(&named_compound("blockTicks", 2)));
    }
    if parts.flags & 2 == 2 {
        out.extend(sized(&named_compound("fluidTicks", 3)));
    }
    for extension in &parts.extensions {
        out.extend(sized(extension));
    }
    out.extend(sized(&tiles(parts.tile_count)));
    out.extend(sized(&named_compound("entities", 4)));
    match &parts.extra {
        Some(bytes) => out.extend(sized(bytes)),
        None => out.extend(be32(0)),
    }
    out
}

fn payload(chunks: &[Vec<u8>]) -> Vec<u8> {
    let mut out = be32(chunks.len() as i32);
    for chunk in chunks {
        out.extend_from_slice(chunk);
    }
    out
}

fn header(magic: u16, version: u8, world_version: i32, flags: u8) -> Vec<u8> {
    let mut out = magic.to_be_bytes().to_vec();
    out.push(version);
    out.extend(be32(world_version));
    out.push(flags);
    out
}

fn compressed(payload: &[u8], declared: i32) -> Vec<u8> {
    let packed = zstd::encode_all(payload, 0).unwrap();
    let mut out = be32(packed.len() as i32);
    out.extend(be32(declared));
    out.extend(packed);
    out
}

fn world(flags: u8, payload: &[u8]) -> Vec<u8> {
    let mut out = header(0xB10B, 13, 3465, flags);
    out.extend(compressed(payload, payload.len() as i32));
    out
}

const WRONG_SHAPE: &str = "the tagged value has another shape than its field requires";

fn error_of(bytes: &[u8]) -> Error {
    SlimeWorld::deserialize(bytes).unwrap_err()
}

fn wrong_shape(field: Field) -> Error {
    Error::Nbt(field, WRONG_SHAPE.to_string())
}

#[test]
fn minimal_world_decodes_to_one_chunk_of_air() {
    let bytes = world(0, &payload(&[chunk(&plain_chunk())]));
    let world = SlimeWorld::deserialize(&bytes).unwrap();
    assert_eq!(world.version, 13);
    assert_eq!(world.world_version, 3465);
    assert_eq!(world.world_flags.bits(), 0);
    assert_eq!(world.chunks.len(), 1);
    let chunk = &world.chunks[0];
    assert_eq!((chunk.x, chunk.z), (3, -4));
    assert_eq!(chunk.sections.len(), 1);
    let section = &chunk.sections[0];
    assert!(section.sky_light.is_none());
    assert!(section.block_light.is_none());
    for index in 0..4096 {
        assert_eq!(section.block_states.get(index).unwrap().name, "minecraft:air");
    }
    assert!(section.block_states.get(4096).is_err());
    assert!(matches!(section.biomes.get("biome"), Some(Tag::Int(7))));
    assert!(matches!(chunk.heightmaps.get("height"), Some(Tag::Int(64))));
    assert!(chunk.poi_chunks.is_none());
    assert!(chunk.block_ticks.is_none());
    assert!(chunk.fluid_ticks.is_none());
    assert!(chunk.tile_entities.is_empty());
    assert!(matches!(chunk.entities.get("entities"), Some(Tag::Int(4))));
    assert!(chunk.extra.is_none());
}

#[test]
fn world_without_chunks_is_empty() {
    let bytes = world(0, &payload(&[]));
    let world = SlimeWorld::deserialize(&bytes).unwrap();
    assert!(world.chunks.is_empty());
}

#[test]
fn bytes_after_the_payload_are_not_looked_at() {
    let mut bytes = world(0, &payload(&[chunk(&plain_chunk())]));
    bytes.extend_from_slice(&[0xFF, 0xEE, 0xDD]);
    assert_eq!(SlimeWorld::deserialize(&bytes).unwrap().chunks.len(), 1);
}

#[test]
fn wrong_magic_is_refused_with_the_value_found() {
    let mut bytes = world(0, &payload(&[chunk(&plain_chunk())]));
    bytes[0] = 0x12;
    bytes[1] = 0x34;
    assert_eq!(error_of(&bytes), Error::MagicBytes(0x1234));
    assert_eq!(error_of(&[0xB1, 0x0A]), Error::MagicBytes(0xB10A));
    assert_eq!(error_of(&[0x0B, 0xB1, 13, 0, 0]), Error::MagicBytes(0x0BB1));
    assert_eq!(error_of(&[0x00, 0x00]), Error::MagicBytes(0));
    assert!(matches!(
        SlimeWorld::deserialize(&[0xFF, 0xFF, 1, 2, 3]),
        Err(Error::MagicBytes(0xFFFF))
    ));
}

#[test]
fn other_format_versions_are_refused() {
    let body = payload(&[chunk(&plain_chunk())]);
    for version in [0u8, 1, 12, 14, 255] {
        let mut bytes = header(0xB10B, version, 3465, 0);
        bytes.extend(compressed(&body, body.len() as i32));
        assert_eq!(error_of(&bytes), Error::UnsupportedVersion(version));
    }
    assert_eq!(error_of(&[0xB1, 0x0B, 12]), Error::UnsupportedVersion(12));
}

#[test]
fn declared_size_must_match_the_decompressed_size() {
    let body = payload(&[chunk(&plain_chunk())]);
    let size = body.len();
    for declared in [size - 1, size + 1, 0, 2 * size] {
        let mut bytes = header(0xB10B, 13, 3465, 0);
        bytes.extend(compressed(&body, declared as i32));
        assert_eq!(error_of(&bytes), Error::DecompressSize(declared, size));
    }
}

#[test]
fn size_is_checked_before_any_chunk_is_read() {
    // The payload is no list of chunks at all; the size guard answers first.
    let garbage = [0xFFu8; 37];
    let mut bytes = header(0xB10B, 13, 3465, 0);
    bytes.extend(compressed(&garbage, 36));
    assert_eq!(error_of(&bytes), Error::DecompressSize(36, 37));
    let mut bytes = header(0xB10B, 13, 3465, 0);
    bytes.extend(compressed(&garbage, 37));
    assert_eq!(error_of(&bytes), Error::InvalidLength(-1));
}

#[test]
fn check_size_accepts_only_the_declared_size() {
    assert_eq!(check_size(vec![1, 2, 3], 3).unwrap(), vec![1, 2, 3]);
    assert_eq!(check_size(Vec::new(), 0).unwrap(), Vec::<u8>::new());
    assert_eq!(check_size(vec![1, 2, 3], 2).unwrap_err(), Error::DecompressSize(2, 3));
    assert_eq!(check_size(vec![1, 2, 3], 4).unwrap_err(), Error::DecompressSize(4, 3));
}

#[test]
fn payload_is_decompressed() {
    let data: Vec<u8> = (0..=255u8).cycle().take(5000).collect();
    let packed = zstd::encode_all(&data[..], 0).unwrap();
    assert_ne!(packed, data);
    assert_eq!(decompress_checked(&packed, 5000).unwrap(), data);
    let mut stream = vec![9u8, 9];
    stream.extend(compressed(&data, 5000));
    stream.push(0x77);
    let (read, next) = read_compressed(&stream, 2).unwrap();
    assert_eq!(read, data);
    assert_eq!(next, stream.len() - 1);
}

#[test]
fn payload_that_is_no_compressed_frame_is_refused() {
    let junk = [1u8, 2, 3, 4, 5, 6, 7, 8, 9];
    let message = zstd::decode_all(&junk[..]).unwrap_err().to_string();
    assert!(!message.is_empty());
    assert_eq!(decompress_checked(&junk, 9).unwrap_err(), Error::Decompress(message.clone()));
    let mut bytes = header(0xB10B, 13, 3465, 0);
    bytes.extend(be32(junk.len() as i32));
    bytes.extend(be32(9));
    bytes.extend_from_slice(&junk);
    assert_eq!(error_of(&bytes), Error::Decompress(message));
}

#[test]
fn negative_sizes_are_refused() {
    let mut bytes = header(0xB10B, 13, 3465, 0);
    bytes.extend(be32(-5));
    bytes.extend(be32(10));
    assert_eq!(error_of(&bytes), Error::InvalidLength(-5));
    let mut bytes = header(0xB10B, 13, 3465, 0);
    bytes.extend(be32(0));
    bytes.extend(be32(-7));
    assert_eq!(error_of(&bytes), Error::InvalidLength(-7));
    assert_eq!(error_of(&world(0, &be32(-1))), Error::InvalidLength(-1));
    let mut negative_sections = be32(0);
    negative_sections.extend(be32(0));
    negative_sections.extend(be32(-2));
    assert_eq!(error_of(&world(0, &payload(&[negative_sections]))), Error::InvalidLength(-2));
}

#[test]
fn truncated_streams_end_unexpectedly() {
    let bytes = world(0, &payload(&[chunk(&plain_chunk())]));
    for cut in [0, 1, 2, 3, 6, 7, 8, 11, 12, 15, 16, bytes.len() - 1] {
        assert_eq!(error_of(&bytes[..cut]), Error::UnexpectedEof, "cut at {}", cut);
    }
    let body = payload(&[chunk(&plain_chunk())]);
    for cut in [0, 3, 4, 8, 12, 16, 17, 20, body.len() - 4, body.len() - 1] {
        assert_eq!(error_of(&world(0, &body[..cut])), Error::UnexpectedEof, "cut at {}", cut);
    }
    // Two chunks announced, one held.
    let mut two = be32(2);
    two.extend(chunk(&plain_chunk()));
    assert_eq!(error_of(&world(0, &two)), Error::UnexpectedEof);
}

#[test]
fn header_fields_are_handed_on() {
    let bytes = header(0xB10B, 13, -2, 0xA5);
    assert_eq!(read_header(&bytes, 0).unwrap(), ((13, -2, 0xA5), 8));
    let mut shifted = vec![0u8; 3];
    shifted.extend(header(0xB10B, 13, i32::MAX, 7));
    assert_eq!(read_header(&shifted, 3).unwrap(), ((13, i32::MAX, 7), 11));
    assert_eq!(read_header(&bytes[..7], 0).unwrap_err(), Error::UnexpectedEof);
}

#[test]
fn light_arrays_follow_the_section_flags() {
    for flags in [0u8, 1, 2, 3, 0xFC, 0xFD, 0xFE, 0xFF] {
        let mut parts = plain_chunk();
        parts.sections = vec![section(flags, &air_states())];
        let world = SlimeWorld::deserialize(&world(0, &payload(&[chunk(&parts)]))).unwrap();
        let section = &world.chunks[0].sections[0];
        match &section.sky_light {
            Some(light) => {
                assert_eq!(flags & 1, 1);
                assert_eq!(light, &vec![0x11u8; 2048]);
            }
            None => assert_eq!(flags & 1, 0),
        }
        match &section.block_light {
            Some(light) => {
                assert_eq!(flags & 2, 2);
                assert_eq!(light, &vec![0x22u8; 2048]);
            }
            None => assert_eq!(flags & 2, 0),
        }
        assert_eq!(section.block_states.get(0).unwrap().name, "minecraft:air");
    }
}

#[test]
fn light_array_is_read_whole_or_not_at_all() {
    let mut short = vec![1u8];
    short.extend(std::iter::repeat(0x11).take(2047));
    let mut body = be32(1);
    body.extend(be32(0));
    body.extend(be32(0));
    body.extend(be32(1));
    body.extend(short);
    assert_eq!(error_of(&world(0, &body)), Error::UnexpectedEof);
}

#[test]
fn several_sections_and_chunks_come_in_order() {
    let stone = nbt(&compound(vec![(
        "palette",
        Value::List(vec![block_state("minecraft:stone")]),
    )]));
    let mixed = nbt(&compound(vec![
        (
            "palette",
            Value::List(vec![block_state("minecraft:air"), block_state("minecraft:dirt")]),
        ),
        ("data", Value::LongArray(LongArray::new(vec![i64::MIN; 64]))),
    ]));
    let mut first = plain_chunk();
    first.sections = vec![section(0, &air_states()), section(3, &stone), section(1, &mixed)];
    first.tile_count = 2;
    let mut second = plain_chunk();
    second.x = 100;
    second.z = 200;
    second.sections = Vec::new();
    let bytes = world(0, &payload(&[chunk(&first), chunk(&second)]));
    let world = SlimeWorld::deserialize(&bytes).unwrap();
    assert_eq!(world.chunks.len(), 2);
    let sections = &world.chunks[0].sections;
    assert_eq!(sections.len(), 3);
    assert_eq!(sections[0].block_states.get(17).unwrap().name, "minecraft:air");
    assert_eq!(sections[1].block_states.get(17).unwrap().name, "minecraft:stone");
    assert!(sections[1].sky_light.is_some() && sections[1].block_light.is_some());
    assert!(sections[2].sky_light.is_some() && sections[2].block_light.is_none());
    // Every word has only its highest bit set: the first position of each word
    // is dirt and the others are air.
    assert_eq!(sections[2].block_states.get(0).unwrap().name, "minecraft:dirt");
    assert_eq!(sections[2].block_states.get(1).unwrap().name, "minecraft:air");
    assert_eq!(sections[2].block_states.get(64).unwrap().name, "minecraft:dirt");
    assert_eq!(sections[2].block_states.get(4095).unwrap().name, "minecraft:air");
    assert_eq!(world.chunks[0].tile_entities.len(), 2);
    assert!(matches!(world.chunks[0].tile_entities[1].get("slot"), Some(Tag::Int(1))));
    assert_eq!((world.chunks[1].x, world.chunks[1].z), (100, 200));
    assert!(world.chunks[1].sections.is_empty());
}

#[test]
fn optional_tags_follow_the_world_flags() {
    for flags in 0u8..8 {
        let mut parts = plain_chunk();
        parts.flags = flags;
        let world = SlimeWorld::deserialize(&world(flags, &payload(&[chunk(&parts)]))).unwrap();
        let chunk = &world.chunks[0];
        assert_eq!(chunk.poi_chunks.is_some(), flags & 1 == 1);
        assert_eq!(chunk.fluid_ticks.is_some(), flags & 2 == 2);
        assert_eq!(chunk.block_ticks.is_some(), flags & 4 == 4);
        if let Some(tag) = &chunk.poi_chunks {
            assert!(matches!(tag.get("poi"), Some(Tag::Int(1))));
        }
        if let Some(tag) = &chunk.block_ticks {
            assert!(matches!(tag.get("blockTicks"), Some(Tag::Int(2))));
        }
        if let Some(tag) = &chunk.fluid_ticks {
            assert!(matches!(tag.get("fluidTicks"), Some(Tag::Int(3))));
        }
        assert!(matches!(chunk.entities.get("entities"), Some(Tag::Int(4))));
    }
}

#[test]
fn extension_blocks_are_skipped_whatever_they_hold() {
    let flags: u8 = 0b0101_1001;
    let shapes: [Vec<Vec<u8>>; 3] = [
        vec![vec![0; 5], vec![0; 0], vec![0; 300]],
        vec![vec![0xDE, 0xAD, 0xBE, 0xEF, 0x42], vec![], (0..300).map(|i| (i * 7) as u8).collect()],
        vec![vec![0xFF; 5], vec![], vec![0x0A; 300]],
    ];
    let mut seen: Vec<String> = Vec::new();
    for extensions in shapes {
        let mut first = plain_chunk();
        first.flags = flags;
        first.extensions = extensions.clone();
        first.tile_count = 1;
        let mut second = plain_chunk();
        second.flags = flags;
        second.extensions = extensions;
        second.x = 9;
        let bytes = world(flags, &payload(&[chunk(&first), chunk(&second)]));
        let world = SlimeWorld::deserialize(&bytes).unwrap();
        assert_eq!(world.world_flags.other_flag_count(), 3);
        assert_eq!(world.chunks.len(), 2);
        assert!(world.chunks[0].poi_chunks.is_some());
        assert_eq!(world.chunks[0].tile_entities.len(), 1);
        assert_eq!(world.chunks[1].x, 9);
        seen.push(format!("{:?}", world));
    }
    assert_eq!(seen[0], seen[1]);
    assert_eq!(seen[0], seen[2]);
}

#[test]
fn extension_blocks_are_counted_from_the_flags() {
    // Two unnamed bits, but only one block: the tile entities are taken for
    // the second block and the decode runs out of step.
    let flags: u8 = 0b0001_1000;
    let mut parts = plain_chunk();
    parts.flags = flags;
    parts.extensions = vec![vec![1, 2, 3]];
    assert!(SlimeWorld::deserialize(&world(flags, &payload(&[chunk(&parts)]))).is_err());
    parts.extensions = vec![vec![1, 2, 3], vec![4, 5]];
    assert!(SlimeWorld::deserialize(&world(flags, &payload(&[chunk(&parts)]))).is_ok());
}

#[test]
fn skipping_stops_after_the_last_block() {
    let mut buf = sized(&[1, 2, 3]);
    buf.extend(sized(&[]));
    buf.extend(sized(&[9; 10]));
    assert_eq!(skip_extensions(&buf, 0, 0).unwrap(), ((), 0));
    assert_eq!(skip_extensions(&buf, 0, 1).unwrap(), ((), 7));
    assert_eq!(skip_extensions(&buf, 0, 2).unwrap(), ((), 11));
    assert_eq!(skip_extensions(&buf, 0, 3).unwrap(), ((), 25));
    assert_eq!(skip_extensions(&buf, 0, 4).unwrap_err(), Error::UnexpectedEof);
    assert_eq!(skip_extensions(&buf, 7, 2).unwrap(), ((), 25));
    let mut negative = sized(&[1]);
    negative.extend(be32(-3));
    assert_eq!(skip_extensions(&negative, 0, 2).unwrap_err(), Error::InvalidLength(-3));
}

#[test]
fn trailing_tag_is_there_unless_its_length_is_zero() {
    let mut parts = plain_chunk();
    parts.extra = Some(named_compound("more", 99));
    let world = SlimeWorld::deserialize(&world(0, &payload(&[chunk(&parts)]))).unwrap();
    let extra = world.chunks[0].extra.as_ref().unwrap();
    assert!(matches!(extra.get("more"), Some(Tag::Int(99))));

    parts.extra = Some(vec![0x42]);
    assert!(matches!(error_of(&world_bytes_of(&parts)), Error::Nbt(Field::Extra, _)));
}

fn world_bytes_of(parts: &ChunkParts) -> Vec<u8> {
    world(parts.flags, &payload(&[chunk(parts)]))
}

#[test]
fn tags_that_do_not_parse_name_their_field() {
    let mut parts = plain_chunk();
    parts.sections = vec![section(0, &[0x42, 0x00])];
    assert!(matches!(error_of(&world_bytes_of(&parts)), Error::Nbt(Field::BlockStates, _)));

    let (tag, next) = read_sized(&sized(&named_compound("a", 1)), 0, Field::Entities).unwrap();
    assert!(matches!(tag.get("a"), Some(Tag::Int(1))));
    assert_eq!(next, 4 + named_compound("a", 1).len());
    for field in [Field::Biomes, Field::Heightmaps, Field::PoiChunks, Field::Entities] {
        let error = read_sized(&sized(&[1, 2, 3]), 0, field).unwrap_err();
        assert!(
            matches!(error, Error::Nbt(found, ref message) if found == field && !message.is_empty())
        );
    }
    assert!(matches!(
        read_sized(&sized(&[]), 0, Field::Heightmaps).unwrap_err(),
        Error::Nbt(Field::Heightmaps, _)
    ));
    assert_eq!(read_sized(&be32(9), 0, Field::Heightmaps).unwrap_err(), Error::UnexpectedEof);
}

#[test]
fn failure_of_a_tag_carries_the_message_of_the_parser() {
    let inputs: [&[u8]; 4] = [&[0x1F, 0x8B, 0x08], &[], &[0x0A, 0x00], &[0x01, 0x00, 0x00, 0x05]];
    for bytes in inputs {
        let message = fastnbt::from_bytes::<Value>(bytes).unwrap_err().to_string();
        assert!(!message.is_empty());
        assert_eq!(
            read_sized(&sized(bytes), 0, Field::Biomes).unwrap_err(),
            Error::Nbt(Field::Biomes, message)
        );
    }
    assert_eq!(
        read_sized(&sized(&[0x1F, 0x8B, 0x08]), 0, Field::Entities).unwrap_err(),
        Error::Nbt(
            Field::Entities,
            "from_bytes expects raw NBT, but input appears to be gzipped".to_string()
        )
    );
}

#[test]
fn tags_of_another_shape_fail_as_tags_that_could_not_be_read() {
    let mut parts = plain_chunk();
    parts.sections = vec![section(0, &named_compound("palette", 1))];
    assert_eq!(error_of(&world_bytes_of(&parts)), wrong_shape(Field::BlockStates));

    // A chunk whose tile entities are a compound without the list.
    let mut body = be32(1);
    body.extend(be32(0));
    body.extend(be32(0));
    body.extend(be32(0));
    body.extend(sized(&named_compound("height", 64)));
    body.extend(sized(&named_compound("tileEntities", 5)));
    body.extend(sized(&named_compound("entities", 4)));
    body.extend(be32(0));
    assert_eq!(error_of(&world(0, &body)), wrong_shape(Field::TileEntities));
    assert_eq!(Error::shape(Field::TileEntities), wrong_shape(Field::TileEntities));
}

#[test]
fn failure_in_a_later_chunk_gives_no_chunks() {
    // Two good chunks, then one whose tile entities lack their list.
    let mut broken = be32(7);
    broken.extend(be32(8));
    broken.extend(be32(0));
    broken.extend(sized(&named_compound("height", 64)));
    broken.extend(sized(&named_compound("other", 5)));
    broken.extend(sized(&named_compound("entities", 4)));
    broken.extend(be32(0));
    let body = payload(&[chunk(&plain_chunk()), chunk(&plain_chunk()), broken]);
    assert_eq!(
        read_chunks(&body, WorldFlags::from(0)).unwrap_err(),
        wrong_shape(Field::TileEntities)
    );
    assert_eq!(error_of(&world(0, &body)), wrong_shape(Field::TileEntities));

    // Two good chunks, then one with a tag that the parser rejects.
    let mut rejected = be32(7);
    rejected.extend(be32(8));
    rejected.extend(be32(0));
    rejected.extend(sized(&[0x42, 0x00, 0x01]));
    let message = fastnbt::from_bytes::<Value>(&[0x42, 0x00, 0x01]).unwrap_err().to_string();
    let body = payload(&[chunk(&plain_chunk()), chunk(&plain_chunk()), rejected]);
    assert_eq!(
        read_chunks(&body, WorldFlags::from(0)).unwrap_err(),
        Error::Nbt(Field::Heightmaps, message)
    );
}

#[test]
fn chunks_are_read_from_a_bare_payload() {
    let body = payload(&[chunk(&plain_chunk())]);
    let chunks = read_chunks(&body, WorldFlags::from(0)).unwrap();
    assert_eq!(chunks.len(), 1);
    assert_eq!((chunks[0].x, chunks[0].z), (3, -4));
    // With a flag set that the payload was not written for, the decode runs
    // out of step.
    assert!(read_chunks(&body, WorldFlags::from(1)).is_err());
}

#[test]
fn copy_of_a_world_holds_the_same_chunks() {
    let mut parts = plain_chunk();
    parts.tile_count = 2;
    parts.extra = Some(named_compound("more", 1));
    let world = SlimeWorld::deserialize(&world_bytes_of(&parts)).unwrap();
    let copy = world.clone();
    assert_eq!(format!("{:?}", copy), format!("{:?}", world));
    assert_eq!(copy.chunks[0].sections[0].block_states.get(5).unwrap().name, "minecraft:air");
}
