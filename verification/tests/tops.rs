use slimeball_lib::{
    chunk_tops, load_chunk_tops, BlockState, Chunk, PalettedContainer, Section, SlimeWorld, Tag,
    WorldFlags,
};

fn block(name: &str) -> BlockState {
    BlockState { name: name.to_string(), properties: Vec::new() }
}

fn section(palette: Vec<BlockState>, data: Option<Vec<i64>>) -> Section {
    Section {
        sky_light: None,
        block_light: None,
        block_states: PalettedContainer { palette, data },
        biomes: Tag::Compound(Vec::new()),
    }
}

fn chunk(sections: Vec<Section>) -> Chunk {
    Chunk {
        x: 0,
        z: 0,
        sections,
        heightmaps: Tag::Compound(Vec::new()),
        poi_chunks: None,
        block_ticks: None,
        fluid_ticks: None,
        tile_entities: Vec::new(),
        entities: Tag::Compound(Vec::new()),
        extra: None,
    }
}

#[test]
fn chunk_of_air_has_no_tops() {
    let tops = chunk_tops(&chunk(vec![section(vec![block("minecraft:air")], None)]));
    assert_eq!(tops, vec![String::new(); 256]);
    assert_eq!(chunk_tops(&chunk(Vec::new())), vec![String::new(); 256]);
}

#[test]
fn solid_section_tops_every_column() {
    let tops = chunk_tops(&chunk(vec![section(vec![block("minecraft:stone")], None)]));
    assert_eq!(tops, vec!["minecraft:stone".to_string(); 256]);
}

#[test]
fn higher_section_wins_and_air_does_not_cover() {
    let tops = chunk_tops(&chunk(vec![
        section(vec![block("minecraft:stone")], None),
        section(vec![block("minecraft:dirt")], None),
        section(vec![block("minecraft:air")], None),
    ]));
    assert_eq!(tops, vec!["minecraft:dirt".to_string(); 256]);
}

#[test]
fn highest_shown_block_of_a_column_is_its_top() {
    // Two entries, one bit each, 64 positions a word, position 0 in the
    // highest bit. Word 0 covers positions 0 to 63 of the lowest layer, word 4
    // the start of the second layer.
    let mut words = vec![0i64; 64];
    words[0] = 0xC000_0000_0000_0001u64 as i64;
    words[4] = 0x4000_0000_0000_0000;
    let lower = section(vec![block("minecraft:air"), block("minecraft:sand")], Some(words));
    let mut words = vec![0i64; 64];
    words[0] = 0x2000_0000_0000_0000;
    let upper = section(vec![block("minecraft:air"), block("minecraft:glass")], Some(words));
    let tops = chunk_tops(&chunk(vec![lower, upper]));
    assert_eq!(tops[0], "minecraft:sand");
    assert_eq!(tops[1], "minecraft:sand");
    assert_eq!(tops[2], "minecraft:glass");
    assert_eq!(tops[3], "");
    assert_eq!(tops[63], "minecraft:sand");
    assert_eq!(tops[64], "");
    assert_eq!(tops.iter().filter(|name| !name.is_empty()).count(), 4);
}

#[test]
fn positions_without_an_entry_are_passed_over() {
    // No index data for a palette of two: no position has an entry.
    let broken = section(vec![block("minecraft:stone"), block("minecraft:dirt")], None);
    let tops = chunk_tops(&chunk(vec![section(vec![block("minecraft:sand")], None), broken]));
    assert_eq!(tops, vec!["minecraft:sand".to_string(); 256]);
}

#[test]
fn tops_are_taken_from_the_fifth_chunk() {
    let mut chunks: Vec<Chunk> =
        (0..4).map(|_| chunk(vec![section(vec![block("minecraft:stone")], None)])).collect();
    chunks.push(chunk(vec![section(vec![block("minecraft:grass_block")], None)]));
    chunks.push(chunk(vec![section(vec![block("minecraft:dirt")], None)]));
    let world = SlimeWorld {
        version: 13,
        world_version: 1,
        world_flags: WorldFlags::from(0),
        chunks,
    };
    assert_eq!(load_chunk_tops(&world), Some(vec!["minecraft:grass_block".to_string(); 256]));
}

#[test]
fn world_of_four_chunks_has_no_fifth() {
    let mut world = SlimeWorld {
        version: 13,
        world_version: 1,
        world_flags: WorldFlags::from(0),
        chunks: (0..4).map(|_| chunk(vec![section(vec![block("minecraft:stone")], None)])).collect(),
    };
    assert_eq!(load_chunk_tops(&world), None);
    world.chunks.clear();
    assert_eq!(load_chunk_tops(&world), None);
}
