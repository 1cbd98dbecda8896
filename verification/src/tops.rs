//! The highest block of every column of a chunk that is not air.

use crate::model::{Chunk, Section, SlimeWorld};
use crate::schema::SECTION_BLOCKS;
use vstd::prelude::*;

verus! {

/// The number of columns of a chunk: sixteen by sixteen.
pub const COLUMNS: usize = 256;

/// Whether position `block` of `section` holds a block that shows: one that
/// the section can name and that is not air.
pub open spec fn shows(section: Section, block: usize) -> bool {
    section.block_states.slot(block) matches Ok(at) && 0 <= at
        < section.block_states.palette@.len() && section.block_states.palette@[at].name@
        != "minecraft:air"@
}

/// The name of the block at position `block` of `section`.
pub open spec fn name_at(section: Section, block: usize) -> Seq<char>
    recommends
        section.block_states.slot(block) is Ok,
{
    section.block_states.palette@[section.block_states.slot(block)->Ok_0].name@
}

/// The highest block that shows in `column` among the first `blocks`
/// positions of `section`, or `below` where none does.
pub open spec fn top_within(section: Section, column: int, blocks: nat, below: Seq<char>) -> Seq<
    char,
>
    decreases blocks,
{
    if blocks == 0 {
        below
    } else {
        let block = (blocks - 1) as usize;
        if block as int % (COLUMNS as int) == column && shows(section, block) {
            name_at(section, block)
        } else {
            top_within(section, column, (blocks - 1) as nat, below)
        }
    }
}

/// The highest block that shows in `column` among the first `count` sections,
/// or the empty name where none does.
pub open spec fn top_of(sections: Seq<Section>, column: int, count: nat) -> Seq<char>
    decreases count,
{
    if count == 0 {
        Seq::empty()
    } else {
        top_within(
            sections[count - 1],
            column,
            SECTION_BLOCKS as nat,
            top_of(sections, column, (count - 1) as nat),
        )
    }
}

/// For each of the 256 columns of `chunk`, the name of its highest block that
/// is not air; the empty name for a column of air.
pub fn chunk_tops(chunk: &Chunk) -> (tops: Vec<String>)
    ensures
        tops@.len() == COLUMNS,
        forall|column: int|
            0 <= column < COLUMNS ==> (#[trigger] tops@[column])@ == top_of(
                chunk.sections@,
                column,
                chunk.sections@.len(),
            ),
{
    let air: String = "minecraft:air".to_owned();
    let mut tops: Vec<String> = Vec::new();
    while tops.len() < COLUMNS
        invariant
            tops@.len() <= COLUMNS,
            forall|column: int| 0 <= column < tops@.len() ==> (#[trigger] tops@[column])@ == Seq::<
                char,
            >::empty(),
        decreases COLUMNS - tops@.len(),
    {
        tops.push(String::new());
    }
    let mut i: usize = 0;
    while i < chunk.sections.len()
        invariant
            i <= chunk.sections@.len(),
            air@ == "minecraft:air"@,
            tops@.len() == COLUMNS,
            forall|column: int|
                0 <= column < COLUMNS ==> (#[trigger] tops@[column])@ == top_of(
                    chunk.sections@,
                    column,
                    i as nat,
                ),
        decreases chunk.sections@.len() - i,
    {
        let section = &chunk.sections[i];
        let mut block: usize = 0;
        while block < SECTION_BLOCKS
            invariant
                block <= SECTION_BLOCKS,
                i < chunk.sections@.len(),
                *section == chunk.sections@[i as int],
                air@ == "minecraft:air"@,
                tops@.len() == COLUMNS,
                forall|column: int|
                    0 <= column < COLUMNS ==> (#[trigger] tops@[column])@ == top_within(
                        *section,
                        column,
                        block as nat,
                        top_of(chunk.sections@, column, i as nat),
                    ),
            decreases SECTION_BLOCKS - block,
        {
            match section.block_states.get(block) {
                Ok(state) => {
                    if state.name != air {
                        let name: String = state.name.clone();
                        tops.set(block % COLUMNS, name);
                    }
                },
                Err(_) => {},
            }
            block += 1;
        }
        i += 1;
    }
    tops
}

/// The highest blocks of the fifth chunk of `world`, column by column; `None`
/// for a world of fewer than five chunks.
pub fn load_chunk_tops(world: &SlimeWorld) -> (r: Option<Vec<String>>)
    ensures
        match r {
            Some(tops) => {
                &&& world.chunks@.len() > 4
                &&& tops@.len() == COLUMNS
                &&& forall|column: int|
                    0 <= column < COLUMNS ==> (#[trigger] tops@[column])@ == top_of(
                        world.chunks@[4].sections@,
                        column,
                        world.chunks@[4].sections@.len(),
                    )
            },
            None => world.chunks@.len() <= 4,
        },
{
    if world.chunks.len() > 4 {
        Some(chunk_tops(&world.chunks[4]))
    } else {
        None
    }
}

} // verus!
