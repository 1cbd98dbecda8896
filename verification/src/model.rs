//! The decoded world and what each of its parts stands for.

use crate::flags::WorldFlags;
use crate::palette::{BlockState, BlockStateModel, ContainerModel, PalettedContainer};
use crate::schema::SECTION_BLOCKS;
use crate::tag::{Tag, TagModel};
use vstd::prelude::*;

verus! {

/// One slab of sixteen blocks a side within a chunk.
#[derive(Debug, Clone)]
pub struct Section {
    /// Sky light, 2048 bytes, where the section's flags announce it.
    pub sky_light: Option<Vec<u8>>,
    /// Block light, 2048 bytes, where the section's flags announce it.
    pub block_light: Option<Vec<u8>>,
    pub block_states: PalettedContainer<SECTION_BLOCKS, BlockState>,
    pub biomes: Tag,
}

/// What a [`Section`] stands for.
pub struct SectionModel {
    pub sky_light: Option<Seq<u8>>,
    pub block_light: Option<Seq<u8>>,
    pub block_states: ContainerModel<BlockStateModel>,
    pub biomes: TagModel,
}

impl DeepView for Section {
    type V = SectionModel;

    open spec fn deep_view(&self) -> SectionModel {
        SectionModel {
            sky_light: self.sky_light.deep_view(),
            block_light: self.block_light.deep_view(),
            block_states: self.block_states.deep_view(),
            biomes: self.biomes.deep_view(),
        }
    }
}

/// One column of the world: its sections from the bottom up, and its metadata.
#[derive(Debug, Clone)]
pub struct Chunk {
    pub x: i32,
    pub z: i32,
    pub sections: Vec<Section>,
    pub heightmaps: Tag,
    /// Present where the world's flags announce points of interest.
    pub poi_chunks: Option<Tag>,
    /// Present where the world's flags announce block ticks.
    pub block_ticks: Option<Tag>,
    /// Present where the world's flags announce fluid ticks.
    pub fluid_ticks: Option<Tag>,
    pub tile_entities: Vec<Tag>,
    pub entities: Tag,
    /// Present where the chunk declares a trailing tag of non-zero length.
    pub extra: Option<Tag>,
}

/// What a [`Chunk`] stands for.
pub struct ChunkModel {
    pub x: i32,
    pub z: i32,
    pub sections: Seq<SectionModel>,
    pub heightmaps: TagModel,
    pub poi_chunks: Option<TagModel>,
    pub block_ticks: Option<TagModel>,
    pub fluid_ticks: Option<TagModel>,
    pub tile_entities: Seq<TagModel>,
    pub entities: TagModel,
    pub extra: Option<TagModel>,
}

impl DeepView for Chunk {
    type V = ChunkModel;

    open spec fn deep_view(&self) -> ChunkModel {
        ChunkModel {
            x: self.x,
            z: self.z,
            sections: self.sections.deep_view(),
            heightmaps: self.heightmaps.deep_view(),
            poi_chunks: self.poi_chunks.deep_view(),
            block_ticks: self.block_ticks.deep_view(),
            fluid_ticks: self.fluid_ticks.deep_view(),
            tile_entities: self.tile_entities.deep_view(),
            entities: self.entities.deep_view(),
            extra: self.extra.deep_view(),
        }
    }
}

/// A decoded world.
#[derive(Debug, Clone)]
pub struct SlimeWorld {
    /// The format version; always the one supported version.
    pub version: u8,
    /// The version of the world's content, handed on as it was read.
    pub world_version: i32,
    pub world_flags: WorldFlags,
    pub chunks: Vec<Chunk>,
}

/// What a [`SlimeWorld`] stands for.
pub struct WorldModel {
    pub version: u8,
    pub world_version: i32,
    pub world_flags: u8,
    pub chunks: Seq<ChunkModel>,
}

impl DeepView for SlimeWorld {
    type V = WorldModel;

    open spec fn deep_view(&self) -> WorldModel {
        WorldModel {
            version: self.version,
            world_version: self.world_version,
            world_flags: self.world_flags@,
            chunks: self.chunks.deep_view(),
        }
    }
}

} // verus!
