//! A decoder for the slime world format: a magic-prefixed header, a compressed
//! payload of chunks, and per chunk a mix of light arrays, paletted block
//! storage and tagged values.

pub mod codec;
pub mod coords;
pub mod decode;
pub mod entries;
pub mod error;
pub mod flags;
pub mod format;
pub mod laws;
pub mod model;
pub mod palette;
pub mod schema;
pub mod tag;
pub mod tops;
pub mod wire;

pub use coords::{chunk_coord, index_to_coord};
pub use error::{Error, Fault, Field};
pub use flags::WorldFlags;
pub use model::{Chunk, Section, SlimeWorld};
pub use palette::{BlockState, PalettedContainer};
pub use schema::TileEntities;
pub use tag::Tag;
pub use tops::{chunk_tops, load_chunk_tops};
