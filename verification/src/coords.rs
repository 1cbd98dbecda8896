//! Positions inside a chunk.
//!
//! The block storage of a section is a line of 4096 positions: sixteen layers
//! from the bottom up, each layer sixteen rows along `z`, each row sixteen
//! blocks along `x`.

use vstd::prelude::*;

verus! {

/// The position in a section's storage of the block at `(x, y, z)`.
pub open spec fn linear_index(x: int, y: int, z: int) -> int {
    y * 256 + z * 16 + x
}

/// The coordinates `(x, y, z)` of position `i` of a section's storage.
pub fn index_to_coord(i: usize) -> (coord: (usize, usize, usize))
    ensures
        coord.0 < 16,
        coord.2 < 16,
        linear_index(coord.0 as int, coord.1 as int, coord.2 as int) == i,
{
    let layer_index: usize = i % 256;
    (layer_index % 16, i / 256, layer_index / 16)
}

/// The coordinates within its chunk of position `block` of section `sec`: the
/// sections stand on one another, sixteen blocks each.
pub fn chunk_coord(sec: usize, block: usize) -> (coord: (usize, usize, usize))
    requires
        16 * sec + block / 256 <= usize::MAX,
    ensures
        coord.0 < 16,
        coord.2 < 16,
        coord.1 >= 16 * sec,
        linear_index(coord.0 as int, coord.1 - 16 * sec, coord.2 as int) == block,
{
    let (x, y, z) = index_to_coord(block);
    (x, y + 16 * sec, z)
}

/// Every block of a section has its own position: the coordinates of a
/// position lead back to it, and two positions with the same coordinates are
/// one.
pub proof fn lemma_linear_index_is_one_to_one(x1: int, y1: int, z1: int, x2: int, y2: int, z2: int)
    requires
        0 <= x1 < 16,
        0 <= z1 < 16,
        0 <= x2 < 16,
        0 <= z2 < 16,
        linear_index(x1, y1, z1) == linear_index(x2, y2, z2),
    ensures
        x1 == x2,
        y1 == y2,
        z1 == z2,
{
}

} // verus!
