//! Integer positions on the world grid, and the 26/26/12-bit packing
//! that carries a block position in a single 64-bit word.
use vstd::prelude::*;

use crate::wire::u64_of_i64;

verus! {

/// A block position: integer coordinates of one block.
#[derive(Debug, PartialEq, Eq, Structural, Clone, Hash, Copy)]
pub struct BlockPosition {
    pub x: i32,
    pub y: i32,
    pub z: i32,
}

impl View for BlockPosition {
    type V = BlockPosition;

    open spec fn view(&self) -> BlockPosition {
        *self
    }
}

impl DeepView for BlockPosition {
    type V = BlockPosition;

    open spec fn deep_view(&self) -> BlockPosition {
        *self
    }
}

/// A chunk position: the 16-by-16 block column a block falls in.
#[derive(Debug, PartialEq, Eq, Structural, Clone, Hash, Copy)]
pub struct ChunkPosition {
    pub x: i32,
    pub z: i32,
}

impl View for ChunkPosition {
    type V = ChunkPosition;

    open spec fn view(&self) -> ChunkPosition {
        *self
    }
}

impl DeepView for ChunkPosition {
    type V = ChunkPosition;

    open spec fn deep_view(&self) -> ChunkPosition {
        *self
    }
}

impl From<BlockPosition> for ChunkPosition {
    /// The chunk holding the block: each coordinate divided by 16,
    /// rounding toward negative infinity.
    fn from(value: BlockPosition) -> (r: Self) {
        ChunkPosition { x: floor_div_16(value.x), z: floor_div_16(value.z) }
    }
}

impl vstd::std_specs::convert::FromSpecImpl<BlockPosition> for ChunkPosition {
    open spec fn obeys_from_spec() -> bool {
        true
    }

    open spec fn from_spec(value: BlockPosition) -> ChunkPosition {
        ChunkPosition { x: ((value.x as int) / 16) as i32, z: ((value.z as int) / 16) as i32 }
    }
}

/// Division by 16 rounding toward negative infinity, as the world grid
/// requires for negative coordinates.
fn floor_div_16(v: i32) -> (r: i32)
    ensures
        r as int == (v as int) / 16,
{
    if v >= 0 {
        ((v as u32) / 16) as i32
    } else {
        let m = (-(v as i64)) as u64;
        let q = (m + 15) / 16;
        proof {
            assert((v as int) / 16 == -(q as int)) by (nonlinear_arith)
                requires
                    m == -(v as int),
                    v < 0,
                    q == (m + 15) / 16,
            ;
        }
        (-(q as i64)) as i32
    }
}

/// The packed 64-bit image of a block position: the low 26 bits of `x`
/// in the top bits, then the low 26 bits of `z`, then the low 12 bits
/// of `y`.
pub open spec fn block_pos_pack(p: BlockPosition) -> int {
    (u64_of_i64(p.x as i64) as int % 0x4000000) * 0x4000000000 + (u64_of_i64(p.z as i64) as int
        % 0x4000000) * 0x1000 + (u64_of_i64(p.y as i64) as int % 0x1000)
}

/// A 26-bit field read as a signed value.
pub open spec fn sign_extend_26(w: int) -> int {
    if w < 0x2000000 {
        w
    } else {
        w - 0x4000000
    }
}

/// The `x` coordinate stored in a packed 64-bit word.
pub open spec fn block_pos_unpack_x(u: u64) -> int {
    sign_extend_26(u as int / 0x4000000000)
}

/// The `z` coordinate stored in a packed 64-bit word.
pub open spec fn block_pos_unpack_z(u: u64) -> int {
    sign_extend_26((u as int / 0x1000) % 0x4000000)
}

/// The `y` coordinate stored in a packed 64-bit word, always read as a
/// non-negative 12-bit value.
pub open spec fn block_pos_unpack_y(u: u64) -> int {
    u as int % 0x1000
}

} // verus!
