//! Chunk geometry shared by the light propagator and the mesh builder:
//! the flat index formula, buffer extents, block-type decoding and the one
//! face/direction enumeration both passes must agree on.

use vstd::prelude::*;

verus! {

/// Voxels in one chunk: 16 (x) * 16 (z) * 256 (y).
pub const CHUNK_SIZE: usize = 16 * 16 * 256;

/// Entries in one immediate-neighbour light strip: one per (perpendicular
/// axis, y) column of the face shared with an adjacent chunk.
pub const IMMEDIATE_SIZE: usize = 16 * 256;

/// Capacity of the opaque vertex buffer: every voxel may emit at most six
/// faces of two words each, 16 * 16 * 256 * 12 words in all.
pub const ESTIMATED_MAX_VERTS: usize = 16 * 16 * 256 * 12;

/// Block type of an empty cell.
pub const AIR: u8 = 0;

/// Block type of water, counted but not meshed.
pub const WATER: u8 = 4;

/// Block type of ice, meshed into the water/ice buffer.
pub const ICE: u8 = 13;

/// Flat index of voxel (x, z, y): x varies fastest, then z, then y.
pub open spec fn vidx(x: int, z: int, y: int) -> int {
    x + z * 16 + y * 256
}

/// The block type is the low byte of a packed voxel value.
pub open spec fn block_type(v: u16) -> u8 {
    (v & 0xff) as u8
}

/// The biome id is the high byte of a packed voxel value.
pub open spec fn biome_of(v: u16) -> u16 {
    v >> 8
}

/// x offset of direction `dir` (0:+y 1:-y 2:-x 3:+x 4:+z 5:-z).
pub open spec fn delta_x(dir: int) -> int {
    if dir == 2 { -1 } else if dir == 3 { 1 } else { 0 }
}

/// y offset of direction `dir`.
pub open spec fn delta_y(dir: int) -> int {
    if dir == 0 { 1 } else if dir == 1 { -1 } else { 0 }
}

/// z offset of direction `dir`.
pub open spec fn delta_z(dir: int) -> int {
    if dir == 4 { 1 } else if dir == 5 { -1 } else { 0 }
}

/// The shared face/direction table. Light propagation expands the six
/// neighbours in this order and the mesh builder assigns face bits in this
/// order; the two must stay in lockstep.
pub fn dir_delta(dir: usize) -> (r: (i16, i16, i16))
    requires
        dir < 6,
    ensures
        r.0 as int == delta_x(dir as int),
        r.1 as int == delta_y(dir as int),
        r.2 as int == delta_z(dir as int),
{
    match dir {
        0 => (0, 1, 0),
        1 => (0, -1, 0),
        2 => (-1, 0, 0),
        3 => (1, 0, 0),
        4 => (0, 0, 1),
        _ => (0, 0, -1),
    }
}

/// Whether a slice of block ids lists `v`: the set-membership convention of
/// the transparency and light-source tables of the lighting pass.
pub fn contains_u16(s: &[u16], v: u16) -> (r: bool)
    ensures
        r == s@.contains(v),
{
    let mut i: usize = 0;
    while i < s.len()
        invariant
            i <= s@.len(),
            forall|j: int| 0 <= j < i ==> s@[j] != v,
        decreases s@.len() - i,
    {
        if s[i] == v {
            return true;
        }
        i += 1;
    }
    false
}

} // verus!
