//! Light propagation: a seeding pass collects a work queue from sky
//! exposure, block light sources and light bleeding in from the four
//! horizontally adjacent chunks; a breadth-first decay pass drains it into
//! the per-voxel light map, never lowering a value already written.

use std::collections::VecDeque;
use vstd::prelude::*;

use crate::geom::{contains_u16, vidx, CHUNK_SIZE};

verus! {

/// One unit of pending work: propagate `light` into voxel (x, y, z).
/// Coordinates may transiently lie one step outside the chunk; the decay
/// pass rejects those instead of crossing into a neighbour chunk.
#[derive(Clone, Copy, PartialEq, Eq, Structural, Debug)]
pub struct LightQueue {
    pub x: i16,
    pub y: i16,
    pub z: i16,
    pub light: u8,
}

/// The light state of the four horizontally adjacent chunks, one full
/// chunk-sized array each, in the order -x, +x, -z, +z.
pub struct Neighbours<'a> {
    pub nx: &'a [u16],
    pub px: &'a [u16],
    pub nz: &'a [u16],
    pub pz: &'a [u16],
}

/// Ghost image of [`Neighbours`]: the four arrays as sequences.
pub struct LightNbView {
    pub nx: Seq<u16>,
    pub px: Seq<u16>,
    pub nz: Seq<u16>,
    pub pz: Seq<u16>,
}

impl<'a> Neighbours<'a> {
    /// All four arrays cover a whole chunk.
    pub open spec fn wf(self) -> bool {
        &&& self.nx@.len() == CHUNK_SIZE
        &&& self.px@.len() == CHUNK_SIZE
        &&& self.nz@.len() == CHUNK_SIZE
        &&& self.pz@.len() == CHUNK_SIZE
    }
}

impl<'a> View for Neighbours<'a> {
    type V = LightNbView;

    open spec fn view(&self) -> LightNbView {
        LightNbView { nx: self.nx@, px: self.px@, nz: self.nz@, pz: self.pz@ }
    }
}

/// The four quarters of the flat neighbour-light array, in order -x, +x,
/// -z, +z.
pub open spec fn nb_view(s: Seq<u16>) -> LightNbView {
    LightNbView {
        nx: s.subrange(0, 65536),
        px: s.subrange(65536, 131072),
        nz: s.subrange(131072, 196608),
        pz: s.subrange(196608, 262144),
    }
}

/// Voxel (x, z, y) is transparent: its block type is listed in `t`.
pub open spec fn transp_at(blocks: Seq<u16>, t: Seq<u16>, x: int, z: int, y: int) -> bool {
    t.contains(blocks[vidx(x, z, y)] & 0xff)
}

/// Voxel (x, z, y) is a light source: its block type is listed in `ls`.
pub open spec fn source_at(blocks: Seq<u16>, ls: Seq<u16>, x: int, z: int, y: int) -> bool {
    ls.contains(blocks[vidx(x, z, y)] & 0xff)
}

/// Open sky from level `y` upward: every voxel of the column at height
/// `y` or above is transparent.
pub open spec fn sky_above(blocks: Seq<u16>, t: Seq<u16>, x: int, z: int, y: int) -> bool {
    forall|j: int| y <= j < 256 ==> transp_at(blocks, t, x, z, j)
}

/// Column (x, z) touches a vertical chunk face.
pub open spec fn on_boundary(x: int, z: int) -> bool {
    x == 0 || x == 15 || z == 0 || z == 15
}

/// The neighbour-chunk light facing boundary voxel (x, z, y): the mirrored
/// column of the adjacent chunk across the nearest face, with the -x face
/// taking precedence over +x, then -z, then +z.
pub open spec fn boundary_light(n: LightNbView, x: int, z: int, y: int) -> u16 {
    if x == 0 {
        n.nx[15 + z * 16 + y * 256]
    } else if x == 15 {
        n.px[z * 16 + y * 256]
    } else if z == 0 {
        n.nz[x + 240 + y * 256]
    } else if z == 15 {
        n.pz[x + y * 256]
    } else {
        0
    }
}

/// Seed level bled in from a neighbour voxel of light `l`: one less than
/// `l`. Light levels are 0..=15; a larger value is clamped to 15 first.
pub open spec fn seed_level(l: u16) -> u8 {
    if l >= 16 { 14 } else if l >= 1 { (l - 1) as u8 } else { 0 }
}

/// Queue entry for voxel (x, y, z) at `light`.
pub open spec fn lq(x: int, y: int, z: int, light: u8) -> LightQueue {
    LightQueue { x: x as i16, y: y as i16, z: z as i16, light: light }
}

/// The entry's coordinates lie inside the chunk.
pub open spec fn in_range(e: LightQueue) -> bool {
    0 <= e.x <= 15 && 0 <= e.y <= 255 && 0 <= e.z <= 15
}

/// Entry `e` is one the seeding pass produces: a sky seed at 14, a light
/// source at 15, the topmost opaque voxel of an open column at 15, or
/// light bled across a chunk face, one below the neighbour's level.
pub open spec fn is_seed(
    e: LightQueue,
    blocks: Seq<u16>,
    t: Seq<u16>,
    ls: Seq<u16>,
    n: LightNbView,
) -> bool {
    let x = e.x as int;
    let z = e.z as int;
    let y = e.y as int;
    ||| (in_range(e) && e.light == 14 && transp_at(blocks, t, x, z, y) && sky_above(
        blocks,
        t,
        x,
        z,
        y + 1,
    ))
    ||| (in_range(e) && e.light == 15 && source_at(blocks, ls, x, z, y))
    ||| (in_range(e) && e.light == 15 && !transp_at(blocks, t, x, z, y) && sky_above(
        blocks,
        t,
        x,
        z,
        y + 1,
    ))
    ||| (in_range(e) && transp_at(blocks, t, x, z, y) && !sky_above(blocks, t, x, z, y + 1)
        && on_boundary(x, z) && boundary_light(n, x, z, y) > 0 && e.light == seed_level(
        boundary_light(n, x, z, y),
    ))
}

/// The decay pass owes entry `e` nothing: it is dark, out of range, aimed
/// at an opaque voxel, or the map already holds at least its level.
pub open spec fn bfs_settled(e: LightQueue, blocks: Seq<u16>, t: Seq<u16>, lm: Seq<u8>) -> bool {
    ||| e.light == 0
    ||| !in_range(e)
    ||| !transp_at(blocks, t, e.x as int, e.z as int, e.y as int)
    ||| lm[vidx(e.x as int, e.z as int, e.y as int)] >= e.light
}

/// Every seed the seeding pass would enqueue for voxel (x, z, y) is already
/// at or below the map's value there (seeds aimed at opaque voxels owe the
/// map nothing).
pub open spec fn seed_done_at(
    blocks: Seq<u16>,
    t: Seq<u16>,
    ls: Seq<u16>,
    n: LightNbView,
    lm: Seq<u8>,
    x: int,
    z: int,
    y: int,
) -> bool {
    &&& (transp_at(blocks, t, x, z, y) && sky_above(blocks, t, x, z, y + 1) ==> lm[vidx(x, z, y)]
        >= 14)
    &&& (transp_at(blocks, t, x, z, y) && source_at(blocks, ls, x, z, y) ==> lm[vidx(x, z, y)]
        >= 15)
    &&& (transp_at(blocks, t, x, z, y) && !sky_above(blocks, t, x, z, y + 1) && on_boundary(x, z)
        && boundary_light(n, x, z, y) > 0 ==> lm[vidx(x, z, y)] >= seed_level(
        boundary_light(n, x, z, y),
    ))
}

/// The map has absorbed every seed: running the whole propagation again
/// would change nothing.
pub open spec fn settled_map(
    blocks: Seq<u16>,
    t: Seq<u16>,
    ls: Seq<u16>,
    n: LightNbView,
    lm: Seq<u8>,
) -> bool {
    forall|x: int, z: int, y: int|
        0 <= x < 16 && 0 <= z < 16 && 0 <= y < 256 ==> #[trigger] seed_done_at(
            blocks,
            t,
            ls,
            n,
            lm,
            x,
            z,
            y,
        )
}

/// Queue entry `e` has a live parent: an adjacent in-range transparent
/// voxel already at least one level brighter than the entry carries.
pub open spec fn justified_entry(e: LightQueue, blocks: Seq<u16>, t: Seq<u16>, lm: Seq<u8>) -> bool {
    exists|dir: int|
        #![trigger crate::geom::delta_x(dir)]
        0 <= dir < 6 && {
            let wx = e.x as int + crate::geom::delta_x(dir);
            let wy = e.y as int + crate::geom::delta_y(dir);
            let wz = e.z as int + crate::geom::delta_z(dir);
            &&& 0 <= wx < 16
            &&& 0 <= wy < 256
            &&& 0 <= wz < 16
            &&& transp_at(blocks, t, wx, wz, wy)
            &&& lm[vidx(wx, wz, wy)] >= e.light + 1
        }
}

/// Voxel (x, z, y)'s map value is accounted for: some queue entry aimed at
/// least that level at it, or an adjacent in-range transparent voxel is at
/// least one level brighter.
pub open spec fn justified_at(
    q0: Seq<LightQueue>,
    blocks: Seq<u16>,
    t: Seq<u16>,
    lm: Seq<u8>,
    x: int,
    z: int,
    y: int,
) -> bool {
    ||| (exists|k: int|
        0 <= k < q0.len() && q0[k].x as int == x && q0[k].z as int == z && q0[k].y as int == y
            && q0[k].light >= lm[vidx(x, z, y)])
    ||| (exists|dir: int|
        #![trigger crate::geom::delta_x(dir)]
        0 <= dir < 6 && {
            let wx = x + crate::geom::delta_x(dir);
            let wy = y + crate::geom::delta_y(dir);
            let wz = z + crate::geom::delta_z(dir);
            &&& 0 <= wx < 16
            &&& 0 <= wy < 256
            &&& 0 <= wz < 16
            &&& transp_at(blocks, t, wx, wz, wy)
            &&& lm[vidx(wx, wz, wy)] >= lm[vidx(x, z, y)] + 1
        })
}

/// Every voxel that rose above its starting value is transparent and
/// accounted for by a queue entry or a brighter neighbour.
pub open spec fn justified(
    q0: Seq<LightQueue>,
    blocks: Seq<u16>,
    t: Seq<u16>,
    lm0: Seq<u8>,
    lm: Seq<u8>,
) -> bool {
    forall|x: int, z: int, y: int|
        0 <= x < 16 && 0 <= z < 16 && 0 <= y < 256 && lm[#[trigger] vidx(x, z, y)] > lm0[vidx(
            x,
            z,
            y,
        )] ==> transp_at(blocks, t, x, z, y) && justified_at(q0, blocks, t, lm, x, z, y)
}

proof fn lemma_justified_entry_mono(e: LightQueue, blocks: Seq<u16>, t: Seq<u16>, lm1: Seq<u8>, lm2: Seq<u8>)
    requires
        justified_entry(e, blocks, t, lm1),
        lm1.len() == CHUNK_SIZE,
        lm2.len() == CHUNK_SIZE,
        forall|i: int| 0 <= i < CHUNK_SIZE ==> lm2[i] >= lm1[i],
    ensures
        justified_entry(e, blocks, t, lm2),
{
    let dir = choose|dir: int|
        #![trigger crate::geom::delta_x(dir)]
        0 <= dir < 6 && {
            let wx = e.x as int + crate::geom::delta_x(dir);
            let wy = e.y as int + crate::geom::delta_y(dir);
            let wz = e.z as int + crate::geom::delta_z(dir);
            &&& 0 <= wx < 16
            &&& 0 <= wy < 256
            &&& 0 <= wz < 16
            &&& transp_at(blocks, t, wx, wz, wy)
            &&& lm1[vidx(wx, wz, wy)] >= e.light + 1
        };
    let wx = e.x as int + crate::geom::delta_x(dir);
    let wy = e.y as int + crate::geom::delta_y(dir);
    let wz = e.z as int + crate::geom::delta_z(dir);
    assert(0 <= vidx(wx, wz, wy) < 65536);
    assert(lm2[vidx(wx, wz, wy)] >= e.light + 1);
}

proof fn lemma_justified_at_mono(
    q0: Seq<LightQueue>,
    blocks: Seq<u16>,
    t: Seq<u16>,
    lm1: Seq<u8>,
    lm2: Seq<u8>,
    x: int,
    z: int,
    y: int,
)
    requires
        justified_at(q0, blocks, t, lm1, x, z, y),
        lm1.len() == CHUNK_SIZE,
        lm2.len() == CHUNK_SIZE,
        0 <= x < 16,
        0 <= z < 16,
        0 <= y < 256,
        forall|i: int| 0 <= i < CHUNK_SIZE ==> lm2[i] >= lm1[i],
        lm2[vidx(x, z, y)] == lm1[vidx(x, z, y)],
    ensures
        justified_at(q0, blocks, t, lm2, x, z, y),
{
    if exists|k: int|
        0 <= k < q0.len() && q0[k].x as int == x && q0[k].z as int == z && q0[k].y as int == y
            && q0[k].light >= lm1[vidx(x, z, y)] {
    } else {
        let dir = choose|dir: int|
            #![trigger crate::geom::delta_x(dir)]
            0 <= dir < 6 && {
                let wx = x + crate::geom::delta_x(dir);
                let wy = y + crate::geom::delta_y(dir);
                let wz = z + crate::geom::delta_z(dir);
                &&& 0 <= wx < 16
                &&& 0 <= wy < 256
                &&& 0 <= wz < 16
                &&& transp_at(blocks, t, wx, wz, wy)
                &&& lm1[vidx(wx, wz, wy)] >= lm1[vidx(x, z, y)] + 1
            };
        let wx = x + crate::geom::delta_x(dir);
        let wy = y + crate::geom::delta_y(dir);
        let wz = z + crate::geom::delta_z(dir);
        assert(0 <= vidx(wx, wz, wy) < 65536);
        assert(lm2[vidx(wx, wz, wy)] >= lm2[vidx(x, z, y)] + 1);
    }
}

/// The queue entry a write of level `lm[x, z, y]` sends towards side `dir`:
/// the neighbouring position, one level darker.
pub open spec fn step_entry(lm: Seq<u8>, x: int, z: int, y: int, dir: int) -> LightQueue {
    lq(
        x + crate::geom::delta_x(dir),
        y + crate::geom::delta_y(dir),
        z + crate::geom::delta_z(dir),
        (lm[vidx(x, z, y)] - 1) as u8,
    )
}

/// Decay ran to completion: every voxel that rose has handed each in-range
/// transparent neighbour at least one less than its own level.
pub open spec fn decay_closed(blocks: Seq<u16>, t: Seq<u16>, lm0: Seq<u8>, lm: Seq<u8>) -> bool {
    forall|x: int, z: int, y: int, dir: int|
        0 <= x < 16 && 0 <= z < 16 && 0 <= y < 256 && 0 <= dir < 6 && lm[vidx(x, z, y)] > lm0[vidx(
            x,
            z,
            y,
        )] ==> bfs_settled(#[trigger] step_entry(lm, x, z, y, dir), blocks, t, lm)
}

/// A seed of at least level `l` sits at voxel (x, z, y): a sky seed at 14,
/// a light source at 15, or boundary bleed at one under the neighbour's
/// clamped level.
pub open spec fn has_seed_ge(
    blocks: Seq<u16>,
    t: Seq<u16>,
    ls: Seq<u16>,
    n: LightNbView,
    x: int,
    z: int,
    y: int,
    l: int,
) -> bool {
    ||| (transp_at(blocks, t, x, z, y) && sky_above(blocks, t, x, z, y + 1) && 14 >= l)
    ||| (source_at(blocks, ls, x, z, y) && 15 >= l)
    ||| (transp_at(blocks, t, x, z, y) && !sky_above(blocks, t, x, z, y + 1) && on_boundary(x, z)
        && boundary_light(n, x, z, y) > 0 && seed_level(boundary_light(n, x, z, y)) >= l)
}

/// Voxel (x, z, y)'s map value is accounted for at the seed level: a seed
/// of its level or more sits on it, or an adjacent in-range transparent
/// voxel is at least one level brighter.
pub open spec fn seed_justified_at(
    blocks: Seq<u16>,
    t: Seq<u16>,
    ls: Seq<u16>,
    n: LightNbView,
    lm: Seq<u8>,
    x: int,
    z: int,
    y: int,
) -> bool {
    ||| has_seed_ge(blocks, t, ls, n, x, z, y, lm[vidx(x, z, y)] as int)
    ||| (exists|dir: int|
        #![trigger crate::geom::delta_x(dir)]
        0 <= dir < 6 && {
            let wx = x + crate::geom::delta_x(dir);
            let wy = y + crate::geom::delta_y(dir);
            let wz = z + crate::geom::delta_z(dir);
            &&& 0 <= wx < 16
            &&& 0 <= wy < 256
            &&& 0 <= wz < 16
            &&& transp_at(blocks, t, wx, wz, wy)
            &&& lm[vidx(wx, wz, wy)] >= lm[vidx(x, z, y)] + 1
        })
}

/// Every voxel that rose above its starting value is transparent and
/// accounted for at the seed level.
pub open spec fn seed_justified(
    blocks: Seq<u16>,
    t: Seq<u16>,
    ls: Seq<u16>,
    n: LightNbView,
    lm0: Seq<u8>,
    lm: Seq<u8>,
) -> bool {
    forall|x: int, z: int, y: int|
        0 <= x < 16 && 0 <= z < 16 && 0 <= y < 256 && lm[#[trigger] vidx(x, z, y)] > lm0[vidx(
            x,
            z,
            y,
        )] ==> transp_at(blocks, t, x, z, y) && seed_justified_at(blocks, t, ls, n, lm, x, z, y)
}

/// A path of adjacent in-range transparent voxels leads from a seed to
/// voxel (x, z, y), losing one level per hop and still carrying at least
/// `l` on arrival.
pub open spec fn reach_seed(
    blocks: Seq<u16>,
    t: Seq<u16>,
    ls: Seq<u16>,
    n: LightNbView,
    x: int,
    z: int,
    y: int,
    l: int,
) -> bool
    decreases 16 - l,
{
    ||| has_seed_ge(blocks, t, ls, n, x, z, y, l)
    ||| (0 <= l < 15 && exists|dir: int|
        #![trigger crate::geom::delta_x(dir)]
        0 <= dir < 6 && {
            let wx = x + crate::geom::delta_x(dir);
            let wy = y + crate::geom::delta_y(dir);
            let wz = z + crate::geom::delta_z(dir);
            &&& 0 <= wx < 16
            &&& 0 <= wy < 256
            &&& 0 <= wz < 16
            &&& transp_at(blocks, t, wx, wz, wy)
            &&& reach_seed(blocks, t, ls, n, wx, wz, wy, l + 1)
        })
}

/// Reaching a voxel with some level reaches it with any lower level too.
proof fn lemma_reach_mono(
    blocks: Seq<u16>,
    t: Seq<u16>,
    ls: Seq<u16>,
    n: LightNbView,
    x: int,
    z: int,
    y: int,
    l1: int,
    l2: int,
)
    requires
        reach_seed(blocks, t, ls, n, x, z, y, l1),
        0 <= l2 <= l1,
    ensures
        reach_seed(blocks, t, ls, n, x, z, y, l2),
    decreases 16 - l1,
{
    if has_seed_ge(blocks, t, ls, n, x, z, y, l1) {
        assert(has_seed_ge(blocks, t, ls, n, x, z, y, l2));
    } else {
        let dir = choose|dir: int|
            #![trigger crate::geom::delta_x(dir)]
            0 <= dir < 6 && {
                let wx = x + crate::geom::delta_x(dir);
                let wy = y + crate::geom::delta_y(dir);
                let wz = z + crate::geom::delta_z(dir);
                &&& 0 <= wx < 16
                &&& 0 <= wy < 256
                &&& 0 <= wz < 16
                &&& transp_at(blocks, t, wx, wz, wy)
                &&& reach_seed(blocks, t, ls, n, wx, wz, wy, l1 + 1)
            };
        let wx = x + crate::geom::delta_x(dir);
        let wy = y + crate::geom::delta_y(dir);
        let wz = z + crate::geom::delta_z(dir);
        lemma_reach_mono(blocks, t, ls, n, wx, wz, wy, l1 + 1, l2 + 1);
    }
}

/// A voxel's light after propagation into an initially dark map never
/// exceeds what some path of transparent voxels from a seed can deliver,
/// decaying one level per hop: every lit voxel is reached by such a path
/// still carrying its level.
pub proof fn lemma_light_path_bound(
    blocks: Seq<u16>,
    t: Seq<u16>,
    ls: Seq<u16>,
    n: LightNbView,
    lm0: Seq<u8>,
    lm: Seq<u8>,
    x: int,
    z: int,
    y: int,
)
    requires
        seed_justified(blocks, t, ls, n, lm0, lm),
        lm.len() == CHUNK_SIZE,
        lm0.len() == CHUNK_SIZE,
        forall|i: int| 0 <= i < CHUNK_SIZE ==> lm0[i] == 0,
        forall|i: int| 0 <= i < CHUNK_SIZE ==> lm[i] <= 15,
        0 <= x < 16,
        0 <= z < 16,
        0 <= y < 256,
        lm[vidx(x, z, y)] > 0,
    ensures
        transp_at(blocks, t, x, z, y),
        reach_seed(blocks, t, ls, n, x, z, y, lm[vidx(x, z, y)] as int),
    decreases 16 - lm[vidx(x, z, y)],
{
    assert(0 <= vidx(x, z, y) < 65536);
    assert(lm[vidx(x, z, y)] > lm0[vidx(x, z, y)]);
    assert(seed_justified_at(blocks, t, ls, n, lm, x, z, y));
    let lv = lm[vidx(x, z, y)] as int;
    if has_seed_ge(blocks, t, ls, n, x, z, y, lv) {
    } else {
        let dir = choose|dir: int|
            #![trigger crate::geom::delta_x(dir)]
            0 <= dir < 6 && {
                let wx = x + crate::geom::delta_x(dir);
                let wy = y + crate::geom::delta_y(dir);
                let wz = z + crate::geom::delta_z(dir);
                &&& 0 <= wx < 16
                &&& 0 <= wy < 256
                &&& 0 <= wz < 16
                &&& transp_at(blocks, t, wx, wz, wy)
                &&& lm[vidx(wx, wz, wy)] >= lm[vidx(x, z, y)] + 1
            };
        let wx = x + crate::geom::delta_x(dir);
        let wy = y + crate::geom::delta_y(dir);
        let wz = z + crate::geom::delta_z(dir);
        assert(0 <= vidx(wx, wz, wy) < 65536);
        lemma_light_path_bound(blocks, t, ls, n, lm0, lm, wx, wz, wy);
        lemma_reach_mono(blocks, t, ls, n, wx, wz, wy, lm[vidx(wx, wz, wy)] as int, lv + 1);
        assert(reach_seed(blocks, t, ls, n, x, z, y, lv));
    }
}

/// The counterpart bound: into an initially dark map, propagation delivers
/// at least what any path of transparent voxels from a seed can carry. With
/// [`lemma_light_path_bound`] this pins a transparent voxel's settled light
/// to exactly the best such path.
pub proof fn lemma_light_lower_bound(
    blocks: Seq<u16>,
    t: Seq<u16>,
    ls: Seq<u16>,
    n: LightNbView,
    lm0: Seq<u8>,
    lm: Seq<u8>,
    x: int,
    z: int,
    y: int,
    l: int,
)
    requires
        settled_map(blocks, t, ls, n, lm),
        decay_closed(blocks, t, lm0, lm),
        lm.len() == CHUNK_SIZE,
        lm0.len() == CHUNK_SIZE,
        forall|i: int| 0 <= i < CHUNK_SIZE ==> lm0[i] == 0,
        0 <= x < 16,
        0 <= z < 16,
        0 <= y < 256,
        transp_at(blocks, t, x, z, y),
        reach_seed(blocks, t, ls, n, x, z, y, l),
        0 <= l,
    ensures
        lm[vidx(x, z, y)] >= l,
    decreases 16 - l,
{
    assert(0 <= vidx(x, z, y) < 65536);
    if has_seed_ge(blocks, t, ls, n, x, z, y, l) {
        assert(seed_done_at(blocks, t, ls, n, lm, x, z, y));
    } else {
        let dir = choose|dir: int|
            #![trigger crate::geom::delta_x(dir)]
            0 <= dir < 6 && {
                let wx = x + crate::geom::delta_x(dir);
                let wy = y + crate::geom::delta_y(dir);
                let wz = z + crate::geom::delta_z(dir);
                &&& 0 <= wx < 16
                &&& 0 <= wy < 256
                &&& 0 <= wz < 16
                &&& transp_at(blocks, t, wx, wz, wy)
                &&& reach_seed(blocks, t, ls, n, wx, wz, wy, l + 1)
            };
        let wx = x + crate::geom::delta_x(dir);
        let wy = y + crate::geom::delta_y(dir);
        let wz = z + crate::geom::delta_z(dir);
        assert(0 <= vidx(wx, wz, wy) < 65536);
        lemma_light_lower_bound(blocks, t, ls, n, lm0, lm, wx, wz, wy, l + 1);
        // The brighter neighbour's onward entry towards this voxel settled.
        let opd: int = if dir % 2 == 0 {
            dir + 1
        } else {
            dir - 1
        };
        assert(wx + crate::geom::delta_x(opd) == x);
        assert(wy + crate::geom::delta_y(opd) == y);
        assert(wz + crate::geom::delta_z(opd) == z);
        let e = step_entry(lm, wx, wz, wy, opd);
        assert(bfs_settled(e, blocks, t, lm));
        assert(e.x as int == x && e.z as int == z && e.y as int == y);
        assert(e.light as int == lm[vidx(wx, wz, wy)] - 1);
        if e.light != 0 {
            assert(lm[vidx(x, z, y)] >= e.light);
        }
    }
}

/// The lengths the light entry point demands of its buffers.
pub open spec fn calc_valid(lm_len: int, blocks_len: int, nb_len: int) -> bool {
    lm_len == 65536 && blocks_len == 65536 && nb_len == 262144
}

/// How far the map sits below an all-bright map, summed over the first `n`
/// voxels; the decay pass shrinks this with every write.
pub open spec fn deficit(lm: Seq<u8>, n: int) -> int
    decreases n,
{
    if n <= 0 {
        0
    } else {
        deficit(lm, n - 1) + (255 - lm[n - 1])
    }
}

proof fn lemma_deficit_nonneg(lm: Seq<u8>, n: int)
    requires
        n <= lm.len(),
    ensures
        deficit(lm, n) >= 0,
    decreases n,
{
    if n > 0 {
        lemma_deficit_nonneg(lm, n - 1);
    }
}

proof fn lemma_deficit_agree(a: Seq<u8>, b: Seq<u8>, n: int)
    requires
        forall|i: int| 0 <= i < n ==> a[i] == b[i],
    ensures
        deficit(a, n) == deficit(b, n),
    decreases n,
{
    if n > 0 {
        lemma_deficit_agree(a, b, n - 1);
    }
}

proof fn lemma_deficit_update(lm: Seq<u8>, j: int, v: u8, n: int)
    requires
        0 <= j < n <= lm.len(),
    ensures
        deficit(lm.update(j, v), n) == deficit(lm, n) + lm[j] - v,
    decreases n,
{
    let lm2 = lm.update(j, v);
    if j == n - 1 {
        lemma_deficit_agree(lm2, lm, n - 1);
    } else {
        lemma_deficit_update(lm, j, v, n - 1);
    }
}

/// A settled entry stays settled as the map grows.
proof fn lemma_settled_mono(
    e: LightQueue,
    blocks: Seq<u16>,
    t: Seq<u16>,
    lm1: Seq<u8>,
    lm2: Seq<u8>,
)
    requires
        bfs_settled(e, blocks, t, lm1),
        lm1.len() == CHUNK_SIZE,
        lm2.len() == CHUNK_SIZE,
        forall|i: int| 0 <= i < CHUNK_SIZE ==> lm2[i] >= lm1[i],
    ensures
        bfs_settled(e, blocks, t, lm2),
{
    if in_range(e) {
        assert(0 <= vidx(e.x as int, e.z as int, e.y as int) < 65536);
    }
}

/// Every seed the seeding pass owes voxel (x, z, y) of column (x, z) is in
/// `q`: the sky seed at 14, the light-source seed at 15, the topmost-opaque
/// seed at 15, and the boundary-bleed seed.
pub open spec fn column_seeded(
    blocks: Seq<u16>,
    t: Seq<u16>,
    ls: Seq<u16>,
    n: LightNbView,
    q: Seq<LightQueue>,
    x: int,
    z: int,
    y: int,
) -> bool {
    &&& (transp_at(blocks, t, x, z, y) && sky_above(blocks, t, x, z, y + 1) ==> q.contains(
        lq(x, y, z, 14),
    ))
    &&& (source_at(blocks, ls, x, z, y) ==> q.contains(lq(x, y, z, 15)))
    &&& (!transp_at(blocks, t, x, z, y) && sky_above(blocks, t, x, z, y + 1) ==> q.contains(
        lq(x, y, z, 15),
    ))
    &&& (transp_at(blocks, t, x, z, y) && !sky_above(blocks, t, x, z, y + 1) && on_boundary(x, z)
        && boundary_light(n, x, z, y) > 0 ==> q.contains(
        lq(x, y, z, seed_level(boundary_light(n, x, z, y))),
    ))
}

/// Seeds already collected stay collected as the queue grows at the back.
proof fn lemma_column_seeded_extend(
    blocks: Seq<u16>,
    t: Seq<u16>,
    ls: Seq<u16>,
    n: LightNbView,
    q1: Seq<LightQueue>,
    q2: Seq<LightQueue>,
    x: int,
    z: int,
    y: int,
)
    requires
        column_seeded(blocks, t, ls, n, q1, x, z, y),
        q1.len() <= q2.len(),
        forall|k: int| 0 <= k < q1.len() ==> q2[k] == q1[k],
    ensures
        column_seeded(blocks, t, ls, n, q2, x, z, y),
{
    assert forall|e: LightQueue| q1.contains(e) implies q2.contains(e) by {
        let m = choose|m: int| 0 <= m < q1.len() && q1[m] == e;
        assert(q2[m] == e);
    }
}

/// Open sky reaches down to `y` exactly when voxel `y` is transparent and
/// open sky reaches down to `y + 1`.
proof fn lemma_sky_step(blocks: Seq<u16>, t: Seq<u16>, x: int, z: int, y: int)
    requires
        0 <= y < 256,
    ensures
        sky_above(blocks, t, x, z, y) == (transp_at(blocks, t, x, z, y) && sky_above(
            blocks,
            t,
            x,
            z,
            y + 1,
        )),
{
    if transp_at(blocks, t, x, z, y) && sky_above(blocks, t, x, z, y + 1) {
        assert forall|j: int| y <= j < 256 implies transp_at(blocks, t, x, z, j) by {
            if j != y {
                assert(y + 1 <= j < 256);
            }
        }
    }
}

/// Seeding pass for one column: scan from the top of the chunk downward,
/// tracking whether the sky is still open; enqueue sky seeds at 14, light
/// sources at 15, the first opaque voxel of an open column at 15, and, once
/// under cover, light bled in from an adjacent chunk across a boundary face.
fn seed_column(
    queue: &mut VecDeque<LightQueue>,
    blocks: &[u16],
    neighbour_light: &Neighbours,
    transparent: &[u16],
    light_sources: &[u16],
    x: usize,
    z: usize,
)
    requires
        blocks@.len() == CHUNK_SIZE,
        neighbour_light.wf(),
        x < 16,
        z < 16,
    ensures
        final(queue)@.len() >= old(queue)@.len(),
        forall|k: int| 0 <= k < old(queue)@.len() ==> final(queue)@[k] == old(queue)@[k],
        forall|k: int|
            old(queue)@.len() <= k < final(queue)@.len() ==> is_seed(
                final(queue)@[k],
                blocks@,
                transparent@,
                light_sources@,
                neighbour_light@,
            ),
        forall|y: int|
            0 <= y < 256 ==> column_seeded(
                blocks@,
                transparent@,
                light_sources@,
                neighbour_light@,
                final(queue)@,
                x as int,
                z as int,
                y,
            ),
{
    let ghost q00 = queue@;
    let mut is_sky = true;
    let mut yy: usize = 256;
    while yy > 0
        invariant
            blocks@.len() == CHUNK_SIZE,
            neighbour_light.wf(),
            x < 16,
            z < 16,
            yy <= 256,
            is_sky == sky_above(blocks@, transparent@, x as int, z as int, yy as int),
            queue@.len() >= q00.len(),
            forall|k: int| 0 <= k < q00.len() ==> queue@[k] == q00[k],
            forall|k: int|
                q00.len() <= k < queue@.len() ==> is_seed(
                    queue@[k],
                    blocks@,
                    transparent@,
                    light_sources@,
                    neighbour_light@,
                ),
            forall|y: int|
                yy <= y < 256 ==> column_seeded(
                    blocks@,
                    transparent@,
                    light_sources@,
                    neighbour_light@,
                    queue@,
                    x as int,
                    z as int,
                    y,
                ),
        decreases yy,
    {
        yy -= 1;
        let y = yy;
        let ghost qa = queue@;
        let ghost mut i_sky: int = 0;
        let ghost mut i_src: int = 0;
        let ghost mut i_top: int = 0;
        let ghost mut i_bnd: int = 0;
        proof {
            lemma_sky_step(blocks@, transparent@, x as int, z as int, y as int);
        }
        let ghost was_sky = is_sky;
        let idx = x + z * 16 + y * 256;
        let data = blocks[idx];
        let block = data & 0xff;
        let tr = contains_u16(transparent, block);
        let is_src = contains_u16(light_sources, block);

        if is_sky && tr {
            queue.push_back(LightQueue { x: x as i16, y: y as i16, z: z as i16, light: 14 });
            proof {
                i_sky = queue@.len() - 1;
            }
        }
        if is_src {
            queue.push_back(LightQueue { x: x as i16, y: y as i16, z: z as i16, light: 15 });
            proof {
                i_src = queue@.len() - 1;
            }
        }
        if !tr {
            if is_sky {
                queue.push_back(LightQueue { x: x as i16, y: y as i16, z: z as i16, light: 15 });
                proof {
                    i_top = queue@.len() - 1;
                }
            }
            is_sky = false;
        } else {
            if !is_sky {
                if x == 0 {
                    let lv = neighbour_light.nx[15 + z * 16 + y * 256];
                    if lv > 0 {
                        let s: u8 = if lv >= 16 { 14 } else { (lv - 1) as u8 };
                        queue.push_back(
                            LightQueue { x: x as i16, y: y as i16, z: z as i16, light: s },
                        );
                        proof {
                            i_bnd = queue@.len() - 1;
                        }
                    }
                } else if x == 15 {
                    let lv = neighbour_light.px[z * 16 + y * 256];
                    if lv > 0 {
                        let s: u8 = if lv >= 16 { 14 } else { (lv - 1) as u8 };
                        queue.push_back(
                            LightQueue { x: x as i16, y: y as i16, z: z as i16, light: s },
                        );
                        proof {
                            i_bnd = queue@.len() - 1;
                        }
                    }
                } else if z == 0 {
                    let lv = neighbour_light.nz[x + 240 + y * 256];
                    if lv > 0 {
                        let s: u8 = if lv >= 16 { 14 } else { (lv - 1) as u8 };
                        queue.push_back(
                            LightQueue { x: x as i16, y: y as i16, z: z as i16, light: s },
                        );
                        proof {
                            i_bnd = queue@.len() - 1;
                        }
                    }
                } else if z == 15 {
                    let lv = neighbour_light.pz[x + y * 256];
                    if lv > 0 {
                        let s: u8 = if lv >= 16 { 14 } else { (lv - 1) as u8 };
                        queue.push_back(
                            LightQueue { x: x as i16, y: y as i16, z: z as i16, light: s },
                        );
                        proof {
                            i_bnd = queue@.len() - 1;
                        }
                    }
                }
            }
        }

        proof {
            let xi = x as int;
            let zi = z as int;
            let yi = y as int;
            if tr && was_sky {
                assert(queue@[i_sky] == lq(xi, yi, zi, 14));
                assert(queue@.contains(lq(xi, yi, zi, 14)));
            }
            if is_src {
                assert(queue@[i_src] == lq(xi, yi, zi, 15));
                assert(queue@.contains(lq(xi, yi, zi, 15)));
            }
            if !tr && was_sky {
                assert(queue@[i_top] == lq(xi, yi, zi, 15));
                assert(queue@.contains(lq(xi, yi, zi, 15)));
            }
            if tr && !was_sky && on_boundary(xi, zi) && boundary_light(neighbour_light@, xi, zi, yi)
                > 0 {
                let bl = boundary_light(neighbour_light@, xi, zi, yi);
                assert(queue@[i_bnd] == lq(xi, yi, zi, seed_level(bl)));
                assert(queue@.contains(lq(xi, yi, zi, seed_level(bl))));
            }
        }

        proof {
            assert forall|yq: int|
                y + 1 <= yq < 256 implies column_seeded(
                blocks@,
                transparent@,
                light_sources@,
                neighbour_light@,
                queue@,
                x as int,
                z as int,
                yq,
            ) by {
                lemma_column_seeded_extend(
                    blocks@,
                    transparent@,
                    light_sources@,
                    neighbour_light@,
                    qa,
                    queue@,
                    x as int,
                    z as int,
                    yq,
                );
            }
            assert(column_seeded(
                blocks@,
                transparent@,
                light_sources@,
                neighbour_light@,
                queue@,
                x as int,
                z as int,
                y as int,
            ));
        }
    }
}

/// Seeding pass for the whole chunk, column by column in x-major order.
pub fn seed_lights(
    blocks: &[u16],
    neighbour_light: &Neighbours,
    transparent: &[u16],
    light_sources: &[u16],
) -> (queue: VecDeque<LightQueue>)
    requires
        blocks@.len() == CHUNK_SIZE,
        neighbour_light.wf(),
    ensures
        forall|k: int|
            0 <= k < queue@.len() ==> is_seed(
                queue@[k],
                blocks@,
                transparent@,
                light_sources@,
                neighbour_light@,
            ),
        forall|x: int, z: int, y: int|
            0 <= x < 16 && 0 <= z < 16 && 0 <= y < 256 ==> column_seeded(
                blocks@,
                transparent@,
                light_sources@,
                neighbour_light@,
                queue@,
                x,
                z,
                y,
            ),
{
    let mut queue: VecDeque<LightQueue> = VecDeque::new();
    let mut x: usize = 0;
    while x < 16
        invariant
            blocks@.len() == CHUNK_SIZE,
            neighbour_light.wf(),
            x <= 16,
            forall|k: int|
                0 <= k < queue@.len() ==> is_seed(
                    queue@[k],
                    blocks@,
                    transparent@,
                    light_sources@,
                    neighbour_light@,
                ),
            forall|xq: int, zq: int, yq: int|
                0 <= xq < x && 0 <= zq < 16 && 0 <= yq < 256 ==> column_seeded(
                    blocks@,
                    transparent@,
                    light_sources@,
                    neighbour_light@,
                    queue@,
                    xq,
                    zq,
                    yq,
                ),
        decreases 16 - x,
    {
        let mut z: usize = 0;
        while z < 16
            invariant
                blocks@.len() == CHUNK_SIZE,
                neighbour_light.wf(),
                x < 16,
                z <= 16,
                forall|k: int|
                    0 <= k < queue@.len() ==> is_seed(
                        queue@[k],
                        blocks@,
                        transparent@,
                        light_sources@,
                        neighbour_light@,
                    ),
                forall|xq: int, zq: int, yq: int|
                    ((0 <= xq < x && 0 <= zq < 16) || (xq == x && 0 <= zq < z)) && 0 <= yq < 256
                        ==> column_seeded(
                        blocks@,
                        transparent@,
                        light_sources@,
                        neighbour_light@,
                        queue@,
                        xq,
                        zq,
                        yq,
                    ),
            decreases 16 - z,
        {
            let ghost qb = queue@;
            seed_column(&mut queue, blocks, neighbour_light, transparent, light_sources, x, z);
            proof {
                assert forall|xq: int, zq: int, yq: int|
                    ((0 <= xq < x && 0 <= zq < 16) || (xq == x as int && 0 <= zq < z)) && 0 <= yq
                        < 256 implies column_seeded(
                    blocks@,
                    transparent@,
                    light_sources@,
                    neighbour_light@,
                    queue@,
                    xq,
                    zq,
                    yq,
                ) by {
                    lemma_column_seeded_extend(
                        blocks@,
                        transparent@,
                        light_sources@,
                        neighbour_light@,
                        qb,
                        queue@,
                        xq,
                        zq,
                        yq,
                    );
                }
            }
            z += 1;
        }
        x += 1;
    }
    queue
}

/// Breadth-first decay: drain the queue front to back; write an entry's
/// light where it beats the map's current value at a transparent in-range
/// voxel, then enqueue all six neighbours one level darker; drop it
/// otherwise. Light only ever rises, never above 15, every entry of the
/// starting queue ends settled, and a queue that starts settled leaves the
/// map untouched.
pub fn bfs_light(
    light_map: &mut [u8],
    blocks: &[u16],
    queue: VecDeque<LightQueue>,
    transparent: &[u16],
)
    requires
        old(light_map)@.len() == CHUNK_SIZE,
        blocks@.len() == CHUNK_SIZE,
        forall|k: int| 0 <= k < queue@.len() ==> queue@[k].light <= 15,
    ensures
        final(light_map)@.len() == CHUNK_SIZE,
        forall|i: int| 0 <= i < CHUNK_SIZE ==> final(light_map)@[i] >= old(light_map)@[i],
        forall|i: int|
            0 <= i < CHUNK_SIZE ==> final(light_map)@[i] == old(light_map)@[i]
                || final(light_map)@[i] <= 15,
        forall|k: int|
            0 <= k < queue@.len() ==> bfs_settled(
                queue@[k],
                blocks@,
                transparent@,
                final(light_map)@,
            ),
        (forall|k: int|
            0 <= k < queue@.len() ==> bfs_settled(
                queue@[k],
                blocks@,
                transparent@,
                old(light_map)@,
            )) ==> final(light_map)@ == old(light_map)@,
        justified(queue@, blocks@, transparent@, old(light_map)@, final(light_map)@),
        decay_closed(blocks@, transparent@, old(light_map)@, final(light_map)@),
{
    let mut queue = queue;
    let ghost q0 = queue@;
    let ghost lm0 = light_map@;
    let ghost hs: bool = forall|k: int|
        0 <= k < q0.len() ==> bfs_settled(q0[k], blocks@, transparent@, lm0);
    while queue.len() > 0
        invariant
            light_map@.len() == CHUNK_SIZE,
            blocks@.len() == CHUNK_SIZE,
            lm0.len() == CHUNK_SIZE,
            forall|k: int| 0 <= k < queue@.len() ==> queue@[k].light <= 15,
            forall|i: int| 0 <= i < CHUNK_SIZE ==> light_map@[i] >= lm0[i],
            forall|i: int| 0 <= i < CHUNK_SIZE ==> light_map@[i] == lm0[i] || light_map@[i] <= 15,
            forall|k: int|
                0 <= k < q0.len() ==> bfs_settled(q0[k], blocks@, transparent@, light_map@)
                    || queue@.contains(q0[k]),
            hs == (forall|k: int|
                0 <= k < q0.len() ==> bfs_settled(q0[k], blocks@, transparent@, lm0)),
            hs ==> light_map@ == lm0,
            hs ==> forall|k: int|
                0 <= k < queue@.len() ==> bfs_settled(queue@[k], blocks@, transparent@, lm0),
            forall|k: int|
                0 <= k < queue@.len() ==> q0.contains(queue@[k]) || justified_entry(
                    queue@[k],
                    blocks@,
                    transparent@,
                    light_map@,
                ),
            justified(q0, blocks@, transparent@, lm0, light_map@),
            forall|x: int, z: int, y: int, dir: int|
                0 <= x < 16 && 0 <= z < 16 && 0 <= y < 256 && 0 <= dir < 6 && light_map@[vidx(
                    x,
                    z,
                    y,
                )] > lm0[vidx(x, z, y)] ==> bfs_settled(
                    #[trigger] step_entry(light_map@, x, z, y, dir),
                    blocks@,
                    transparent@,
                    light_map@,
                ) || queue@.contains(step_entry(light_map@, x, z, y, dir)),
        decreases 7 * deficit(light_map@, 65536) + queue@.len(),
    {
        proof {
            lemma_deficit_nonneg(light_map@, 65536);
        }
        let ghost qpre = queue@;
        let ghost lmpre = light_map@;
        let l: LightQueue = queue.pop_front().unwrap();
        proof {
            assert(l == qpre[0]);
        }

        if l.light == 0 {
        } else if l.x < 0 || l.x > 15 || l.y < 0 || l.y > 255 || l.z < 0 || l.z > 15 {
        } else {
            let idx = (l.x as usize) + (l.z as usize) * 16 + (l.y as usize) * 256;
            let data = blocks[idx];
            let block = data & 0xff;
            if !contains_u16(transparent, block) {
            } else {
                let light_level = light_map[idx];
                if light_level >= l.light {
                } else {
                    proof {
                        if hs {
                            assert(bfs_settled(qpre[0], blocks@, transparent@, lm0));
                            assert(false);
                        }
                        lemma_deficit_update(lmpre, idx as int, l.light, 65536);
                    }
                    light_map[idx] = l.light;
                    let mut dir: usize = 0;
                    while dir < 6
                        invariant
                            dir <= 6,
                            1 <= l.light <= 15,
                            0 <= l.x <= 15,
                            0 <= l.y <= 255,
                            0 <= l.z <= 15,
                            qpre.len() >= 1,
                            queue@.len() == qpre.len() - 1 + dir,
                            forall|k: int| 0 <= k < qpre.len() - 1 ==> queue@[k] == qpre[k + 1],
                            forall|k: int|
                                qpre.len() - 1 <= k < queue@.len() ==> queue@[k].light == l.light
                                    - 1,
                            light_map@.len() == CHUNK_SIZE,
                            idx == vidx(l.x as int, l.z as int, l.y as int),
                            transp_at(blocks@, transparent@, l.x as int, l.z as int, l.y as int),
                            light_map@[idx as int] == l.light,
                            forall|k: int|
                                qpre.len() - 1 <= k < queue@.len() ==> justified_entry(
                                    queue@[k],
                                    blocks@,
                                    transparent@,
                                    light_map@,
                                ),
                            forall|k: int|
                                qpre.len() - 1 <= k < queue@.len() ==> queue@[k] == step_entry(
                                    light_map@,
                                    l.x as int,
                                    l.z as int,
                                    l.y as int,
                                    k - (qpre.len() - 1),
                                ),
                        decreases 6 - dir,
                    {
                        let (dx, dy, dz) = crate::geom::dir_delta(dir);
                        let nx = l.x + dx;
                        let ny = l.y + dy;
                        let nz = l.z + dz;
                        let e = LightQueue { x: nx, y: ny, z: nz, light: l.light - 1 };
                        queue.push_back(e);
                        proof {
                            // The parent voxel sits one step back, in the
                            // paired opposite direction.
                            let opd: int = if dir % 2 == 0 {
                                dir as int + 1
                            } else {
                                dir as int - 1
                            };
                            assert(e.x as int + crate::geom::delta_x(opd) == l.x as int);
                            assert(e.y as int + crate::geom::delta_y(opd) == l.y as int);
                            assert(e.z as int + crate::geom::delta_z(opd) == l.z as int);
                            assert(justified_entry(e, blocks@, transparent@, light_map@));
                            assert(e == step_entry(
                                light_map@,
                                l.x as int,
                                l.z as int,
                                l.y as int,
                                dir as int,
                            ));
                        }
                        dir += 1;
                    }
                    proof {
                        assert(light_map@[idx as int] >= l.light);
                    }
                }
            }
        }

        proof {
            // The popped entry is settled against the current map, every
            // other entry survived the pop, and entries only got lighter.
            assert(bfs_settled(l, blocks@, transparent@, light_map@));
            assert forall|k: int| 0 <= k < queue@.len() implies queue@[k].light <= 15 by {
                if k < qpre.len() - 1 {
                    assert(queue@[k] == qpre[k + 1]);
                }
            }
            assert forall|k: int| 1 <= k < qpre.len() implies queue@.contains(qpre[k]) by {
                assert(queue@[k - 1] == qpre[k]);
            }
            assert forall|k: int|
                0 <= k < q0.len() implies bfs_settled(q0[k], blocks@, transparent@, light_map@)
                || queue@.contains(q0[k]) by {
                if bfs_settled(q0[k], blocks@, transparent@, lmpre) {
                    lemma_settled_mono(q0[k], blocks@, transparent@, lmpre, light_map@);
                } else {
                    assert(qpre.contains(q0[k]));
                    let m = choose|m: int| 0 <= m < qpre.len() && qpre[m] == q0[k];
                    if m == 0 {
                        assert(q0[k] == l);
                    } else {
                        assert(queue@.contains(qpre[m]));
                    }
                }
            }
            if hs {
                assert forall|k: int|
                    0 <= k < queue@.len() implies bfs_settled(
                    queue@[k],
                    blocks@,
                    transparent@,
                    lm0,
                ) by {
                    assert(queue@[k] == qpre[k + 1]);
                }
            }
            // Queue entries keep a live parent as the map grows.
            assert forall|k: int|
                0 <= k < queue@.len() implies q0.contains(queue@[k]) || justified_entry(
                queue@[k],
                blocks@,
                transparent@,
                light_map@,
            ) by {
                if k < qpre.len() - 1 {
                    assert(queue@[k] == qpre[k + 1]);
                    if !q0.contains(qpre[k + 1]) {
                        lemma_justified_entry_mono(
                            qpre[k + 1],
                            blocks@,
                            transparent@,
                            lmpre,
                            light_map@,
                        );
                    }
                }
            }
            // Every risen voxel stays accounted for.
            assert forall|x: int, z: int, y: int|
                0 <= x < 16 && 0 <= z < 16 && 0 <= y < 256 && light_map@[#[trigger] vidx(x, z, y)]
                    > lm0[vidx(x, z, y)] implies transp_at(blocks@, transparent@, x, z, y)
                && justified_at(q0, blocks@, transparent@, light_map@, x, z, y) by {
                assert(0 <= vidx(x, z, y) < 65536);
                if light_map@[vidx(x, z, y)] == lmpre[vidx(x, z, y)] {
                    lemma_justified_at_mono(q0, blocks@, transparent@, lmpre, light_map@, x, z, y);
                } else {
                    // Only the write branch changes the map, at l's voxel.
                    let j = vidx(l.x as int, l.z as int, l.y as int);
                    assert(vidx(x, z, y) == j);
                    assert(x == l.x as int && z == l.z as int && y == l.y as int);
                    assert(light_map@[j] == l.light);
                    if q0.contains(l) {
                        let m = choose|m: int| 0 <= m < q0.len() && q0[m] == l;
                        assert(q0[m].light >= light_map@[vidx(x, z, y)]);
                        assert(justified_at(q0, blocks@, transparent@, light_map@, x, z, y));
                    } else {
                        assert(justified_entry(l, blocks@, transparent@, lmpre));
                        let dir = choose|dir: int|
                            #![trigger crate::geom::delta_x(dir)]
                            0 <= dir < 6 && {
                                let wx = l.x as int + crate::geom::delta_x(dir);
                                let wy = l.y as int + crate::geom::delta_y(dir);
                                let wz = l.z as int + crate::geom::delta_z(dir);
                                &&& 0 <= wx < 16
                                &&& 0 <= wy < 256
                                &&& 0 <= wz < 16
                                &&& transp_at(blocks@, transparent@, wx, wz, wy)
                                &&& lmpre[vidx(wx, wz, wy)] >= l.light + 1
                            };
                        let wx = l.x as int + crate::geom::delta_x(dir);
                        let wy = l.y as int + crate::geom::delta_y(dir);
                        let wz = l.z as int + crate::geom::delta_z(dir);
                        assert(0 <= vidx(wx, wz, wy) < 65536);
                        assert(vidx(wx, wz, wy) != j);
                        assert(light_map@[vidx(wx, wz, wy)] >= light_map@[vidx(x, z, y)] + 1);
                        assert(justified_at(q0, blocks@, transparent@, light_map@, x, z, y));
                    }
                }
            }
            // Every risen voxel's six onward entries are settled or queued.
            assert forall|x: int, z: int, y: int, dir: int|
                0 <= x < 16 && 0 <= z < 16 && 0 <= y < 256 && 0 <= dir < 6 && light_map@[vidx(
                    x,
                    z,
                    y,
                )] > lm0[vidx(x, z, y)] implies bfs_settled(
                #[trigger] step_entry(light_map@, x, z, y, dir),
                blocks@,
                transparent@,
                light_map@,
            ) || queue@.contains(step_entry(light_map@, x, z, y, dir)) by {
                assert(0 <= vidx(x, z, y) < 65536);
                if light_map@[vidx(x, z, y)] == lmpre[vidx(x, z, y)] {
                    assert(step_entry(light_map@, x, z, y, dir) == step_entry(lmpre, x, z, y, dir));
                    let e = step_entry(lmpre, x, z, y, dir);
                    if bfs_settled(e, blocks@, transparent@, lmpre) {
                        lemma_settled_mono(e, blocks@, transparent@, lmpre, light_map@);
                    } else {
                        assert(qpre.contains(e));
                        let mm = choose|mm: int| 0 <= mm < qpre.len() && qpre[mm] == e;
                        if mm == 0 {
                            assert(e == l);
                        } else {
                            assert(queue@.contains(qpre[mm]));
                        }
                    }
                } else {
                    let j = vidx(l.x as int, l.z as int, l.y as int);
                    assert(vidx(x, z, y) == j);
                    assert(x == l.x as int && z == l.z as int && y == l.y as int);
                    assert(queue@[qpre.len() - 1 + dir] == step_entry(light_map@, x, z, y, dir));
                    assert(queue@.contains(step_entry(light_map@, x, z, y, dir)));
                }
            }
            lemma_deficit_nonneg(light_map@, 65536);
        }
    }
}

/// Whole light propagation for one chunk: validate the buffer lengths (a
/// mismatch returns with the map untouched), seed, then decay.
///
/// The contract carries the propagation laws: light only ever rises and
/// never past 15; afterwards every seed is absorbed (`settled_map`) and
/// every lit voxel has handed each neighbour its level less one
/// (`decay_closed`); every rise is accounted for by a seed or a brighter
/// neighbour (`seed_justified`, which [`lemma_light_path_bound`] turns into
/// a path from a seed); and a map that is already settled comes back
/// unchanged — so running the pass twice on the same inputs yields the same
/// map as running it once.
pub fn do_calculate_light(
    light_map: &mut [u8],
    blocks: &[u16],
    neighbours: &[u16],
    transparent: &[u16],
    light_sources: &[u16],
)
    ensures
        final(light_map)@.len() == old(light_map)@.len(),
        !calc_valid(
            old(light_map)@.len() as int,
            blocks@.len() as int,
            neighbours@.len() as int,
        ) ==> final(light_map)@ == old(light_map)@,
        calc_valid(old(light_map)@.len() as int, blocks@.len() as int, neighbours@.len() as int)
            ==> {
            &&& forall|i: int| 0 <= i < 65536 ==> final(light_map)@[i] >= old(light_map)@[i]
            &&& forall|i: int|
                0 <= i < 65536 ==> final(light_map)@[i] == old(light_map)@[i]
                    || final(light_map)@[i] <= 15
            &&& settled_map(
                blocks@,
                transparent@,
                light_sources@,
                nb_view(neighbours@),
                final(light_map)@,
            )
            &&& settled_map(
                blocks@,
                transparent@,
                light_sources@,
                nb_view(neighbours@),
                old(light_map)@,
            ) ==> final(light_map)@ == old(light_map)@
            &&& seed_justified(
                blocks@,
                transparent@,
                light_sources@,
                nb_view(neighbours@),
                old(light_map)@,
                final(light_map)@,
            )
            &&& decay_closed(blocks@, transparent@, old(light_map)@, final(light_map)@)
        },
{
    if blocks.len() != CHUNK_SIZE {
        return ;
    }
    if light_map.len() != CHUNK_SIZE {
        return ;
    }
    if neighbours.len() != CHUNK_SIZE * 4 {
        return ;
    }

    let neighbour_light = Neighbours {
        nx: &neighbours[0..16 * 16 * 256],
        px: &neighbours[16 * 16 * 256..2 * 16 * 16 * 256],
        nz: &neighbours[2 * 16 * 16 * 256..3 * 16 * 16 * 256],
        pz: &neighbours[3 * 16 * 16 * 256..4 * 16 * 16 * 256],
    };
    proof {
        assert(neighbour_light@.nx =~= nb_view(neighbours@).nx);
        assert(neighbour_light@.px =~= nb_view(neighbours@).px);
        assert(neighbour_light@.nz =~= nb_view(neighbours@).nz);
        assert(neighbour_light@.pz =~= nb_view(neighbours@).pz);
        assert(neighbour_light@ == nb_view(neighbours@));
    }

    let queue = seed_lights(blocks, &neighbour_light, transparent, light_sources);
    let ghost qv = queue@;
    let ghost lm0 = light_map@;
    let ghost n = neighbour_light@;

    proof {
        // Seeds carry light levels 0..=15, as the decay pass demands.
        assert forall|k: int| 0 <= k < qv.len() implies qv[k].light <= 15 by {
            assert(is_seed(qv[k], blocks@, transparent@, light_sources@, n));
        }
        // A settled map settles every seed before the decay pass starts.
        if settled_map(blocks@, transparent@, light_sources@, n, lm0) {
            assert forall|k: int|
                0 <= k < qv.len() implies bfs_settled(qv[k], blocks@, transparent@, lm0) by {
                let e = qv[k];
                assert(is_seed(e, blocks@, transparent@, light_sources@, n));
                if in_range(e) {
                    let xi = e.x as int;
                    let zi = e.z as int;
                    let yi = e.y as int;
                    assert(seed_done_at(blocks@, transparent@, light_sources@, n, lm0, xi, zi, yi));
                }
            }
        }
    }

    bfs_light(light_map, blocks, queue, transparent);

    proof {
        // Every seed is absorbed: instantiate the decay pass's settledness
        // over the seeds the seeding pass promises per voxel.
        assert forall|x: int, z: int, y: int|
            0 <= x < 16 && 0 <= z < 16 && 0 <= y < 256 implies seed_done_at(
            blocks@,
            transparent@,
            light_sources@,
            n,
            light_map@,
            x,
            z,
            y,
        ) by {
            assert(column_seeded(blocks@, transparent@, light_sources@, n, qv, x, z, y));
            if transp_at(blocks@, transparent@, x, z, y) && sky_above(
                blocks@,
                transparent@,
                x,
                z,
                y + 1,
            ) {
                let e = lq(x, y, z, 14);
                let m = choose|m: int| 0 <= m < qv.len() && qv[m] == e;
                assert(bfs_settled(e, blocks@, transparent@, light_map@));
            }
            if transp_at(blocks@, transparent@, x, z, y) && source_at(
                blocks@,
                light_sources@,
                x,
                z,
                y,
            ) {
                let e = lq(x, y, z, 15);
                let m = choose|m: int| 0 <= m < qv.len() && qv[m] == e;
                assert(bfs_settled(e, blocks@, transparent@, light_map@));
            }
            if transp_at(blocks@, transparent@, x, z, y) && !sky_above(
                blocks@,
                transparent@,
                x,
                z,
                y + 1,
            ) && on_boundary(x, z) && boundary_light(n, x, z, y) > 0 {
                let e = lq(x, y, z, seed_level(boundary_light(n, x, z, y)));
                let m = choose|m: int| 0 <= m < qv.len() && qv[m] == e;
                assert(bfs_settled(e, blocks@, transparent@, light_map@));
            }
        }
        // Every risen voxel is accounted for at the seed level: the queue
        // entry that justifies it is itself a seed.
        assert forall|x: int, z: int, y: int|
            0 <= x < 16 && 0 <= z < 16 && 0 <= y < 256 && light_map@[#[trigger] vidx(x, z, y)]
                > lm0[vidx(x, z, y)] implies transp_at(blocks@, transparent@, x, z, y)
            && seed_justified_at(blocks@, transparent@, light_sources@, n, light_map@, x, z, y) by {
            assert(justified_at(qv, blocks@, transparent@, light_map@, x, z, y));
            if exists|k: int|
                0 <= k < qv.len() && qv[k].x as int == x && qv[k].z as int == z && qv[k].y as int
                    == y && qv[k].light >= light_map@[vidx(x, z, y)] {
                let k = choose|k: int|
                    0 <= k < qv.len() && qv[k].x as int == x && qv[k].z as int == z
                        && qv[k].y as int == y && qv[k].light >= light_map@[vidx(x, z, y)];
                assert(is_seed(qv[k], blocks@, transparent@, light_sources@, n));
                assert(has_seed_ge(
                    blocks@,
                    transparent@,
                    light_sources@,
                    n,
                    x,
                    z,
                    y,
                    light_map@[vidx(x, z, y)] as int,
                ));
            }
        }
    }
}

} // verus!
