//! Mesh building: walk the voxel grid in flat-index order, classify each
//! voxel (air / water / ice / solid), cull the cube faces hidden behind
//! opaque neighbours — sampling the four adjacent chunks across the chunk
//! boundary — and pack each visible face as two 32-bit words (light, then
//! biome/texture/direction/position) into the opaque or the water/ice
//! vertex buffer.

use vstd::prelude::*;

use crate::geom::{
    block_type, delta_x, delta_y, delta_z, dir_delta, vidx, AIR, CHUNK_SIZE, ESTIMATED_MAX_VERTS,
    ICE, IMMEDIATE_SIZE, WATER,
};

verus! {

/// The block data of the four horizontally adjacent chunks, one full
/// chunk-sized array each, in the order -x, +x, -z, +z.
pub struct Neighbours<'a> {
    pub nx: &'a [u16],
    pub px: &'a [u16],
    pub nz: &'a [u16],
    pub pz: &'a [u16],
}

/// Ghost image of [`Neighbours`]: the four arrays as sequences.
pub struct MeshNbView {
    pub nx: Seq<u16>,
    pub px: Seq<u16>,
    pub nz: Seq<u16>,
    pub pz: Seq<u16>,
}

impl<'a> Neighbours<'a> {
    /// All four arrays cover a whole chunk.
    pub open spec fn wf(self) -> bool {
        &&& self.nx@.len() == CHUNK_SIZE
        &&& self.px@.len() == CHUNK_SIZE
        &&& self.nz@.len() == CHUNK_SIZE
        &&& self.pz@.len() == CHUNK_SIZE
    }
}

impl<'a> View for Neighbours<'a> {
    type V = MeshNbView;

    open spec fn view(&self) -> MeshNbView {
        MeshNbView { nx: self.nx@, px: self.px@, nz: self.nz@, pz: self.pz@ }
    }
}

/// The light of the single voxel column of each adjacent chunk immediately
/// across the shared face: one strip of 16 * 256 values per face, in the
/// order -x, +x, -z, +z.
pub struct ImmediateNeighbourLight<'a> {
    pub nx: &'a [u8],
    pub px: &'a [u8],
    pub nz: &'a [u8],
    pub pz: &'a [u8],
}

/// Ghost image of [`ImmediateNeighbourLight`].
pub struct ImmLightView {
    pub nx: Seq<u8>,
    pub px: Seq<u8>,
    pub nz: Seq<u8>,
    pub pz: Seq<u8>,
}

impl<'a> ImmediateNeighbourLight<'a> {
    /// All four strips cover a whole shared face.
    pub open spec fn wf(self) -> bool {
        &&& self.nx@.len() == IMMEDIATE_SIZE
        &&& self.px@.len() == IMMEDIATE_SIZE
        &&& self.nz@.len() == IMMEDIATE_SIZE
        &&& self.pz@.len() == IMMEDIATE_SIZE
    }
}

impl<'a> View for ImmediateNeighbourLight<'a> {
    type V = ImmLightView;

    open spec fn view(&self) -> ImmLightView {
        ImmLightView { nx: self.nx@, px: self.px@, nz: self.nz@, pz: self.pz@ }
    }
}

/// Block type `b` is listed transparent: the table holds 1 for it. A block
/// type beyond the table's end counts as not transparent.
pub open spec fn tb_transparent(tb: Seq<u8>, b: u8) -> bool {
    b < tb.len() && tb[b as int] == 1
}

/// Block type `b` is opaque: the table holds 0 for it, or lies beyond the
/// table's end.
pub open spec fn tb_opaque(tb: Seq<u8>, b: u8) -> bool {
    b >= tb.len() || tb[b as int] == 0
}

/// The block type facing side `dir` of voxel (x, z, y): air beyond the
/// world's top and bottom, the mirrored column of the adjacent chunk across
/// a vertical chunk face, and the chunk's own grid elsewhere.
pub open spec fn nbr_block(blocks: Seq<u16>, nb: MeshNbView, x: int, z: int, y: int, dir: int) -> u8 {
    let nx = x + delta_x(dir);
    let ny = y + delta_y(dir);
    let nz = z + delta_z(dir);
    if ny < 0 || ny >= 256 {
        AIR
    } else if nx < 0 {
        block_type(nb.nx[15 + nz * 16 + ny * 256])
    } else if nx >= 16 {
        block_type(nb.px[nz * 16 + ny * 256])
    } else if nz < 0 {
        block_type(nb.nz[nx + 240 + ny * 256])
    } else if nz >= 16 {
        block_type(nb.pz[nx + ny * 256])
    } else {
        block_type(blocks[vidx(nx, nz, ny)])
    }
}

/// The light on side `dir` of opaque voxel (x, z, y): the chunk's own light
/// map for an in-chunk transparent neighbour; the immediate-neighbour strip
/// for a cross-chunk transparent neighbour whose strip index is in range;
/// 0 otherwise.
pub open spec fn face_light(
    blocks: Seq<u16>,
    light: Seq<u8>,
    nb: MeshNbView,
    il: ImmLightView,
    tb: Seq<u8>,
    x: int,
    z: int,
    y: int,
    dir: int,
) -> u8 {
    let nx = x + delta_x(dir);
    let ny = y + delta_y(dir);
    let nz = z + delta_z(dir);
    let b = nbr_block(blocks, nb, x, z, y, dir);
    if ny < 0 || ny >= 256 {
        0
    } else if nx < 0 {
        if tb_transparent(tb, b) && nz + ny * 256 < IMMEDIATE_SIZE {
            il.nx[nz + ny * 256]
        } else {
            0
        }
    } else if nx >= 16 {
        if tb_transparent(tb, b) && nz + ny * 256 < IMMEDIATE_SIZE {
            il.px[nz + ny * 256]
        } else {
            0
        }
    } else if nz < 0 {
        if tb_transparent(tb, b) && nx + ny * 256 < IMMEDIATE_SIZE {
            il.nz[nx + ny * 256]
        } else {
            0
        }
    } else if nz >= 16 {
        if tb_transparent(tb, b) && nx + ny * 256 < IMMEDIATE_SIZE {
            il.pz[nx + ny * 256]
        } else {
            0
        }
    } else {
        if tb_transparent(tb, b) {
            light[vidx(nx, nz, ny)]
        } else {
            0
        }
    }
}

/// Side `dir` of voxel (x, z, y) is visible: its neighbour is not opaque.
pub open spec fn face_visible(
    blocks: Seq<u16>,
    nb: MeshNbView,
    tb: Seq<u8>,
    x: int,
    z: int,
    y: int,
    dir: int,
) -> bool {
    !tb_opaque(tb, nbr_block(blocks, nb, x, z, y, dir))
}

/// The 6-bit visibility mask of an opaque voxel, bit `dir` set when side
/// `dir` is visible.
pub open spec fn face_mask(blocks: Seq<u16>, nb: MeshNbView, tb: Seq<u8>, x: int, z: int, y: int) -> i32 {
    (if face_visible(blocks, nb, tb, x, z, y, 0) { 1i32 } else { 0i32 })
    | (if face_visible(blocks, nb, tb, x, z, y, 1) { 2i32 } else { 0i32 })
    | (if face_visible(blocks, nb, tb, x, z, y, 2) { 4i32 } else { 0i32 })
    | (if face_visible(blocks, nb, tb, x, z, y, 3) { 8i32 } else { 0i32 })
    | (if face_visible(blocks, nb, tb, x, z, y, 4) { 16i32 } else { 0i32 })
    | (if face_visible(blocks, nb, tb, x, z, y, 5) { 32i32 } else { 0i32 })
}

/// The six per-face light values of an opaque voxel.
pub open spec fn face_lights(
    blocks: Seq<u16>,
    light: Seq<u8>,
    nb: MeshNbView,
    il: ImmLightView,
    tb: Seq<u8>,
    x: int,
    z: int,
    y: int,
) -> Seq<u8> {
    seq![
        face_light(blocks, light, nb, il, tb, x, z, y, 0),
        face_light(blocks, light, nb, il, tb, x, z, y, 1),
        face_light(blocks, light, nb, il, tb, x, z, y, 2),
        face_light(blocks, light, nb, il, tb, x, z, y, 3),
        face_light(blocks, light, nb, il, tb, x, z, y, 4),
        face_light(blocks, light, nb, il, tb, x, z, y, 5),
    ]
}

/// A transparent voxel is lit uniformly by its own light-map entry.
pub open spec fn uniform_lights(l: u8) -> Seq<u8> {
    seq![l, l, l, l, l, l]
}

/// Bit `d` of the visibility mask.
pub open spec fn mask_bit(mask: i32, d: u32) -> bool {
    (mask >> d) & 1 == 1
}

/// Texture byte for side `dir` of a block: the table is indexed by
/// block-type * 6 + direction; a lookup beyond the table's end yields 0.
pub open spec fn tex_lookup(tex: Seq<u8>, tex_index: u8, dir: int) -> u8 {
    if (tex_index as int) * 6 + dir < tex.len() {
        tex[(tex_index as int) * 6 + dir]
    } else {
        0
    }
}

/// The packed geometry word of one face: biome in bits 25 and up, texture
/// in bits 19..=24, direction in bits 16..=18, and x/y/z in bits 12..=15,
/// 4..=11 and 0..=3.
pub open spec fn face_word(
    tex: Seq<u8>,
    x: int,
    y: int,
    z: int,
    tex_index: u8,
    dir: u32,
    biome: u16,
) -> u32 {
    ((biome as u32) << 25) | ((tex_lookup(tex, tex_index, dir as int) as u32) << 19) | (dir << 16)
        | (((x as u32) << 12) | ((y as u32) << 4) | (z as u32))
}

/// The two words of one face: its light value, then its geometry word.
pub open spec fn face_pair(
    tex: Seq<u8>,
    x: int,
    y: int,
    z: int,
    tex_index: u8,
    dir: u32,
    biome: u16,
    light: Seq<u8>,
) -> Seq<u32> {
    seq![light[dir as int] as u32, face_word(tex, x, y, z, tex_index, dir, biome)]
}

/// The words emitted for the sides below `k` whose mask bit is set, in
/// ascending direction order.
pub open spec fn cube_words_upto(
    tex: Seq<u8>,
    x: int,
    y: int,
    z: int,
    tex_index: u8,
    mask: i32,
    biome: u16,
    light: Seq<u8>,
    k: int,
) -> Seq<u32>
    decreases k,
{
    if k <= 0 {
        Seq::empty()
    } else {
        cube_words_upto(tex, x, y, z, tex_index, mask, biome, light, k - 1) + (if mask_bit(
            mask,
            (k - 1) as u32,
        ) {
            face_pair(tex, x, y, z, tex_index, (k - 1) as u32, biome, light)
        } else {
            Seq::empty()
        })
    }
}

/// All words one cube emits.
pub open spec fn cube_words(
    tex: Seq<u8>,
    x: int,
    y: int,
    z: int,
    tex_index: u8,
    mask: i32,
    biome: u16,
    light: Seq<u8>,
) -> Seq<u32> {
    cube_words_upto(tex, x, y, z, tex_index, mask, biome, light, 6)
}

/// The face-emission routine writes only when the coordinates are in range
/// and a full cube's worth of words still fits behind the cursor.
pub open spec fn cube_ok(buf_len: int, start: int, x: int, y: int, z: int) -> bool {
    x <= 15 && z <= 15 && y <= 255 && start + 12 <= buf_len
}

/// `buf` with `words` laid over it starting at `start`.
pub open spec fn write_words(buf: Seq<u32>, start: int, words: Seq<u32>) -> Seq<u32> {
    Seq::new(
        buf.len(),
        |j: int|
            if start <= j < start + words.len() {
                words[j - start]
            } else {
                buf[j]
            },
    )
}

/// The buffer after one cube emission.
pub open spec fn cube_out(
    buf: Seq<u32>,
    start: int,
    x: int,
    y: int,
    z: int,
    tex_index: u8,
    mask: i32,
    biome: u16,
    light: Seq<u8>,
    tex: Seq<u8>,
) -> Seq<u32> {
    if cube_ok(buf.len() as int, start, x, y, z) {
        write_words(buf, start, cube_words(tex, x, y, z, tex_index, mask, biome, light))
    } else {
        buf
    }
}

/// The number of words one cube emission writes.
pub open spec fn cube_n(
    buf: Seq<u32>,
    start: int,
    x: int,
    y: int,
    z: int,
    tex_index: u8,
    mask: i32,
    biome: u16,
    light: Seq<u8>,
    tex: Seq<u8>,
) -> int {
    if cube_ok(buf.len() as int, start, x, y, z) {
        cube_words(tex, x, y, z, tex_index, mask, biome, light).len() as int
    } else {
        0
    }
}

/// Emit the faces of the cube at (x, y, z) whose bits are set in
/// `culled_faces` into `verts` at word offset `start_vi`: two words per
/// face, light then packed geometry, in ascending direction order. Returns
/// the number of words written; out-of-range coordinates or a cursor
/// without room for a full cube write nothing and return 0.
pub fn cube(
    verts: &mut [u32],
    start_vi: u32,
    x: usize,
    y: usize,
    z: usize,
    tex_index: u8,
    culled_faces: i32,
    biome: u16,
    light: &[u8; 6],
    textures: &[u8],
) -> (v: u32)
    ensures
        final(verts)@ == cube_out(
            old(verts)@,
            start_vi as int,
            x as int,
            y as int,
            z as int,
            tex_index,
            culled_faces,
            biome,
            light@,
            textures@,
        ),
        v as int == cube_n(
            old(verts)@,
            start_vi as int,
            x as int,
            y as int,
            z as int,
            tex_index,
            culled_faces,
            biome,
            light@,
            textures@,
        ),
        v % 2 == 0,
        v <= 12,
{
    if x > 15 {
        return 0;
    }
    if z > 15 {
        return 0;
    }
    if y > 255 {
        return 0;
    }
    // The original indexes the buffer unchecked; a full cube's room is
    // demanded up front so no write can land out of bounds.
    if (start_vi as u64) + 12 > (verts.len() as u64) {
        return 0;
    }

    let ghost buf0 = verts@;
    let position: u32 = ((x as u32) << 12) | ((y as u32) << 4) | (z as u32);

    let mut v: u32 = 0;
    let mut dir: u32 = 0;
    while dir < 6
        invariant
            x <= 15,
            y <= 255,
            z <= 15,
            dir <= 6,
            v <= 2 * dir,
            v % 2 == 0,
            start_vi as int + 12 <= buf0.len(),
            buf0.len() <= usize::MAX,
            verts@.len() == buf0.len(),
            position == ((x as u32) << 12) | ((y as u32) << 4) | (z as u32),
            v as int == cube_words_upto(
                textures@,
                x as int,
                y as int,
                z as int,
                tex_index,
                culled_faces,
                biome,
                light@,
                dir as int,
            ).len(),
            forall|j: int|
                0 <= j < v ==> verts@[start_vi + j] == cube_words_upto(
                    textures@,
                    x as int,
                    y as int,
                    z as int,
                    tex_index,
                    culled_faces,
                    biome,
                    light@,
                    dir as int,
                )[j],
            forall|j: int|
                0 <= j < buf0.len() && !(start_vi <= j < start_vi + v) ==> verts@[j] == buf0[j],
        decreases 6 - dir,
    {
        if ((culled_faces >> dir) & 1) == 1 {
            let ti = (tex_index as usize) * 6 + (dir as usize);
            let t: u8 = if ti < textures.len() {
                textures[ti]
            } else {
                0
            };
            let vert: u32 = ((biome as u32) << 25) | ((t as u32) << 19) | (dir << 16) | position;
            let upper: u32 = light[dir as usize] as u32;
            verts[(start_vi as usize) + (v as usize)] = upper;
            verts[(start_vi as usize) + (v as usize) + 1] = vert;
            v = v + 2;
        }
        dir = dir + 1;
    }

    proof {
        let words = cube_words(
            textures@,
            x as int,
            y as int,
            z as int,
            tex_index,
            culled_faces,
            biome,
            light@,
        );
        assert(verts@ =~= write_words(buf0, start_vi as int, words));
    }
    v
}

/// Table lookup behind [`tb_transparent`].
fn is_transp_block(tb: &[u8], b: u8) -> (r: bool)
    ensures
        r == tb_transparent(tb@, b),
{
    let bi = b as usize;
    bi < tb.len() && tb[bi] == 1
}

/// Table lookup behind [`tb_opaque`].
fn is_opaque_block(tb: &[u8], b: u8) -> (r: bool)
    ensures
        r == tb_opaque(tb@, b),
{
    let bi = b as usize;
    bi >= tb.len() || tb[bi] == 0
}

/// Resolve one side of an opaque voxel: visibility and face light, sampling
/// the adjacent chunk's blocks and the immediate-neighbour light strip when
/// the neighbour lies across a chunk face.
fn face_one(
    blocks: &[u16],
    light_map: &[u8],
    neighbours: &Neighbours,
    immediate_light: &ImmediateNeighbourLight,
    transparent_blocks: &[u8],
    x: usize,
    y: usize,
    z: usize,
    dir: usize,
) -> (r: (bool, u8))
    requires
        blocks@.len() == CHUNK_SIZE,
        light_map@.len() == CHUNK_SIZE,
        neighbours.wf(),
        immediate_light.wf(),
        x < 16,
        y < 256,
        z < 16,
        dir < 6,
    ensures
        r.0 == face_visible(blocks@, neighbours@, transparent_blocks@, x as int, z as int, y as int, dir as int),
        r.1 == face_light(
            blocks@,
            light_map@,
            neighbours@,
            immediate_light@,
            transparent_blocks@,
            x as int,
            z as int,
            y as int,
            dir as int,
        ),
{
    let (dx, dy, dz) = dir_delta(dir);
    let nx = (x as i32) + (dx as i32);
    let ny = (y as i32) + (dy as i32);
    let nz = (z as i32) + (dz as i32);

    let nbv: u8;
    let mut lgt: u8 = 0;

    if ny < 0 || ny >= 256 {
        nbv = AIR;
    } else if nx < 0 {
        let ix = 15 + (nz as usize) * 16 + (ny as usize) * 256;
        nbv = (neighbours.nx[ix] & 0xff) as u8;
        let nix = (nz as usize) + (ny as usize) * 256;
        if is_transp_block(transparent_blocks, nbv) && nix < IMMEDIATE_SIZE {
            lgt = immediate_light.nx[nix];
        }
    } else if nx >= 16 {
        let ix = (nz as usize) * 16 + (ny as usize) * 256;
        nbv = (neighbours.px[ix] & 0xff) as u8;
        let nix = (nz as usize) + (ny as usize) * 256;
        if is_transp_block(transparent_blocks, nbv) && nix < IMMEDIATE_SIZE {
            lgt = immediate_light.px[nix];
        }
    } else if nz < 0 {
        let ix = (nx as usize) + 240 + (ny as usize) * 256;
        nbv = (neighbours.nz[ix] & 0xff) as u8;
        let nix = (nx as usize) + (ny as usize) * 256;
        if is_transp_block(transparent_blocks, nbv) && nix < IMMEDIATE_SIZE {
            lgt = immediate_light.nz[nix];
        }
    } else if nz >= 16 {
        let ix = (nx as usize) + (ny as usize) * 256;
        nbv = (neighbours.pz[ix] & 0xff) as u8;
        let nix = (nx as usize) + (ny as usize) * 256;
        if is_transp_block(transparent_blocks, nbv) && nix < IMMEDIATE_SIZE {
            lgt = immediate_light.pz[nix];
        }
    } else {
        let ix = (nx as usize) + (nz as usize) * 16 + (ny as usize) * 256;
        nbv = (blocks[ix] & 0xff) as u8;
        if is_transp_block(transparent_blocks, nbv) {
            lgt = light_map[ix];
        }
    }

    let vis = !is_opaque_block(transparent_blocks, nbv);
    (vis, lgt)
}

/// The visibility mask and the six per-face light values of the opaque
/// voxel at (x, z, y).
fn voxel_faces(
    blocks: &[u16],
    light_map: &[u8],
    neighbours: &Neighbours,
    immediate_light: &ImmediateNeighbourLight,
    transparent_blocks: &[u8],
    x: usize,
    y: usize,
    z: usize,
) -> (r: (i32, [u8; 6]))
    requires
        blocks@.len() == CHUNK_SIZE,
        light_map@.len() == CHUNK_SIZE,
        neighbours.wf(),
        immediate_light.wf(),
        x < 16,
        y < 256,
        z < 16,
    ensures
        r.0 == face_mask(blocks@, neighbours@, transparent_blocks@, x as int, z as int, y as int),
        r.1@ == face_lights(
            blocks@,
            light_map@,
            neighbours@,
            immediate_light@,
            transparent_blocks@,
            x as int,
            z as int,
            y as int,
        ),
{
    let f0 = face_one(blocks, light_map, neighbours, immediate_light, transparent_blocks, x, y, z, 0);
    let f1 = face_one(blocks, light_map, neighbours, immediate_light, transparent_blocks, x, y, z, 1);
    let f2 = face_one(blocks, light_map, neighbours, immediate_light, transparent_blocks, x, y, z, 2);
    let f3 = face_one(blocks, light_map, neighbours, immediate_light, transparent_blocks, x, y, z, 3);
    let f4 = face_one(blocks, light_map, neighbours, immediate_light, transparent_blocks, x, y, z, 4);
    let f5 = face_one(blocks, light_map, neighbours, immediate_light, transparent_blocks, x, y, z, 5);
    let mask: i32 = (if f0.0 { 1i32 } else { 0i32 }) | (if f1.0 { 2i32 } else { 0i32 }) | (if f2.0 {
        4i32
    } else {
        0i32
    }) | (if f3.0 { 8i32 } else { 0i32 }) | (if f4.0 { 16i32 } else { 0i32 }) | (if f5.0 {
        32i32
    } else {
        0i32
    });
    let lights: [u8; 6] = [f0.1, f1.1, f2.1, f3.1, f4.1, f5.1];
    proof {
        assert(lights@ =~= face_lights(
            blocks@,
            light_map@,
            neighbours@,
            immediate_light@,
            transparent_blocks@,
            x as int,
            z as int,
            y as int,
        ));
    }
    (mask, lights)
}

/// All inputs of one mesh build, as ghost sequences.
pub struct MeshIn {
    pub blocks: Seq<u16>,
    pub light: Seq<u8>,
    pub nb: MeshNbView,
    pub il: ImmLightView,
    pub tex: Seq<u8>,
    pub tb: Seq<u8>,
}

/// The mesh builder's running output: the two vertex buffers and the two
/// cursors (opaque/ice word count, shared with the water face counter).
pub struct MeshOut {
    pub verts: Seq<u32>,
    pub water: Seq<u32>,
    pub vi0: int,
    pub vi1: int,
}

/// Bundle the flat input buffers: the neighbour-block array splits into
/// four chunk-sized quarters and the strip array into four face-sized
/// quarters, each in the order -x, +x, -z, +z.
pub open spec fn mesh_in(
    blocks: Seq<u16>,
    light: Seq<u8>,
    nbf: Seq<u16>,
    ilf: Seq<u8>,
    tex: Seq<u8>,
    tb: Seq<u8>,
) -> MeshIn {
    MeshIn {
        blocks: blocks,
        light: light,
        nb: MeshNbView {
            nx: nbf.subrange(0, 65536),
            px: nbf.subrange(65536, 131072),
            nz: nbf.subrange(131072, 196608),
            pz: nbf.subrange(196608, 262144),
        },
        il: ImmLightView {
            nx: ilf.subrange(0, 4096),
            px: ilf.subrange(4096, 8192),
            nz: ilf.subrange(8192, 12288),
            pz: ilf.subrange(12288, 16384),
        },
        tex: tex,
        tb: tb,
    }
}

/// x coordinate of flat index `i`.
pub open spec fn unf_x(i: int) -> int {
    i % 16
}

/// z coordinate of flat index `i`.
pub open spec fn unf_z(i: int) -> int {
    (i / 16) % 16
}

/// y coordinate of flat index `i`.
pub open spec fn unf_y(i: int) -> int {
    i / 256
}

proof fn lemma_unflatten(i: int)
    requires
        0 <= i < 65536,
    ensures
        0 <= unf_x(i) < 16,
        0 <= unf_z(i) < 16,
        0 <= unf_y(i) < 256,
        vidx(unf_x(i), unf_z(i), unf_y(i)) == i,
{
    vstd::arithmetic::div_mod::lemma_fundamental_div_mod(i, 16);
    vstd::arithmetic::div_mod::lemma_fundamental_div_mod(i / 16, 16);
    vstd::arithmetic::div_mod::lemma_div_denominator(i, 16, 16);
    vstd::arithmetic::div_mod::lemma_mod_bound(i, 16);
    vstd::arithmetic::div_mod::lemma_mod_bound(i / 16, 16);
    vstd::arithmetic::div_mod::lemma_div_pos_is_pos(i, 16);
    vstd::arithmetic::div_mod::lemma_div_pos_is_pos(i / 16, 16);
    assert(i / 16 < 4096) by {
        if i / 16 >= 4096 {
            vstd::arithmetic::mul::lemma_mul_inequality(4096, i / 16, 16);
        }
    }
}

/// The block type above flat index `i`; above the chunk's top sits air.
pub open spec fn above_block(blocks: Seq<u16>, i: int) -> u8 {
    if unf_y(i) < 255 {
        block_type(blocks[i + 256])
    } else {
        AIR
    }
}

/// What the mesh builder does with the voxel at flat index `i`: skip air;
/// count a water face (saturating) when nothing watery covers it; otherwise
/// emit the cube's visible faces into the water/ice buffer for ice and the
/// opaque buffer for everything else, a transparent voxel keeping all six
/// faces lit by its own light.
pub open spec fn mesh_voxel(m: MeshIn, s: MeshOut, i: int) -> MeshOut {
    let x = unf_x(i);
    let z = unf_z(i);
    let y = unf_y(i);
    let b = block_type(m.blocks[i]);
    if b == AIR {
        s
    } else if b == WATER {
        let ab = above_block(m.blocks, i);
        if ab != WATER && ab != ICE {
            MeshOut {
                vi1: if s.vi1 < 0xffff_ffff {
                    s.vi1 + 1
                } else {
                    s.vi1
                },
                ..s
            }
        } else {
            s
        }
    } else {
        let tr = tb_transparent(m.tb, b);
        let mask = if tr {
            63i32
        } else {
            face_mask(m.blocks, m.nb, m.tb, x, z, y)
        };
        let lights = if tr {
            uniform_lights(m.light[i])
        } else {
            face_lights(m.blocks, m.light, m.nb, m.il, m.tb, x, z, y)
        };
        let biome = crate::geom::biome_of(m.blocks[i]);
        if b == ICE {
            MeshOut {
                water: cube_out(s.water, s.vi1, x, y, z, b, mask, biome, lights, m.tex),
                vi1: s.vi1 + cube_n(s.water, s.vi1, x, y, z, b, mask, biome, lights, m.tex),
                ..s
            }
        } else {
            MeshOut {
                verts: cube_out(s.verts, s.vi0, x, y, z, b, mask, biome, lights, m.tex),
                vi0: s.vi0 + cube_n(s.verts, s.vi0, x, y, z, b, mask, biome, lights, m.tex),
                ..s
            }
        }
    }
}

/// The output state after the first `i` voxels.
pub open spec fn mesh_run(m: MeshIn, s0: MeshOut, i: int) -> MeshOut
    decreases i,
{
    if i <= 0 {
        s0
    } else {
        mesh_voxel(m, mesh_run(m, s0, i - 1), i - 1)
    }
}

/// Whole mesh build for one chunk: validate the buffer lengths (a mismatch
/// returns with every output untouched), then walk the voxels in flat-index
/// order and emit their visible faces. The result is pinned exactly: the
/// buffers and cursors afterwards equal the fold of [`mesh_voxel`] over all
/// 65536 voxels from the caller's starting state.
pub fn do_mesh_gen(
    blocks: &mut [u16],
    light_map: &[u8],
    neighbour_blocks: &[u16],
    immediate_neighbour_light_map: &[u8],
    textures: &[u8],
    transparent_blocks: &[u8],
    verts: &mut [u32],
    water_verts: &mut [u32],
    vi: &mut [u32],
)
    ensures
        final(blocks)@ == old(blocks)@,
        final(verts)@.len() == old(verts)@.len(),
        final(water_verts)@.len() == old(water_verts)@.len(),
        final(vi)@.len() == old(vi)@.len(),
        !mesh_valid(
            old(blocks)@.len() as int,
            light_map@.len() as int,
            neighbour_blocks@.len() as int,
            immediate_neighbour_light_map@.len() as int,
            old(verts)@.len() as int,
            old(water_verts)@.len() as int,
            old(vi)@.len() as int,
        ) ==> final(verts)@ == old(verts)@ && final(water_verts)@ == old(water_verts)@
            && final(vi)@ == old(vi)@,
        mesh_valid(
            old(blocks)@.len() as int,
            light_map@.len() as int,
            neighbour_blocks@.len() as int,
            immediate_neighbour_light_map@.len() as int,
            old(verts)@.len() as int,
            old(water_verts)@.len() as int,
            old(vi)@.len() as int,
        ) ==> ({
            let m = mesh_in(
                old(blocks)@,
                light_map@,
                neighbour_blocks@,
                immediate_neighbour_light_map@,
                textures@,
                transparent_blocks@,
            );
            let s = mesh_run(
                m,
                MeshOut {
                    verts: old(verts)@,
                    water: old(water_verts)@,
                    vi0: old(vi)@[0] as int,
                    vi1: old(vi)@[1] as int,
                },
                65536,
            );
            &&& final(verts)@ == s.verts
            &&& final(water_verts)@ == s.water
            &&& final(vi)@[0] as int == s.vi0
            &&& final(vi)@[1] as int == s.vi1
        }),
{
    if verts.len() != ESTIMATED_MAX_VERTS {
        return ;
    }
    if water_verts.len() != ESTIMATED_MAX_VERTS / 6 {
        return ;
    }
    if neighbour_blocks.len() != CHUNK_SIZE * 4 {
        return ;
    }
    if immediate_neighbour_light_map.len() != IMMEDIATE_SIZE * 4 {
        return ;
    }
    if blocks.len() != CHUNK_SIZE {
        return ;
    }
    if light_map.len() != CHUNK_SIZE {
        return ;
    }
    if vi.len() != 2 {
        return ;
    }

    let neighbours = Neighbours {
        nx: &neighbour_blocks[0..16 * 16 * 256],
        px: &neighbour_blocks[16 * 16 * 256..2 * 16 * 16 * 256],
        nz: &neighbour_blocks[2 * 16 * 16 * 256..3 * 16 * 16 * 256],
        pz: &neighbour_blocks[3 * 16 * 16 * 256..4 * 16 * 16 * 256],
    };
    let immediate_light = ImmediateNeighbourLight {
        nx: &immediate_neighbour_light_map[0..16 * 256],
        px: &immediate_neighbour_light_map[16 * 256..2 * 16 * 256],
        nz: &immediate_neighbour_light_map[2 * 16 * 256..3 * 16 * 256],
        pz: &immediate_neighbour_light_map[3 * 16 * 256..4 * 16 * 256],
    };
    let ghost m = mesh_in(
        blocks@,
        light_map@,
        neighbour_blocks@,
        immediate_neighbour_light_map@,
        textures@,
        transparent_blocks@,
    );
    proof {
        assert(neighbours@.nx =~= m.nb.nx);
        assert(neighbours@.px =~= m.nb.px);
        assert(neighbours@.nz =~= m.nb.nz);
        assert(neighbours@.pz =~= m.nb.pz);
        assert(neighbours@ == m.nb);
        assert(immediate_light@.nx =~= m.il.nx);
        assert(immediate_light@.px =~= m.il.px);
        assert(immediate_light@.nz =~= m.il.nz);
        assert(immediate_light@.pz =~= m.il.pz);
        assert(immediate_light@ == m.il);
    }
    let ghost b0 = blocks@;
    let ghost s0 = MeshOut {
        verts: verts@,
        water: water_verts@,
        vi0: vi@[0] as int,
        vi1: vi@[1] as int,
    };

    let mut c0: u32 = vi[0];
    let mut c1: u32 = vi[1];
    let mut i: usize = 0;
    while i < 16 * 16 * 256
        invariant
            blocks@ == b0,
            b0.len() == CHUNK_SIZE,
            light_map@.len() == CHUNK_SIZE,
            neighbours.wf(),
            immediate_light.wf(),
            neighbours@ == m.nb,
            immediate_light@ == m.il,
            m.blocks == b0,
            m.light == light_map@,
            m.tex == textures@,
            m.tb == transparent_blocks@,
            verts@.len() == 786432,
            water_verts@.len() == 131072,
            s0.verts.len() == 786432,
            s0.water.len() == 131072,
            0 <= s0.vi0 <= u32::MAX,
            0 <= s0.vi1 <= u32::MAX,
            i <= 65536,
            ({
                let st = mesh_run(m, s0, i as int);
                &&& verts@ == st.verts
                &&& water_verts@ == st.water
                &&& c0 as int == st.vi0
                &&& c1 as int == st.vi1
            }),
        decreases 65536 - i,
    {
        proof {
            lemma_unflatten(i as int);
        }
        let x = i % 16;
        let z = (i / 16) % 16;
        let y = i / 256;
        let ghost st = mesh_run(m, s0, i as int);

        let data = blocks[i];
        let b = (data & 0xff) as u8;

        if b == AIR {
        } else if b == WATER {
            // The original reads the voxel above without guarding the top
            // layer; above the chunk's ceiling counts as air here.
            let above: u8 = if y < 255 {
                (blocks[i + 256] & 0xff) as u8
            } else {
                AIR
            };
            if above != WATER && above != ICE {
                if c1 < 0xffff_ffff {
                    c1 = c1 + 1;
                }
            }
        } else {
            let tr = is_transp_block(transparent_blocks, b);
            let biome = data >> 8;
            let mask: i32;
            let lights: [u8; 6];
            if tr {
                let own = light_map[i];
                mask = 63;
                lights = [own, own, own, own, own, own];
                proof {
                    assert(lights@ =~= uniform_lights(own));
                }
            } else {
                let r = voxel_faces(
                    blocks,
                    light_map,
                    &neighbours,
                    &immediate_light,
                    transparent_blocks,
                    x,
                    y,
                    z,
                );
                mask = r.0;
                lights = r.1;
            }
            if b == ICE {
                let n = cube(water_verts, c1, x, y, z, b, mask, biome, &lights, textures);
                c1 = c1 + n;
            } else {
                let n = cube(verts, c0, x, y, z, b, mask, biome, &lights, textures);
                c0 = c0 + n;
            }
        }

        proof {
            assert(mesh_run(m, s0, i as int + 1) == mesh_voxel(m, st, i as int));
        }
        i = i + 1;
    }

    vi[0] = c0;
    vi[1] = c1;
}

/// A voxel walled in by opaque neighbours on all six sides has an empty
/// visibility mask, and its cube emits no words at all.
pub proof fn lemma_enclosed_emits_nothing(
    blocks: Seq<u16>,
    nb: MeshNbView,
    tb: Seq<u8>,
    tex: Seq<u8>,
    light: Seq<u8>,
    x: int,
    z: int,
    y: int,
    tex_index: u8,
    biome: u16,
)
    requires
        forall|dir: int| 0 <= dir < 6 ==> !face_visible(blocks, nb, tb, x, z, y, dir),
    ensures
        face_mask(blocks, nb, tb, x, z, y) == 0,
        cube_words(tex, x, y, z, tex_index, 0i32, biome, light).len() == 0,
{
    assert(face_visible(blocks, nb, tb, x, z, y, 0) == false);
    assert(face_visible(blocks, nb, tb, x, z, y, 1) == false);
    assert(face_visible(blocks, nb, tb, x, z, y, 2) == false);
    assert(face_visible(blocks, nb, tb, x, z, y, 3) == false);
    assert(face_visible(blocks, nb, tb, x, z, y, 4) == false);
    assert(face_visible(blocks, nb, tb, x, z, y, 5) == false);
    assert(0i32 | 0i32 == 0i32) by (bit_vector);
    lemma_mask_word_count(tex, x, y, z, tex_index, 0i32, biome, light);
    assert((0i32 >> 0u32) & 1i32 == 0i32) by (bit_vector);
    assert((0i32 >> 1u32) & 1i32 == 0i32) by (bit_vector);
    assert((0i32 >> 2u32) & 1i32 == 0i32) by (bit_vector);
    assert((0i32 >> 3u32) & 1i32 == 0i32) by (bit_vector);
    assert((0i32 >> 4u32) & 1i32 == 0i32) by (bit_vector);
    assert((0i32 >> 5u32) & 1i32 == 0i32) by (bit_vector);
}

/// A cube emits two words for every set bit among the low six of its mask.
pub proof fn lemma_mask_word_count(
    tex: Seq<u8>,
    x: int,
    y: int,
    z: int,
    tex_index: u8,
    mask: i32,
    biome: u16,
    light: Seq<u8>,
)
    ensures
        cube_words(tex, x, y, z, tex_index, mask, biome, light).len() == 2 * ((if mask_bit(
            mask,
            0,
        ) {
            1int
        } else {
            0int
        }) + (if mask_bit(mask, 1) {
            1int
        } else {
            0int
        }) + (if mask_bit(mask, 2) {
            1int
        } else {
            0int
        }) + (if mask_bit(mask, 3) {
            1int
        } else {
            0int
        }) + (if mask_bit(mask, 4) {
            1int
        } else {
            0int
        }) + (if mask_bit(mask, 5) {
            1int
        } else {
            0int
        })),
{
    assert(cube_words_upto(tex, x, y, z, tex_index, mask, biome, light, 0).len() == 0);
    assert(cube_words_upto(tex, x, y, z, tex_index, mask, biome, light, 1)
        == cube_words_upto(tex, x, y, z, tex_index, mask, biome, light, 0) + (if mask_bit(mask, 0) {
        face_pair(tex, x, y, z, tex_index, 0, biome, light)
    } else {
        Seq::empty()
    }));
    assert(cube_words_upto(tex, x, y, z, tex_index, mask, biome, light, 2)
        == cube_words_upto(tex, x, y, z, tex_index, mask, biome, light, 1) + (if mask_bit(mask, 1) {
        face_pair(tex, x, y, z, tex_index, 1, biome, light)
    } else {
        Seq::empty()
    }));
    assert(cube_words_upto(tex, x, y, z, tex_index, mask, biome, light, 3)
        == cube_words_upto(tex, x, y, z, tex_index, mask, biome, light, 2) + (if mask_bit(mask, 2) {
        face_pair(tex, x, y, z, tex_index, 2, biome, light)
    } else {
        Seq::empty()
    }));
    assert(cube_words_upto(tex, x, y, z, tex_index, mask, biome, light, 4)
        == cube_words_upto(tex, x, y, z, tex_index, mask, biome, light, 3) + (if mask_bit(mask, 3) {
        face_pair(tex, x, y, z, tex_index, 3, biome, light)
    } else {
        Seq::empty()
    }));
    assert(cube_words_upto(tex, x, y, z, tex_index, mask, biome, light, 5)
        == cube_words_upto(tex, x, y, z, tex_index, mask, biome, light, 4) + (if mask_bit(mask, 4) {
        face_pair(tex, x, y, z, tex_index, 4, biome, light)
    } else {
        Seq::empty()
    }));
    assert(cube_words_upto(tex, x, y, z, tex_index, mask, biome, light, 6)
        == cube_words_upto(tex, x, y, z, tex_index, mask, biome, light, 5) + (if mask_bit(mask, 5) {
        face_pair(tex, x, y, z, tex_index, 5, biome, light)
    } else {
        Seq::empty()
    }));
}

/// The lengths the mesh entry point demands of its buffers.
pub open spec fn mesh_valid(
    blocks_len: int,
    lm_len: int,
    nb_len: int,
    il_len: int,
    verts_len: int,
    water_len: int,
    vi_len: int,
) -> bool {
    &&& blocks_len == 65536
    &&& lm_len == 65536
    &&& nb_len == 262144
    &&& il_len == 16384
    &&& verts_len == 786432
    &&& water_len == 131072
    &&& vi_len == 2
}

} // verus!

