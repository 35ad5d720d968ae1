//! Per-chunk voxel lighting and meshing for a block-world renderer.
//!
//! A chunk is a fixed 16 x 16 x 256 (x, z, y) voxel grid held in flat arrays,
//! indexed by `x + z*16 + y*256`. The library offers two independent passes:
//!
//! * [`calculate_light`] floods sky light, block light sources and light
//!   bleeding in from the four horizontally adjacent chunks through the
//!   chunk with a breadth-first decay, writing a per-voxel light map.
//! * [`mesh_gen`] walks the grid, culls cube faces hidden by opaque
//!   neighbours (sampling adjacent chunks across the boundary) and packs the
//!   visible faces with their light levels into flat vertex buffers.
//!
//! Both entry points take only flat numeric buffers so a host can call them
//! across a narrow binary boundary; a call with wrongly sized buffers leaves
//! every output untouched.

use vstd::prelude::*;

pub mod geom;
pub mod lighting;
pub mod mesh;

verus! {

/// Flood the chunk's light map from sky exposure, light sources and the
/// four adjacent chunks' light (`neighbours`, 4 x 65536 values in the order
/// -x, +x, -z, +z). Wrongly sized buffers leave the map untouched. Light
/// only ever rises and never past 15; afterwards every seed is absorbed,
/// and a map that is already settled comes back unchanged, so a second run
/// on the same inputs changes nothing.
pub fn calculate_light(
    light_map: &mut [u8],
    blocks: &[u16],
    neighbours: &[u16],
    transparent: &[u16],
    light_sources: &[u16],
)
    ensures
        final(light_map)@.len() == old(light_map)@.len(),
        !lighting::calc_valid(
            old(light_map)@.len() as int,
            blocks@.len() as int,
            neighbours@.len() as int,
        ) ==> final(light_map)@ == old(light_map)@,
        lighting::calc_valid(
            old(light_map)@.len() as int,
            blocks@.len() as int,
            neighbours@.len() as int,
        ) ==> {
            &&& forall|i: int| 0 <= i < 65536 ==> final(light_map)@[i] >= old(light_map)@[i]
            &&& forall|i: int|
                0 <= i < 65536 ==> final(light_map)@[i] == old(light_map)@[i]
                    || final(light_map)@[i] <= 15
            &&& lighting::settled_map(
                blocks@,
                transparent@,
                light_sources@,
                lighting::nb_view(neighbours@),
                final(light_map)@,
            )
            &&& lighting::settled_map(
                blocks@,
                transparent@,
                light_sources@,
                lighting::nb_view(neighbours@),
                old(light_map)@,
            ) ==> final(light_map)@ == old(light_map)@
            &&& lighting::seed_justified(
                blocks@,
                transparent@,
                light_sources@,
                lighting::nb_view(neighbours@),
                old(light_map)@,
                final(light_map)@,
            )
            &&& lighting::decay_closed(
                blocks@,
                transparent@,
                old(light_map)@,
                final(light_map)@,
            )
        },
{
    lighting::do_calculate_light(light_map, blocks, neighbours, transparent, light_sources)
}

/// Build the chunk's mesh: cull hidden faces against the chunk itself and
/// the four adjacent chunks' blocks, light each visible face, and pack the
/// faces into `verts` (solid and transparent blocks) and `water_verts`
/// (ice), with `vi` carrying the two cursors. Wrongly sized buffers leave
/// every output untouched; otherwise the outputs equal the fold of
/// [`mesh::mesh_voxel`] over all voxels in flat-index order.
pub fn mesh_gen(
    blocks: &mut [u16],
    light_map: &[u8],
    neighbour_blocks: &[u16],
    immediate_neighbour_light_map: &[u8],
    textures: &[u8],
    transparent_blocks: &[u8],
    verts: &mut [u32],
    water_verts: &mut [u32],
    vi: &mut [u32],
)
    ensures
        final(blocks)@ == old(blocks)@,
        final(verts)@.len() == old(verts)@.len(),
        final(water_verts)@.len() == old(water_verts)@.len(),
        final(vi)@.len() == old(vi)@.len(),
        !mesh::mesh_valid(
            old(blocks)@.len() as int,
            light_map@.len() as int,
            neighbour_blocks@.len() as int,
            immediate_neighbour_light_map@.len() as int,
            old(verts)@.len() as int,
            old(water_verts)@.len() as int,
            old(vi)@.len() as int,
        ) ==> final(verts)@ == old(verts)@ && final(water_verts)@ == old(water_verts)@
            && final(vi)@ == old(vi)@,
        mesh::mesh_valid(
            old(blocks)@.len() as int,
            light_map@.len() as int,
            neighbour_blocks@.len() as int,
            immediate_neighbour_light_map@.len() as int,
            old(verts)@.len() as int,
            old(water_verts)@.len() as int,
            old(vi)@.len() as int,
        ) ==> ({
            let m = mesh::mesh_in(
                old(blocks)@,
                light_map@,
                neighbour_blocks@,
                immediate_neighbour_light_map@,
                textures@,
                transparent_blocks@,
            );
            let s = mesh::mesh_run(
                m,
                mesh::MeshOut {
                    verts: old(verts)@,
                    water: old(water_verts)@,
                    vi0: old(vi)@[0] as int,
                    vi1: old(vi)@[1] as int,
                },
                65536,
            );
            &&& final(verts)@ == s.verts
            &&& final(water_verts)@ == s.water
            &&& final(vi)@[0] as int == s.vi0
            &&& final(vi)@[1] as int == s.vi1
        }),
{
    mesh::do_mesh_gen(
        blocks,
        light_map,
        neighbour_blocks,
        immediate_neighbour_light_map,
        textures,
        transparent_blocks,
        verts,
        water_verts,
        vi,
    )
}

} // verus!
