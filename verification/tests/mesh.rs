use chunk_renderer::mesh::cube;
use chunk_renderer::mesh_gen;

const N: usize = 16 * 16 * 256;
const VERTS: usize = N * 12;
const WATER: usize = VERTS / 6;

fn idx(x: usize, z: usize, y: usize) -> usize {
    x + z * 16 + y * 256
}

fn pos_word(x: u32, y: u32, z: u32) -> u32 {
    (x << 12) | (y << 4) | z
}

struct Buffers {
    verts: Vec<u32>,
    water: Vec<u32>,
    vi: Vec<u32>,
}

fn run_mesh(
    blocks: &mut Vec<u16>,
    light_map: &[u8],
    textures: &[u8],
    transparent_blocks: &[u8],
) -> Buffers {
    let neighbour_blocks = vec![0u16; N * 4];
    let immediate = vec![0u8; 16 * 256 * 4];
    let mut b = Buffers { verts: vec![0u32; VERTS], water: vec![0u32; WATER], vi: vec![0u32; 2] };
    mesh_gen(
        blocks,
        light_map,
        &neighbour_blocks,
        &immediate,
        textures,
        transparent_blocks,
        &mut b.verts,
        &mut b.water,
        &mut b.vi,
    );
    b
}

/// An isolated opaque voxel in open air emits exactly six faces: twelve
/// words, light then packed geometry, in direction order.
#[test]
fn isolated_voxel_emits_six_faces() {
    let mut blocks = vec![0u16; N];
    blocks[idx(8, 8, 100)] = 1;
    let light_map = vec![0u8; N];
    // air transparent, block 1 opaque
    let tb = [1u8, 0u8];
    // block 1 uses texture 7 on every face
    let mut tex = vec![0u8; 2 * 6];
    for d in 0..6 {
        tex[6 + d] = 7;
    }
    let b = run_mesh(&mut blocks, &light_map, &tex, &tb);

    assert_eq!(b.vi[0], 12);
    assert_eq!(b.vi[1], 0);
    let pos = pos_word(8, 100, 8);
    for dir in 0..6u32 {
        let light_word = b.verts[(dir * 2) as usize];
        let geom_word = b.verts[(dir * 2 + 1) as usize];
        assert_eq!(light_word, 0);
        assert_eq!(geom_word, (7u32 << 19) | (dir << 16) | pos);
    }
    // nothing beyond the cursor was touched
    assert!(b.verts[12..].iter().all(|&w| w == 0));
}

/// A voxel walled in by opaque neighbours on all six sides emits nothing;
/// only the six walls' outward faces appear.
#[test]
fn enclosed_voxel_emits_no_faces() {
    let mut blocks = vec![0u16; N];
    let center = (8usize, 8usize, 100usize);
    blocks[idx(center.0, center.1, center.2)] = 1;
    blocks[idx(9, 8, 100)] = 1;
    blocks[idx(7, 8, 100)] = 1;
    blocks[idx(8, 9, 100)] = 1;
    blocks[idx(8, 7, 100)] = 1;
    blocks[idx(8, 8, 101)] = 1;
    blocks[idx(8, 8, 99)] = 1;
    let light_map = vec![0u8; N];
    let tb = [1u8, 0u8];
    let tex = vec![0u8; 2 * 6];
    let b = run_mesh(&mut blocks, &light_map, &tex, &tb);

    // six walls, five visible faces each (the one facing the centre is
    // culled), the centre contributes none
    assert_eq!(b.vi[0], 60);
    let centre_pos = pos_word(8, 100, 8);
    for f in 0..30 {
        let geom_word = b.verts[f * 2 + 1];
        assert_ne!(geom_word & 0xffff, centre_pos);
    }
}

/// A water voxel with air above counts one water face and writes no
/// geometry; covered water counts nothing.
#[test]
fn water_counts_one_face() {
    let mut blocks = vec![0u16; N];
    blocks[idx(3, 3, 50)] = 4; // water, air above
    blocks[idx(5, 5, 60)] = 4; // water with water above
    blocks[idx(5, 5, 61)] = 4;
    blocks[idx(6, 6, 70)] = 4; // water with ice above
    blocks[idx(6, 6, 71)] = 13;
    blocks[idx(9, 9, 255)] = 4; // water in the top layer: above is open sky
    let light_map = vec![0u8; N];
    // make ice opaque so it emits; block 4 water never reaches the tables
    let mut tb = vec![0u8; 14];
    tb[0] = 1;
    let tex = vec![0u8; 14 * 6];
    let b = run_mesh(&mut blocks, &light_map, &tex, &tb);

    // water faces: (3,3,50) and (5,5,61) (air above both); the ice cube at
    // (6,6,71) then writes five faces (the water below it reads as opaque
    // in this table), ten words; the top-layer water at (9,9,255) counts
    // one more face, the space above the chunk counting as air
    assert_eq!(b.vi[1], 2 + 10 + 1);
    assert_eq!(b.vi[0], 0);
    // the counted faces left their slots untouched
    assert_eq!(b.water[0], 0);
    assert_eq!(b.water[1], 0);
}

/// Ice goes through the same face culling as opaque blocks but lands in the
/// water/ice buffer.
#[test]
fn ice_routes_to_water_buffer() {
    let mut blocks = vec![0u16; N];
    blocks[idx(3, 3, 50)] = 13;
    blocks[idx(3, 3, 51)] = 1; // opaque lid: the +y face is culled
    let light_map = vec![0u8; N];
    let mut tb = vec![0u8; 14];
    tb[0] = 1;
    let mut tex = vec![0u8; 14 * 6];
    for d in 0..6 {
        tex[13 * 6 + d] = 2;
    }
    let b = run_mesh(&mut blocks, &light_map, &tex, &tb);

    // the ice cube: five faces (lid culls +y), into the water buffer
    assert_eq!(b.vi[1], 10);
    let pos = pos_word(3, 50, 3);
    // first pair is direction 1 (-y): direction 0 is culled
    assert_eq!(b.water[1], (2u32 << 19) | (1 << 16) | pos);
    // the lid block itself goes to the opaque buffer, its -y face culled by
    // the ice below it
    assert_eq!(b.vi[0], 10);
}

/// A transparent block keeps all six faces and lights them uniformly from
/// its own light-map entry.
#[test]
fn transparent_voxel_uniform_light() {
    let mut blocks = vec![0u16; N];
    blocks[idx(8, 8, 100)] = 2;
    blocks[idx(8, 8, 101)] = 1; // opaque above: would cull if it were opaque
    let mut light_map = vec![0u8; N];
    light_map[idx(8, 8, 100)] = 5;
    let tb = [1u8, 0u8, 1u8];
    let tex = vec![0u8; 3 * 6];
    let b = run_mesh(&mut blocks, &light_map, &tex, &tb);

    // the transparent voxel still emits all six faces, light 5 each
    let pos = pos_word(8, 100, 8);
    let mut seen = 0;
    for f in 0..(b.vi[0] as usize) / 2 {
        let light_word = b.verts[f * 2];
        let geom_word = b.verts[f * 2 + 1];
        if geom_word & 0xffff == pos {
            assert_eq!(light_word, 5);
            seen += 1;
        }
    }
    assert_eq!(seen, 6);
}

/// The biome byte of the voxel rides along in the geometry word's high bits.
#[test]
fn biome_carried_in_geometry_word() {
    let mut blocks = vec![0u16; N];
    blocks[idx(1, 1, 1)] = (3u16 << 8) | 1;
    let light_map = vec![0u8; N];
    let tb = [1u8, 0u8];
    let tex = vec![0u8; 2 * 6];
    let b = run_mesh(&mut blocks, &light_map, &tex, &tb);
    assert_eq!(b.vi[0], 12);
    assert_eq!(b.verts[1] >> 25, 3);
}

/// An opaque voxel on the -x chunk face reads the facing chunk's mirrored
/// column for culling and the immediate-neighbour strip for light.
#[test]
fn boundary_face_uses_neighbour_strip() {
    let mut blocks = vec![0u16; N];
    blocks[idx(0, 1, 3)] = 1;
    let light_map = vec![0u8; N];
    let neighbour_blocks = vec![0u16; N * 4]; // all air next door
    let mut immediate = vec![0u8; 16 * 256 * 4];
    // -x strip, entry for (z = 1, y = 3)
    immediate[1 + 3 * 256] = 11;
    let tb = [1u8, 0u8];
    let tex = vec![0u8; 2 * 6];
    let mut verts = vec![0u32; VERTS];
    let mut water = vec![0u32; WATER];
    let mut vi = vec![0u32; 2];
    mesh_gen(
        &mut blocks,
        &light_map,
        &neighbour_blocks,
        &immediate,
        &tex,
        &tb,
        &mut verts,
        &mut water,
        &mut vi,
    );
    assert_eq!(vi[0], 12);
    // pairs in direction order; direction 2 is -x, its light word sits at
    // offset 4
    assert_eq!(verts[4], 11);
    assert_eq!(verts[5], (2u32 << 16) | pos_word(0, 3, 1));
    // the other faces see dark air
    assert_eq!(verts[0], 0);
}

/// Wrongly sized buffers leave every output untouched.
#[test]
fn wrong_sizes_leave_mesh_outputs_alone() {
    let mut blocks = vec![1u16; N];
    let light_map = vec![0u8; N];
    let neighbour_blocks = vec![0u16; N * 4];
    let immediate = vec![0u8; 16 * 256 * 4];
    let tb = [1u8, 0u8];
    let tex = vec![0u8; 2 * 6];

    let mut verts = vec![9u32; VERTS - 1]; // wrong
    let mut water = vec![9u32; WATER];
    let mut vi = vec![7u32, 8u32];
    mesh_gen(
        &mut blocks,
        &light_map,
        &neighbour_blocks,
        &immediate,
        &tex,
        &tb,
        &mut verts,
        &mut water,
        &mut vi,
    );
    assert!(verts.iter().all(|&w| w == 9));
    assert!(water.iter().all(|&w| w == 9));
    assert_eq!(vi, vec![7, 8]);

    let mut verts_ok = vec![9u32; VERTS];
    let mut vi_bad = vec![7u32, 8u32, 9u32]; // wrong
    mesh_gen(
        &mut blocks,
        &light_map,
        &neighbour_blocks,
        &immediate,
        &tex,
        &tb,
        &mut verts_ok,
        &mut water,
        &mut vi_bad,
    );
    assert!(verts_ok.iter().all(|&w| w == 9));
    assert_eq!(vi_bad, vec![7, 8, 9]);
}

/// The face-emission routine rejects out-of-range coordinates and a cursor
/// without room for a whole cube.
#[test]
fn cube_rejects_bad_inputs() {
    let mut verts = vec![0u32; 24];
    let light = [1u8, 2, 3, 4, 5, 6];
    let tex = [0u8; 6];
    assert_eq!(cube(&mut verts, 0, 16, 0, 0, 0, 63, 0, &light, &tex), 0);
    assert_eq!(cube(&mut verts, 0, 0, 256, 0, 0, 63, 0, &light, &tex), 0);
    assert_eq!(cube(&mut verts, 0, 0, 0, 16, 0, 63, 0, &light, &tex), 0);
    assert_eq!(cube(&mut verts, 13, 0, 0, 0, 0, 63, 0, &light, &tex), 0);
    assert!(verts.iter().all(|&w| w == 0));

    // two set bits emit two pairs back to back
    let n = cube(&mut verts, 2, 1, 2, 3, 0, 0b100001, 0, &light, &tex);
    assert_eq!(n, 4);
    assert_eq!(verts[2], 1); // light of direction 0
    assert_eq!(verts[3], pos_word(1, 2, 3));
    assert_eq!(verts[4], 6); // light of direction 5
    assert_eq!(verts[5], (5u32 << 16) | pos_word(1, 2, 3));
}
