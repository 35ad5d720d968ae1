use chunk_renderer::calculate_light;
use chunk_renderer::geom::contains_u16;
use chunk_renderer::lighting::{bfs_light, seed_lights, LightQueue, Neighbours};
use std::collections::VecDeque;

const N: usize = 16 * 16 * 256;

fn idx(x: usize, z: usize, y: usize) -> usize {
    x + z * 16 + y * 256
}

#[test]
fn contains_finds_member() {
    assert!(contains_u16(&[3, 9, 27], 9));
    assert!(!contains_u16(&[3, 9, 27], 4));
    assert!(!contains_u16(&[], 0));
}

/// A single opaque block under open sky: sky light 14 above it, light bent
/// around it at 13 below, nothing through it.
#[test]
fn sky_light_floods_open_chunk() {
    let mut blocks = vec![0u16; N];
    blocks[idx(5, 5, 10)] = 1;
    let mut light_map = vec![0u8; N];
    let neighbours = vec![0u16; N * 4];
    let transparent = [0u16];
    let sources: [u16; 0] = [];
    calculate_light(&mut light_map, &blocks, &neighbours, &transparent, &sources);

    assert_eq!(light_map[idx(5, 5, 11)], 14);
    assert_eq!(light_map[idx(0, 0, 255)], 14);
    // the opaque voxel itself is never written
    assert_eq!(light_map[idx(5, 5, 10)], 0);
    // under the block, light comes around from the side one level darker
    assert_eq!(light_map[idx(5, 5, 9)], 13);
    assert_eq!(light_map[idx(5, 5, 0)], 13);
    // everything is within 0..=15
    assert!(light_map.iter().all(|&l| l <= 15));
}

/// The topmost opaque voxel of an open column is enqueued at 15, not 14.
#[test]
fn top_opaque_voxel_seeded_at_fifteen() {
    let mut blocks = vec![0u16; N];
    blocks[idx(7, 3, 42)] = 1;
    let neighbours_data = vec![0u16; N];
    let nb = Neighbours {
        nx: &neighbours_data,
        px: &neighbours_data,
        nz: &neighbours_data,
        pz: &neighbours_data,
    };
    let transparent = [0u16];
    let sources: [u16; 0] = [];
    let queue = seed_lights(&blocks, &nb, &transparent, &sources);
    let hit = queue
        .iter()
        .any(|e| e.x == 7 && e.z == 3 && e.y == 42 && e.light == 15);
    assert!(hit);
    // and it is not seeded at 14: only transparent sky voxels get 14
    let at_14 = queue
        .iter()
        .any(|e| e.x == 7 && e.z == 3 && e.y == 42 && e.light == 14);
    assert!(!at_14);
}

/// A fully opaque chunk with dark neighbours keeps an all-zero light map.
#[test]
fn opaque_chunk_stays_dark() {
    let blocks = vec![1u16; N];
    let mut light_map = vec![0u8; N];
    let neighbours = vec![0u16; N * 4];
    let transparent = [0u16];
    let sources: [u16; 0] = [];
    calculate_light(&mut light_map, &blocks, &neighbours, &transparent, &sources);
    assert!(light_map.iter().all(|&l| l == 0));
}

/// Running the propagation twice on the same inputs changes nothing the
/// second time.
#[test]
fn light_propagation_idempotent() {
    let mut blocks = vec![0u16; N];
    blocks[idx(5, 5, 10)] = 1;
    blocks[idx(2, 9, 200)] = 7;
    let mut neighbours = vec![0u16; N * 4];
    neighbours[15 + 5 * 16 + 3 * 256] = 12;
    let transparent = [0u16, 7u16];
    let sources = [7u16];

    let mut first = vec![0u8; N];
    calculate_light(&mut first, &blocks, &neighbours, &transparent, &sources);
    let mut second = first.clone();
    calculate_light(&mut second, &blocks, &neighbours, &transparent, &sources);
    assert_eq!(first, second);
}

/// Propagation never lowers a value already in the map.
#[test]
fn light_only_rises() {
    let mut blocks = vec![0u16; N];
    blocks[idx(5, 5, 10)] = 1;
    let mut light_map = vec![9u8; N];
    let neighbours = vec![0u16; N * 4];
    let transparent = [0u16];
    let sources: [u16; 0] = [];
    calculate_light(&mut light_map, &blocks, &neighbours, &transparent, &sources);
    assert!(light_map.iter().all(|&l| l >= 9 && l <= 15));
    assert_eq!(light_map[idx(5, 5, 11)], 14);
    // the opaque voxel keeps its prior value instead of being zeroed
    assert_eq!(light_map[idx(5, 5, 10)], 9);
}

/// A light source lights its surroundings with decay 1 per step even under
/// cover.
#[test]
fn light_source_radiates() {
    // solid chunk, one glowing block in a small cavity
    let mut blocks = vec![1u16; N];
    blocks[idx(8, 8, 100)] = 7; // the source, transparent
    blocks[idx(8, 8, 101)] = 0; // air pocket above it
    let mut light_map = vec![0u8; N];
    let neighbours = vec![0u16; N * 4];
    let transparent = [0u16, 7u16];
    let sources = [7u16];
    calculate_light(&mut light_map, &blocks, &neighbours, &transparent, &sources);
    assert_eq!(light_map[idx(8, 8, 100)], 15);
    assert_eq!(light_map[idx(8, 8, 101)], 14);
    assert_eq!(light_map[idx(8, 8, 102)], 0); // walled off
}

/// Light bleeds across a chunk face one level darker than the neighbour's
/// column, through the mirrored index of the facing chunk.
#[test]
fn boundary_light_bleeds_in() {
    let mut blocks = vec![1u16; N];
    blocks[idx(0, 5, 10)] = 0; // one covered air voxel on the -x face
    let mut neighbours = vec![0u16; N * 4];
    // -x neighbour, mirrored column x = 15, same z and y
    neighbours[15 + 5 * 16 + 10 * 256] = 10;
    let mut light_map = vec![0u8; N];
    let transparent = [0u16];
    let sources: [u16; 0] = [];
    calculate_light(&mut light_map, &blocks, &neighbours, &transparent, &sources);
    assert_eq!(light_map[idx(0, 5, 10)], 9);
    assert_eq!(light_map[idx(1, 5, 10)], 0); // opaque wall right behind
}

/// A neighbour-light value beyond 15 is clamped to the maximum level, so
/// the seeded light is 14 and the map stays within 0..=15.
#[test]
fn boundary_light_clamped() {
    let mut blocks = vec![1u16; N];
    blocks[idx(0, 5, 10)] = 0;
    let mut neighbours = vec![0u16; N * 4];
    neighbours[15 + 5 * 16 + 10 * 256] = 60000;
    let mut light_map = vec![0u8; N];
    let transparent = [0u16];
    let sources: [u16; 0] = [];
    calculate_light(&mut light_map, &blocks, &neighbours, &transparent, &sources);
    assert_eq!(light_map[idx(0, 5, 10)], 14);
    assert!(light_map.iter().all(|&l| l <= 15));
}

/// Wrongly sized buffers leave the light map untouched.
#[test]
fn wrong_sizes_leave_light_map_alone() {
    let transparent = [0u16];
    let sources: [u16; 0] = [];

    let mut short_map = vec![3u8; 100];
    let blocks = vec![0u16; N];
    let neighbours = vec![0u16; N * 4];
    calculate_light(&mut short_map, &blocks, &neighbours, &transparent, &sources);
    assert!(short_map.iter().all(|&l| l == 3));

    let mut light_map = vec![3u8; N];
    let short_blocks = vec![0u16; N - 1];
    calculate_light(&mut light_map, &short_blocks, &neighbours, &transparent, &sources);
    assert!(light_map.iter().all(|&l| l == 3));

    let short_neighbours = vec![0u16; N];
    calculate_light(&mut light_map, &blocks, &short_neighbours, &transparent, &sources);
    assert!(light_map.iter().all(|&l| l == 3));
}

/// The decay pass alone: a single bright entry spreads shell by shell and
/// rejects out-of-range or opaque targets.
#[test]
fn bfs_decays_shell_by_shell() {
    let blocks = vec![0u16; N];
    let mut light_map = vec![0u8; N];
    let transparent = [0u16];
    let mut queue: VecDeque<LightQueue> = VecDeque::new();
    queue.push_back(LightQueue { x: 8, y: 100, z: 8, light: 5 });
    queue.push_back(LightQueue { x: -1, y: 0, z: 0, light: 15 }); // rejected
    bfs_light(&mut light_map, &blocks, queue, &transparent);
    assert_eq!(light_map[idx(8, 8, 100)], 5);
    assert_eq!(light_map[idx(9, 8, 100)], 4);
    assert_eq!(light_map[idx(8, 8, 101)], 4);
    assert_eq!(light_map[idx(10, 8, 100)], 3);
    assert_eq!(light_map[idx(12, 8, 100)], 1);
    assert_eq!(light_map[idx(13, 8, 100)], 0);
    assert_eq!(light_map[idx(0, 0, 0)], 0);
}
