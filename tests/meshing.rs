use voxel::blocks::{BlockType, FaceType};
use voxel::chunk::{Chunk, ChunkCoord, CHUNK_SIZE};
use voxel::face::FaceData;

fn origin() -> ChunkCoord {
    ChunkCoord { x: 0, y: 0, z: 0 }
}

fn filled(block: BlockType) -> Chunk {
    let mut c = Chunk::new(origin());
    for x in 0..CHUNK_SIZE {
        for y in 0..CHUNK_SIZE {
            for z in 0..CHUNK_SIZE {
                c.set_block(x, y, z, block);
            }
        }
    }
    c
}

fn offset(d: u32) -> (i32, i32, i32) {
    match d {
        0 => (1, 0, 0),
        1 => (-1, 0, 0),
        2 => (0, 1, 0),
        3 => (0, -1, 0),
        4 => (0, 0, 1),
        _ => (0, 0, -1),
    }
}

fn in_grid(x: i32, y: i32, z: i32) -> bool {
    (0..16).contains(&x) && (0..16).contains(&y) && (0..16).contains(&z)
}

#[test]
fn new_chunk_is_empty() {
    let c = Chunk::new(ChunkCoord { x: 3, y: -2, z: 7 });
    assert_eq!(c.pos, ChunkCoord { x: 3, y: -2, z: 7 });
    assert_eq!(c.blocks.len(), 4096);
    assert!(c.blocks.iter().all(|b| *b == BlockType::Air));
    assert!(c.faces.is_empty());
}

#[test]
fn all_air_chunk_has_no_faces() {
    let mut c = Chunk::new(origin());
    Chunk::mesh(&mut c);
    assert!(c.faces.is_empty());
}

#[test]
fn single_block_shows_six_faces() {
    let mut c = Chunk::new(origin());
    c.set_block(4, 5, 6, BlockType::Dirt);
    Chunk::mesh(&mut c);
    let faces: Vec<(u32, u32, u32, u32, u32)> = c.faces.iter().map(|f| f.unpack()).collect();
    let expected: Vec<(u32, u32, u32, u32, u32)> = (0..6).map(|d| (4, 5, 6, d, FaceType::Dirt.index())).collect();
    assert_eq!(faces, expected);
}

#[test]
fn records_use_the_voxel_position_and_tile() {
    let mut c = Chunk::new(origin());
    c.set_block(15, 0, 2, BlockType::Stone);
    Chunk::mesh(&mut c);
    assert_eq!(c.faces.len(), 6);
    assert_eq!(c.faces[0].data(), FaceData::pack(15, 0, 2, 0, FaceType::Stone).data());
    assert_eq!(c.faces[5].data(), FaceData::pack(15, 0, 2, 5, FaceType::Stone).data());
}

#[test]
fn touching_blocks_hide_their_shared_faces() {
    let mut c = Chunk::new(origin());
    c.set_block(2, 2, 2, BlockType::Moss);
    c.set_block(3, 2, 2, BlockType::Moss);
    Chunk::mesh(&mut c);
    assert_eq!(c.faces.len(), 10);
    let first = c.faces.iter().filter(|f| f.unpack().0 == 2).count();
    assert_eq!(first, 5);
    assert!(c.faces.iter().all(|f| !(f.unpack().0 == 2 && f.unpack().3 == 0)));
    assert!(c.faces.iter().all(|f| !(f.unpack().0 == 3 && f.unpack().3 == 1)));
}

#[test]
fn full_chunk_without_neighbors_shows_only_its_surface() {
    let mut c = filled(BlockType::Stone);
    Chunk::mesh(&mut c);
    assert_eq!(c.faces.len(), 6 * CHUNK_SIZE * CHUNK_SIZE);
    assert_eq!(c.faces.len(), 1536);
}

#[test]
fn solid_neighbor_hides_the_shared_side() {
    let mut c = filled(BlockType::Stone);
    let other = filled(BlockType::Dirt);
    let sides = [Some(&other.blocks), None, None, None, None, None];
    Chunk::mesh_with_neighbors(&mut c, &sides);
    assert_eq!(c.faces.len(), 1536 - 256);
    assert!(c.faces.iter().all(|f| f.unpack().3 != 0));
}

#[test]
fn air_neighbor_keeps_the_shared_side() {
    let mut c = filled(BlockType::Stone);
    let other = Chunk::new(ChunkCoord { x: 0, y: 1, z: 0 });
    let sides = [None, None, Some(&other.blocks), None, None, None];
    Chunk::mesh_with_neighbors(&mut c, &sides);
    assert_eq!(c.faces.len(), 1536);
}

#[test]
fn set_block_clears_stale_faces() {
    let mut c = filled(BlockType::Stone);
    Chunk::mesh(&mut c);
    assert!(!c.faces.is_empty());
    c.set_block(0, 0, 0, BlockType::Air);
    assert!(c.faces.is_empty());
    assert_eq!(c.get_block(0, 0, 0), BlockType::Air);
    assert_eq!(c.get_block(1, 0, 0), BlockType::Stone);
}

#[test]
fn every_face_is_on_a_solid_voxel_next_to_open_space() {
    let mut c = Chunk::new(origin());
    Chunk::generate(&mut c);
    Chunk::mesh(&mut c);
    assert!(!c.faces.is_empty());
    for f in &c.faces {
        let (x, y, z, d, id) = f.unpack();
        let b = c.get_block(x as usize, y as usize, z as usize);
        assert_ne!(b, BlockType::Air);
        assert_eq!(id, FaceType::Moss.index());
        let (dx, dy, dz) = offset(d);
        let (nx, ny, nz) = (x as i32 + dx, y as i32 + dy, z as i32 + dz);
        if in_grid(nx, ny, nz) {
            assert_eq!(c.get_block(nx as usize, ny as usize, nz as usize), BlockType::Air);
        }
    }
}

#[test]
fn generation_fills_a_ball_around_the_world_origin() {
    let mut c = Chunk::new(origin());
    Chunk::generate(&mut c);
    assert_eq!(c.get_block(0, 0, 0), BlockType::Moss);
    assert_eq!(c.get_block(7, 0, 0), BlockType::Moss);
    assert_eq!(c.get_block(8, 0, 0), BlockType::Air);
    assert_eq!(c.get_block(4, 4, 4), BlockType::Moss);
    assert_eq!(c.get_block(5, 5, 5), BlockType::Air);
    let mut far = Chunk::new(ChunkCoord { x: 2, y: 0, z: 0 });
    Chunk::generate(&mut far);
    assert!(far.blocks.iter().all(|b| *b == BlockType::Air));
    let mut below = Chunk::new(ChunkCoord { x: -1, y: -1, z: -1 });
    Chunk::generate(&mut below);
    assert_eq!(below.get_block(15, 15, 15), BlockType::Moss);
    assert_eq!(below.get_block(0, 0, 0), BlockType::Air);
}

#[test]
fn meshing_is_deterministic() {
    let mut a = Chunk::new(origin());
    Chunk::generate(&mut a);
    Chunk::mesh(&mut a);
    let first: Vec<u32> = a.faces.iter().map(|f| f.data()).collect();
    Chunk::mesh(&mut a);
    let second: Vec<u32> = a.faces.iter().map(|f| f.data()).collect();
    assert_eq!(first, second);
}
