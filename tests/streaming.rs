use voxel::chunk::ChunkCoord;
use voxel::world::{to_chunk_coords, World, WorldPos};

fn at(x: i32, y: i32, z: i32) -> WorldPos {
    WorldPos { x, y, z }
}

fn coord(x: i32, y: i32, z: i32) -> ChunkCoord {
    ChunkCoord { x, y, z }
}

fn face_words(w: &World, c: ChunkCoord) -> Vec<u32> {
    w.get_chunk(c).unwrap().faces.iter().map(|f| f.data()).collect()
}

#[test]
fn chunk_coords_floor_toward_negative_infinity() {
    assert_eq!(to_chunk_coords(&at(-1, 0, 15)), coord(-1, 0, 0));
    assert_eq!(to_chunk_coords(&at(16, -16, -17)), coord(1, -1, -2));
    assert_eq!(to_chunk_coords(&at(31, 32, -32)), coord(1, 2, -2));
    assert_eq!(to_chunk_coords(&at(i32::MIN, i32::MAX, 0)), coord(-134217728, 134217727, 0));
}

#[test]
fn chunk_coords_name_the_owning_chunk() {
    for v in -40..40i32 {
        let c = to_chunk_coords(&at(v, v, v));
        assert!(16 * c.x <= v && v < 16 * c.x + 16);
    }
}

#[test]
fn new_world_loads_the_cube_around_the_viewer() {
    let w = World::new(1, at(0, 0, 0));
    assert_eq!(w.chunk_count(), 27);
    assert_eq!(w.render_distance(), 1);
    assert_eq!(w.center(), coord(0, 0, 0));
    for x in -1..=1 {
        for y in -1..=1 {
            for z in -1..=1 {
                assert!(w.get_chunk(coord(x, y, z)).is_some());
            }
        }
    }
    assert!(w.get_chunk(coord(2, 0, 0)).is_none());
    assert_eq!(w.chunks().len(), 27);
}

#[test]
fn zero_render_distance_keeps_only_the_viewer_chunk() {
    let w = World::new(0, at(-5, 20, 3));
    assert_eq!(w.chunk_count(), 1);
    assert_eq!(w.center(), coord(-1, 1, 0));
    assert!(w.get_chunk(coord(-1, 1, 0)).is_some());
}

#[test]
fn ensure_loaded_twice_changes_nothing() {
    let mut w = World::new(0, at(0, 0, 0));
    w.ensure_loaded(coord(-1, 0, 0));
    let count = w.chunk_count();
    let faces = face_words(&w, coord(-1, 0, 0));
    let home = face_words(&w, coord(0, 0, 0));
    w.ensure_loaded(coord(-1, 0, 0));
    assert_eq!(w.chunk_count(), count);
    assert_eq!(w.chunk_count(), 2);
    assert_eq!(face_words(&w, coord(-1, 0, 0)), faces);
    assert_eq!(face_words(&w, coord(0, 0, 0)), home);
}

#[test]
fn moving_away_evicts_distant_chunks() {
    let mut w = World::new(1, at(0, 0, 0));
    assert!(w.get_chunk(coord(-1, 0, 0)).is_some());
    w.update(at(48, 0, 0));
    assert_eq!(w.center(), coord(3, 0, 0));
    assert!(w.get_chunk(coord(-1, 0, 0)).is_none());
    assert!(w.get_chunk(coord(0, 0, 0)).is_none());
    assert!(w.get_chunk(coord(1, 0, 0)).is_none());
    assert!(w.get_chunk(coord(2, 0, 0)).is_some());
    assert!(w.get_chunk(coord(4, 1, -1)).is_some());
    assert_eq!(w.chunk_count(), 27);
    w.update(at(48, 0, 0));
    assert!(w.get_chunk(coord(-1, 0, 0)).is_none());
    assert_eq!(w.chunk_count(), 27);
}

#[test]
fn update_drops_chunks_loaded_outside_the_region() {
    let mut w = World::new(0, at(0, 0, 0));
    w.ensure_loaded(coord(5, 5, 5));
    assert_eq!(w.chunk_count(), 2);
    w.update(at(1, 1, 1));
    assert_eq!(w.chunk_count(), 1);
    assert!(w.get_chunk(coord(5, 5, 5)).is_none());
}

#[test]
fn loading_a_neighbor_culls_the_shared_boundary() {
    let mut w = World::new(0, at(0, 0, 0));
    let alone = face_words(&w, coord(0, 0, 0));
    w.ensure_loaded(coord(-1, 0, 0));
    let joined = face_words(&w, coord(0, 0, 0));
    assert!(joined.len() < alone.len());
    // The faces toward -X at the chunk's x = 0 layer are now covered.
    let alone_west = alone.iter().filter(|d| (*d >> 28) == 0 && ((*d >> 12) & 0xFF) == 1).count();
    let joined_west = joined.iter().filter(|d| (*d >> 28) == 0 && ((*d >> 12) & 0xFF) == 1).count();
    assert!(alone_west > 0);
    assert_eq!(joined_west, 0);
    assert_eq!(alone.len() - joined.len(), alone_west);
}

#[test]
fn unloading_a_neighbor_reopens_the_boundary() {
    let mut w = World::new(1, at(0, 0, 0));
    let inner = face_words(&w, coord(0, 0, 0));
    w.world_resize(0);
    assert_eq!(w.chunk_count(), 1);
    assert_eq!(w.render_distance(), 0);
    let alone = face_words(&w, coord(0, 0, 0));
    assert!(alone.len() > inner.len());
    let fresh = World::new(0, at(0, 0, 0));
    assert_eq!(face_words(&fresh, coord(0, 0, 0)), alone);
}

#[test]
fn resize_grows_the_region() {
    let mut w = World::new(0, at(0, 0, 0));
    w.world_resize(2);
    assert_eq!(w.chunk_count(), 125);
    assert!(w.get_chunk(coord(2, -2, 2)).is_some());
}

#[test]
fn resident_meshes_match_a_fresh_world() {
    let mut w = World::new(1, at(-20, 0, 0));
    w.update(at(0, 0, 0));
    let fresh = World::new(1, at(0, 0, 0));
    for x in -1..=1 {
        for y in -1..=1 {
            for z in -1..=1 {
                assert_eq!(face_words(&w, coord(x, y, z)), face_words(&fresh, coord(x, y, z)));
            }
        }
    }
}
