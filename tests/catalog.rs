use voxel::blocks::{lookup, BlockType, FaceType};

#[test]
fn air_has_no_face_tile() {
    let def = lookup(BlockType::Air);
    assert_eq!(def.block_type, BlockType::Air);
    assert_eq!(def.face, None);
    assert!(BlockType::Air.is_air());
}

#[test]
fn solid_blocks_map_to_their_tiles() {
    assert_eq!(lookup(BlockType::Moss).face, Some(FaceType::Moss));
    assert_eq!(lookup(BlockType::Dirt).face, Some(FaceType::Dirt));
    assert_eq!(lookup(BlockType::Stone).face, Some(FaceType::Stone));
    assert_eq!(lookup(BlockType::Stone).block_type, BlockType::Stone);
    assert!(!BlockType::Dirt.is_air());
}

#[test]
fn face_tiles_index_the_atlas_in_order() {
    assert_eq!(FaceType::Moss.index(), 0);
    assert_eq!(FaceType::Dirt.index(), 1);
    assert_eq!(FaceType::Stone.index(), 2);
}
