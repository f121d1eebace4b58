//! The closed set of block kinds and the catalog that maps each to the
//! texture tile its exposed faces are drawn with.
use vstd::prelude::*;

verus! {

/// A square tile of the texture atlas; its index is the face identifier that
/// a packed face record carries.
#[derive(Clone, Copy, PartialEq, Eq, Structural, Debug, Hash)]
pub enum FaceType {
    Moss,
    Dirt,
    Stone,
}

impl FaceType {
    pub open spec fn spec_index(self) -> u32 {
        match self {
            FaceType::Moss => 0,
            FaceType::Dirt => 1,
            FaceType::Stone => 2,
        }
    }

    /// Position of this tile in the texture atlas.
    #[verifier::when_used_as_spec(spec_index)]
    pub fn index(self) -> (r: u32)
        ensures
            r == self.spec_index(),
    {
        match self {
            FaceType::Moss => 0,
            FaceType::Dirt => 1,
            FaceType::Stone => 2,
        }
    }
}

/// What occupies one voxel. `Air` is empty and never drawn.
#[derive(Clone, Copy, PartialEq, Eq, Structural, Debug, Hash)]
pub enum BlockType {
    Air,
    Moss,
    Dirt,
    Stone,
}

impl BlockType {
    pub open spec fn spec_is_air(self) -> bool {
        self is Air
    }

    /// True for the empty block.
    #[verifier::when_used_as_spec(spec_is_air)]
    pub fn is_air(self) -> (r: bool)
        ensures
            r == self.spec_is_air(),
    {
        match self {
            BlockType::Air => true,
            _ => false,
        }
    }
}

/// Catalog entry: the face tile drawn for a block kind, `None` for `Air`.
#[derive(Clone, Copy, PartialEq, Eq, Structural, Debug)]
pub struct Block {
    pub block_type: BlockType,
    pub face: Option<FaceType>,
}

/// The tile drawn on every exposed face of a block kind.
pub open spec fn face_of(b: BlockType) -> Option<FaceType> {
    match b {
        BlockType::Air => None,
        BlockType::Moss => Some(FaceType::Moss),
        BlockType::Dirt => Some(FaceType::Dirt),
        BlockType::Stone => Some(FaceType::Stone),
    }
}

/// Face identifier written into the face records of a block kind (0 for `Air`,
/// which never has one).
pub open spec fn face_id_of(b: BlockType) -> u32 {
    match face_of(b) {
        Some(f) => f.spec_index(),
        None => 0,
    }
}

/// Catalog lookup; total over the block kinds.
pub fn lookup(block_type: BlockType) -> (r: Block)
    ensures
        r.block_type == block_type,
        r.face == face_of(block_type),
{
    let face = match block_type {
        BlockType::Air => None,
        BlockType::Moss => Some(FaceType::Moss),
        BlockType::Dirt => Some(FaceType::Dirt),
        BlockType::Stone => Some(FaceType::Stone),
    };
    Block { block_type, face }
}

} // verus!
