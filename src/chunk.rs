//! Chunks: a 16×16×16 block grid at one chunk coordinate, its generation, and
//! the mesher that turns the grid into the list of visible faces.
use vstd::prelude::*;
use crate::blocks::{BlockType, FaceType, face_id_of, lookup};
use crate::face::{FaceData, pack_bits, field_x, field_y, field_z, field_normal, field_face_id,
    lemma_pack_round_trip};

verus! {

/// Edge length of a chunk, in voxels.
pub const CHUNK_SIZE: usize = 16;

/// Number of voxels in a chunk.
pub const CHUNK_VOLUME: usize = 4096;

/// Position of a chunk on the chunk grid (one unit is `CHUNK_SIZE` voxels).
#[derive(Clone, Copy, PartialEq, Eq, Structural, Debug, Hash)]
pub struct ChunkCoord {
    pub x: i32,
    pub y: i32,
    pub z: i32,
}

/// Place of voxel `(x, y, z)` in the flat block buffer.
pub open spec fn voxel_index(x: int, y: int, z: int) -> int {
    256 * x + 16 * y + z
}

pub open spec fn in_grid(x: int, y: int, z: int) -> bool {
    0 <= x < 16 && 0 <= y < 16 && 0 <= z < 16
}

/// The block at local position `(x, y, z)` of a grid.
pub open spec fn voxel(blocks: Seq<BlockType>, x: int, y: int, z: int) -> BlockType {
    blocks[voxel_index(x, y, z)]
}

/// Block kind produced by the default generator at local position `(x, y, z)`
/// of chunk `p`: a ball of moss of radius 8 around the world origin.
pub open spec fn generated_block(p: ChunkCoord, x: int, y: int, z: int) -> BlockType {
    let wx = p.x * 16 + x;
    let wy = p.y * 16 + y;
    let wz = p.z * 16 + z;
    if wx * wx + wy * wy + wz * wz < 64 {
        BlockType::Moss
    } else {
        BlockType::Air
    }
}

/// The whole grid that generation gives chunk `p`.
pub open spec fn generated_blocks(p: ChunkCoord) -> Seq<BlockType> {
    Seq::new(4096, |i: int| generated_block(p, i / 256, (i / 16) % 16, i % 16))
}

proof fn lemma_voxel_index_decode(x: int, y: int, z: int)
    requires
        in_grid(x, y, z),
    ensures
        voxel_index(x, y, z) / 256 == x,
        (voxel_index(x, y, z) / 16) % 16 == y,
        voxel_index(x, y, z) % 16 == z,
        0 <= voxel_index(x, y, z) < 4096,
{
    assert(voxel_index(x, y, z) / 256 == x && (voxel_index(x, y, z) / 16) % 16 == y
        && voxel_index(x, y, z) % 16 == z) by (nonlinear_arith)
        requires
            in_grid(x, y, z),
    ;
}

proof fn lemma_square_at_least(w: int)
    requires
        w <= -8 || w >= 8,
    ensures
        w * w >= 64,
{
    assert(w * w >= 64) by (nonlinear_arith)
        requires
            w <= -8 || w >= 8,
    ;
}

/// Runs the default generator for one voxel.
fn generate_block(p: ChunkCoord, x: usize, y: usize, z: usize) -> (r: BlockType)
    requires
        in_grid(x as int, y as int, z as int),
    ensures
        r == generated_block(p, x as int, y as int, z as int),
{
    let wx: i64 = p.x as i64 * 16 + x as i64;
    let wy: i64 = p.y as i64 * 16 + y as i64;
    let wz: i64 = p.z as i64 * 16 + z as i64;
    if -8 < wx && wx < 8 && -8 < wy && wy < 8 && -8 < wz && wz < 8 {
        assert(0 <= wx * wx < 64 && 0 <= wy * wy < 64 && 0 <= wz * wz < 64) by (nonlinear_arith)
            requires
                -8 < wx < 8,
                -8 < wy < 8,
                -8 < wz < 8,
        ;
        if wx * wx + wy * wy + wz * wz < 64 {
            BlockType::Moss
        } else {
            BlockType::Air
        }
    } else {
        proof {
            assert(wx * wx >= 0 && wy * wy >= 0 && wz * wz >= 0) by (nonlinear_arith);
            if wx <= -8 || wx >= 8 {
                lemma_square_at_least(wx as int);
            } else if wy <= -8 || wy >= 8 {
                lemma_square_at_least(wy as int);
            } else {
                lemma_square_at_least(wz as int);
            }
        }
        BlockType::Air
    }
}

/// Offset of face direction `d` along each axis
/// (0 +X, 1 -X, 2 +Y, 3 -Y, 4 +Z, 5 -Z).
pub open spec fn dir_dx(d: int) -> int {
    if d == 0 { 1 } else if d == 1 { -1 } else { 0 }
}

pub open spec fn dir_dy(d: int) -> int {
    if d == 2 { 1 } else if d == 3 { -1 } else { 0 }
}

pub open spec fn dir_dz(d: int) -> int {
    if d == 4 { 1 } else if d == 5 { -1 } else { 0 }
}

/// A coordinate one step outside `[0, 16)` brought back into the
/// neighbouring chunk's grid.
pub open spec fn wrap(c: int) -> int {
    if c < 0 { c + 16 } else if c >= 16 { c - 16 } else { c }
}

/// Whether the face of voxel `(x, y, z)` in direction `d` looks onto open
/// space: an air voxel of the same chunk, a side with no loaded chunk
/// (`sides[d]` is `None`), or an air voxel of the neighbour on that side.
pub open spec fn face_open(
    blocks: Seq<BlockType>,
    sides: Seq<Option<Seq<BlockType>>>,
    x: int,
    y: int,
    z: int,
    d: int,
) -> bool {
    let nx = x + dir_dx(d);
    let ny = y + dir_dy(d);
    let nz = z + dir_dz(d);
    if in_grid(nx, ny, nz) {
        voxel(blocks, nx, ny, nz) is Air
    } else {
        match sides[d] {
            None => true,
            Some(nb) => voxel(nb, wrap(nx), wrap(ny), wrap(nz)) is Air,
        }
    }
}

/// A face is drawn when its voxel is solid and it looks onto open space.
pub open spec fn face_visible(
    blocks: Seq<BlockType>,
    sides: Seq<Option<Seq<BlockType>>>,
    x: int,
    y: int,
    z: int,
    d: int,
) -> bool {
    !(voxel(blocks, x, y, z) is Air) && face_open(blocks, sides, x, y, z, d)
}

/// Meshing visits the slots `(x, y, z, d)` in the order of
/// `n = 1536 * x + 96 * y + 6 * z + d`; these recover the parts of slot `n`.
pub open spec fn slot_x(n: int) -> int {
    n / 1536
}

pub open spec fn slot_y(n: int) -> int {
    (n / 96) % 16
}

pub open spec fn slot_z(n: int) -> int {
    (n / 6) % 16
}

pub open spec fn slot_dir(n: int) -> int {
    n % 6
}

pub open spec fn slot_visible(blocks: Seq<BlockType>, sides: Seq<Option<Seq<BlockType>>>, n: int) -> bool {
    face_visible(blocks, sides, slot_x(n), slot_y(n), slot_z(n), slot_dir(n))
}

/// The record of slot `n`: its voxel, its direction and its voxel's face tile.
pub open spec fn slot_record(blocks: Seq<BlockType>, n: int) -> u32 {
    pack_bits(
        slot_x(n) as u32,
        slot_y(n) as u32,
        slot_z(n) as u32,
        slot_dir(n) as u32,
        face_id_of(voxel(blocks, slot_x(n), slot_y(n), slot_z(n))),
    )
}

/// The records of the visible faces among the first `n` slots, in slot order.
pub open spec fn faces_upto(blocks: Seq<BlockType>, sides: Seq<Option<Seq<BlockType>>>, n: nat) -> Seq<u32>
    decreases n,
{
    if n == 0 {
        Seq::empty()
    } else {
        let prev = faces_upto(blocks, sides, (n - 1) as nat);
        if slot_visible(blocks, sides, n - 1) {
            prev.push(slot_record(blocks, n - 1))
        } else {
            prev
        }
    }
}

/// The face records of a grid whose neighbours are `sides`.
pub open spec fn mesh_of(blocks: Seq<BlockType>, sides: Seq<Option<Seq<BlockType>>>) -> Seq<u32> {
    faces_upto(blocks, sides, 24576)
}

/// No neighbour loaded on any side.
pub open spec fn no_sides() -> Seq<Option<Seq<BlockType>>> {
    Seq::new(6, |d: int| None)
}

/// The grids of borrowed neighbours, by direction.
pub open spec fn sides_view(sides: Seq<Option<&Vec<BlockType>>>) -> Seq<Option<Seq<BlockType>>> {
    sides.map_values(|o: Option<&Vec<BlockType>>|
        match o {
            Some(v) => Some(v@),
            None => None,
        })
}

/// Neighbours given for meshing each hold a full grid.
pub open spec fn sides_wf(sides: Seq<Option<&Vec<BlockType>>>) -> bool {
    &&& sides.len() == 6
    &&& forall|d: int| 0 <= d < 6 ==> match #[trigger] sides[d] {
        Some(v) => v@.len() == 4096,
        None => true,
    }
}

proof fn lemma_slot_decode(x: int, y: int, z: int, d: int)
    requires
        in_grid(x, y, z),
        0 <= d < 6,
    ensures
        slot_x(1536 * x + 96 * y + 6 * z + d) == x,
        slot_y(1536 * x + 96 * y + 6 * z + d) == y,
        slot_z(1536 * x + 96 * y + 6 * z + d) == z,
        slot_dir(1536 * x + 96 * y + 6 * z + d) == d,
{
    let n = 1536 * x + 96 * y + 6 * z + d;
    assert(n / 1536 == x && (n / 96) % 16 == y && (n / 6) % 16 == z && n % 6 == d) by (nonlinear_arith)
        requires
            in_grid(x, y, z),
            0 <= d < 6,
            n == 1536 * x + 96 * y + 6 * z + d,
    ;
}

/// Each record among the first `n` slots' faces is the record of a visible slot.
proof fn lemma_face_slot(blocks: Seq<BlockType>, sides: Seq<Option<Seq<BlockType>>>, n: nat, k: int) -> (m: int)
    requires
        0 <= k < faces_upto(blocks, sides, n).len(),
    ensures
        0 <= m < n,
        slot_visible(blocks, sides, m),
        faces_upto(blocks, sides, n)[k] == slot_record(blocks, m),
    decreases n,
{
    let prev = faces_upto(blocks, sides, (n - 1) as nat);
    if k < prev.len() {
        lemma_face_slot(blocks, sides, (n - 1) as nat, k)
    } else {
        n - 1
    }
}

/// Every face that meshing emits belongs to a solid voxel and carries that
/// voxel's position and face tile; the voxel just beyond the face, when it
/// lies in the same chunk, is air.
pub proof fn lemma_mesh_faces_exposed(blocks: Seq<BlockType>, sides: Seq<Option<Seq<BlockType>>>, k: int)
    requires
        blocks.len() == 4096,
        0 <= k < mesh_of(blocks, sides).len(),
    ensures
        ({
            let w = mesh_of(blocks, sides)[k];
            let x = field_x(w) as int;
            let y = field_y(w) as int;
            let z = field_z(w) as int;
            let d = field_normal(w) as int;
            &&& in_grid(x, y, z)
            &&& 0 <= d < 6
            &&& !(voxel(blocks, x, y, z) is Air)
            &&& field_face_id(w) == face_id_of(voxel(blocks, x, y, z))
            &&& in_grid(x + dir_dx(d), y + dir_dy(d), z + dir_dz(d)) ==> voxel(
                blocks,
                x + dir_dx(d),
                y + dir_dy(d),
                z + dir_dz(d),
            ) is Air
        }),
{
    let m = lemma_face_slot(blocks, sides, 24576, k);
    let (x, y, z, d) = (slot_x(m), slot_y(m), slot_z(m), slot_dir(m));
    assert(0 <= x < 16 && 0 <= y < 16 && 0 <= z < 16 && 0 <= d < 6);
    let f = face_id_of(voxel(blocks, x, y, z));
    assert(f < 256);
    lemma_pack_round_trip(x as u32, y as u32, z as u32, d as u32, f);
}

/// Among the first `n` slots, a side state under which fewer slots are
/// visible yields no more faces, and strictly fewer once one slot differs.
proof fn lemma_faces_upto_fewer(
    blocks: Seq<BlockType>,
    s1: Seq<Option<Seq<BlockType>>>,
    s2: Seq<Option<Seq<BlockType>>>,
    n: nat,
    gone: int,
)
    requires
        forall|m: int| 0 <= m < n && #[trigger] slot_visible(blocks, s2, m) ==> slot_visible(blocks, s1, m),
    ensures
        faces_upto(blocks, s2, n).len() <= faces_upto(blocks, s1, n).len(),
        0 <= gone < n && slot_visible(blocks, s1, gone) && !slot_visible(blocks, s2, gone)
            ==> faces_upto(blocks, s2, n).len() < faces_upto(blocks, s1, n).len(),
    decreases n,
{
    if n > 0 {
        lemma_faces_upto_fewer(blocks, s1, s2, (n - 1) as nat, gone);
    }
}

/// Loading a neighbour on a side that was open never adds faces to a chunk,
/// and removes at least one when a solid voxel on that side of the chunk
/// touches a solid voxel of the new neighbour.
pub proof fn lemma_neighbor_load_culls(
    blocks: Seq<BlockType>,
    sides: Seq<Option<Seq<BlockType>>>,
    d: int,
    nb: Seq<BlockType>,
    x: int,
    y: int,
    z: int,
)
    requires
        blocks.len() == 4096,
        nb.len() == 4096,
        sides.len() == 6,
        0 <= d < 6,
        sides[d] is None,
    ensures
        mesh_of(blocks, sides.update(d, Some(nb))).len() <= mesh_of(blocks, sides).len(),
        in_grid(x, y, z) && !in_grid(x + dir_dx(d), y + dir_dy(d), z + dir_dz(d)) && !(voxel(blocks, x, y, z) is Air)
            && !(voxel(nb, wrap(x + dir_dx(d)), wrap(y + dir_dy(d)), wrap(z + dir_dz(d))) is Air)
            ==> mesh_of(blocks, sides.update(d, Some(nb))).len() < mesh_of(blocks, sides).len(),
{
    let s2 = sides.update(d, Some(nb));
    assert forall|m: int| 0 <= m < 24576 && #[trigger] slot_visible(blocks, s2, m) implies slot_visible(blocks, sides, m) by {
        assert(0 <= slot_dir(m) < 6);
    }
    let gone = 1536 * x + 96 * y + 6 * z + d;
    if in_grid(x, y, z) {
        lemma_slot_decode(x, y, z, d);
    }
    lemma_faces_upto_fewer(blocks, sides, s2, 24576, gone);
}

/// Whether the face of `(x, y, z)` in direction `d` looks onto open space.
fn face_is_open(blocks: &Vec<BlockType>, sides: &[Option<&Vec<BlockType>>; 6], x: usize, y: usize, z: usize, d: usize) -> (r: bool)
    requires
        blocks@.len() == 4096,
        sides_wf(sides@),
        in_grid(x as int, y as int, z as int),
        d < 6,
    ensures
        r == face_open(blocks@, sides_view(sides@), x as int, y as int, z as int, d as int),
{
    let (dx, dy, dz): (i8, i8, i8) = if d == 0 {
        (1, 0, 0)
    } else if d == 1 {
        (-1, 0, 0)
    } else if d == 2 {
        (0, 1, 0)
    } else if d == 3 {
        (0, -1, 0)
    } else if d == 4 {
        (0, 0, 1)
    } else {
        (0, 0, -1)
    };
    let nx: i8 = x as i8 + dx;
    let ny: i8 = y as i8 + dy;
    let nz: i8 = z as i8 + dz;
    if 0 <= nx && nx < 16 && 0 <= ny && ny < 16 && 0 <= nz && nz < 16 {
        blocks[nx as usize * 256 + ny as usize * 16 + nz as usize].is_air()
    } else {
        let wx: usize = if nx < 0 { 15 } else if nx >= 16 { 0 } else { nx as usize };
        let wy: usize = if ny < 0 { 15 } else if ny >= 16 { 0 } else { ny as usize };
        let wz: usize = if nz < 0 { 15 } else if nz >= 16 { 0 } else { nz as usize };
        match sides[d] {
            None => true,
            Some(nb) => nb[wx * 256 + wy * 16 + wz].is_air(),
        }
    }
}

/// The face records of a grid whose neighbours on each side are `sides`.
pub(crate) fn build_faces(blocks: &Vec<BlockType>, sides: &[Option<&Vec<BlockType>>; 6]) -> (r: Vec<FaceData>)
    requires
        blocks@.len() == 4096,
        sides_wf(sides@),
    ensures
        words(r@) == mesh_of(blocks@, sides_view(sides@)),
{
    let ghost s = sides_view(sides@);
    let mut faces: Vec<FaceData> = Vec::new();
    let mut x: usize = 0;
    while x < CHUNK_SIZE
        invariant
            x <= 16,
            blocks@.len() == 4096,
            sides_wf(sides@),
            s == sides_view(sides@),
            words(faces@) == faces_upto(blocks@, s, (1536 * x) as nat),
        decreases 16 - x,
    {
        let mut y: usize = 0;
        while y < CHUNK_SIZE
            invariant
                x < 16,
                y <= 16,
                blocks@.len() == 4096,
                sides_wf(sides@),
                s == sides_view(sides@),
                words(faces@) == faces_upto(blocks@, s, (1536 * x + 96 * y) as nat),
            decreases 16 - y,
        {
            let mut z: usize = 0;
            while z < CHUNK_SIZE
                invariant
                    x < 16,
                    y < 16,
                    z <= 16,
                    blocks@.len() == 4096,
                    sides_wf(sides@),
                    s == sides_view(sides@),
                    words(faces@) == faces_upto(blocks@, s, (1536 * x + 96 * y + 6 * z) as nat),
                decreases 16 - z,
            {
                let b = blocks[x * 256 + y * 16 + z];
                let mut d: usize = 0;
                while d < 6
                    invariant
                        x < 16,
                        y < 16,
                        z < 16,
                        d <= 6,
                        blocks@.len() == 4096,
                        sides_wf(sides@),
                        s == sides_view(sides@),
                        b == voxel(blocks@, x as int, y as int, z as int),
                        words(faces@) == faces_upto(blocks@, s, (1536 * x + 96 * y + 6 * z + d) as nat),
                    decreases 6 - d,
                {
                    proof {
                        lemma_slot_decode(x as int, y as int, z as int, d as int);
                    }
                    let ghost n = 1536 * x + 96 * y + 6 * z + d;
                    if !b.is_air() && face_is_open(blocks, sides, x, y, z, d) {
                        let face: FaceType = match lookup(b).face {
                            Some(f) => f,
                            None => FaceType::Moss,
                        };
                        let rec = FaceData::pack(x, y, z, d as u32, face);
                        let ghost before = faces@;
                        faces.push(rec);
                        assert(words(faces@) =~= words(before).push(rec@));
                    }
                    d += 1;
                }
                z += 1;
            }
            y += 1;
        }
        x += 1;
    }
    faces
}

/// A chunk: its coordinate, its block grid (flat, voxel `(x, y, z)` at
/// `256 * x + 16 * y + z`) and the face records last meshed from it.
pub struct Chunk {
    pub pos: ChunkCoord,
    pub blocks: Vec<BlockType>,
    pub faces: Vec<FaceData>,
}

/// The instance words of a face list.
pub open spec fn words(faces: Seq<FaceData>) -> Seq<u32> {
    faces.map_values(|f: FaceData| f@)
}

impl Chunk {
    /// The grid holds exactly one block per voxel.
    pub open spec fn wf(&self) -> bool {
        self.blocks@.len() == CHUNK_VOLUME
    }

    /// An all-air chunk at `pos`, with no faces.
    pub fn new(pos: ChunkCoord) -> (r: Chunk)
        ensures
            r.wf(),
            r.pos == pos,
            r.blocks@ == Seq::new(4096, |i: int| BlockType::Air),
            r.faces@.len() == 0,
    {
        let mut blocks: Vec<BlockType> = Vec::new();
        let mut i: usize = 0;
        while i < CHUNK_VOLUME
            invariant
                i <= CHUNK_VOLUME,
                blocks@ == Seq::new(i as nat, |k: int| BlockType::Air),
            decreases CHUNK_VOLUME - i,
        {
            blocks.push(BlockType::Air);
            i += 1;
            assert(blocks@ =~= Seq::new(i as nat, |k: int| BlockType::Air));
        }
        Chunk { pos, blocks, faces: Vec::new() }
    }

    /// The block at local position `(x, y, z)`.
    pub fn get_block(&self, x: usize, y: usize, z: usize) -> (r: BlockType)
        requires
            self.wf(),
            in_grid(x as int, y as int, z as int),
        ensures
            r == voxel(self.blocks@, x as int, y as int, z as int),
    {
        self.blocks[x * 256 + y * 16 + z]
    }

    /// Replaces one block. The face list no longer matches the grid, so it
    /// is cleared until the chunk is meshed again.
    pub fn set_block(&mut self, x: usize, y: usize, z: usize, block: BlockType)
        requires
            old(self).wf(),
            in_grid(x as int, y as int, z as int),
        ensures
            final(self).wf(),
            final(self).pos == old(self).pos,
            final(self).blocks@ == old(self).blocks@.update(voxel_index(x as int, y as int, z as int), block),
            final(self).faces@.len() == 0,
    {
        self.blocks.set(x * 256 + y * 16 + z, block);
        self.faces = Vec::new();
    }

    /// Rebuilds the face list with every side treated as open (no neighbour
    /// loaded).
    pub fn mesh(chunk: &mut Chunk)
        requires
            old(chunk).wf(),
        ensures
            final(chunk).wf(),
            final(chunk).pos == old(chunk).pos,
            final(chunk).blocks@ == old(chunk).blocks@,
            words(final(chunk).faces@) == mesh_of(old(chunk).blocks@, no_sides()),
    {
        let sides: [Option<&Vec<BlockType>>; 6] = [None, None, None, None, None, None];
        assert(sides_view(sides@) =~= no_sides());
        chunk.faces = build_faces(&chunk.blocks, &sides);
    }

    /// Rebuilds the face list; `sides[d]` is the grid of the chunk next to
    /// this one in direction `d`, or `None` where no chunk is loaded there.
    pub fn mesh_with_neighbors(chunk: &mut Chunk, sides: &[Option<&Vec<BlockType>>; 6])
        requires
            old(chunk).wf(),
            sides_wf(sides@),
        ensures
            final(chunk).wf(),
            final(chunk).pos == old(chunk).pos,
            final(chunk).blocks@ == old(chunk).blocks@,
            words(final(chunk).faces@) == mesh_of(old(chunk).blocks@, sides_view(sides@)),
    {
        chunk.faces = build_faces(&chunk.blocks, sides);
    }

    /// Fills the grid from the default generator and clears the face list.
    pub fn generate(chunk: &mut Chunk)
        ensures
            final(chunk).wf(),
            final(chunk).pos == old(chunk).pos,
            final(chunk).blocks@ == generated_blocks(old(chunk).pos),
            final(chunk).faces@.len() == 0,
    {
        let p = chunk.pos;
        let mut blocks: Vec<BlockType> = Vec::new();
        let mut x: usize = 0;
        while x < CHUNK_SIZE
            invariant
                x <= 16,
                blocks@.len() == 256 * x,
                forall|i: int| 0 <= i < blocks@.len() ==> #[trigger] blocks@[i] == generated_blocks(p)[i],
            decreases 16 - x,
        {
            let mut y: usize = 0;
            while y < CHUNK_SIZE
                invariant
                    x < 16,
                    y <= 16,
                    blocks@.len() == 256 * x + 16 * y,
                    forall|i: int| 0 <= i < blocks@.len() ==> #[trigger] blocks@[i] == generated_blocks(p)[i],
                decreases 16 - y,
            {
                let mut z: usize = 0;
                while z < CHUNK_SIZE
                    invariant
                        x < 16,
                        y < 16,
                        z <= 16,
                        blocks@.len() == 256 * x + 16 * y + z,
                        forall|i: int| 0 <= i < blocks@.len() ==> #[trigger] blocks@[i] == generated_blocks(p)[i],
                    decreases 16 - z,
                {
                    let b = generate_block(p, x, y, z);
                    proof {
                        lemma_voxel_index_decode(x as int, y as int, z as int);
                    }
                    blocks.push(b);
                    z += 1;
                }
                y += 1;
            }
            x += 1;
        }
        assert(blocks@ =~= generated_blocks(p));
        chunk.blocks = blocks;
        chunk.faces = Vec::new();
    }
}

} // verus!
