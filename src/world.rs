//! The world: the resident chunks around the viewer, kept meshed against the
//! neighbours that are loaded, and streamed in and out as the viewer moves.
//!
//! The resident region is a cube: every chunk coordinate whose Chebyshev
//! distance to the viewer's chunk is at most the render distance.
use vstd::prelude::*;
use crate::blocks::BlockType;
use crate::chunk::{
    Chunk, ChunkCoord, build_faces, dir_dx, dir_dy, dir_dz, generated_blocks, in_grid,
    lemma_neighbor_load_culls, mesh_of, sides_view, sides_wf, voxel, words, wrap,
};

verus! {

/// A position in the world, in whole voxels (a viewer's position floored on
/// each axis).
#[derive(Clone, Copy, PartialEq, Eq, Structural, Debug, Hash)]
pub struct WorldPos {
    pub x: i32,
    pub y: i32,
    pub z: i32,
}

/// The chunk that holds voxel `p`: each axis divided by the chunk size,
/// rounding toward negative infinity.
pub open spec fn chunk_of(p: WorldPos) -> ChunkCoord {
    ChunkCoord { x: (p.x / 16) as i32, y: (p.y / 16) as i32, z: (p.z / 16) as i32 }
}

/// Chunk `p` moved one step in direction `d`, or `None` where that leaves the
/// coordinate range.
pub open spec fn step(p: ChunkCoord, d: int) -> Option<ChunkCoord> {
    let x = p.x + dir_dx(d);
    let y = p.y + dir_dy(d);
    let z = p.z + dir_dz(d);
    if i32::MIN <= x <= i32::MAX && i32::MIN <= y <= i32::MAX && i32::MIN <= z <= i32::MAX {
        Some(ChunkCoord { x: x as i32, y: y as i32, z: z as i32 })
    } else {
        None
    }
}

/// What chunk `p` sees on each side when the chunks in `loaded` are resident.
pub open spec fn neighbor_sides(loaded: Set<ChunkCoord>, p: ChunkCoord) -> Seq<Option<Seq<BlockType>>> {
    Seq::new(
        6,
        |d: int|
            match step(p, d) {
                Some(q) => if loaded.contains(q) {
                    Some(generated_blocks(q))
                } else {
                    None
                },
                None => None,
            },
    )
}

/// The faces of resident chunk `p` when the chunks in `loaded` are resident.
pub open spec fn chunk_faces(loaded: Set<ChunkCoord>, p: ChunkCoord) -> Seq<u32> {
    mesh_of(generated_blocks(p), neighbor_sides(loaded, p))
}

/// Whether chunk `c` lies within Chebyshev distance `r` of `center`.
pub open spec fn within(c: ChunkCoord, center: ChunkCoord, r: int) -> bool {
    &&& -r <= c.x - center.x <= r
    &&& -r <= c.y - center.y <= r
    &&& -r <= c.z - center.z <= r
}

/// The chunks that must be resident around `center` at render distance `r`.
pub open spec fn resident_region(center: ChunkCoord, r: int) -> Set<ChunkCoord> {
    Set::new(|c: ChunkCoord| within(c, center, r))
}

/// The coordinates of a list of chunks, in order.
pub open spec fn coords_of(chunks: Seq<Chunk>) -> Seq<ChunkCoord> {
    chunks.map_values(|c: Chunk| c.pos)
}

/// The set of coordinates present in a list of chunks.
pub open spec fn loaded_of(chunks: Seq<Chunk>) -> Set<ChunkCoord> {
    coords_of(chunks).to_set()
}

/// No coordinate appears twice.
pub open spec fn coords_unique(chunks: Seq<Chunk>) -> bool {
    forall|i: int, j: int| 0 <= i < j < chunks.len() ==> chunks[i].pos != chunks[j].pos
}

/// A chunk holds its generated grid.
pub open spec fn generated(ch: Chunk) -> bool {
    ch.wf() && ch.blocks@ == generated_blocks(ch.pos)
}

/// Finds the chunk at `c`.
fn find(chunks: &Vec<Chunk>, c: ChunkCoord) -> (r: Option<usize>)
    ensures
        match r {
            Some(i) => i < chunks@.len() && chunks@[i as int].pos == c,
            None => !loaded_of(chunks@).contains(c),
        },
{
    let mut i: usize = 0;
    while i < chunks.len()
        invariant
            i <= chunks@.len(),
            forall|j: int| 0 <= j < i ==> chunks@[j].pos != c,
        decreases chunks@.len() - i,
    {
        if chunks[i].pos == c {
            return Some(i);
        }
        i += 1;
    }
    proof {
        if coords_of(chunks@).contains(c) {
            let j = choose|j: int| 0 <= j < coords_of(chunks@).len() && coords_of(chunks@)[j] == c;
            assert(chunks@[j].pos == c);
        }
    }
    None
}

/// Whether `c` is in a list of coordinates.
fn contains_coord(coords: &Vec<ChunkCoord>, c: ChunkCoord) -> (r: bool)
    ensures
        r == coords@.contains(c),
{
    let mut i: usize = 0;
    while i < coords.len()
        invariant
            i <= coords@.len(),
            forall|j: int| 0 <= j < i ==> coords@[j] != c,
        decreases coords@.len() - i,
    {
        if coords[i] == c {
            assert(coords@[i as int] == c);
            return true;
        }
        i += 1;
    }
    false
}

/// Chunk `p` moved one step in direction `d`.
fn step_exec(p: ChunkCoord, d: usize) -> (r: Option<ChunkCoord>)
    requires
        d < 6,
    ensures
        r == step(p, d as int),
{
    let (dx, dy, dz): (i64, i64, i64) = if d == 0 {
        (1, 0, 0)
    } else if d == 1 {
        (-1, 0, 0)
    } else if d == 2 {
        (0, 1, 0)
    } else if d == 3 {
        (0, -1, 0)
    } else if d == 4 {
        (0, 0, 1)
    } else {
        (0, 0, -1)
    };
    let x: i64 = p.x as i64 + dx;
    let y: i64 = p.y as i64 + dy;
    let z: i64 = p.z as i64 + dz;
    if i32::MIN as i64 <= x && x <= i32::MAX as i64 && i32::MIN as i64 <= y && y <= i32::MAX as i64
        && i32::MIN as i64 <= z && z <= i32::MAX as i64 {
        Some(ChunkCoord { x: x as i32, y: y as i32, z: z as i32 })
    } else {
        None
    }
}

/// The grid of the resident chunk next to `p` in direction `d`.
fn side_grid<'a>(chunks: &'a Vec<Chunk>, p: ChunkCoord, d: usize) -> (r: Option<&'a Vec<BlockType>>)
    requires
        d < 6,
        forall|i: int| 0 <= i < chunks@.len() ==> generated(#[trigger] chunks@[i]),
    ensures
        match r {
            Some(v) => v@.len() == 4096,
            None => true,
        },
        match r {
            Some(v) => Some(v@),
            None => None,
        } == neighbor_sides(loaded_of(chunks@), p)[d as int],
{
    match step_exec(p, d) {
        Some(q) => match find(chunks, q) {
            Some(i) => {
                assert(coords_of(chunks@)[i as int] == q);
                Some(&chunks[i].blocks)
            },
            None => None,
        },
        None => None,
    }
}

/// The grids of the resident neighbours of `p`, by direction.
fn sides_of<'a>(chunks: &'a Vec<Chunk>, p: ChunkCoord) -> (r: [Option<&'a Vec<BlockType>>; 6])
    requires
        forall|i: int| 0 <= i < chunks@.len() ==> generated(#[trigger] chunks@[i]),
    ensures
        sides_wf(r@),
        sides_view(r@) == neighbor_sides(loaded_of(chunks@), p),
{
    let r = [
        side_grid(chunks, p, 0),
        side_grid(chunks, p, 1),
        side_grid(chunks, p, 2),
        side_grid(chunks, p, 3),
        side_grid(chunks, p, 4),
        side_grid(chunks, p, 5),
    ];
    assert(sides_view(r@) =~= neighbor_sides(loaded_of(chunks@), p));
    r
}

/// Whether chunk `p` sees the same neighbours when the coordinates in
/// `before` are resident as with the chunks of `chunks`.
fn sides_unchanged(before: &Vec<ChunkCoord>, chunks: &Vec<Chunk>, p: ChunkCoord) -> (r: bool)
    ensures
        r ==> neighbor_sides(before@.to_set(), p) == neighbor_sides(loaded_of(chunks@), p),
{
    let mut d: usize = 0;
    while d < 6
        invariant
            d <= 6,
            forall|e: int| 0 <= e < d ==> #[trigger] neighbor_sides(before@.to_set(), p)[e] == neighbor_sides(loaded_of(chunks@), p)[e],
        decreases 6 - d,
    {
        match step_exec(p, d) {
            Some(q) => {
                let was = contains_coord(before, q);
                let is = match find(chunks, q) {
                    Some(i) => {
                        assert(coords_of(chunks@)[i as int] == q);
                        true
                    },
                    None => false,
                };
                if was != is {
                    return false;
                }
            },
            None => {},
        }
        d += 1;
    }
    assert(neighbor_sides(before@.to_set(), p) =~= neighbor_sides(loaded_of(chunks@), p));
    true
}

/// Meshes again every chunk from `fresh_from` on, and every earlier chunk
/// whose neighbours differ from those it was meshed against (the chunks at
/// the coordinates in `before`).
fn remesh_changed(chunks: &mut Vec<Chunk>, before: &Vec<ChunkCoord>, fresh_from: usize)
    requires
        fresh_from <= old(chunks)@.len(),
        forall|i: int| 0 <= i < old(chunks)@.len() ==> generated(#[trigger] old(chunks)@[i]),
        forall|i: int|
            0 <= i < fresh_from ==> words(#[trigger] old(chunks)@[i].faces@) == chunk_faces(
                before@.to_set(),
                old(chunks)@[i].pos,
            ),
    ensures
        final(chunks)@.len() == old(chunks)@.len(),
        coords_of(final(chunks)@) == coords_of(old(chunks)@),
        forall|i: int| 0 <= i < final(chunks)@.len() ==> generated(#[trigger] final(chunks)@[i]),
        forall|i: int|
            0 <= i < final(chunks)@.len() ==> words(#[trigger] final(chunks)@[i].faces@) == chunk_faces(
                loaded_of(old(chunks)@),
                final(chunks)@[i].pos,
            ),
{
    let ghost l = loaded_of(chunks@);
    let ghost start = coords_of(chunks@);
    let mut i: usize = 0;
    while i < chunks.len()
        invariant
            fresh_from <= chunks@.len(),
            i <= chunks@.len(),
            coords_of(chunks@) == start,
            l == loaded_of(chunks@),
            forall|j: int| 0 <= j < chunks@.len() ==> generated(#[trigger] chunks@[j]),
            forall|j: int| 0 <= j < i ==> words(#[trigger] chunks@[j].faces@) == chunk_faces(l, chunks@[j].pos),
            forall|j: int|
                i <= j < fresh_from ==> words(#[trigger] chunks@[j].faces@) == chunk_faces(
                    before@.to_set(),
                    chunks@[j].pos,
                ),
        decreases chunks@.len() - i,
    {
        let p = chunks[i].pos;
        if i >= fresh_from || !sides_unchanged(before, chunks, p) {
            let faces = {
                let sides = sides_of(chunks, p);
                build_faces(&chunks[i].blocks, &sides)
            };
            let ghost prev = chunks@;
            chunks[i].faces = faces;
            assert(coords_of(chunks@) =~= coords_of(prev));
            assert(chunks@[i as int].pos == p);
        }
        i += 1;
    }
}

proof fn lemma_to_set_push(s: Seq<ChunkCoord>, c: ChunkCoord)
    ensures
        s.push(c).to_set() == s.to_set().insert(c),
{
    assert forall|x: ChunkCoord| s.push(c).to_set().contains(x) == s.to_set().insert(c).contains(x) by {
        if s.contains(x) {
            let j = choose|j: int| 0 <= j < s.len() && s[j] == x;
            assert(s.push(c)[j] == x);
        }
        if x == c {
            assert(s.push(c)[s.len() as int] == x);
        }
        if s.push(c).contains(x) {
            let j = choose|j: int| 0 <= j < s.len() + 1 && s.push(c)[j] == x;
            if j < s.len() {
                assert(s[j] == x);
            }
        }
    }
    assert(s.push(c).to_set() =~= s.to_set().insert(c));
}

/// The coordinates of a list of chunks.
fn positions(chunks: &Vec<Chunk>) -> (r: Vec<ChunkCoord>)
    ensures
        r@ == coords_of(chunks@),
{
    let mut r: Vec<ChunkCoord> = Vec::new();
    let mut i: usize = 0;
    while i < chunks.len()
        invariant
            i <= chunks@.len(),
            r@ == coords_of(chunks@).subrange(0, i as int),
        decreases chunks@.len() - i,
    {
        r.push(chunks[i].pos);
        i += 1;
        assert(r@ =~= coords_of(chunks@).subrange(0, i as int));
    }
    assert(r@ =~= coords_of(chunks@));
    r
}


proof fn lemma_loaded_push(s: Seq<Chunk>, ch: Chunk)
    ensures
        loaded_of(s.push(ch)) == loaded_of(s).insert(ch.pos),
{
    assert(coords_of(s.push(ch)) =~= coords_of(s).push(ch.pos));
    lemma_to_set_push(coords_of(s), ch.pos);
}

/// Whether chunk `c` lies within Chebyshev distance `r` of `center`.
fn within_exec(c: ChunkCoord, center: ChunkCoord, r: i64) -> (b: bool)
    requires
        0 <= r <= u32::MAX,
    ensures
        b == within(c, center, r as int),
{
    let dx: i64 = c.x as i64 - center.x as i64;
    let dy: i64 = c.y as i64 - center.y as i64;
    let dz: i64 = c.z as i64 - center.z as i64;
    -r <= dx && dx <= r && -r <= dy && dy <= r && -r <= dz && dz <= r
}

/// The range `[center - r, center + r]` cut to the coordinate range.
fn axis_range(center: i32, r: i64) -> (b: (i64, i64))
    requires
        0 <= r <= u32::MAX,
    ensures
        b.0 == if center - r < i32::MIN { i32::MIN as int } else { center - r },
        b.1 == if center + r > i32::MAX { i32::MAX as int } else { center + r },
{
    let lo: i64 = if (center as i64) - r < i32::MIN as i64 { i32::MIN as i64 } else { center as i64 - r };
    let hi: i64 = if (center as i64) + r > i32::MAX as i64 { i32::MAX as i64 } else { center as i64 + r };
    (lo, hi)
}

/// Drops the chunks outside the region; keeps the others as they are.
fn evict(chunks: Vec<Chunk>, center: ChunkCoord, r: i64) -> (kept: Vec<Chunk>)
    requires
        0 <= r <= u32::MAX,
        coords_unique(chunks@),
    ensures
        coords_unique(kept@),
        forall|k: int|
            0 <= k < kept@.len() ==> within(#[trigger] kept@[k].pos, center, r as int)
                && chunks@.contains(kept@[k]),
{
    let ghost start = chunks@;
    let mut rest = chunks;
    let mut kept: Vec<Chunk> = Vec::new();
    while rest.len() > 0
        invariant
            0 <= r <= u32::MAX,
            coords_unique(start),
            rest@.len() <= start.len(),
            rest@ == start.subrange(0, rest@.len() as int),
            coords_unique(kept@),
            forall|k: int|
                0 <= k < kept@.len() ==> within(#[trigger] kept@[k].pos, center, r as int)
                    && start.contains(kept@[k]),
            forall|a: int, j: int| 0 <= a < kept@.len() && 0 <= j < rest@.len() ==> kept@[a].pos != rest@[j].pos,
        decreases rest@.len(),
    {
        let ghost n = rest@.len() as int;
        match rest.pop() {
            Some(ch) => {
                assert(rest@ =~= start.subrange(0, n - 1));
                assert(ch == start[n - 1]);
                if within_exec(ch.pos, center, r) {
                    let ghost prev = kept@;
                    kept.push(ch);
                    assert forall|k: int|
                        0 <= k < kept@.len() implies within(#[trigger] kept@[k].pos, center, r as int)
                        && start.contains(kept@[k]) by {
                        if k == prev.len() {
                            assert(start[n - 1] == kept@[k]);
                        } else {
                            assert(kept@[k] == prev[k]);
                        }
                    }
                }
            },
            None => {},
        }
    }
    kept
}

/// The chunks at the start of a list are kept as they were, and every chunk
/// is unique, generated and inside the region.
spec fn grows_within(chunks: Seq<Chunk>, start: Seq<Chunk>, center: ChunkCoord, r: int) -> bool {
    &&& start.len() <= chunks.len()
    &&& forall|i: int| 0 <= i < start.len() ==> #[trigger] chunks[i] == start[i]
    &&& coords_unique(chunks)
    &&& forall|i: int|
        0 <= i < chunks.len() ==> generated(#[trigger] chunks[i]) && within(chunks[i].pos, center, r)
}

/// Every coordinate of the region that comes before `(x, y, z)` in
/// lexicographic order is present.
spec fn covered_before(chunks: Seq<Chunk>, center: ChunkCoord, r: int, x: int, y: int, z: int) -> bool {
    forall|c: ChunkCoord|
        #[trigger] within(c, center, r) && (c.x < x || (c.x == x && (c.y < y || (c.y == y && c.z < z))))
            ==> loaded_of(chunks).contains(c)
}

/// Loads, generated and unmeshed, every chunk of the region that is absent.
fn fill_region(chunks: &mut Vec<Chunk>, center: ChunkCoord, r: i64)
    requires
        0 <= r <= u32::MAX,
        grows_within(old(chunks)@, old(chunks)@, center, r as int),
    ensures
        grows_within(final(chunks)@, old(chunks)@, center, r as int),
        loaded_of(final(chunks)@) == resident_region(center, r as int),
{
    let ghost start = chunks@;
    let (lo_x, hi_x) = axis_range(center.x, r);
    let (lo_y, hi_y) = axis_range(center.y, r);
    let (lo_z, hi_z) = axis_range(center.z, r);
    let mut x: i64 = lo_x;
    while x <= hi_x
        invariant
            0 <= r <= u32::MAX,
            lo_x == if center.x - r < i32::MIN { i32::MIN as int } else { center.x - r },
            hi_x == if center.x + r > i32::MAX { i32::MAX as int } else { center.x + r },
            lo_y == if center.y - r < i32::MIN { i32::MIN as int } else { center.y - r },
            hi_y == if center.y + r > i32::MAX { i32::MAX as int } else { center.y + r },
            lo_z == if center.z - r < i32::MIN { i32::MIN as int } else { center.z - r },
            hi_z == if center.z + r > i32::MAX { i32::MAX as int } else { center.z + r },
            lo_x <= x <= hi_x + 1,
            grows_within(chunks@, start, center, r as int),
            covered_before(chunks@, center, r as int, x as int, lo_y as int, lo_z as int),
        decreases hi_x + 1 - x,
    {
        let mut y: i64 = lo_y;
        while y <= hi_y
            invariant
                0 <= r <= u32::MAX,
                lo_y == if center.y - r < i32::MIN { i32::MIN as int } else { center.y - r },
                hi_y == if center.y + r > i32::MAX { i32::MAX as int } else { center.y + r },
                lo_z == if center.z - r < i32::MIN { i32::MIN as int } else { center.z - r },
                hi_z == if center.z + r > i32::MAX { i32::MAX as int } else { center.z + r },
                lo_x <= x <= hi_x,
                hi_x <= i32::MAX,
                i32::MIN <= lo_x,
                lo_x == if center.x - r < i32::MIN { i32::MIN as int } else { center.x - r },
                hi_x == if center.x + r > i32::MAX { i32::MAX as int } else { center.x + r },
                lo_y <= y <= hi_y + 1,
                grows_within(chunks@, start, center, r as int),
                covered_before(chunks@, center, r as int, x as int, y as int, lo_z as int),
            decreases hi_y + 1 - y,
        {
            let mut z: i64 = lo_z;
            while z <= hi_z
                invariant
                    0 <= r <= u32::MAX,
                    lo_z == if center.z - r < i32::MIN { i32::MIN as int } else { center.z - r },
                    hi_z == if center.z + r > i32::MAX { i32::MAX as int } else { center.z + r },
                    lo_x <= x <= hi_x,
                    lo_y <= y <= hi_y,
                    lo_x == if center.x - r < i32::MIN { i32::MIN as int } else { center.x - r },
                    hi_x == if center.x + r > i32::MAX { i32::MAX as int } else { center.x + r },
                    lo_y == if center.y - r < i32::MIN { i32::MIN as int } else { center.y - r },
                    hi_y == if center.y + r > i32::MAX { i32::MAX as int } else { center.y + r },
                    lo_z <= z <= hi_z + 1,
                    grows_within(chunks@, start, center, r as int),
                    covered_before(chunks@, center, r as int, x as int, y as int, z as int),
                decreases hi_z + 1 - z,
            {
                let q = ChunkCoord { x: x as i32, y: y as i32, z: z as i32 };
                assert(within(q, center, r as int));
                match find(chunks, q) {
                    Some(i) => {
                        assert(coords_of(chunks@)[i as int] == q);
                    },
                    None => {
                        let mut ch = Chunk::new(q);
                        Chunk::generate(&mut ch);
                        let ghost prev = chunks@;
                        chunks.push(ch);
                        proof {
                            lemma_loaded_push(prev, ch);
                            assert forall|i: int| 0 <= i < prev.len() implies prev[i].pos != q by {
                                assert(coords_of(prev)[i] == prev[i].pos);
                            }
                            assert forall|i: int| 0 <= i < chunks@.len() implies generated(#[trigger] chunks@[i])
                                && within(chunks@[i].pos, center, r as int) by {
                                if i < prev.len() {
                                    assert(chunks@[i] == prev[i]);
                                }
                            }
                            assert forall|i: int| 0 <= i < start.len() implies #[trigger] chunks@[i] == start[i] by {
                                assert(chunks@[i] == prev[i]);
                            }
                        }
                    },
                }
                z += 1;
            }
            y += 1;
        }
        x += 1;
    }
    proof {
        assert forall|c: ChunkCoord| loaded_of(chunks@).contains(c) == resident_region(center, r as int).contains(c) by {
            if loaded_of(chunks@).contains(c) {
                let j = choose|j: int| 0 <= j < coords_of(chunks@).len() && coords_of(chunks@)[j] == c;
                assert(chunks@[j].pos == c);
            }
            if within(c, center, r as int) {
                assert(c.x < x);
            }
        }
        assert(loaded_of(chunks@) =~= resident_region(center, r as int));
    }
}

/// The resident chunks and the region they must cover.
pub struct World {
    render_distance: u32,
    center: ChunkCoord,
    chunks: Vec<Chunk>,
}

impl World {
    /// Coordinates of the resident chunks.
    pub closed spec fn loaded(&self) -> Set<ChunkCoord> {
        loaded_of(self.chunks@)
    }

    /// Radius, in chunks, of the region kept resident.
    pub closed spec fn spec_render_distance(&self) -> u32 {
        self.render_distance
    }

    /// The viewer's chunk as of the last update.
    pub closed spec fn spec_center(&self) -> ChunkCoord {
        self.center
    }

    /// Each coordinate is resident at most once, and every resident chunk
    /// holds its generated grid and the faces meshed against the resident
    /// neighbours.
    pub closed spec fn wf(&self) -> bool {
        &&& coords_unique(self.chunks@)
        &&& forall|i: int| 0 <= i < self.chunks@.len() ==> generated(#[trigger] self.chunks@[i])
        &&& forall|i: int|
            0 <= i < self.chunks@.len() ==> words(#[trigger] self.chunks@[i].faces@) == chunk_faces(
                self.loaded(),
                self.chunks@[i].pos,
            )
    }

    /// Makes chunk `c` resident: if it is absent it is generated, meshed and
    /// inserted, and its resident neighbours are meshed again so that their
    /// shared faces are culled. Nothing changes if `c` is already resident.
    pub fn ensure_loaded(&mut self, c: ChunkCoord)
        requires
            old(self).wf(),
        ensures
            final(self).wf(),
            final(self).loaded() == old(self).loaded().insert(c),
            final(self).spec_render_distance() == old(self).spec_render_distance(),
            final(self).spec_center() == old(self).spec_center(),
            old(self).loaded().contains(c) ==> *final(self) == *old(self),
    {
        match find(&self.chunks, c) {
            Some(i) => {
                assert(coords_of(self.chunks@)[i as int] == c);
                assert(self.loaded().insert(c) =~= self.loaded());
                return;
            },
            None => {},
        }
        let before = positions(&self.chunks);
        let mut ch = Chunk::new(c);
        Chunk::generate(&mut ch);
        let n = self.chunks.len();
        let ghost old_chunks = self.chunks@;
        self.chunks.push(ch);
        proof {
            assert(coords_of(self.chunks@) =~= coords_of(old_chunks).push(c));
            lemma_to_set_push(coords_of(old_chunks), c);
            assert forall|i: int| 0 <= i < n implies self.chunks@[i].pos != c by {
                assert(coords_of(old_chunks)[i] == old_chunks[i].pos);
            }
            assert forall|i: int| 0 <= i < self.chunks@.len() implies generated(#[trigger] self.chunks@[i]) by {
                if i < n {
                    assert(self.chunks@[i] == old_chunks[i]);
                }
            }
            assert forall|i: int| 0 <= i < n implies words(#[trigger] self.chunks@[i].faces@) == chunk_faces(
                before@.to_set(),
                self.chunks@[i].pos,
            ) by {
                assert(self.chunks@[i] == old_chunks[i]);
            }
        }
        let ghost pushed = self.chunks@;
        remesh_changed(&mut self.chunks, &before, n);
        proof {
            assert forall|i: int, j: int| 0 <= i < j < self.chunks@.len() implies self.chunks@[i].pos
                != self.chunks@[j].pos by {
                assert(coords_of(self.chunks@)[i] == coords_of(pushed)[i]);
                assert(coords_of(self.chunks@)[j] == coords_of(pushed)[j]);
            }
        }
    }
}

/// Drops the chunks outside the region around `center`, loads those missing,
/// and meshes again every chunk whose neighbours changed.
fn reconcile(chunks: Vec<Chunk>, center: ChunkCoord, render_distance: u32) -> (r: Vec<Chunk>)
    requires
        coords_unique(chunks@),
        forall|i: int| 0 <= i < chunks@.len() ==> generated(#[trigger] chunks@[i]),
        forall|i: int|
            0 <= i < chunks@.len() ==> words(#[trigger] chunks@[i].faces@) == chunk_faces(
                loaded_of(chunks@),
                chunks@[i].pos,
            ),
    ensures
        coords_unique(r@),
        forall|i: int| 0 <= i < r@.len() ==> generated(#[trigger] r@[i]),
        forall|i: int|
            0 <= i < r@.len() ==> words(#[trigger] r@[i].faces@) == chunk_faces(loaded_of(r@), r@[i].pos),
        loaded_of(r@) == resident_region(center, render_distance as int),
{
    let ghost start = chunks@;
    let before = positions(&chunks);
    let dist = render_distance as i64;
    let mut kept = evict(chunks, center, dist);
    let kept_len = kept.len();
    proof {
        assert forall|k: int| 0 <= k < kept@.len() implies generated(#[trigger] kept@[k])
            && words(kept@[k].faces@) == chunk_faces(before@.to_set(), kept@[k].pos) by {
            assert(within(kept@[k].pos, center, dist as int));
            assert(start.contains(kept@[k]));
            let j = choose|j: int| 0 <= j < start.len() && start[j] == kept@[k];
            assert(generated(start[j]));
        }
    }
    fill_region(&mut kept, center, dist);
    let ghost filled = kept@;
    proof {
        assert forall|k: int| 0 <= k < kept_len implies words(#[trigger] kept@[k].faces@) == chunk_faces(
            before@.to_set(),
            kept@[k].pos,
        ) by {
            assert(kept@[k] == filled[k]);
        }
    }
    remesh_changed(&mut kept, &before, kept_len);
    proof {
        assert forall|i: int, j: int| 0 <= i < j < kept@.len() implies kept@[i].pos != kept@[j].pos by {
            assert(coords_of(kept@)[i] == coords_of(filled)[i]);
            assert(coords_of(kept@)[j] == coords_of(filled)[j]);
        }
    }
    kept
}

/// The chunk that holds voxel `pos`.
pub fn to_chunk_coords(pos: &WorldPos) -> (r: ChunkCoord)
    ensures
        r == chunk_of(*pos),
{
    let x = match pos.x.checked_div_euclid(16) {
        Some(v) => v,
        None => 0,
    };
    let y = match pos.y.checked_div_euclid(16) {
        Some(v) => v,
        None => 0,
    };
    let z = match pos.z.checked_div_euclid(16) {
        Some(v) => v,
        None => 0,
    };
    ChunkCoord { x, y, z }
}

impl World {
    /// A world around the viewer at `viewer`: every chunk within
    /// `render_distance` of the viewer's chunk is generated and meshed.
    pub fn new(render_distance: u32, viewer: WorldPos) -> (r: World)
        ensures
            r.wf(),
            r.spec_render_distance() == render_distance,
            r.spec_center() == chunk_of(viewer),
            r.loaded() == resident_region(chunk_of(viewer), render_distance as int),
    {
        let center = to_chunk_coords(&viewer);
        let chunks = reconcile(Vec::new(), center, render_distance);
        World { render_distance, center, chunks }
    }

    /// Moves the viewer to `viewer`: chunks beyond the render distance of
    /// its chunk are dropped, missing ones are loaded, and chunks whose
    /// neighbours changed are meshed again.
    pub fn update(&mut self, viewer: WorldPos)
        requires
            old(self).wf(),
        ensures
            final(self).wf(),
            final(self).spec_render_distance() == old(self).spec_render_distance(),
            final(self).spec_center() == chunk_of(viewer),
            final(self).loaded() == resident_region(chunk_of(viewer), old(self).spec_render_distance() as int),
    {
        self.center = to_chunk_coords(&viewer);
        let mut chunks: Vec<Chunk> = Vec::new();
        std::mem::swap(&mut chunks, &mut self.chunks);
        self.chunks = reconcile(chunks, self.center, self.render_distance);
    }

    /// Changes the render distance and brings the resident chunks in line
    /// with it, as `update` does.
    pub fn world_resize(&mut self, render_distance: u32)
        requires
            old(self).wf(),
        ensures
            final(self).wf(),
            final(self).spec_render_distance() == render_distance,
            final(self).spec_center() == old(self).spec_center(),
            final(self).loaded() == resident_region(old(self).spec_center(), render_distance as int),
    {
        self.render_distance = render_distance;
        let mut chunks: Vec<Chunk> = Vec::new();
        std::mem::swap(&mut chunks, &mut self.chunks);
        self.chunks = reconcile(chunks, self.center, self.render_distance);
    }

    /// Radius, in chunks, of the resident region.
    pub fn render_distance(&self) -> (r: u32)
        ensures
            r == self.spec_render_distance(),
    {
        self.render_distance
    }

    /// The viewer's chunk as of the last update.
    pub fn center(&self) -> (r: ChunkCoord)
        ensures
            r == self.spec_center(),
    {
        self.center
    }

    /// Number of resident chunks.
    pub fn chunk_count(&self) -> (r: usize)
        requires
            self.wf(),
        ensures
            r == self.loaded().len(),
    {
        proof {
            assert(coords_of(self.chunks@).no_duplicates());
            coords_of(self.chunks@).unique_seq_to_set();
        }
        self.chunks.len()
    }

    /// The resident chunk at `c`, if any.
    pub fn get_chunk(&self, c: ChunkCoord) -> (r: Option<&Chunk>)
        requires
            self.wf(),
        ensures
            r is Some == self.loaded().contains(c),
            match r {
                Some(ch) => ch.pos == c && generated(*ch) && words(ch.faces@) == chunk_faces(self.loaded(), c),
                None => true,
            },
    {
        match find(&self.chunks, c) {
            Some(i) => {
                assert(coords_of(self.chunks@)[i as int] == c);
                Some(&self.chunks[i])
            },
            None => None,
        }
    }

    /// All resident chunks, each once, for drawing.
    pub fn chunks(&self) -> (r: &Vec<Chunk>)
        requires
            self.wf(),
        ensures
            loaded_of(r@) == self.loaded(),
            coords_unique(r@),
            forall|i: int|
                0 <= i < r@.len() ==> generated(#[trigger] r@[i]) && words(r@[i].faces@) == chunk_faces(
                    self.loaded(),
                    r@[i].pos,
                ),
    {
        &self.chunks
    }
}

/// A voxel lies in the chunk that `to_chunk_coords` names for it, and in no
/// other: on each axis the chunk spans `[16 * c, 16 * c + 16)`, negative
/// coordinates included.
pub proof fn lemma_chunk_of_owns_voxel(p: WorldPos, c: ChunkCoord)
    ensures
        16 * chunk_of(p).x <= p.x < 16 * chunk_of(p).x + 16,
        16 * chunk_of(p).y <= p.y < 16 * chunk_of(p).y + 16,
        16 * chunk_of(p).z <= p.z < 16 * chunk_of(p).z + 16,
        16 * c.x <= p.x < 16 * c.x + 16 && 16 * c.y <= p.y < 16 * c.y + 16 && 16 * c.z <= p.z < 16 * c.z + 16
            ==> c == chunk_of(p),
{
    let (px, py, pz) = (p.x as int, p.y as int, p.z as int);
    assert(16 * (px / 16) <= px < 16 * (px / 16) + 16) by (nonlinear_arith);
    assert(16 * (py / 16) <= py < 16 * (py / 16) + 16) by (nonlinear_arith);
    assert(16 * (pz / 16) <= pz < 16 * (pz / 16) + 16) by (nonlinear_arith);
    if 16 * c.x <= px < 16 * c.x + 16 && 16 * c.y <= py < 16 * c.y + 16 && 16 * c.z <= pz < 16 * c.z + 16 {
        let (cx, cy, cz) = (c.x as int, c.y as int, c.z as int);
        assert(cx == px / 16) by (nonlinear_arith)
            requires
                16 * cx <= px < 16 * cx + 16,
        ;
        assert(cy == py / 16) by (nonlinear_arith)
            requires
                16 * cy <= py < 16 * cy + 16,
        ;
        assert(cz == pz / 16) by (nonlinear_arith)
            requires
                16 * cz <= pz < 16 * cz + 16,
        ;
    }
}

/// Calling `ensure_loaded` twice with the same coordinate: the second call
/// leaves the world as the first left it, so no chunk is duplicated and no
/// face list changes.
pub proof fn lemma_ensure_loaded_twice(w0: World, w1: World, w2: World, c: ChunkCoord)
    requires
        w0.wf(),
        w1.wf(),
        w1.loaded() == w0.loaded().insert(c),
        w0.loaded().contains(c) ==> w1 == w0,
        w2.wf(),
        w2.loaded() == w1.loaded().insert(c),
        w1.loaded().contains(c) ==> w2 == w1,
    ensures
        w2 == w1,
        w2.loaded() == w0.loaded().insert(c),
{
}

/// After the viewer moves, a chunk farther than the render distance from
/// the viewer's new chunk is no longer resident.
pub proof fn lemma_update_evicts(w1: World, viewer: WorldPos, c: ChunkCoord)
    requires
        w1.loaded() == resident_region(chunk_of(viewer), w1.spec_render_distance() as int),
        !within(c, chunk_of(viewer), w1.spec_render_distance() as int),
    ensures
        !w1.loaded().contains(c),
{
}

/// Loading chunk `q`, the neighbour of resident chunk `p` in direction `d`,
/// never adds faces to `p`, and removes at least one when a solid voxel of
/// `p` on that side touches a solid voxel of `q`.
pub proof fn lemma_load_culls_neighbor(
    loaded: Set<ChunkCoord>,
    p: ChunkCoord,
    d: int,
    q: ChunkCoord,
    x: int,
    y: int,
    z: int,
)
    requires
        0 <= d < 6,
        step(p, d) == Some(q),
        !loaded.contains(q),
    ensures
        chunk_faces(loaded.insert(q), p).len() <= chunk_faces(loaded, p).len(),
        in_grid(x, y, z) && !in_grid(x + dir_dx(d), y + dir_dy(d), z + dir_dz(d))
            && !(voxel(generated_blocks(p), x, y, z) is Air)
            && !(voxel(generated_blocks(q), wrap(x + dir_dx(d)), wrap(y + dir_dy(d)), wrap(z + dir_dz(d))) is Air)
            ==> chunk_faces(loaded.insert(q), p).len() < chunk_faces(loaded, p).len(),
{
    let before = neighbor_sides(loaded, p);
    let after = neighbor_sides(loaded.insert(q), p);
    assert forall|e: int| 0 <= e < 6 && e != d implies step(p, e) != Some(q) by {
    }
    assert(after =~= before.update(d, Some(generated_blocks(q))));
    lemma_neighbor_load_culls(generated_blocks(p), before, d, generated_blocks(q), x, y, z);
}

} // verus!
