//! Chunk geometry: the subdivided plane, its displacement by a height
//! sampler, and the colour band of each vertex.
//!
//! Lengths are fixed-point integers, one thousand units to the metre.

use vstd::prelude::*;
use crate::level::Ground;
use crate::scatter::{scattered, DecorationPoint, DECORATION_COUNT};

verus! {

/// Seed of the world: of its elevations and of its scenery.
pub const SEED: u32 = 1135;

/// Side lengths of one chunk.
pub const PLANE_X_SIZE: i64 = 50_000;

pub const PLANE_Z_SIZE: i64 = 50_000;

/// Number of segments along each side of a chunk.
pub const PLANE_SUB_DIVISION_COUNT: u32 = 20;

/// Number of vertices along each side of a chunk.
pub const SIDE: usize = 21;

pub const VERTEX_COUNT: usize = 441;

/// Two triangles for each of the 20 x 20 quads.
pub const INDEX_COUNT: usize = 2400;

/// Distance between two neighbouring vertices.
pub const STEP_X: i64 = 2_500;

pub const STEP_Z: i64 = 2_500;

/// Amplitude of the terrain.
pub const TERRAIN_HEIGHT: i64 = 40_000;

/// Height at which every chunk is placed.
pub const GROUND_LEVEL: i64 = -2_000;

/// Colour class of a vertex, from lowest to highest.
#[derive(Clone, Copy, Debug, PartialEq, Eq, Structural)]
pub enum AltitudeBand {
    Void,
    Grass,
    Dirt,
    Rock,
}

impl AltitudeBand {
    /// Position of the band in the order void < grass < dirt < rock.
    pub open spec fn rank(self) -> int {
        match self {
            AltitudeBand::Void => 0,
            AltitudeBand::Grass => 1,
            AltitudeBand::Dirt => 2,
            AltitudeBand::Rock => 3,
        }
    }

    pub fn ordinal(&self) -> (r: u8)
        ensures
            r == self.rank(),
    {
        match self {
            AltitudeBand::Void => 0,
            AltitudeBand::Grass => 1,
            AltitudeBand::Dirt => 2,
            AltitudeBand::Rock => 3,
        }
    }
}

/// The band of an elevation. With `g = 2 * height / TERRAIN_HEIGHT`:
/// rock above 0.8, dirt above 0.3, void below -0.8, grass otherwise.
pub open spec fn band_of(height: int) -> AltitudeBand {
    if 20 * height > 8 * TERRAIN_HEIGHT {
        AltitudeBand::Rock
    } else if 20 * height > 3 * TERRAIN_HEIGHT {
        AltitudeBand::Dirt
    } else if 20 * height < -8 * TERRAIN_HEIGHT {
        AltitudeBand::Void
    } else {
        AltitudeBand::Grass
    }
}

pub fn altitude_band(height: i64) -> (band: AltitudeBand)
    ensures
        band == band_of(height as int),
{
    if height > 2 * TERRAIN_HEIGHT / 5 {
        AltitudeBand::Rock
    } else if height > 3 * TERRAIN_HEIGHT / 20 {
        AltitudeBand::Dirt
    } else if height < -(2 * TERRAIN_HEIGHT / 5) {
        AltitudeBand::Void
    } else {
        AltitudeBand::Grass
    }
}

/// Bands never decrease as the elevation grows.
pub proof fn lemma_bands_monotone(h1: int, h2: int)
    requires
        h1 < h2,
    ensures
        band_of(h1).rank() <= band_of(h2).rank(),
{
}

/// One vertex of a chunk: its place relative to the chunk's origin, `y`
/// being the elevation, and its colour band. World positions are wider than
/// these: they take 64 bits.
#[derive(Clone, Copy, Debug, PartialEq, Eq, Structural)]
pub struct Vertex {
    pub x: i32,
    pub y: i32,
    pub z: i32,
    pub band: AltitudeBand,
}

/// Where the vertex `k` of a chunk lies along x, relative to the chunk's
/// origin. Vertices are numbered row by row, a row running along x.
pub open spec fn plane_x(k: int) -> int {
    (k % 21) * STEP_X - PLANE_X_SIZE / 2
}

pub open spec fn plane_z(k: int) -> int {
    (k / 21) * STEP_Z - PLANE_Z_SIZE / 2
}

/// Entry `i` of the triangle list. Quads are numbered row by row; each gives
/// two triangles over its four corners.
pub open spec fn plane_index(i: int) -> int {
    let quad = i / 6;
    let corner = (quad / 20) * 21 + quad % 20;
    let part = i % 6;
    if part == 0 {
        corner + 22
    } else if part == 1 || part == 5 {
        corner + 1
    } else if part == 2 || part == 4 {
        corner + 21
    } else {
        corner
    }
}

/// The triangle list that every chunk shares.
pub open spec fn plane_indices() -> Seq<u32> {
    Seq::new(INDEX_COUNT as nat, |i: int| plane_index(i) as u32)
}

/// World position of the origin of the chunk at grid cell `(x, z)`.
pub open spec fn world_origin(x: int, z: int) -> (int, int, int) {
    (x * PLANE_X_SIZE, GROUND_LEVEL as int, z * PLANE_Z_SIZE)
}

/// What a chunk holds.
pub struct ChunkView {
    pub ground: Ground,
    pub origin: (int, int, int),
    pub vertices: Seq<Vertex>,
    pub indices: Seq<u32>,
}

impl ChunkView {
    /// World position along x of the vertex `k`.
    pub open spec fn world_x(self, k: int) -> int {
        self.origin.0 + self.vertices[k].x
    }

    pub open spec fn world_z(self, k: int) -> int {
        self.origin.2 + self.vertices[k].z
    }

    /// The chunk stands at its grid cell and has the shape of the subdivided
    /// plane, whatever its elevations are.
    pub open spec fn laid_out(self) -> bool {
        &&& self.origin == world_origin(self.ground.x as int, self.ground.z as int)
        &&& self.vertices.len() == VERTEX_COUNT
        &&& forall|k: int|
            0 <= k < VERTEX_COUNT ==> (#[trigger] self.vertices[k]).x == plane_x(k)
                && self.vertices[k].z == plane_z(k)
        &&& self.indices == plane_indices()
    }

    /// Every vertex is coloured by the band of its elevation.
    pub open spec fn banded(self) -> bool {
        forall|k: int|
            0 <= k < self.vertices.len() ==> (#[trigger] self.vertices[k]).band == band_of(
                self.vertices[k].y as int,
            )
    }

    /// The chunk is flat: every elevation is zero.
    pub open spec fn flat(self) -> bool {
        forall|k: int| 0 <= k < self.vertices.len() ==> (#[trigger] self.vertices[k]).y == 0
    }

    /// Every elevation is one that `height_at` gives at the vertex's world
    /// position.
    pub open spec fn sampled_from<F: Fn(i64, i64) -> i32>(self, height_at: F) -> bool {
        forall|k: int|
            0 <= k < self.vertices.len() ==> call_ensures(
                height_at,
                (self.world_x(k) as i64, self.world_z(k) as i64),
                (#[trigger] self.vertices[k]).y,
            )
    }

    /// The chunk is the terrain of the grid cell `(x, z)` under `height_at`.
    pub open spec fn realizes<F: Fn(i64, i64) -> i32>(self, x: int, z: int, height_at: F) -> bool {
        &&& self.ground.x == x
        &&& self.ground.z == z
        &&& self.laid_out()
        &&& self.banded()
        &&& self.sampled_from(height_at)
    }
}

/// One generated cell of terrain, with its scenery. Once built it cannot be
/// changed.
pub struct Chunk {
    ground: Ground,
    origin_x: i64,
    origin_y: i64,
    origin_z: i64,
    vertices: Vec<Vertex>,
    indices: Vec<u32>,
    decorations: Vec<DecorationPoint>,
}

impl View for Chunk {
    type V = ChunkView;

    closed spec fn view(&self) -> ChunkView {
        ChunkView {
            ground: self.ground,
            origin: (self.origin_x as int, self.origin_y as int, self.origin_z as int),
            vertices: self.vertices@,
            indices: self.indices@,
        }
    }
}

/// The triangles of a chunk as the physics engine takes them.
pub struct CollisionSurface {
    pub positions: Vec<(i32, i32, i32)>,
    pub triangles: Vec<(u32, u32, u32)>,
}

impl Chunk {
    #[verifier::type_invariant]
    spec fn shaped(&self) -> bool {
        self@.laid_out()
    }

    /// The scenery that stands on the chunk.
    pub closed spec fn scenery(&self) -> Seq<DecorationPoint> {
        self.decorations@
    }

    /// The chunk is the terrain of the grid cell `(x, z)` under `height_at`,
    /// and carries the scenery of that terrain in the world's seed.
    pub open spec fn built_for<F: Fn(i64, i64) -> i32>(self, x: int, z: int, height_at: F) -> bool {
        &&& self@.realizes(x, z, height_at)
        &&& self.scenery() == scattered(self@, DECORATION_COUNT as nat, SEED)
    }

    /// Every chunk has the shape of the subdivided plane.
    pub fn ground(&self) -> (r: Ground)
        ensures
            r == self@.ground,
            self@.laid_out(),
    {
        proof {
            use_type_invariant(self);
        }
        self.ground
    }

    /// Where the chunk is placed in the world.
    pub fn world_origin(&self) -> (r: (i64, i64, i64))
        ensures
            (r.0 as int, r.1 as int, r.2 as int) == self@.origin,
    {
        (self.origin_x, self.origin_y, self.origin_z)
    }

    pub fn vertices(&self) -> (r: &Vec<Vertex>)
        ensures
            r@ == self@.vertices,
    {
        &self.vertices
    }

    pub fn indices(&self) -> (r: &Vec<u32>)
        ensures
            r@ == self@.indices,
    {
        &self.indices
    }

    pub fn decorations(&self) -> (r: &Vec<DecorationPoint>)
        ensures
            r@ == self.scenery(),
    {
        &self.decorations
    }

    /// The same terrain with `points` as its scenery.
    pub(crate) fn with_decorations(self, points: Vec<DecorationPoint>) -> (r: Chunk)
        ensures
            r@ == self@,
            r.scenery() == points@,
    {
        proof {
            use_type_invariant(&self);
        }
        Chunk {
            ground: self.ground,
            origin_x: self.origin_x,
            origin_y: self.origin_y,
            origin_z: self.origin_z,
            vertices: self.vertices,
            indices: self.indices,
            decorations: points,
        }
    }

    /// The collision surface: the vertices and triangles of the chunk
    /// itself, three indices to a triangle, each naming a vertex.
    pub fn collision_surface(&self) -> (s: CollisionSurface)
        ensures
            s.positions@.len() == self@.vertices.len(),
            forall|k: int|
                0 <= k < s.positions@.len() ==> #[trigger] s.positions@[k] == (
                    self@.vertices[k].x,
                    self@.vertices[k].y,
                    self@.vertices[k].z,
                ),
            s.triangles@.len() * 3 == self@.indices.len(),
            forall|t: int|
                0 <= t < s.triangles@.len() ==> #[trigger] s.triangles@[t] == (
                    self@.indices[3 * t],
                    self@.indices[3 * t + 1],
                    self@.indices[3 * t + 2],
                ),
            forall|t: int|
                0 <= t < s.triangles@.len() ==> (#[trigger] s.triangles@[t]).0 < s.positions@.len()
                    && s.triangles@[t].1 < s.positions@.len() && s.triangles@[t].2
                    < s.positions@.len(),
    {
        proof {
            use_type_invariant(self);
        }
        let mut positions: Vec<(i32, i32, i32)> = Vec::new();
        let mut k: usize = 0;
        while k < self.vertices.len()
            invariant
                k <= self.vertices@.len(),
                positions@.len() == k,
                forall|j: int|
                    0 <= j < k ==> #[trigger] positions@[j] == (
                        self.vertices@[j].x,
                        self.vertices@[j].y,
                        self.vertices@[j].z,
                    ),
            decreases self.vertices@.len() - k,
        {
            let v = self.vertices[k];
            positions.push((v.x, v.y, v.z));
            k += 1;
        }
        let mut triangles: Vec<(u32, u32, u32)> = Vec::new();
        let mut t: usize = 0;
        while t < INDEX_COUNT / 3
            invariant
                t <= INDEX_COUNT / 3,
                self.indices@ == plane_indices(),
                triangles@.len() == t,
                forall|j: int|
                    0 <= j < t ==> #[trigger] triangles@[j] == (
                        self.indices@[3 * j],
                        self.indices@[3 * j + 1],
                        self.indices@[3 * j + 2],
                    ),
            decreases INDEX_COUNT / 3 - t,
        {
            triangles.push((self.indices[3 * t], self.indices[3 * t + 1], self.indices[3 * t + 2]));
            t += 1;
        }
        proof {
            assert forall|j: int| 0 <= j < triangles@.len() implies (#[trigger] triangles@[j]).0
                < positions@.len() && triangles@[j].1 < positions@.len() && triangles@[j].2
                < positions@.len() by {
                lemma_index_names_vertex(3 * j);
                lemma_index_names_vertex(3 * j + 1);
                lemma_index_names_vertex(3 * j + 2);
            }
        }
        CollisionSurface { positions, triangles }
    }
}

/// Every entry of the triangle list names a vertex.
pub proof fn lemma_index_names_vertex(i: int)
    requires
        0 <= i < INDEX_COUNT,
    ensures
        0 <= plane_index(i) < VERTEX_COUNT,
        plane_indices()[i] == plane_index(i),
{
    let quad = i / 6;
    assert(0 <= quad < 400);
    assert(0 <= quad / 20 < 20);
    assert(0 <= quad % 20 < 20);
}

/// The flat chunk of the grid cell `ground`: the subdivided plane at its
/// place in the world, before any displacement, and bare of scenery.
pub fn create_plane(ground: Ground) -> (plane: Chunk)
    ensures
        plane@.ground == ground,
        plane@.laid_out(),
        plane@.flat(),
        plane@.banded(),
        plane.scenery() == Seq::<DecorationPoint>::empty(),
{
    let mut vertices: Vec<Vertex> = Vec::new();
    let mut row: usize = 0;
    while row < SIDE
        invariant
            row <= SIDE,
            vertices@.len() == row * 21,
            forall|k: int|
                0 <= k < vertices@.len() ==> (#[trigger] vertices@[k]).x == plane_x(k)
                    && vertices@[k].z == plane_z(k) && vertices@[k].y == 0 && vertices@[k].band
                    == AltitudeBand::Grass,
        decreases SIDE - row,
    {
        let mut col: usize = 0;
        while col < SIDE
            invariant
                row < SIDE,
                col <= SIDE,
                vertices@.len() == row * 21 + col,
                forall|k: int|
                    0 <= k < vertices@.len() ==> (#[trigger] vertices@[k]).x == plane_x(k)
                        && vertices@[k].z == plane_z(k) && vertices@[k].y == 0
                        && vertices@[k].band == AltitudeBand::Grass,
            decreases SIDE - col,
        {
            let x: i32 = ((col as i64) * STEP_X - PLANE_X_SIZE / 2) as i32;
            let z: i32 = ((row as i64) * STEP_Z - PLANE_Z_SIZE / 2) as i32;
            vertices.push(Vertex { x, y: 0, z, band: AltitudeBand::Grass });
            col += 1;
        }
        row += 1;
    }
    let mut indices: Vec<u32> = Vec::new();
    let mut qrow: u32 = 0;
    while qrow < PLANE_SUB_DIVISION_COUNT
        invariant
            qrow <= PLANE_SUB_DIVISION_COUNT,
            indices@.len() == qrow * 120,
            forall|i: int| 0 <= i < indices@.len() ==> #[trigger] indices@[i] == plane_index(i),
        decreases PLANE_SUB_DIVISION_COUNT - qrow,
    {
        let mut qcol: u32 = 0;
        while qcol < PLANE_SUB_DIVISION_COUNT
            invariant
                qrow < PLANE_SUB_DIVISION_COUNT,
                qcol <= PLANE_SUB_DIVISION_COUNT,
                indices@.len() == (qrow * 20 + qcol) * 6,
                forall|i: int| 0 <= i < indices@.len() ==> #[trigger] indices@[i] == plane_index(i),
            decreases PLANE_SUB_DIVISION_COUNT - qcol,
        {
            let corner: u32 = qrow * 21 + qcol;
            indices.push(corner + 22);
            indices.push(corner + 1);
            indices.push(corner + 21);
            indices.push(corner);
            indices.push(corner + 21);
            indices.push(corner + 1);
            qcol += 1;
        }
        qrow += 1;
    }
    let origin_x: i64 = (ground.x as i64) * PLANE_X_SIZE;
    let origin_z: i64 = (ground.z as i64) * PLANE_Z_SIZE;
    assert(indices@ =~= plane_indices());
    Chunk {
        ground,
        origin_x,
        origin_y: GROUND_LEVEL,
        origin_z,
        vertices,
        indices,
        decorations: Vec::new(),
    }
}

/// Displaces a chunk: every vertex is raised to the elevation that
/// `height_at` gives at the vertex's world position, and coloured by the
/// band of that elevation. The chunk keeps its place, its shape, its
/// triangles and its scenery.
pub fn create_terrain<F: Fn(i64, i64) -> i32>(plane: Chunk, height_at: &F) -> (terrain: Chunk)
    requires
        forall|x: i64, z: i64| call_requires(*height_at, (x, z)),
    ensures
        terrain@.realizes(plane@.ground.x as int, plane@.ground.z as int, *height_at),
        terrain@.origin == plane@.origin,
        terrain@.indices == plane@.indices,
        terrain.scenery() == plane.scenery(),
{
    proof {
        use_type_invariant(&plane);
    }
    let mut vertices: Vec<Vertex> = Vec::new();
    let mut k: usize = 0;
    while k < VERTEX_COUNT
        invariant
            k <= VERTEX_COUNT,
            plane@.laid_out(),
            forall|x: i64, z: i64| call_requires(*height_at, (x, z)),
            vertices@.len() == k,
            forall|j: int|
                0 <= j < k ==> (#[trigger] vertices@[j]).x == plane_x(j) && vertices@[j].z
                    == plane_z(j) && vertices@[j].band == band_of(vertices@[j].y as int)
                    && call_ensures(
                    *height_at,
                    ((plane@.origin.0 + plane_x(j)) as i64, (plane@.origin.2 + plane_z(j)) as i64),
                    vertices@[j].y,
                ),
        decreases VERTEX_COUNT - k,
    {
        let v = plane.vertices[k];
        let y = height_at(plane.origin_x + v.x as i64, plane.origin_z + v.z as i64);
        vertices.push(Vertex { x: v.x, y, z: v.z, band: altitude_band(y as i64) });
        k += 1;
    }
    Chunk {
        ground: plane.ground,
        origin_x: plane.origin_x,
        origin_y: plane.origin_y,
        origin_z: plane.origin_z,
        vertices,
        indices: plane.indices,
        decorations: plane.decorations,
    }
}

/// A sampler that gives one elevation for each place.
pub open spec fn deterministic<F: Fn(i64, i64) -> i32>(height_at: F) -> bool {
    forall|x: i64, z: i64, h1: i32, h2: i32|
        call_ensures(height_at, (x, z), h1) && call_ensures(height_at, (x, z), h2) ==> h1 == h2
}

/// Under a sampler that gives one elevation for each place, a grid cell has
/// one terrain and one scenery: two chunks built for the same cell hold the
/// same.
pub proof fn lemma_chunk_is_reproducible<F: Fn(i64, i64) -> i32>(
    first: Chunk,
    second: Chunk,
    x: int,
    z: int,
    height_at: F,
)
    requires
        first.built_for(x, z, height_at),
        second.built_for(x, z, height_at),
        deterministic(height_at),
    ensures
        first@ == second@,
        first.scenery() == second.scenery(),
{
    assert forall|k: int| 0 <= k < VERTEX_COUNT implies first@.vertices[k] == second@.vertices[k] by {
        assert(first@.world_x(k) == second@.world_x(k));
        assert(first@.world_z(k) == second@.world_z(k));
    }
    assert(first@.vertices =~= second@.vertices);
}

/// Chunks that are neighbours along x meet in a seam: in every row, the last
/// vertex of the left chunk and the first vertex of the right chunk stand at
/// the same place in the world, and under a sampler that gives one elevation
/// for each place they have the same elevation and the same colour.
pub proof fn lemma_seam_continuity_x<F: Fn(i64, i64) -> i32>(
    left: ChunkView,
    right: ChunkView,
    x: int,
    z: int,
    height_at: F,
    row: int,
)
    requires
        left.realizes(x, z, height_at),
        right.realizes(x + 1, z, height_at),
        0 <= row < SIDE,
    ensures
        left.world_x(row * 21 + 20) == right.world_x(row * 21),
        left.world_z(row * 21 + 20) == right.world_z(row * 21),
        deterministic(height_at) ==> left.vertices[row * 21 + 20].y == right.vertices[row * 21].y
            && left.vertices[row * 21 + 20].band == right.vertices[row * 21].band,
{
    let a = row * 21 + 20;
    let b = row * 21;
    assert(left.vertices[a].x == plane_x(a) && left.vertices[a].z == plane_z(a));
    assert(right.vertices[b].x == plane_x(b) && right.vertices[b].z == plane_z(b));
    assert(left.vertices[a].band == band_of(left.vertices[a].y as int));
    assert(right.vertices[b].band == band_of(right.vertices[b].y as int));
}

/// Chunks that are neighbours along z meet in a seam: in every column, the
/// vertex in the last row of the near chunk and the vertex in the first row
/// of the far chunk stand at the same place in the world, and under a
/// sampler that gives one elevation for each place they have the same
/// elevation and the same colour.
pub proof fn lemma_seam_continuity_z<F: Fn(i64, i64) -> i32>(
    near: ChunkView,
    far: ChunkView,
    x: int,
    z: int,
    height_at: F,
    col: int,
)
    requires
        near.realizes(x, z, height_at),
        far.realizes(x, z + 1, height_at),
        0 <= col < SIDE,
    ensures
        near.world_x(420 + col) == far.world_x(col),
        near.world_z(420 + col) == far.world_z(col),
        deterministic(height_at) ==> near.vertices[420 + col].y == far.vertices[col].y
            && near.vertices[420 + col].band == far.vertices[col].band,
{
    let a = 420 + col;
    let b = col;
    assert(near.vertices[a].x == plane_x(a) && near.vertices[a].z == plane_z(a));
    assert(far.vertices[b].x == plane_x(b) && far.vertices[b].z == plane_z(b));
    assert(near.vertices[a].band == band_of(near.vertices[a].y as int));
    assert(far.vertices[b].band == band_of(far.vertices[b].y as int));
}

} // verus!
