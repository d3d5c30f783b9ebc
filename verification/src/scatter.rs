//! Scenery: where trees and rocks stand on a chunk.
//!
//! Places are drawn from the triangles of the chunk, each triangle weighted
//! by its area, with the words of a random stream that is seeded by the
//! world seed and the chunk's grid cell. Everything is computed in integers,
//! so the same chunk and seed give the same scenery everywhere.

use vstd::prelude::*;
use rand::rngs::StdRng;
use rand::RngCore;
use rand::SeedableRng;
use crate::level::Ground;
use crate::terrain::{lemma_index_names_vertex, plane_x, plane_z, Chunk, ChunkView, Vertex, INDEX_COUNT};

verus! {

/// Number of places that are tried on every chunk.
pub const DECORATION_COUNT: usize = 24;

/// The rectangle that is kept free of scenery, in world positions. Its
/// border belongs to it.
pub const PLAYABLE_X_MIN: i64 = -135_000;

pub const PLAYABLE_X_MAX: i64 = 135_000;

pub const PLAYABLE_Z_MIN: i64 = -135_000;

pub const PLAYABLE_Z_MAX: i64 = 135_000;

/// Number of steps along each side of a triangle between which a place is
/// told apart.
pub const GRAIN: u64 = 65_536;

#[derive(Clone, Copy, Debug, PartialEq, Eq, Structural)]
pub enum SceneryKind {
    Tree,
    Rock,
}

/// A place for a piece of scenery, in world positions.
#[derive(Clone, Copy, Debug, PartialEq, Eq, Structural)]
pub struct DecorationPoint {
    pub x: i64,
    pub y: i64,
    pub z: i64,
    pub kind: SceneryKind,
}

#[verifier::external_type_specification]
#[verifier::external_body]
pub struct ExStdRng(StdRng);

/// Word `i` of the stream that the standard generator yields when it is
/// seeded with `key`.
pub uninterp spec fn seeded_word(key: u64, i: nat) -> u64;

/// The word that a generator yields after `i` others.
pub uninterp spec fn coming_word(rng: StdRng, i: nat) -> u64;

/// `StdRng::seed_from_u64`: a generator whose stream depends on the key
/// alone, in every run of a program built with the same version of `rand`.
#[verifier::external_body]
fn rng_seeded(key: u64) -> (rng: StdRng)
    ensures
        forall|i: nat| #[trigger] coming_word(rng, i) == seeded_word(key, i),
{
    StdRng::seed_from_u64(key)
}

/// `RngCore::next_u64` of the standard generator: yields the next word and
/// moves the stream on by one.
#[verifier::external_body]
fn rng_next(rng: &mut StdRng) -> (word: u64)
    ensures
        word == coming_word(*old(rng), 0),
        forall|i: nat| #[trigger] coming_word(*final(rng), i) == coming_word(*old(rng), i + 1),
{
    rng.next_u64()
}

/// Whether the world position `(x, z)` lies in the rectangle that is kept
/// free.
pub open spec fn in_playable(x: int, z: int) -> bool {
    PLAYABLE_X_MIN <= x <= PLAYABLE_X_MAX && PLAYABLE_Z_MIN <= z <= PLAYABLE_Z_MAX
}

/// The last sixteen bits of a grid coordinate.
pub open spec fn lane(v: int) -> int {
    (v + 0x8000_0000) % 0x1_0000
}

/// The key of the random stream of the chunk at `(x, z)`: the world seed
/// followed by the two coordinates.
pub open spec fn chunk_key(seed: u32, x: int, z: int) -> int {
    seed * 0x1_0000_0000 + lane(x) * 0x1_0000 + lane(z)
}

/// Chunks inside the streaming grid have streams of their own: two cells, or
/// two seeds, never share a key.
pub proof fn lemma_keys_differ(seed1: u32, x1: int, z1: int, seed2: u32, x2: int, z2: int)
    requires
        crate::level::in_extent(x1, z1),
        crate::level::in_extent(x2, z2),
        chunk_key(seed1, x1, z1) == chunk_key(seed2, x2, z2),
    ensures
        seed1 == seed2,
        x1 == x2,
        z1 == z2,
{
}

/// The square of twice the area of the triangle `a`, `b`, `c`: the squared
/// length of the cross product of two of its sides.
pub open spec fn doubled_area_squared(a: Vertex, b: Vertex, c: Vertex) -> int {
    let ux = b.x - a.x;
    let uy = b.y - a.y;
    let uz = b.z - a.z;
    let vx = c.x - a.x;
    let vy = c.y - a.y;
    let vz = c.z - a.z;
    let cx = uy * vz - uz * vy;
    let cy = uz * vx - ux * vz;
    let cz = ux * vy - uy * vx;
    cx * cx + cy * cy + cz * cz
}

/// `r` is the square root of `n`, rounded down.
pub open spec fn is_root(n: int, r: int) -> bool {
    0 <= r && r * r <= n < (r + 1) * (r + 1)
}

/// The square root of `n`, rounded down.
pub open spec fn root(n: int) -> int {
    choose|r: int| is_root(n, r)
}

/// Number of triangles of a chunk.
pub open spec fn triangles(c: ChunkView) -> int {
    c.indices.len() as int / 3
}

/// Corner `j` of the triangle `t`.
pub open spec fn corner(c: ChunkView, t: int, j: int) -> Vertex {
    c.vertices[c.indices[3 * t + j] as int]
}

/// Weight of the triangle `t`: twice its area, rounded down.
pub open spec fn weight(c: ChunkView, t: int) -> int {
    root(doubled_area_squared(corner(c, t, 0), corner(c, t, 1), corner(c, t, 2)))
}

/// Weight of the triangles before `t`, taken together.
pub open spec fn weight_below(c: ChunkView, t: int) -> int
    decreases t,
{
    if t <= 0 {
        0
    } else {
        weight_below(c, t - 1) + weight(c, t - 1)
    }
}

/// Weight of the whole surface.
pub open spec fn surface(c: ChunkView) -> int {
    weight_below(c, triangles(c))
}

/// The triangle in which the mark `r` falls when the triangles from `t` on
/// are laid end to end by weight: the first whose end lies beyond `r`, or
/// the last triangle.
pub open spec fn picked(c: ChunkView, r: int, t: int) -> int
    decreases triangles(c) - t,
{
    if t + 1 >= triangles(c) || r < weight_below(c, t + 1) {
        t
    } else {
        picked(c, r, t + 1)
    }
}

/// Two shares of a triangle's sides, folded back into the triangle where
/// together they reach beyond it.
pub open spec fn folded(u: int, v: int) -> (int, int) {
    if u + v > GRAIN {
        (GRAIN - u, GRAIN - v)
    } else {
        (u, v)
    }
}

/// The coordinate between `a`, `b` and `c` that lies `u` parts of `GRAIN`
/// towards `b` and `v` parts towards `c`, rounded down.
pub open spec fn blend(a: int, b: int, c: int, u: int, v: int) -> int {
    (a * (GRAIN - u - v) + b * u + c * v) / (GRAIN as int)
}

pub open spec fn kind_of(word: u64) -> SceneryKind {
    if word % 2 == 0 {
        SceneryKind::Tree
    } else {
        SceneryKind::Rock
    }
}

/// The place that four words of the stream give on a chunk, if it is kept:
/// the first word picks the triangle, by weight; the next two pick the place
/// in the triangle; the last picks the kind. A place in the rectangle that
/// is kept free is dropped.
pub open spec fn sample(c: ChunkView, w0: u64, w1: u64, w2: u64, w3: u64) -> Option<
    DecorationPoint,
> {
    let t = picked(c, w0 as int % surface(c), 0);
    let (u, v) = folded(w1 as int % (GRAIN as int), w2 as int % (GRAIN as int));
    let a = corner(c, t, 0);
    let b = corner(c, t, 1);
    let d = corner(c, t, 2);
    let x = c.origin.0 + blend(a.x as int, b.x as int, d.x as int, u, v);
    let y = c.origin.1 + blend(a.y as int, b.y as int, d.y as int, u, v);
    let z = c.origin.2 + blend(a.z as int, b.z as int, d.z as int, u, v);
    if in_playable(x, z) {
        None
    } else {
        Some(DecorationPoint { x: x as i64, y: y as i64, z: z as i64, kind: kind_of(w3) })
    }
}

/// The scenery that the first `count` places of a stream give on a chunk, in
/// the order of the stream. A surface without area has no scenery.
pub open spec fn scatter_points(c: ChunkView, count: nat, words: Seq<u64>) -> Seq<DecorationPoint>
    decreases count,
{
    if count == 0 || surface(c) <= 0 {
        Seq::empty()
    } else {
        let before = scatter_points(c, (count - 1) as nat, words);
        let at = 4 * (count - 1);
        match sample(c, words[at], words[at + 1], words[at + 2], words[at + 3]) {
            Some(point) => before.push(point),
            None => before,
        }
    }
}

/// The first `n` words of the stream with the key `key`.
pub open spec fn stream(key: int, n: nat) -> Seq<u64> {
    Seq::new(n, |i: int| seeded_word(key as u64, i as nat))
}

/// The scenery of a chunk: `count` places are tried, with the stream that
/// belongs to the world seed and the chunk's grid cell.
pub open spec fn scattered(c: ChunkView, count: nat, seed: u32) -> Seq<DecorationPoint> {
    scatter_points(
        c,
        count,
        stream(chunk_key(seed, c.ground.x as int, c.ground.z as int), 4 * count),
    )
}

/// No scenery stands in the rectangle that is kept free, and no more scenery
/// stands on a chunk than places were tried.
pub proof fn lemma_scenery_keeps_clear(c: ChunkView, count: nat, words: Seq<u64>, k: int)
    requires
        c.laid_out(),
        0 <= k < scatter_points(c, count, words).len(),
    ensures
        scatter_points(c, count, words).len() <= count,
        !in_playable(
            scatter_points(c, count, words)[k].x as int,
            scatter_points(c, count, words)[k].z as int,
        ),
    decreases count,
{
    if count > 0 && surface(c) > 0 {
        let before = scatter_points(c, (count - 1) as nat, words);
        if before.len() > 0 {
            lemma_scenery_keeps_clear(c, (count - 1) as nat, words, 0);
        }
        if k < before.len() {
            lemma_scenery_keeps_clear(c, (count - 1) as nat, words, k);
        } else {
            let at = 4 * (count - 1);
            lemma_sample_is_on_the_chunk(c, words[at], words[at + 1], words[at + 2], words[at + 3]);
        }
    }
}

/// A place that is kept lies on its chunk: within the chunk's square in the
/// world, and outside the rectangle that is kept free.
pub proof fn lemma_sample_is_on_the_chunk(c: ChunkView, w0: u64, w1: u64, w2: u64, w3: u64)
    requires
        c.laid_out(),
        surface(c) > 0,
    ensures
        sample(c, w0, w1, w2, w3) matches Some(p) ==> {
            &&& !in_playable(p.x as int, p.z as int)
            &&& c.origin.0 - 25_000 <= p.x <= c.origin.0 + 25_000
            &&& c.origin.2 - 25_000 <= p.z <= c.origin.2 + 25_000
        },
{
    let t = picked(c, w0 as int % surface(c), 0);
    lemma_picked_is_a_triangle(c, w0 as int % surface(c), 0);
    let (u, v) = folded(w1 as int % (GRAIN as int), w2 as int % (GRAIN as int));
    let a = corner(c, t, 0);
    let b = corner(c, t, 1);
    let d = corner(c, t, 2);
    lemma_corner_is_on_the_plane(c, t, 0);
    lemma_corner_is_on_the_plane(c, t, 1);
    lemma_corner_is_on_the_plane(c, t, 2);
    lemma_blend_is_between(a.x as int, b.x as int, d.x as int, u, v, -25_000, 25_000);
    lemma_blend_is_between(a.z as int, b.z as int, d.z as int, u, v, -25_000, 25_000);
    let x = c.origin.0 + blend(a.x as int, b.x as int, d.x as int, u, v);
    let z = c.origin.2 + blend(a.z as int, b.z as int, d.z as int, u, v);
    assert(c.origin.0 == c.ground.x * 50_000);
    assert(c.origin.2 == c.ground.z * 50_000);
    assert(x as i64 == x);
    assert(z as i64 == z);
}

proof fn lemma_corner_is_on_the_plane(c: ChunkView, t: int, j: int)
    requires
        c.laid_out(),
        0 <= t < triangles(c),
        0 <= j < 3,
    ensures
        -25_000 <= corner(c, t, j).x <= 25_000,
        -25_000 <= corner(c, t, j).z <= 25_000,
{
    lemma_index_names_vertex(3 * t + j);
    let i = c.indices[3 * t + j] as int;
    assert(0 <= i < 441);
    assert(c.vertices[i].x == plane_x(i) && c.vertices[i].z == plane_z(i));
    assert(0 <= i % 21 < 21);
    assert(0 <= i / 21 < 21);
}

proof fn lemma_picked_is_a_triangle(c: ChunkView, r: int, t: int)
    requires
        0 <= t < triangles(c),
    ensures
        t <= picked(c, r, t) < triangles(c),
    decreases triangles(c) - t,
{
    if !(t + 1 >= triangles(c) || r < weight_below(c, t + 1)) {
        lemma_picked_is_a_triangle(c, r, t + 1);
    }
}

proof fn lemma_blend_is_between(a: int, b: int, c: int, u: int, v: int, low: int, high: int)
    requires
        low <= a <= high,
        low <= b <= high,
        low <= c <= high,
        0 <= u,
        0 <= v,
        u + v <= GRAIN,
    ensures
        low <= blend(a, b, c, u, v) <= high,
{
    let rest = GRAIN - u - v;
    lemma_scaled_bounds(a, rest, low, high);
    lemma_scaled_bounds(b, u, low, high);
    lemma_scaled_bounds(c, v, low, high);
    let n = a * rest + b * u + c * v;
    assert(low * rest + low * u + low * v == low * GRAIN) by (nonlinear_arith)
        requires
            rest + u + v == GRAIN,
    ;
    assert(high * rest + high * u + high * v == high * GRAIN) by (nonlinear_arith)
        requires
            rest + u + v == GRAIN,
    ;
    assert(low * 65_536 <= n <= high * 65_536);
}

proof fn lemma_root_is_unique(n: int, r: int)
    requires
        is_root(n, r),
    ensures
        root(n) == r,
{
    let s = root(n);
    assert(is_root(n, s));
    assert(s == r) by (nonlinear_arith)
        requires
            is_root(n, s),
            is_root(n, r),
    {
        if s < r {
            assert((s + 1) * (s + 1) <= r * r);
        } else if r < s {
            assert((r + 1) * (r + 1) <= s * s);
        }
    }
}

proof fn lemma_product_bound(a: int, b: int, x: int, y: int)
    requires
        -x <= a <= x,
        -y <= b <= y,
    ensures
        -(x * y) <= a * b <= x * y,
{
    assert(-(x * y) <= a * b <= x * y) by (nonlinear_arith)
        requires
            -x <= a <= x,
            -y <= b <= y,
    {
        assert((x - a) * (y - b) >= 0);
        assert((x + a) * (y + b) >= 0);
        assert((x - a) * (y + b) >= 0);
        assert((x + a) * (y - b) >= 0);
    }
}

/// The square root of `n`, rounded down.
fn square_root(n: u128) -> (r: u64)
    ensures
        r == root(n as int),
        is_root(n as int, r as int),
{
    let mut low: u128 = 0;
    let mut high: u128 = 0x1_0000_0000_0000_0000;
    assert(n < high * high) by (nonlinear_arith)
        requires
            n <= 0xffff_ffff_ffff_ffff_ffff_ffff_ffff_ffff,
            high == 0x1_0000_0000_0000_0000,
    ;
    while high - low > 1
        invariant
            low < high <= 0x1_0000_0000_0000_0000,
            low * low <= n < high * high,
        decreases high - low,
    {
        let mid: u128 = low + (high - low) / 2;
        assert(mid * mid <= 0xffff_ffff_ffff_ffff * 0xffff_ffff_ffff_ffff) by (nonlinear_arith)
            requires
                0 <= mid <= 0xffff_ffff_ffff_ffff,
        ;
        if mid * mid <= n {
            low = mid;
        } else {
            high = mid;
        }
    }
    proof {
        assert(high == low + 1);
        lemma_root_is_unique(n as int, low as int);
    }
    low as u64
}

/// Twice the area of the triangle `a`, `b`, `c`, rounded down.
fn triangle_weight(a: Vertex, b: Vertex, c: Vertex) -> (w: u64)
    requires
        -50_000 <= b.x - a.x <= 50_000,
        -50_000 <= b.z - a.z <= 50_000,
        -50_000 <= c.x - a.x <= 50_000,
        -50_000 <= c.z - a.z <= 50_000,
    ensures
        w == root(doubled_area_squared(a, b, c)),
        w < 0x4_0000_0000_0000,
{
    let ux: i128 = b.x as i128 - a.x as i128;
    let uy: i128 = b.y as i128 - a.y as i128;
    let uz: i128 = b.z as i128 - a.z as i128;
    let vx: i128 = c.x as i128 - a.x as i128;
    let vy: i128 = c.y as i128 - a.y as i128;
    let vz: i128 = c.z as i128 - a.z as i128;
    proof {
        lemma_product_bound(uy as int, vz as int, 0x1_0000_0000, 50_000);
        lemma_product_bound(uz as int, vy as int, 50_000, 0x1_0000_0000);
        lemma_product_bound(uz as int, vx as int, 50_000, 50_000);
        lemma_product_bound(ux as int, vz as int, 50_000, 50_000);
        lemma_product_bound(ux as int, vy as int, 50_000, 0x1_0000_0000);
        lemma_product_bound(uy as int, vx as int, 0x1_0000_0000, 50_000);
    }
    let cx: i128 = uy * vz - uz * vy;
    let cy: i128 = uz * vx - ux * vz;
    let cz: i128 = ux * vy - uy * vx;
    proof {
        lemma_product_bound(cx as int, cx as int, 0x2_0000_0000_0000, 0x2_0000_0000_0000);
        lemma_product_bound(cy as int, cy as int, 0x2_0000_0000_0000, 0x2_0000_0000_0000);
        lemma_product_bound(cz as int, cz as int, 0x2_0000_0000_0000, 0x2_0000_0000_0000);
        assert(cx * cx >= 0) by (nonlinear_arith);
        assert(cy * cy >= 0) by (nonlinear_arith);
        assert(cz * cz >= 0) by (nonlinear_arith);
    }
    let n: i128 = cx * cx + cy * cy + cz * cz;
    let w = square_root(n as u128);
    proof {
        assert(w < 0x4_0000_0000_0000) by (nonlinear_arith)
            requires
                is_root(n as int, w as int),
                n <= 3 * (0x2_0000_0000_0000 * 0x2_0000_0000_0000),
                w >= 0,
        {
            if w >= 0x4_0000_0000_0000 {
                assert(w * w >= 0x4_0000_0000_0000 * 0x4_0000_0000_0000);
            }
        }
    }
    w
}

proof fn lemma_scaled_bounds(a: int, w: int, low: int, high: int)
    requires
        low <= a <= high,
        0 <= w,
    ensures
        low * w <= a * w <= high * w,
{
    assert(low * w <= a * w <= high * w) by (nonlinear_arith)
        requires
            low <= a <= high,
            0 <= w,
    {
        assert((a - low) * w >= 0);
        assert((high - a) * w >= 0);
    }
}

/// The weights of the triangles of a chunk, each added to those before it.
fn cumulative_weights(chunk: &Chunk) -> (cum: Vec<u64>)
    ensures
        chunk@.laid_out(),
        cum@.len() == triangles(chunk@),
        cum@.len() == 800,
        forall|t: int| 0 <= t < cum@.len() ==> #[trigger] cum@[t] == weight_below(chunk@, t + 1),
{
    let _ = chunk.ground();
    let vertices = chunk.vertices();
    let indices = chunk.indices();
    let mut cum: Vec<u64> = Vec::new();
    let mut total: u64 = 0;
    let mut t: usize = 0;
    while t < INDEX_COUNT / 3
        invariant
            t <= INDEX_COUNT / 3,
            chunk@.laid_out(),
            vertices@ == chunk@.vertices,
            indices@ == chunk@.indices,
            cum@.len() == t,
            total == weight_below(chunk@, t as int),
            total <= t * 0x4_0000_0000_0000,
            forall|s: int| 0 <= s < t ==> #[trigger] cum@[s] == weight_below(chunk@, s + 1),
        decreases INDEX_COUNT / 3 - t,
    {
        proof {
            lemma_index_names_vertex(3 * t);
            lemma_index_names_vertex(3 * t + 1);
            lemma_index_names_vertex(3 * t + 2);
        }
        let ia = indices[3 * t] as usize;
        let ib = indices[3 * t + 1] as usize;
        let ic = indices[3 * t + 2] as usize;
        let a = vertices[ia];
        let b = vertices[ib];
        let c = vertices[ic];
        proof {
            assert(a.x == plane_x(ia as int) && a.z == plane_z(ia as int));
            assert(b.x == plane_x(ib as int) && b.z == plane_z(ib as int));
            assert(c.x == plane_x(ic as int) && c.z == plane_z(ic as int));
            assert(a == corner(chunk@, t as int, 0));
            assert(b == corner(chunk@, t as int, 1));
            assert(c == corner(chunk@, t as int, 2));
        }
        let w = triangle_weight(a, b, c);
        assert(w == weight(chunk@, t as int));
        total = total + w;
        cum.push(total);
        t += 1;
    }
    cum
}

/// The triangle in which the mark `r` falls.
fn pick(chunk: &Chunk, cum: &Vec<u64>, r: u64) -> (t: usize)
    requires
        cum@.len() == triangles(chunk@),
        cum@.len() > 0,
        forall|s: int| 0 <= s < cum@.len() ==> #[trigger] cum@[s] == weight_below(chunk@, s + 1),
    ensures
        t == picked(chunk@, r as int, 0),
        t < cum@.len(),
{
    let mut t: usize = 0;
    while t < cum.len() - 1 && r >= cum[t]
        invariant
            t < cum@.len(),
            cum@.len() == triangles(chunk@),
            forall|s: int| 0 <= s < cum@.len() ==> #[trigger] cum@[s] == weight_below(chunk@, s + 1),
            picked(chunk@, r as int, 0) == picked(chunk@, r as int, t as int),
        decreases cum@.len() - t,
    {
        t += 1;
    }
    t
}

/// One coordinate of a place in a triangle.
fn blend_coordinate(a: i32, b: i32, c: i32, u: u64, v: u64) -> (r: i32)
    requires
        u + v <= GRAIN,
    ensures
        r == blend(a as int, b as int, c as int, u as int, v as int),
{
    let grain: i64 = GRAIN as i64;
    let rest: i64 = grain - u as i64 - v as i64;
    proof {
        lemma_scaled_bounds(a as int, rest as int, -0x8000_0000, 0x7fff_ffff);
        lemma_scaled_bounds(b as int, u as int, -0x8000_0000, 0x7fff_ffff);
        lemma_scaled_bounds(c as int, v as int, -0x8000_0000, 0x7fff_ffff);
    }
    let n: i64 = a as i64 * rest + b as i64 * (u as i64) + c as i64 * (v as i64);
    let q: i64 = if n >= 0 {
        n / grain
    } else {
        -((-(n + 1)) / grain) - 1
    };
    q as i32
}

/// The place that four words give on a chunk, if it is kept.
fn place(chunk: &Chunk, cum: &Vec<u64>, w0: u64, w1: u64, w2: u64, w3: u64) -> (point: Option<
    DecorationPoint,
>)
    requires
        chunk@.laid_out(),
        cum@.len() == triangles(chunk@),
        cum@.len() == 800,
        forall|s: int| 0 <= s < cum@.len() ==> #[trigger] cum@[s] == weight_below(chunk@, s + 1),
        surface(chunk@) > 0,
    ensures
        point == sample(chunk@, w0, w1, w2, w3),
{
    let total = cum[cum.len() - 1];
    let t = pick(chunk, cum, w0 % total);
    let mut u: u64 = w1 % GRAIN;
    let mut v: u64 = w2 % GRAIN;
    if u + v > GRAIN {
        u = GRAIN - u;
        v = GRAIN - v;
    }
    let vertices = chunk.vertices();
    let indices = chunk.indices();
    proof {
        lemma_index_names_vertex(3 * t);
        lemma_index_names_vertex(3 * t + 1);
        lemma_index_names_vertex(3 * t + 2);
    }
    let a = vertices[indices[3 * t] as usize];
    let b = vertices[indices[3 * t + 1] as usize];
    let d = vertices[indices[3 * t + 2] as usize];
    let lx = blend_coordinate(a.x, b.x, d.x, u, v);
    let ly = blend_coordinate(a.y, b.y, d.y, u, v);
    let lz = blend_coordinate(a.z, b.z, d.z, u, v);
    let origin = chunk.world_origin();
    let x: i64 = origin.0 + lx as i64;
    let y: i64 = origin.1 + ly as i64;
    let z: i64 = origin.2 + lz as i64;
    if PLAYABLE_X_MIN <= x && x <= PLAYABLE_X_MAX && PLAYABLE_Z_MIN <= z && z <= PLAYABLE_Z_MAX {
        None
    } else {
        let kind = if w3 % 2 == 0 {
            SceneryKind::Tree
        } else {
            SceneryKind::Rock
        };
        Some(DecorationPoint { x, y, z, kind })
    }
}

/// The key of the random stream of the chunk at `ground`.
pub fn stream_key(seed: u32, ground: Ground) -> (key: u64)
    ensures
        key == chunk_key(seed, ground.x as int, ground.z as int),
{
    let lx: u64 = ((ground.x as i64 + 0x8000_0000) % 0x1_0000) as u64;
    let lz: u64 = ((ground.z as i64 + 0x8000_0000) % 0x1_0000) as u64;
    seed as u64 * 0x1_0000_0000 + lx * 0x1_0000 + lz
}

/// The number of places that `words` words of a stream are enough for, up to
/// `count`.
pub open spec fn places_in(count: int, words: int) -> nat {
    if count <= words / 4 {
        count as nat
    } else {
        (words / 4) as nat
    }
}

/// Scatters scenery over a chunk with the words given: four words to a
/// place, as many places as `count` asks for and the words are enough for.
pub fn scatter_from(chunk: &Chunk, count: usize, words: &Vec<u64>) -> (points: Vec<DecorationPoint>)
    ensures
        points@ == scatter_points(chunk@, places_in(count as int, words@.len() as int), words@),
{
    let places: usize = if count <= words.len() / 4 {
        count
    } else {
        words.len() / 4
    };
    let cum = cumulative_weights(chunk);
    let mut points: Vec<DecorationPoint> = Vec::new();
    if cum[cum.len() - 1] == 0 {
        return points;
    }
    let mut i: usize = 0;
    while i < places
        invariant
            i <= places,
            places * 4 <= words@.len() <= usize::MAX,
            chunk@.laid_out(),
            cum@.len() == triangles(chunk@),
            cum@.len() == 800,
            forall|s: int| 0 <= s < cum@.len() ==> #[trigger] cum@[s] == weight_below(chunk@, s + 1),
            surface(chunk@) > 0,
            points@ == scatter_points(chunk@, i as nat, words@),
        decreases places - i,
    {
        let at: usize = 4 * i;
        match place(chunk, &cum, words[at], words[at + 1], words[at + 2], words[at + 3]) {
            Some(point) => {
                points.push(point);
            },
            None => {},
        }
        i += 1;
    }
    points
}

/// Scatters scenery over a chunk: `count` places are tried, with the random
/// stream that belongs to `seed` and the chunk's grid cell. The same chunk,
/// count and seed always give the same scenery.
pub fn scatter(chunk: &Chunk, count: usize, seed: u32) -> (points: Vec<DecorationPoint>)
    ensures
        points@ == scattered(chunk@, count as nat, seed),
{
    let key = stream_key(seed, chunk.ground());
    let ghost words = stream(key as int, 4 * (count as nat));
    let cum = cumulative_weights(chunk);
    let mut points: Vec<DecorationPoint> = Vec::new();
    if cum[cum.len() - 1] == 0 {
        return points;
    }
    let mut rng = rng_seeded(key);
    let mut i: usize = 0;
    while i < count
        invariant
            i <= count,
            words == stream(key as int, 4 * (count as nat)),
            chunk@.laid_out(),
            cum@.len() == triangles(chunk@),
            cum@.len() == 800,
            forall|s: int| 0 <= s < cum@.len() ==> #[trigger] cum@[s] == weight_below(chunk@, s + 1),
            surface(chunk@) > 0,
            forall|j: nat| #[trigger] coming_word(rng, j) == seeded_word(key, 4 * (i as nat) + j),
            points@ == scatter_points(chunk@, i as nat, words),
        decreases count - i,
    {
        let w0 = rng_next(&mut rng);
        let w1 = rng_next(&mut rng);
        let w2 = rng_next(&mut rng);
        let w3 = rng_next(&mut rng);
        proof {
            assert(w0 == words[4 * i as int]);
            assert(w1 == words[4 * i as int + 1]);
            assert(w2 == words[4 * i as int + 2]);
            assert(w3 == words[4 * i as int + 3]);
        }
        match place(chunk, &cum, w0, w1, w2, w3) {
            Some(point) => {
                points.push(point);
            },
            None => {},
        }
        i += 1;
    }
    points
}

} // verus!
