//! The streaming grid: which cells of the world have been generated.

use vstd::prelude::*;
use crate::scatter::{scatter, DECORATION_COUNT};
use crate::terrain::{create_plane, create_terrain, Chunk, SEED};

verus! {

/// Number of cells along each side of the streaming grid.
pub const MAX_GRID_SIZE: usize = 128;

/// Shift that maps grid coordinates onto table indices, so that negative
/// coordinates are representable.
pub const GRID_OFFSET: i32 = 64;

/// The grid cell that a piece of generated ground occupies.
#[derive(Clone, Copy, Debug, PartialEq, Eq, Structural)]
pub struct Ground {
    pub x: i32,
    pub z: i32,
}

impl Ground {
    pub fn new(x: i32, z: i32) -> (ground: Self)
        ensures
            ground == (Ground { x, z }),
    {
        Self { x, z }
    }
}

/// Whether `(x, z)` lies inside the fixed extent of the streaming grid.
pub open spec fn in_extent(x: int, z: int) -> bool {
    -64 <= x < 64 && -64 <= z < 64
}

/// Position of the cell `(x, z)` in the occupancy table.
pub open spec fn cell_index(x: int, z: int) -> int {
    (x + 64) * 128 + (z + 64)
}

/// A cell that can be generated: it lies inside the extent and has not been
/// generated yet.
pub open spec fn missing(built: Set<(int, int)>, c: (int, int)) -> bool {
    in_extent(c.0, c.1) && !built.contains(c)
}

/// The cell `c` alone if it can be generated, nothing otherwise.
pub open spec fn keep(built: Set<(int, int)>, c: (int, int)) -> Seq<(int, int)> {
    if missing(built, c) {
        seq![c]
    } else {
        Seq::empty()
    }
}

/// The neighbours of `(x, z)` that can be generated, in the order left,
/// right, up, down. Diagonal cells are no neighbours.
pub open spec fn empty_neighbours(built: Set<(int, int)>, x: int, z: int) -> Seq<(int, int)> {
    keep(built, (x - 1, z)) + keep(built, (x + 1, z)) + keep(built, (x, z - 1)) + keep(
        built,
        (x, z + 1),
    )
}

/// The four cells next to `(x, z)`.
pub open spec fn four_neighbours(x: int, z: int) -> Set<(int, int)> {
    set![(x - 1, z), (x + 1, z), (x, z - 1), (x, z + 1)]
}

/// The cells of a list of grid coordinates.
pub open spec fn cells(coords: Seq<(i32, i32)>) -> Seq<(int, int)> {
    coords.map_values(|c: (i32, i32)| (c.0 as int, c.1 as int))
}

/// The generated cells after an attempt to generate `c`: `c` joins them if it
/// could be generated, and nothing changes otherwise.
pub open spec fn built_after(built: Set<(int, int)>, c: (int, int)) -> Set<(int, int)> {
    if missing(built, c) {
        built.insert(c)
    } else {
        built
    }
}

/// The cells that a touch of the chunk at `(x, z)` brings: its neighbours
/// that can be generated, if the chunk itself is known, and none otherwise.
pub open spec fn expansion(built: Set<(int, int)>, x: int, z: int) -> Seq<(int, int)> {
    if in_extent(x, z) && built.contains((x, z)) {
        empty_neighbours(built, x, z)
    } else {
        Seq::empty()
    }
}

/// The cells that a run of touches brings, in the order in which they are
/// generated. Each touch is answered on the grid as the touches before it
/// have left it.
pub open spec fn realized(built: Set<(int, int)>, touched: Seq<(int, int)>) -> Seq<(int, int)>
    decreases touched.len(),
{
    if touched.len() == 0 {
        Seq::empty()
    } else {
        let before = realized(built, touched.drop_last());
        before + expansion(built.union(before.to_set()), touched.last().0, touched.last().1)
    }
}

/// Each chunk of `chunks` is the terrain of the cell at the same place in
/// `coords`.
pub open spec fn chunks_realize<F: Fn(i64, i64) -> i32>(
    chunks: Seq<Chunk>,
    coords: Seq<(int, int)>,
    height_at: F,
) -> bool {
    &&& chunks.len() == coords.len()
    &&& forall|k: int|
        0 <= k < coords.len() ==> (#[trigger] chunks[k]).built_for(
            coords[k].0,
            coords[k].1,
            height_at,
        )
}

/// Notice that the agent has reached the edge of a chunk.
#[derive(Clone, Copy, Debug, PartialEq, Eq, Structural)]
pub struct BoundaryTouchEvent {
    pub agent: u64,
    pub ground: Ground,
}

/// One party of a collision, as the physics engine reports it: whether it
/// belongs to the agent, and the cell of the ground that it is, if it
/// is ground.
#[derive(Clone, Copy, Debug, PartialEq, Eq, Structural)]
pub struct CollisionParty {
    pub entity: u64,
    pub of_agent: bool,
    pub ground: Option<Ground>,
}

/// The touch that a collision of two parties amounts to: one party is
/// ground and the other belongs to the agent. Where both readings hold, the
/// first party is the ground.
pub open spec fn touch_of(first: CollisionParty, second: CollisionParty) -> Option<BoundaryTouchEvent> {
    if second.of_agent && first.ground.is_some() {
        Some(BoundaryTouchEvent { agent: second.entity, ground: first.ground.unwrap() })
    } else if first.of_agent && second.ground.is_some() {
        Some(BoundaryTouchEvent { agent: first.entity, ground: second.ground.unwrap() })
    } else {
        None
    }
}

/// Reads a collision as a touch of a chunk by the agent, if it is one.
pub fn boundary_touch(first: CollisionParty, second: CollisionParty) -> (event: Option<BoundaryTouchEvent>)
    ensures
        event == touch_of(first, second),
{
    if second.of_agent {
        if let Some(ground) = first.ground {
            return Some(BoundaryTouchEvent { agent: second.entity, ground });
        }
    }
    if first.of_agent {
        if let Some(ground) = second.ground {
            return Some(BoundaryTouchEvent { agent: first.entity, ground });
        }
    }
    None
}

/// The cells that a list of events names.
pub open spec fn touched(events: Seq<BoundaryTouchEvent>) -> Seq<(int, int)> {
    events.map_values(|e: BoundaryTouchEvent| (e.ground.x as int, e.ground.z as int))
}

/// Occupancy table of the streaming grid.
pub struct LevelManager {
    grid: Vec<bool>,
}

impl View for LevelManager {
    type V = Set<(int, int)>;

    /// The set of cells that have been generated.
    closed spec fn view(&self) -> Set<(int, int)> {
        Set::new(|c: (int, int)| in_extent(c.0, c.1) && self.grid@[cell_index(c.0, c.1)])
    }
}

impl LevelManager {
    #[verifier::type_invariant]
    spec fn table_is_complete(&self) -> bool {
        self.grid@.len() == 128 * 128
    }

    /// A grid in which no cell has been generated.
    pub fn new() -> (r: Self)
        ensures
            r@ == Set::<(int, int)>::empty(),
    {
        let mut grid: Vec<bool> = Vec::new();
        let mut i: usize = 0;
        while i < MAX_GRID_SIZE * MAX_GRID_SIZE
            invariant
                i <= MAX_GRID_SIZE * MAX_GRID_SIZE,
                grid@.len() == i,
                forall|k: int| 0 <= k < i ==> !grid@[k],
            decreases MAX_GRID_SIZE * MAX_GRID_SIZE - i,
        {
            grid.push(false);
            i += 1;
        }
        let r = LevelManager { grid };
        assert(r@ =~= Set::<(int, int)>::empty());
        r
    }

    /// Whether the cell `(x, z)` has been generated. Cells outside the extent
    /// never are.
    pub fn check_element(&self, x: i32, z: i32) -> (r: bool)
        ensures
            r == self@.contains((x as int, z as int)),
    {
        proof {
            use_type_invariant(self);
        }
        if -GRID_OFFSET <= x && x < GRID_OFFSET && -GRID_OFFSET <= z && z < GRID_OFFSET {
            let xi: usize = (x + GRID_OFFSET) as usize;
            let zi: usize = (z + GRID_OFFSET) as usize;
            self.grid[xi * MAX_GRID_SIZE + zi]
        } else {
            false
        }
    }

    fn set_element(&mut self, x: i32, z: i32)
        requires
            in_extent(x as int, z as int),
        ensures
            final(self)@ == old(self)@.insert((x as int, z as int)),
    {
        proof {
            use_type_invariant(&*self);
        }
        let xi: usize = (x + GRID_OFFSET) as usize;
        let zi: usize = (z + GRID_OFFSET) as usize;
        self.grid[xi * MAX_GRID_SIZE + zi] = true;
        assert(self@ =~= old(self)@.insert((x as int, z as int))) by {
            assert forall|c: (int, int)| in_extent(c.0, c.1) && c != (x as int, z as int) implies cell_index(
                c.0,
                c.1,
            ) != cell_index(x as int, z as int) by {}
        }
    }

    /// Adds the cell `(x, z)` to `out` if it can be generated.
    fn push_missing(&self, out: &mut Vec<(i32, i32)>, x: i64, z: i64)
        ensures
            cells(final(out)@) == cells(old(out)@) + keep(self@, (x as int, z as int)),
    {
        let offset: i64 = GRID_OFFSET as i64;
        if -offset <= x && x < offset && -offset <= z && z < offset {
            let cx: i32 = x as i32;
            let cz: i32 = z as i32;
            if !self.check_element(cx, cz) {
                out.push((cx, cz));
                assert(cells(out@) =~= cells(old(out)@) + seq![(x as int, z as int)]);
                return ;
            }
        }
        assert(cells(out@) =~= cells(old(out)@) + Seq::<(int, int)>::empty());
    }

    /// The neighbours of `(x, z)` that have not been generated: left, right,
    /// up, down, without those outside the extent.
    pub fn get_empty_grid_neighbours(&self, x: i32, z: i32) -> (r: Vec<(i32, i32)>)
        ensures
            cells(r@) == empty_neighbours(self@, x as int, z as int),
    {
        let mut out: Vec<(i32, i32)> = Vec::new();
        let xl: i64 = x as i64;
        let zl: i64 = z as i64;
        assert(cells(out@) =~= Seq::<(int, int)>::empty());
        self.push_missing(&mut out, xl - 1, zl);
        self.push_missing(&mut out, xl + 1, zl);
        self.push_missing(&mut out, xl, zl - 1);
        self.push_missing(&mut out, xl, zl + 1);
        assert(cells(out@) =~= empty_neighbours(self@, x as int, z as int));
        out
    }

    /// Generates the cell `(x, z)` unless it has been generated before or
    /// lies outside the extent; then nothing happens. A generated cell is
    /// marked, and its terrain is handed out with its scenery.
    pub fn create_grid<F: Fn(i64, i64) -> i32>(&mut self, x: i32, z: i32, height_at: &F) -> (chunk:
        Option<Chunk>)
        requires
            forall|a: i64, b: i64| call_requires(*height_at, (a, b)),
        ensures
            chunk.is_some() == missing(old(self)@, (x as int, z as int)),
            chunk matches Some(c) ==> c.built_for(x as int, z as int, *height_at),
            final(self)@ == built_after(old(self)@, (x as int, z as int)),
    {
        let inside = -GRID_OFFSET <= x && x < GRID_OFFSET && -GRID_OFFSET <= z && z < GRID_OFFSET;
        if !inside || self.check_element(x, z) {
            return None;
        }
        let plane = create_plane(Ground { x, z });
        let terrain = create_terrain(plane, height_at);
        let points = scatter(&terrain, DECORATION_COUNT, SEED);
        self.set_element(x, z);
        Some(terrain.with_decorations(points))
    }

    /// Answers one touch of the chunk at `(x, z)`, adding the new chunks to
    /// `out`.
    fn expand_into<F: Fn(i64, i64) -> i32>(
        &mut self,
        x: i32,
        z: i32,
        height_at: &F,
        out: &mut Vec<Chunk>,
    )
        requires
            forall|a: i64, b: i64| call_requires(*height_at, (a, b)),
        ensures
            final(self)@ == old(self)@.union(expansion(old(self)@, x as int, z as int).to_set()),
            final(out)@.len() == old(out)@.len() + expansion(old(self)@, x as int, z as int).len(),
            final(out)@.subrange(0, old(out)@.len() as int) == old(out)@,
            chunks_realize(
                final(out)@.subrange(old(out)@.len() as int, final(out)@.len() as int),
                expansion(old(self)@, x as int, z as int),
                *height_at,
            ),
    {
        let ghost target = expansion(self@, x as int, z as int);
        if !self.check_element(x, z) {
            proof {
                assert(target =~= Seq::<(int, int)>::empty());
                assert(self@.union(target.to_set()) =~= self@);
                assert(out@.subrange(0, out@.len() as int) =~= out@);
            }
            return ;
        }
        let neighbours = self.get_empty_grid_neighbours(x, z);
        proof {
            lemma_neighbour_correctness(self@, x as int, z as int);
            assert(cells(neighbours@) == target);
        }
        let mut i: usize = 0;
        while i < neighbours.len()
            invariant
                i <= neighbours@.len(),
                forall|a: i64, b: i64| call_requires(*height_at, (a, b)),
                cells(neighbours@) == target,
                target.no_duplicates(),
                forall|k: int| 0 <= k < target.len() ==> missing(old(self)@, #[trigger] target[k]),
                self@ == old(self)@.union(target.take(i as int).to_set()),
                out@.len() == old(out)@.len() + i,
                out@.subrange(0, old(out)@.len() as int) == old(out)@,
                chunks_realize(
                    out@.subrange(old(out)@.len() as int, out@.len() as int),
                    target.take(i as int),
                    *height_at,
                ),
            decreases neighbours@.len() - i,
        {
            let (nx, nz) = neighbours[i];
            let ghost before = self@;
            let ghost had = out@;
            proof {
                assert(target[i as int] == (nx as int, nz as int));
                assert(!target.take(i as int).to_set().contains(target[i as int])) by {
                    if target.take(i as int).contains(target[i as int]) {
                        let j = choose|j: int|
                            0 <= j < i && target.take(i as int)[j] == target[i as int];
                        assert(target[j] == target[i as int]);
                    }
                }
                assert(missing(before, (nx as int, nz as int)));
            }
            match self.create_grid(nx, nz, height_at) {
                Some(chunk) => {
                    out.push(chunk);
                },
                None => {},
            }
            proof {
                let done = target.take(i as int + 1);
                assert(done =~= target.take(i as int).push(target[i as int]));
                assert(self@ =~= old(self)@.union(done.to_set())) by {
                    assert forall|c: (int, int)| done.to_set().contains(c) <==> (target.take(
                        i as int,
                    ).to_set().contains(c) || c == target[i as int]) by {
                        if done.contains(c) {
                            let j = choose|j: int| 0 <= j < done.len() && done[j] == c;
                            if j < i {
                                assert(target.take(i as int)[j] == c);
                            }
                        }
                        if target.take(i as int).contains(c) {
                            let j = choose|j: int| 0 <= j < i && target.take(i as int)[j] == c;
                            assert(done[j] == c);
                        }
                        if c == target[i as int] {
                            assert(done[i as int] == c);
                        }
                    }
                }
                let start = old(out)@.len() as int;
                assert(out@.subrange(0, start) =~= had.subrange(0, start));
                let fresh = out@.subrange(start, out@.len() as int);
                let earlier = had.subrange(start, had.len() as int);
                assert forall|k: int| 0 <= k < done.len() implies (#[trigger] fresh[k]).built_for(
                    done[k].0,
                    done[k].1,
                    *height_at,
                ) by {
                    if k < i {
                        assert(fresh[k] == earlier[k]);
                        assert(target.take(i as int)[k] == done[k]);
                    }
                }
            }
            i += 1;
        }
        proof {
            assert(target.take(i as int) =~= target);
        }
    }

    /// Answers one touch of the chunk at `(x, z)`: every neighbour of that
    /// chunk that can be generated is generated, left, right, up, down. A
    /// touch of a chunk that is not known generates nothing.
    pub fn expand<F: Fn(i64, i64) -> i32>(&mut self, x: i32, z: i32, height_at: &F) -> (chunks:
        Vec<Chunk>)
        requires
            forall|a: i64, b: i64| call_requires(*height_at, (a, b)),
        ensures
            final(self)@ == old(self)@.union(expansion(old(self)@, x as int, z as int).to_set()),
            chunks_realize(chunks@, expansion(old(self)@, x as int, z as int), *height_at),
    {
        let mut out: Vec<Chunk> = Vec::new();
        self.expand_into(x, z, height_at, &mut out);
        assert(out@.subrange(0, out@.len() as int) =~= out@);
        out
    }
}

/// Generates the chunk at the origin of the world, where play begins.
pub fn setup_level<F: Fn(i64, i64) -> i32>(level_manager: &mut LevelManager, height_at: &F) -> (chunk:
    Option<Chunk>)
    requires
        forall|a: i64, b: i64| call_requires(*height_at, (a, b)),
    ensures
        chunk.is_some() == missing(old(level_manager)@, (0, 0)),
        chunk matches Some(c) ==> c.built_for(0, 0, *height_at),
        final(level_manager)@ == built_after(old(level_manager)@, (0, 0)),
{
    level_manager.create_grid(0, 0, height_at)
}

/// Answers the touches of one step, in their order, and hands out the chunks
/// that they brought.
pub fn generate_new_grounds<F: Fn(i64, i64) -> i32>(
    level_manager: &mut LevelManager,
    events: &Vec<BoundaryTouchEvent>,
    height_at: &F,
) -> (chunks: Vec<Chunk>)
    requires
        forall|a: i64, b: i64| call_requires(*height_at, (a, b)),
    ensures
        final(level_manager)@ == old(level_manager)@.union(
            realized(old(level_manager)@, touched(events@)).to_set(),
        ),
        chunks_realize(chunks@, realized(old(level_manager)@, touched(events@)), *height_at),
{
    let mut out: Vec<Chunk> = Vec::new();
    let ghost start = level_manager@;
    let mut i: usize = 0;
    proof {
        assert(touched(events@).take(0) =~= Seq::<(int, int)>::empty());
        assert(start.union(Seq::<(int, int)>::empty().to_set()) =~= start);
    }
    while i < events.len()
        invariant
            i <= events@.len(),
            forall|a: i64, b: i64| call_requires(*height_at, (a, b)),
            level_manager@ == start.union(realized(start, touched(events@).take(i as int)).to_set()),
            chunks_realize(out@, realized(start, touched(events@).take(i as int)), *height_at),
        decreases events@.len() - i,
    {
        let event = events[i];
        let ghost had = out@;
        let ghost before = realized(start, touched(events@).take(i as int));
        level_manager.expand_into(event.ground.x, event.ground.z, height_at, &mut out);
        proof {
            let upto = touched(events@).take(i as int + 1);
            assert(upto.drop_last() =~= touched(events@).take(i as int));
            assert(upto.last() == (event.ground.x as int, event.ground.z as int));
            let step = expansion(
                start.union(before.to_set()),
                event.ground.x as int,
                event.ground.z as int,
            );
            assert(realized(start, upto) == before + step);
            assert(level_manager@ =~= start.union((before + step).to_set())) by {
                assert forall|c: (int, int)| (before + step).to_set().contains(c) <==> (
                before.to_set().contains(c) || step.to_set().contains(c)) by {
                    if (before + step).contains(c) {
                        let j = choose|j: int|
                            0 <= j < (before + step).len() && (before + step)[j] == c;
                        if j < before.len() {
                            assert(before[j] == c);
                        } else {
                            assert(step[j - before.len()] == c);
                        }
                    }
                    if before.contains(c) {
                        let j = choose|j: int| 0 <= j < before.len() && before[j] == c;
                        assert((before + step)[j] == c);
                    }
                    if step.contains(c) {
                        let j = choose|j: int| 0 <= j < step.len() && step[j] == c;
                        assert((before + step)[j + before.len()] == c);
                    }
                }
            }
            let fresh = out@.subrange(had.len() as int, out@.len() as int);
            assert forall|k: int| 0 <= k < (before + step).len() implies (#[trigger] out@[k]).built_for(
                (before + step)[k].0,
                (before + step)[k].1,
                *height_at,
            ) by {
                if k < before.len() {
                    assert(out@.subrange(0, had.len() as int)[k] == had[k]);
                } else {
                    assert(fresh[k - before.len()] == out@[k]);
                }
            }
        }
        i += 1;
    }
    proof {
        assert(touched(events@).take(i as int) =~= touched(events@));
    }
    out
}

/// Of the four cells next to `(x, z)`, exactly those inside the extent that
/// have not been generated are listed, each once.
pub proof fn lemma_neighbour_correctness(built: Set<(int, int)>, x: int, z: int)
    ensures
        empty_neighbours(built, x, z).no_duplicates(),
        forall|k: int|
            0 <= k < empty_neighbours(built, x, z).len() ==> missing(
                built,
                #[trigger] empty_neighbours(built, x, z)[k],
            ),
        empty_neighbours(built, x, z).to_set() == four_neighbours(x, z).filter(
            |c: (int, int)| missing(built, c),
        ),
{
    let s = empty_neighbours(built, x, z);
    let a = keep(built, (x - 1, z));
    let b = keep(built, (x + 1, z));
    let c = keep(built, (x, z - 1));
    let d = keep(built, (x, z + 1));
    assert(s == a + b + c + d);
    assert forall|k: int| 0 <= k < s.len() implies missing(built, #[trigger] s[k])
        && four_neighbours(x, z).contains(s[k]) by {}
    assert forall|i: int, j: int| 0 <= i < s.len() && 0 <= j < s.len() && i != j implies s[i]
        != s[j] by {}
    assert(s.to_set() =~= four_neighbours(x, z).filter(|c: (int, int)| missing(built, c))) by {
        assert forall|p: (int, int)|
            four_neighbours(x, z).contains(p) && missing(built, p) implies s.contains(p) by {
            if p == (x - 1, z) {
                assert(s[0] == p);
            } else if p == (x + 1, z) {
                assert(s[a.len() as int] == p);
            } else if p == (x, z - 1) {
                assert(s[(a.len() + b.len()) as int] == p);
            } else {
                assert(s[(a.len() + b.len() + c.len()) as int] == p);
            }
        }
    }
}

/// Generating a cell twice is generating it once: after the first attempt the
/// cell cannot be generated again, so the second attempt hands out nothing
/// and leaves the grid as it was.
pub proof fn lemma_build_is_idempotent(built: Set<(int, int)>, c: (int, int))
    ensures
        !missing(built_after(built, c), c),
        built_after(built_after(built, c), c) == built_after(built, c),
{
}

/// Cells are generated independently: whether another cell was generated
/// before or after does not change whether a cell can be generated, and two
/// cells generated in either order leave the same grid.
pub proof fn lemma_build_order_is_free(built: Set<(int, int)>, c: (int, int), d: (int, int))
    requires
        c != d,
    ensures
        missing(built_after(built, d), c) == missing(built, c),
        built_after(built_after(built, c), d) == built_after(built_after(built, d), c),
{
    assert(built_after(built_after(built, c), d) =~= built_after(built_after(built, d), c));
}

/// Once a touch has been answered, the same touch brings nothing more: no
/// neighbour of the touched chunk is left to generate.
pub proof fn lemma_touch_settles(built: Set<(int, int)>, x: int, z: int)
    ensures
        expansion(built.union(expansion(built, x, z).to_set()), x, z) == Seq::<(int, int)>::empty(),
        empty_neighbours(built.union(empty_neighbours(built, x, z).to_set()), x, z) == Seq::<
            (int, int),
        >::empty(),
{
    lemma_neighbour_correctness(built, x, z);
    let n = empty_neighbours(built, x, z);
    let grown = built.union(n.to_set());
    assert forall|c: (int, int)| four_neighbours(x, z).contains(c) implies !missing(grown, c) by {
        if missing(built, c) {
            assert(four_neighbours(x, z).filter(|p: (int, int)| missing(built, p)).contains(c));
            assert(n.to_set().contains(c));
        }
    }
    assert(empty_neighbours(grown, x, z) =~= Seq::<(int, int)>::empty());
    if in_extent(x, z) && built.contains((x, z)) {
    } else {
        assert(expansion(built, x, z) =~= Seq::<(int, int)>::empty());
        assert(built.union(expansion(built, x, z).to_set()) =~= built);
    }
}

/// Cells outside the extent are never generated, whatever is touched.
pub proof fn lemma_realized_in_extent(built: Set<(int, int)>, events: Seq<(int, int)>, k: int)
    requires
        0 <= k < realized(built, events).len(),
    ensures
        in_extent(realized(built, events)[k].0, realized(built, events)[k].1),
        !built.contains(realized(built, events)[k]),
    decreases events.len(),
{
    if events.len() > 0 {
        let before = realized(built, events.drop_last());
        if k < before.len() {
            lemma_realized_in_extent(built, events.drop_last(), k);
        } else {
            let grid = built.union(before.to_set());
            lemma_neighbour_correctness(grid, events.last().0, events.last().1);
            let step = expansion(grid, events.last().0, events.last().1);
            assert(realized(built, events)[k] == step[k - before.len()]);
            assert(missing(grid, step[k - before.len()]));
        }
    }
}

} // verus!
