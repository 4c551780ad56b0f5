use crate::map::{Grid, TileType};
use crate::map_builders::common::repainted;
use crate::map_builders::{BuilderMap, Fields, InitialMapBuilder, Position};
use crate::rng::roll_dice;
use vstd::prelude::*;

verus! {

/// How far apart two cells count as being.
#[derive(PartialEq, Eq, Structural, Copy, Clone, Debug)]
pub enum DistanceAlgorithm {
    Pythagoras,
    Manhattan,
    Chebyshev,
}

/// The stage that splits the grid into the regions nearest to a number of
/// scattered seed cells and leaves walls where regions meet.
pub struct VoronoiBuilder {
    pub n_seeds: usize,
    pub distance_algorithm: DistanceAlgorithm,
}

/// The most draws spent on finding seed cells.
pub const SEED_ATTEMPTS: u32 = 0xffff_ffff;

/// The absolute difference of two numbers.
pub open spec fn gap(a: int, b: int) -> int {
    if a >= b {
        a - b
    } else {
        b - a
    }
}

/// The distance between `(ax, ay)` and `(bx, by)`: the square of the
/// straight-line distance, the sum of the distances along the axes, or the
/// larger of the two.
pub open spec fn distance(alg: DistanceAlgorithm, ax: int, ay: int, bx: int, by: int) -> int {
    let dx = gap(ax, bx);
    let dy = gap(ay, by);
    match alg {
        DistanceAlgorithm::Pythagoras => dx * dx + dy * dy,
        DistanceAlgorithm::Manhattan => dx + dy,
        DistanceAlgorithm::Chebyshev => if dx > dy {
            dx
        } else {
            dy
        },
    }
}

/// Among the first `n` seeds, the one nearest to `(x, y)`; of several
/// equally near, the first.
pub open spec fn nearest(seeds: Seq<Position>, alg: DistanceAlgorithm, x: int, y: int, n: int) -> int
    decreases n,
{
    if n <= 1 {
        0
    } else {
        let best = nearest(seeds, alg, x, y, n - 1);
        if distance(alg, x, y, seeds[n - 1].x as int, seeds[n - 1].y as int) < distance(
            alg,
            x,
            y,
            seeds[best].x as int,
            seeds[best].y as int,
        ) {
            n - 1
        } else {
            best
        }
    }
}

/// The seed that the cell of index `idx` belongs to.
pub open spec fn region_of(seeds: Seq<Position>, alg: DistanceAlgorithm, width: int, idx: int) -> int {
    nearest(seeds, alg, idx % width, idx / width, seeds.len() as int)
}

/// Every cell belongs to exactly one seed: `nearest` names a seed, no seed
/// is nearer to the cell than that one, and every seed before it is
/// farther.
pub proof fn lemma_nearest_is_closest(
    seeds: Seq<Position>,
    alg: DistanceAlgorithm,
    x: int,
    y: int,
    n: int,
)
    requires
        1 <= n <= seeds.len(),
    ensures
        0 <= nearest(seeds, alg, x, y, n) < n,
        forall|j: int|
            0 <= j < n ==> distance(
                alg,
                x,
                y,
                seeds[nearest(seeds, alg, x, y, n)].x as int,
                seeds[nearest(seeds, alg, x, y, n)].y as int,
            ) <= distance(alg, x, y, (#[trigger] seeds[j]).x as int, seeds[j].y as int),
        forall|j: int|
            0 <= j < nearest(seeds, alg, x, y, n) ==> distance(
                alg,
                x,
                y,
                seeds[nearest(seeds, alg, x, y, n)].x as int,
                seeds[nearest(seeds, alg, x, y, n)].y as int,
            ) < distance(alg, x, y, (#[trigger] seeds[j]).x as int, seeds[j].y as int),
    decreases n,
{
    if n > 1 {
        lemma_nearest_is_closest(seeds, alg, x, y, n - 1);
    }
}

/// The number of the four neighbors of `(x, y)` that belong to another
/// seed than `(x, y)` itself.
pub open spec fn foreign_neighbors(regions: Seq<i32>, map: &Grid, x: int, y: int) -> int {
    let mine = regions[map.index_of(x, y)];
    let other = |a: int, b: int|
        if regions[map.index_of(a, b)] != mine {
            1int
        } else {
            0int
        };
    other(x - 1, y) + other(x + 1, y) + other(x, y - 1) + other(x, y + 1)
}

/// Whether the stage turns `(x, y)` into floor: the cell lies off the
/// border and fewer than two of its neighbors belong to another seed.
pub open spec fn region_floor(regions: Seq<i32>, map: &Grid, x: int, y: int) -> bool {
    &&& 1 <= x < map.width - 1
    &&& 1 <= y < map.height - 1
    &&& foreign_neighbors(regions, map, x, y) < 2
}

/// Whether the seeds are cells off the top and left border of a grid of
/// the given size, no two the same, and at least one and at most `limit`
/// of them.
pub open spec fn seeds_valid(seeds: Seq<Position>, width: int, height: int, limit: int) -> bool {
    &&& 1 <= seeds.len() <= limit
    &&& forall|i: int| 0 <= i < seeds.len() ==> 1 <= (#[trigger] seeds[i]).x < width && 1 <= seeds[i].y < height
    &&& forall|i: int, j: int| 0 <= i < j < seeds.len() ==> seeds[i] != seeds[j]
}

/// The first `n` of the cells drawn, each of them once: the order is that
/// of the draws, and a cell drawn again is left out.
pub open spec fn drawn_once(draws: Seq<Position>, n: int) -> Seq<Position>
    decreases n,
{
    if n <= 0 {
        Seq::empty()
    } else {
        let earlier = drawn_once(draws, n - 1);
        if earlier.contains(draws[n - 1]) {
            earlier
        } else {
            earlier.push(draws[n - 1])
        }
    }
}

/// The cells drawn once among the first `n` do not depend on the draws
/// after them.
pub proof fn lemma_drawn_once_prefix(draws: Seq<Position>, more: Seq<Position>, n: int)
    requires
        0 <= n <= draws.len() <= more.len(),
        forall|i: int| 0 <= i < n ==> more[i] == draws[i],
    ensures
        drawn_once(more, n) == drawn_once(draws, n),
    decreases n,
{
    if n > 0 {
        lemma_drawn_once_prefix(draws, more, n - 1);
    }
}

/// Whether `seeds` is what the draws `draws` make of a wish for `wanted`
/// seeds: the cells drawn, each once, in the order of the draws. A cell
/// is drawn only while seeds are missing, so the seeds are as many as
/// wanted unless the draws allowed are used up.
pub open spec fn seeds_drawn(
    seeds: Seq<Position>,
    width: int,
    height: int,
    wanted: int,
    draws: Seq<Position>,
) -> bool {
    &&& draws.len() <= SEED_ATTEMPTS
    &&& forall|i: int|
        0 <= i < draws.len() ==> 1 <= (#[trigger] draws[i]).x < width && 1 <= draws[i].y < height
    &&& seeds == drawn_once(draws, draws.len() as int)
    &&& seeds.len() == wanted || draws.len() == SEED_ATTEMPTS
    &&& draws.len() > 0 ==> drawn_once(draws, draws.len() - 1).len() < wanted
}

/// The seed of every cell, cell by cell.
pub open spec fn regions_of(seeds: Seq<Position>, alg: DistanceAlgorithm, map: &Grid) -> Seq<i32> {
    Seq::new(map.cells() as nat, |i: int| region_of(seeds, alg, map.width as int, i) as i32)
}

/// Whether `after` is `before` carved into the regions of the seeds given:
/// the seeds are seeds that the stage can draw, as many as it is asked
/// for unless the draws allowed are used up, and the cells that turn into
/// floor are those inside the regions.
pub open spec fn voronoi_plan(
    before: &Grid,
    after: &Grid,
    limit: int,
    alg: DistanceAlgorithm,
    seeds: Seq<Position>,
) -> bool {
    &&& seeds_valid(seeds, before.width as int, before.height as int, limit)
    &&& exists|draws: Seq<Position>| #[trigger]
        seeds_drawn(seeds, before.width as int, before.height as int, limit, draws)
    &&& repainted(
        before,
        after,
        |x: int, y: int| region_floor(regions_of(seeds, alg, before), before, x, y),
        TileType::Floor,
    )
}

/// The seeds decide what the stage makes of a grid: two grids that are
/// carved into the regions of the same seeds, measured in the same way,
/// hold the same tiles.
pub proof fn lemma_seeds_determine(
    before: &Grid,
    one: &Grid,
    other: &Grid,
    limit: int,
    alg: DistanceAlgorithm,
    seeds: Seq<Position>,
)
    requires
        before.wf(),
        one.wf(),
        other.wf(),
        voronoi_plan(before, one, limit, alg, seeds),
        voronoi_plan(before, other, limit, alg, seeds),
    ensures
        one.tiles@ == other.tiles@,
{
    assert forall|x: int, y: int| one.in_bounds(x, y) implies #[trigger] one.tile_at(x, y)
        == other.tile_at(x, y) by {
        assert(before.in_bounds(x, y));
    }
    Grid::lemma_same_tiles(one, other);
}

impl VoronoiBuilder {
    /// The stage with sixty-four seeds and straight-line distances.
    pub fn new() -> (r: Box<VoronoiBuilder>)
        ensures
            r.n_seeds == 64,
            r.distance_algorithm == DistanceAlgorithm::Pythagoras,
    {
        Box::new(VoronoiBuilder { n_seeds: 64, distance_algorithm: DistanceAlgorithm::Pythagoras })
    }

    /// The stage with sixty-four seeds and straight-line distances.
    pub fn pythagoras() -> (r: Box<VoronoiBuilder>)
        ensures
            r.n_seeds == 64,
            r.distance_algorithm == DistanceAlgorithm::Pythagoras,
    {
        Box::new(VoronoiBuilder { n_seeds: 64, distance_algorithm: DistanceAlgorithm::Pythagoras })
    }

    /// The stage with sixty-four seeds and distances along the axes.
    pub fn manhattan() -> (r: Box<VoronoiBuilder>)
        ensures
            r.n_seeds == 64,
            r.distance_algorithm == DistanceAlgorithm::Manhattan,
    {
        Box::new(VoronoiBuilder { n_seeds: 64, distance_algorithm: DistanceAlgorithm::Manhattan })
    }

    /// The stage with sixty-four seeds and distances by the longer axis.
    pub fn chebyshev() -> (r: Box<VoronoiBuilder>)
        ensures
            r.n_seeds == 64,
            r.distance_algorithm == DistanceAlgorithm::Chebyshev,
    {
        Box::new(VoronoiBuilder { n_seeds: 64, distance_algorithm: DistanceAlgorithm::Chebyshev })
    }

    /// Measures the distance between two cells.
    pub fn measure(&self, ax: i32, ay: i32, bx: i32, by: i32) -> (d: i64)
        requires
            0 <= ax,
            0 <= ay,
            0 <= bx,
            0 <= by,
        ensures
            d == distance(self.distance_algorithm, ax as int, ay as int, bx as int, by as int),
    {
        let dx: i64 = if ax >= bx {
            (ax - bx) as i64
        } else {
            (bx - ax) as i64
        };
        let dy: i64 = if ay >= by {
            (ay - by) as i64
        } else {
            (by - ay) as i64
        };
        match self.distance_algorithm {
            DistanceAlgorithm::Pythagoras => {
                assert(dx * dx <= 0x7fff_ffff * 0x7fff_ffff) by (nonlinear_arith)
                    requires
                        0 <= dx <= 0x7fff_ffff,
                ;
                assert(dy * dy <= 0x7fff_ffff * 0x7fff_ffff) by (nonlinear_arith)
                    requires
                        0 <= dy <= 0x7fff_ffff,
                ;
                assert(0 <= dx * dx) by (nonlinear_arith);
                assert(0 <= dy * dy) by (nonlinear_arith);
                dx * dx + dy * dy
            },
            DistanceAlgorithm::Manhattan => dx + dy,
            DistanceAlgorithm::Chebyshev => if dx > dy {
                dx
            } else {
                dy
            },
        }
    }

    /// Whether `(x, y)` is among the seeds.
    pub fn seed_taken(seeds: &Vec<Position>, x: i32, y: i32) -> (r: bool)
        ensures
            r == exists|i: int| 0 <= i < seeds@.len() && #[trigger] seeds@[i] == (Position { x, y }),
    {
        let n = seeds.len();
        let mut i: usize = 0;
        while i < n
            invariant
                i <= n,
                n == seeds@.len(),
                forall|j: int| 0 <= j < i ==> #[trigger] seeds@[j] != (Position { x, y }),
            decreases n - i,
        {
            if seeds[i].x == x && seeds[i].y == y {
                return true;
            }
            i += 1;
        }
        false
    }

    /// Draws seed cells until there are `n_seeds` different ones, or the
    /// draws allowed for this are used up: the seeds are the cells drawn,
    /// each once, in the order of the draws.
    pub fn pick_seeds(&self, rng: &mut rltk::RandomNumberGenerator, width: i32, height: i32) -> (seeds:
        Vec<Position>)
        requires
            2 <= width,
            2 <= height,
            1 <= self.n_seeds,
        ensures
            seeds_valid(seeds@, width as int, height as int, self.n_seeds as int),
            exists|draws: Seq<Position>| #[trigger]
                seeds_drawn(seeds@, width as int, height as int, self.n_seeds as int, draws),
    {
        let mut seeds: Vec<Position> = Vec::new();
        let mut attempts: u32 = 0;
        let ghost mut draws: Seq<Position> = Seq::empty();
        while seeds.len() < self.n_seeds && attempts < SEED_ATTEMPTS
            invariant
                2 <= width,
                2 <= height,
                seeds@.len() <= self.n_seeds,
                attempts == 0 ==> seeds@.len() == 0,
                attempts > 0 ==> seeds@.len() >= 1,
                attempts == draws.len(),
                forall|i: int|
                    0 <= i < draws.len() ==> 1 <= (#[trigger] draws[i]).x < width && 1
                        <= draws[i].y < height,
                seeds@ == drawn_once(draws, draws.len() as int),
                draws.len() > 0 ==> drawn_once(draws, draws.len() - 1).len() < self.n_seeds,
                forall|i: int|
                    0 <= i < seeds@.len() ==> 1 <= (#[trigger] seeds@[i]).x < width && 1
                        <= seeds@[i].y < height,
                forall|i: int, j: int| 0 <= i < j < seeds@.len() ==> seeds@[i] != seeds@[j],
            decreases SEED_ATTEMPTS - attempts,
        {
            let vx = roll_dice(rng, 1, width - 1);
            let vy = roll_dice(rng, 1, height - 1);
            let ghost found = seeds@;
            let ghost cell = Position { x: vx, y: vy };
            let taken = Self::seed_taken(&seeds, vx, vy);
            if !taken {
                seeds.push(Position { x: vx, y: vy });
            }
            proof {
                let more = draws.push(cell);
                lemma_drawn_once_prefix(draws, more, draws.len() as int);
                if taken {
                    let i = choose|i: int| 0 <= i < found.len() && #[trigger] found[i] == cell;
                    assert(found.contains(cell));
                } else {
                    if found.contains(cell) {
                        let i = choose|i: int| 0 <= i < found.len() && found[i] == cell;
                        assert(found[i] == cell);
                    }
                }
                assert(more[more.len() - 1] == cell);
                draws = more;
            }
            attempts += 1;
        }
        assert(seeds_drawn(seeds@, width as int, height as int, self.n_seeds as int, draws));
        seeds
    }

    /// Finds for every cell the seed it is nearest to.
    #[verifier::rlimit(50)]
    pub fn membership(&self, seeds: &Vec<Position>, map: &Grid) -> (regions: Vec<i32>)
        requires
            map.wf(),
            1 <= seeds@.len() <= i32::MAX,
            forall|i: int| 0 <= i < seeds@.len() ==> 0 <= (#[trigger] seeds@[i]).x && 0 <= seeds@[i].y,
        ensures
            regions@ == regions_of(seeds@, self.distance_algorithm, map),
            forall|i: int| 0 <= i < map.cells() ==> 0 <= #[trigger] regions@[i] < seeds@.len(),
    {
        let n = map.tiles.len();
        let count = seeds.len();
        let mut regions: Vec<i32> = Vec::new();
        let mut i: usize = 0;
        while i < n
            invariant
                map.wf(),
                n == map.cells(),
                count == seeds@.len(),
                1 <= count <= i32::MAX,
                forall|k: int| 0 <= k < seeds@.len() ==> 0 <= (#[trigger] seeds@[k]).x && 0 <= seeds@[k].y,
                i <= n,
                regions@.len() == i,
                forall|k: int|
                    0 <= k < i ==> #[trigger] regions@[k] == region_of(
                        seeds@,
                        self.distance_algorithm,
                        map.width as int,
                        k,
                    ) as i32,
                forall|k: int| 0 <= k < i ==> 0 <= #[trigger] regions@[k] < seeds@.len(),
            decreases n - i,
        {
            let xy = map.idx_xy(i);
            let mut best: usize = 0;
            let mut best_distance = self.measure(xy.0, xy.1, seeds[0].x, seeds[0].y);
            let mut s: usize = 1;
            while s < count
                invariant
                    count == seeds@.len(),
                    1 <= s <= count,
                    0 <= xy.0,
                    0 <= xy.1,
                    forall|k: int|
                        0 <= k < seeds@.len() ==> 0 <= (#[trigger] seeds@[k]).x && 0 <= seeds@[k].y,
                    best == nearest(seeds@, self.distance_algorithm, xy.0 as int, xy.1 as int, s as int),
                    best < s,
                    best_distance == distance(
                        self.distance_algorithm,
                        xy.0 as int,
                        xy.1 as int,
                        seeds@[best as int].x as int,
                        seeds@[best as int].y as int,
                    ),
                decreases count - s,
            {
                let d = self.measure(xy.0, xy.1, seeds[s].x, seeds[s].y);
                if d < best_distance {
                    best = s;
                    best_distance = d;
                }
                s += 1;
            }
            regions.push(best as i32);
            i += 1;
        }
        assert(regions@ =~= regions_of(seeds@, self.distance_algorithm, map));
        regions
    }

    /// Turns into floor every cell off the border that has fewer than two
    /// neighbors of another region, and takes a snapshot after each row.
    #[verifier::rlimit(50)]
    pub fn carve(&self, regions: &Vec<i32>, build_data: &mut BuilderMap)
        requires
            old(build_data).wf(),
            regions@.len() == old(build_data).map.cells(),
        ensures
            final(build_data).wf(),
            final(build_data).extends(old(build_data)),
            final(build_data).same_records(old(build_data)),
            repainted(
                &old(build_data).map,
                &final(build_data).map,
                |x: int, y: int| region_floor(regions@, &old(build_data).map, x, y),
                TileType::Floor,
            ),
            old(build_data).height > 2 ==> final(build_data).history@.len() == old(
                build_data,
            ).history@.len() + old(build_data).height - 2,
            old(build_data).height <= 2 ==> final(build_data).history@.len() == old(
                build_data,
            ).history@.len(),
    {
        let ghost before = *build_data;
        let width = build_data.map.width;
        let height = build_data.map.height;
        let mut y: i32 = 1;
        while y < height - 1
            invariant
                before.wf(),
                build_data.wf(),
                build_data.same_records(&before),
                width == before.map.width,
                height == before.map.height,
                regions@.len() == before.map.cells(),
                1 <= y,
                y <= height - 1 || height <= 2,
                height <= 2 ==> y == 1,
                build_data.history@.len() == before.history@.len() + y - 1,
                forall|a: int, b: int|
                    before.map.in_bounds(a, b) ==> #[trigger] build_data.map.tile_at(a, b) == if b
                        < y && region_floor(regions@, &before.map, a, b) {
                        TileType::Floor
                    } else {
                        before.map.tile_at(a, b)
                    },
            decreases height - y,
        {
            let mut x: i32 = 1;
            while x < width - 1
                invariant
                    before.wf(),
                    build_data.wf(),
                    build_data.same_records(&before),
                    build_data.history@.len() == before.history@.len() + y - 1,
                    width == before.map.width,
                    height == before.map.height,
                    regions@.len() == before.map.cells(),
                    1 <= y < height - 1,
                    1 <= x,
                    x <= width - 1 || width <= 2,
                    forall|a: int, b: int|
                        before.map.in_bounds(a, b) ==> #[trigger] build_data.map.tile_at(a, b)
                            == if (b < y || (b == y && a < x)) && region_floor(
                            regions@,
                            &before.map,
                            a,
                            b,
                        ) {
                            TileType::Floor
                        } else {
                            before.map.tile_at(a, b)
                        },
                decreases width - x,
            {
                let mut neighbors: u32 = 0;
                let my_idx = build_data.map.xy_idx(x, y);
                let my_seed = regions[my_idx];
                if regions[build_data.map.xy_idx(x - 1, y)] != my_seed {
                    neighbors += 1;
                }
                if regions[build_data.map.xy_idx(x + 1, y)] != my_seed {
                    neighbors += 1;
                }
                if regions[build_data.map.xy_idx(x, y - 1)] != my_seed {
                    neighbors += 1;
                }
                if regions[build_data.map.xy_idx(x, y + 1)] != my_seed {
                    neighbors += 1;
                }
                assert(neighbors == foreign_neighbors(regions@, &before.map, x as int, y as int));
                if neighbors < 2 {
                    build_data.map.set_tile(x, y, TileType::Floor);
                }
                x += 1;
            }
            build_data.take_snapshot();
            y += 1;
        }
    }

    /// Scatters seeds, assigns every cell to its nearest seed and carves
    /// the regions.
    #[verifier::rlimit(50)]
    pub fn build(&mut self, rng: &mut rltk::RandomNumberGenerator, build_data: &mut BuilderMap)
        requires
            old(build_data).wf(),
            2 <= old(build_data).width,
            2 <= old(build_data).height,
            1 <= old(self).n_seeds <= i32::MAX,
        ensures
            *final(self) == *old(self),
            final(build_data).wf(),
            final(build_data).extends(old(build_data)),
            final(build_data).same_records(old(build_data)),
            exists|seeds: Seq<Position>| #[trigger]
                voronoi_plan(
                    &old(build_data).map,
                    &final(build_data).map,
                    old(self).n_seeds as int,
                    old(self).distance_algorithm,
                    seeds,
                ),
    {
        let seeds = self.pick_seeds(rng, build_data.map.width, build_data.map.height);
        proof {
            build_data.map.lemma_has_cells();
        }
        let ghost before = *build_data;
        let regions = self.membership(&seeds, &build_data.map);
        self.carve(&regions, build_data);
        proof {
            assert(voronoi_plan(
                &before.map,
                &build_data.map,
                self.n_seeds as int,
                self.distance_algorithm,
                seeds@,
            ));
        }
    }
}

impl InitialMapBuilder for VoronoiBuilder {
    open spec fn fits_grid(&self, width: int, height: int) -> bool {
        2 <= width && 2 <= height && 1 <= self.n_seeds <= i32::MAX
    }

    open spec fn provides(&self) -> Fields {
        Fields::none()
    }

    open spec fn outcome(&self, before: &BuilderMap, after: &BuilderMap) -> bool {
        exists|seeds: Seq<Position>| #[trigger]
            voronoi_plan(
                &before.map,
                &after.map,
                self.n_seeds as int,
                self.distance_algorithm,
                seeds,
            )
    }

    fn grid_ok(&self, width: i32, height: i32) -> (r: bool) {
        2 <= width && 2 <= height && 1 <= self.n_seeds && self.n_seeds <= 0x7fff_ffff
    }

    fn provided(&self) -> (r: Fields) {
        Fields { rooms: false, corridors: false, submaps: false }
    }

    fn build_map(&mut self, rng: &mut rltk::RandomNumberGenerator, build_data: &mut BuilderMap) {
        self.build(rng, build_data);
    }
}

} // verus!
