use crate::map::{Grid, TileType};
use crate::map_builders::{BuilderMap, Fields, InitialMapBuilder};
use crate::rng::roll_dice;
use vstd::prelude::*;

verus! {

/// The stage that fills the grid with random walls and floor and then
/// smooths it, pass after pass, by the number of walls around each cell.
pub struct CellularAutomataBuilder {
    /// Of a hundred cells, so many start out as wall.
    pub wall_percent: i32,
    /// The number of smoothing passes.
    pub passes: u32,
    /// A cell with this many walls around it, or more, becomes wall.
    pub wall_threshold: u32,
}

/// One where the tile at `(x, y)` is a wall, else zero.
pub open spec fn wall_count(map: &Grid, x: int, y: int) -> int {
    if map.tile_at(x, y) == TileType::Wall {
        1
    } else {
        0
    }
}

/// The number of walls among the eight cells around `(x, y)`.
pub open spec fn wall_neighbors(map: &Grid, x: int, y: int) -> int {
    wall_count(map, x - 1, y) + wall_count(map, x + 1, y) + wall_count(map, x, y - 1) + wall_count(
        map,
        x,
        y + 1,
    ) + wall_count(map, x - 1, y - 1) + wall_count(map, x + 1, y - 1) + wall_count(
        map,
        x - 1,
        y + 1,
    ) + wall_count(map, x + 1, y + 1)
}

/// Whether `(x, y)` is a cell off the border of the grid.
pub open spec fn inner(map: &Grid, x: int, y: int) -> bool {
    1 <= x < map.width - 1 && 1 <= y < map.height - 1
}

/// The tile at `(x, y)` after a smoothing pass: a cell off the border
/// becomes wall where the walls around it reach the threshold and floor
/// where they do not; the border stays as it is.
pub open spec fn smoothed_tile(map: &Grid, threshold: int, x: int, y: int) -> TileType {
    if inner(map, x, y) {
        if wall_neighbors(map, x, y) >= threshold {
            TileType::Wall
        } else {
            TileType::Floor
        }
    } else {
        map.tile_at(x, y)
    }
}

/// The tile that a cell starts out with for a roll of a die with a
/// hundred faces.
pub open spec fn seeded_tile(roll: int, wall_percent: int) -> TileType {
    if roll > wall_percent {
        TileType::Floor
    } else {
        TileType::Wall
    }
}

/// Whether every cell off the border is wall or floor and the border is
/// as it was.
pub open spec fn cave(before: &Grid, after: &Grid) -> bool {
    &&& after.same_shape(before)
    &&& forall|x: int, y: int|
        before.in_bounds(x, y) ==> if inner(before, x, y) {
            #[trigger] after.tile_at(x, y) == TileType::Wall || after.tile_at(x, y)
                == TileType::Floor
        } else {
            after.tile_at(x, y) == before.tile_at(x, y)
        }
}

/// One where the tile at `(x, y)` is a wall after so many smoothing
/// passes over the grid `seeded`, else zero.
pub open spec fn wall_after(seeded: &Grid, threshold: int, passes: int, x: int, y: int) -> int
    decreases passes, 1int,
{
    if cave_tile(seeded, threshold, passes, x, y) == TileType::Wall {
        1
    } else {
        0
    }
}

/// The tile at `(x, y)` after so many smoothing passes over the grid
/// `seeded`.
pub open spec fn cave_tile(seeded: &Grid, threshold: int, passes: int, x: int, y: int) -> TileType
    decreases passes, 0int,
{
    if passes <= 0 || !inner(seeded, x, y) {
        seeded.tile_at(x, y)
    } else {
        let p = passes - 1;
        let walls = wall_after(seeded, threshold, p, x - 1, y) + wall_after(
            seeded,
            threshold,
            p,
            x + 1,
            y,
        ) + wall_after(seeded, threshold, p, x, y - 1) + wall_after(seeded, threshold, p, x, y + 1)
            + wall_after(seeded, threshold, p, x - 1, y - 1) + wall_after(
            seeded,
            threshold,
            p,
            x + 1,
            y - 1,
        ) + wall_after(seeded, threshold, p, x - 1, y + 1) + wall_after(
            seeded,
            threshold,
            p,
            x + 1,
            y + 1,
        );
        if walls >= threshold {
            TileType::Wall
        } else {
            TileType::Floor
        }
    }
}

/// Whether `after` is the cave that so many smoothing passes make of the
/// random start `seeded`, which is `before` with walls and floor off the
/// border.
pub open spec fn cave_plan(
    before: &Grid,
    after: &Grid,
    seeded: &Grid,
    threshold: int,
    passes: int,
) -> bool {
    &&& seeded.wf()
    &&& cave(before, seeded)
    &&& forall|x: int, y: int|
        before.in_bounds(x, y) ==> #[trigger] after.tile_at(x, y) == cave_tile(
            seeded,
            threshold,
            passes,
            x,
            y,
        )
}

impl CellularAutomataBuilder {
    /// The stage with fifty-five walls in a hundred cells to start with, fifteen passes and a threshold of five walls.
    pub fn new() -> (r: Box<CellularAutomataBuilder>)
        ensures
            r.wall_percent == 55,
            r.passes == 15,
            r.wall_threshold == 5,
    {
        Box::new(CellularAutomataBuilder { wall_percent: 55, passes: 15, wall_threshold: 5 })
    }

    /// The tile that a cell starts out with for a roll.
    pub fn seed_tile(&self, roll: i32) -> (tile: TileType)
        ensures
            tile == seeded_tile(roll as int, self.wall_percent as int),
    {
        if roll > self.wall_percent {
            TileType::Floor
        } else {
            TileType::Wall
        }
    }

    /// Gives every cell off the border a random start as wall or floor.
    #[verifier::rlimit(50)]
    pub fn seed_noise(&self, rng: &mut rltk::RandomNumberGenerator, map: &mut Grid)
        requires
            old(map).wf(),
        ensures
            final(map).wf(),
            cave(old(map), final(map)),
    {
        let ghost before = *map;
        let width = map.width;
        let height = map.height;
        let mut y: i32 = 1;
        while y < height - 1
            invariant
                before.wf(),
                map.wf(),
                map.same_shape(&before),
                width == before.width,
                height == before.height,
                1 <= y,
                forall|a: int, b: int|
                    before.in_bounds(a, b) ==> if inner(&before, a, b) && b < y {
                        #[trigger] map.tile_at(a, b) == TileType::Wall || map.tile_at(a, b)
                            == TileType::Floor
                    } else {
                        map.tile_at(a, b) == before.tile_at(a, b)
                    },
            decreases height - y,
        {
            let mut x: i32 = 1;
            while x < width - 1
                invariant
                    before.wf(),
                    map.wf(),
                    map.same_shape(&before),
                    width == before.width,
                    height == before.height,
                    1 <= y < height - 1,
                    1 <= x,
                    forall|a: int, b: int|
                        before.in_bounds(a, b) ==> if inner(&before, a, b) && (b < y || (b == y && a
                            < x)) {
                            #[trigger] map.tile_at(a, b) == TileType::Wall || map.tile_at(a, b)
                                == TileType::Floor
                        } else {
                            map.tile_at(a, b) == before.tile_at(a, b)
                        },
                decreases width - x,
            {
                let roll = roll_dice(rng, 1, 100);
                let tile = self.seed_tile(roll);
                map.set_tile(x, y, tile);
                x += 1;
            }
            y += 1;
        }
    }

    /// Counts the walls among the eight cells around a cell off the
    /// border.
    #[verifier::rlimit(50)]
    pub fn count_walls(map: &Grid, x: i32, y: i32) -> (n: u32)
        requires
            map.wf(),
            inner(map, x as int, y as int),
        ensures
            n == wall_neighbors(map, x as int, y as int),
    {
        let mut neighbors: u32 = 0;
        if map.tile(x - 1, y) == TileType::Wall {
            neighbors += 1;
        }
        if map.tile(x + 1, y) == TileType::Wall {
            neighbors += 1;
        }
        if map.tile(x, y - 1) == TileType::Wall {
            neighbors += 1;
        }
        if map.tile(x, y + 1) == TileType::Wall {
            neighbors += 1;
        }
        if map.tile(x - 1, y - 1) == TileType::Wall {
            neighbors += 1;
        }
        if map.tile(x + 1, y - 1) == TileType::Wall {
            neighbors += 1;
        }
        if map.tile(x - 1, y + 1) == TileType::Wall {
            neighbors += 1;
        }
        if map.tile(x + 1, y + 1) == TileType::Wall {
            neighbors += 1;
        }
        neighbors
    }

    /// One smoothing pass: every cell off the border becomes wall or floor
    /// by the number of walls that were around it before the pass.
    #[verifier::rlimit(50)]
    pub fn smooth(&self, map: &mut Grid)
        requires
            old(map).wf(),
        ensures
            final(map).wf(),
            final(map).same_shape(old(map)),
            forall|x: int, y: int|
                old(map).in_bounds(x, y) ==> #[trigger] final(map).tile_at(x, y) == smoothed_tile(
                    old(map),
                    self.wall_threshold as int,
                    x,
                    y,
                ),
    {
        let source = map.snapshot();
        let ghost before = *map;
        let width = map.width;
        let height = map.height;
        let mut y: i32 = 1;
        while y < height - 1
            invariant
                before.wf(),
                source.wf(),
                source.width == before.width,
                source.height == before.height,
                source.tiles@ == before.tiles@,
                map.wf(),
                map.same_shape(&before),
                width == before.width,
                height == before.height,
                1 <= y,
                forall|a: int, b: int|
                    before.in_bounds(a, b) ==> #[trigger] map.tile_at(a, b) == if b < y {
                        smoothed_tile(&before, self.wall_threshold as int, a, b)
                    } else {
                        before.tile_at(a, b)
                    },
            decreases height - y,
        {
            let mut x: i32 = 1;
            while x < width - 1
                invariant
                    before.wf(),
                    source.wf(),
                    source.width == before.width,
                    source.height == before.height,
                    source.tiles@ == before.tiles@,
                    map.wf(),
                    map.same_shape(&before),
                    width == before.width,
                    height == before.height,
                    1 <= y < height - 1,
                    1 <= x,
                    forall|a: int, b: int|
                        before.in_bounds(a, b) ==> #[trigger] map.tile_at(a, b) == if b < y || (b
                            == y && a < x) {
                            smoothed_tile(&before, self.wall_threshold as int, a, b)
                        } else {
                            before.tile_at(a, b)
                        },
                decreases width - x,
            {
                let neighbors = Self::count_walls(&source, x, y);
                assert(neighbors == wall_neighbors(&before, x as int, y as int));
                if neighbors >= self.wall_threshold {
                    map.set_tile(x, y, TileType::Wall);
                } else {
                    map.set_tile(x, y, TileType::Floor);
                }
                x += 1;
            }
            y += 1;
        }
    }

    /// Makes the cave: a random start, then the smoothing passes, with a
    /// snapshot after the start and after each pass.
    #[verifier::rlimit(50)]
    pub fn build(&mut self, rng: &mut rltk::RandomNumberGenerator, build_data: &mut BuilderMap)
        requires
            old(build_data).wf(),
        ensures
            *final(self) == *old(self),
            final(build_data).wf(),
            final(build_data).extends(old(build_data)),
            final(build_data).same_records(old(build_data)),
            final(build_data).history@.len() == old(build_data).history@.len() + old(self).passes
                + 1,
            cave(&old(build_data).map, &final(build_data).map),
            exists|seeded: Grid| #[trigger]
                cave_plan(
                    &old(build_data).map,
                    &final(build_data).map,
                    &seeded,
                    old(self).wall_threshold as int,
                    old(self).passes as int,
                ),
    {
        let ghost before = *build_data;
        self.seed_noise(rng, &mut build_data.map);
        build_data.take_snapshot();
        let ghost seeded = build_data.map;
        let mut pass: u32 = 0;
        while pass < self.passes
            invariant
                *self == *old(self),
                pass <= self.passes,
                seeded.wf(),
                seeded.same_shape(&before.map),
                forall|x: int, y: int|
                    before.map.in_bounds(x, y) ==> #[trigger] build_data.map.tile_at(x, y)
                        == cave_tile(&seeded, self.wall_threshold as int, pass as int, x, y),
                before.wf(),
                build_data.wf(),
                build_data.same_records(&before),
                build_data.history@.len() == before.history@.len() + pass + 1,
                cave(&before.map, &build_data.map),
            decreases self.passes - pass,
        {
            let ghost prev = *build_data;
            self.smooth(&mut build_data.map);
            proof {
                assert forall|x: int, y: int| before.map.in_bounds(x, y) implies if inner(
                    &before.map,
                    x,
                    y,
                ) {
                    #[trigger] build_data.map.tile_at(x, y) == TileType::Wall
                        || build_data.map.tile_at(x, y) == TileType::Floor
                } else {
                    build_data.map.tile_at(x, y) == before.map.tile_at(x, y)
                } by {
                    assert(build_data.map.tile_at(x, y) == smoothed_tile(
                        &prev.map,
                        self.wall_threshold as int,
                        x,
                        y,
                    ));
                    assert(prev.map.in_bounds(x, y));
                }
                assert forall|x: int, y: int|
                    before.map.in_bounds(x, y) implies #[trigger] build_data.map.tile_at(x, y)
                    == cave_tile(&seeded, self.wall_threshold as int, pass + 1, x, y) by {
                    assert(build_data.map.tile_at(x, y) == smoothed_tile(
                        &prev.map,
                        self.wall_threshold as int,
                        x,
                        y,
                    ));
                    assert(prev.map.tile_at(x, y) == cave_tile(
                        &seeded,
                        self.wall_threshold as int,
                        pass as int,
                        x,
                        y,
                    ));
                    if inner(&before.map, x, y) {
                        let t = self.wall_threshold as int;
                        let p = pass as int;
                        assert(prev.map.tile_at(x - 1, y) == cave_tile(&seeded, t, p, x - 1, y));
                        assert(prev.map.tile_at(x + 1, y) == cave_tile(&seeded, t, p, x + 1, y));
                        assert(prev.map.tile_at(x, y - 1) == cave_tile(&seeded, t, p, x, y - 1));
                        assert(prev.map.tile_at(x, y + 1) == cave_tile(&seeded, t, p, x, y + 1));
                        assert(prev.map.tile_at(x - 1, y - 1) == cave_tile(
                            &seeded,
                            t,
                            p,
                            x - 1,
                            y - 1,
                        ));
                        assert(prev.map.tile_at(x + 1, y - 1) == cave_tile(
                            &seeded,
                            t,
                            p,
                            x + 1,
                            y - 1,
                        ));
                        assert(prev.map.tile_at(x - 1, y + 1) == cave_tile(
                            &seeded,
                            t,
                            p,
                            x - 1,
                            y + 1,
                        ));
                        assert(prev.map.tile_at(x + 1, y + 1) == cave_tile(
                            &seeded,
                            t,
                            p,
                            x + 1,
                            y + 1,
                        ));
                    }
                }
            }
            build_data.take_snapshot();
            pass += 1;
        }
        proof {
            assert(cave_plan(
                &before.map,
                &build_data.map,
                &seeded,
                self.wall_threshold as int,
                self.passes as int,
            ));
        }
    }
}

impl InitialMapBuilder for CellularAutomataBuilder {
    open spec fn fits_grid(&self, width: int, height: int) -> bool {
        true
    }

    open spec fn provides(&self) -> Fields {
        Fields::none()
    }

    open spec fn outcome(&self, before: &BuilderMap, after: &BuilderMap) -> bool {
        exists|seeded: Grid| #[trigger]
            cave_plan(
                &before.map,
                &after.map,
                &seeded,
                self.wall_threshold as int,
                self.passes as int,
            )
    }

    fn grid_ok(&self, width: i32, height: i32) -> (r: bool) {
        true
    }

    fn provided(&self) -> (r: Fields) {
        Fields { rooms: false, corridors: false, submaps: false }
    }

    fn build_map(&mut self, rng: &mut rltk::RandomNumberGenerator, build_data: &mut BuilderMap) {
        self.build(rng, build_data);
    }
}

} // verus!
