use crate::map::{Grid, TileType};
use crate::map_builders::common::{
    carved_only,
    lemma_carved_twice,
    paint,
    stroke_covers,
    stroke_on_grid,
    Symmetry,
};
use crate::map_builders::drunkard_walk::{
    floor_target,
    lemma_stagger_stays,
    lemma_stroke_by_shape,
    off_edges,
    staggered,
    steps_on,
    DrunkardsWalkBuilder,
};
use crate::map_builders::rooms_corridors_nearest_line::{cells_of, line_between, line_cells};
use crate::map_builders::{BuilderMap, Fields, InitialMapBuilder};
use crate::rng::roll_dice;
use vstd::prelude::*;

verus! {

/// How a particle finds the place where it sticks.
#[derive(PartialEq, Eq, Structural, Copy, Clone, Debug)]
pub enum DLAAlgorithm {
    WalkInwards,
    WalkOutwards,
    CentralAttractor,
}

/// The stage that lets particles drift, one after the other, until each
/// sticks to the open ground that is there already. The share of floor to
/// reach is a whole percentage of all cells.
pub struct DLABuilder {
    pub algorithm: DLAAlgorithm,
    pub brush_size: i32,
    pub symmetry: Symmetry,
    pub floor_percent: u32,
}

/// The most particles that are sent.
pub const MAX_PARTICLES: u32 = 0xffff_ffff;

/// The most steps that one particle drifts.
pub const MAX_DRIFT: u32 = 0xffff_ffff;

/// Whether `(x, y)` is the middle cell of the grid or one of the four
/// cells next to it.
pub open spec fn seed_cross(map: &Grid, x: int, y: int) -> bool {
    let mx = map.width as int / 2;
    let my = map.height as int / 2;
    (y == my && mx - 1 <= x <= mx + 1) || (x == mx && my - 1 <= y <= my + 1)
}

/// Whether a particle that drifts inwards over the cells `path` sticks on
/// `at`: it sets out off the edges, goes on by a step from every wall
/// that it stands on, and stops on the first cell that is no wall, or
/// when its steps are used up. It sticks on the cell it stood on before
/// the last, or on the only one.
pub open spec fn drifted_in(map: &Grid, at: (int, int), path: Seq<(int, int)>) -> bool {
    &&& 1 <= path.len() <= MAX_DRIFT + 1
    &&& off_edges(map, path[0].0, path[0].1)
    &&& forall|k: int| 0 <= k && k + 1 < path.len() ==> #[trigger] steps_on(map, path, k)
    &&& forall|k: int|
        0 <= k && k + 1 < path.len() ==> map.tile_at((#[trigger] path[k]).0, path[k].1)
            == TileType::Wall
    &&& map.tile_at(path.last().0, path.last().1) != TileType::Wall || path.len() == MAX_DRIFT + 1
    &&& at == if path.len() >= 2 {
        path[path.len() - 2]
    } else {
        path[0]
    }
}

/// Whether a particle that drifts outwards over the cells `path` sticks
/// on `at`: it sets out from the middle of the grid, goes on by a step
/// from every floor cell that it stands on, and stops on the first cell
/// that is no floor, where it sticks, or when its steps are used up.
pub open spec fn drifted_out(map: &Grid, at: (int, int), path: Seq<(int, int)>) -> bool {
    &&& 1 <= path.len() <= MAX_DRIFT + 1
    &&& path[0] == (map.width as int / 2, map.height as int / 2)
    &&& forall|k: int| 0 <= k && k + 1 < path.len() ==> #[trigger] steps_on(map, path, k)
    &&& forall|k: int|
        0 <= k && k + 1 < path.len() ==> map.tile_at((#[trigger] path[k]).0, path[k].1)
            == TileType::Floor
    &&& map.tile_at(path.last().0, path.last().1) != TileType::Floor || path.len() == MAX_DRIFT + 1
    &&& at == path.last()
}

/// Whether a particle can fly on to a cell of its line: the cell and its
/// mirror images are cells of the grid.
pub open spec fn lands_on_grid(map: &Grid, cell: (int, int)) -> bool {
    stroke_on_grid(map, Symmetry::Both, cell.0, cell.1)
}

/// The cell on which a particle sticks that stands on `digger`, stood on
/// `prev` before, and flies along the cells of `line` from the `i`-th on:
/// it flies on from every wall that it stands on to the next cell of the
/// line, as long as there is one on the grid, and sticks on the cell that
/// it stood on before the one where it stops.
pub open spec fn landing(
    map: &Grid,
    digger: (int, int),
    prev: (int, int),
    line: Seq<(int, int)>,
    i: int,
) -> (int, int)
    decreases line.len() - i,
{
    if 0 <= i < line.len() && map.tile_at(digger.0, digger.1) == TileType::Wall && lands_on_grid(
        map,
        line[i],
    ) {
        landing(map, line[i], digger, line, i + 1)
    } else {
        prev
    }
}

/// Whether a particle that sets out from `start`, a cell off the edges,
/// and flies along the line to the middle of the grid sticks on `at`.
pub open spec fn flown_in(map: &Grid, at: (int, int), start: (int, int)) -> bool {
    &&& off_edges(map, start.0, start.1)
    &&& at == landing(
        map,
        start,
        start,
        cells_of(line_cells(start.0, start.1, map.width as int / 2, map.height as int / 2)),
        0,
    )
}

/// Whether one of the first `n` particles, painted where it stuck, covers
/// the cell `(a, b)`.
pub open spec fn particles_cover(
    map: &Grid,
    mode: Symmetry,
    brush_size: int,
    stuck: Seq<(int, int)>,
    n: int,
    a: int,
    b: int,
) -> bool
    decreases n,
{
    n > 0 && (particles_cover(map, mode, brush_size, stuck, n - 1, a, b) || stroke_covers(
        map,
        mode,
        brush_size,
        stuck[n - 1].0,
        stuck[n - 1].1,
        a,
        b,
    ))
}

/// What the first `n` particles cover does not depend on the particles
/// after them.
pub proof fn lemma_particles_prefix(
    map: &Grid,
    mode: Symmetry,
    brush_size: int,
    stuck: Seq<(int, int)>,
    more: Seq<(int, int)>,
    n: int,
    a: int,
    b: int,
)
    requires
        0 <= n <= stuck.len() <= more.len(),
        forall|i: int| 0 <= i < n ==> more[i] == stuck[i],
    ensures
        particles_cover(map, mode, brush_size, more, n, a, b) == particles_cover(
            map,
            mode,
            brush_size,
            stuck,
            n,
            a,
            b,
        ),
    decreases n,
{
    if n > 0 {
        lemma_particles_prefix(map, mode, brush_size, stuck, more, n - 1, a, b);
    }
}

/// Whether `after` is what the particles make of `before` that stuck on
/// the cells given, one for each particle sent: the cross in the middle
/// and every cell that a particle covers, painted where it stuck, are
/// floor, and every other cell is as it was.
pub open spec fn stuck_plan(
    before: &Grid,
    after: &Grid,
    mode: Symmetry,
    brush_size: int,
    sent: int,
    stuck: Seq<(int, int)>,
) -> bool {
    &&& stuck.len() == sent
    &&& forall|k: int|
        0 <= k < stuck.len() ==> stroke_on_grid(before, mode, (#[trigger] stuck[k]).0, stuck[k].1)
    &&& forall|a: int, b: int|
        before.in_bounds(a, b) ==> #[trigger] after.tile_at(a, b) == if seed_cross(before, a, b)
            || particles_cover(before, mode, brush_size, stuck, stuck.len() as int, a, b) {
            TileType::Floor
        } else {
            before.tile_at(a, b)
        }
}

impl DLABuilder {
    /// Particles that drift inwards and stick with a brush of two cells.
    pub fn new() -> (r: Box<DLABuilder>)
        ensures
            r.algorithm == DLAAlgorithm::WalkInwards,
            r.brush_size == 2,
            r.symmetry == Symmetry::Off,
            r.floor_percent == 25,
    {
        Box::new(
            DLABuilder {
                algorithm: DLAAlgorithm::WalkInwards,
                brush_size: 2,
                symmetry: Symmetry::Off,
                floor_percent: 25,
            },
        )
    }

    /// Particles that set out anywhere and drift until they touch floor.
    pub fn walk_inwards() -> (r: Box<DLABuilder>)
        ensures
            r.algorithm == DLAAlgorithm::WalkInwards,
            r.brush_size == 1,
            r.symmetry == Symmetry::Off,
            r.floor_percent == 25,
    {
        Box::new(
            DLABuilder {
                algorithm: DLAAlgorithm::WalkInwards,
                brush_size: 1,
                symmetry: Symmetry::Off,
                floor_percent: 25,
            },
        )
    }

    /// Particles that set out from the middle and drift until they leave
    /// the floor.
    pub fn walk_outwards() -> (r: Box<DLABuilder>)
        ensures
            r.algorithm == DLAAlgorithm::WalkOutwards,
            r.brush_size == 2,
            r.symmetry == Symmetry::Off,
            r.floor_percent == 25,
    {
        Box::new(
            DLABuilder {
                algorithm: DLAAlgorithm::WalkOutwards,
                brush_size: 2,
                symmetry: Symmetry::Off,
                floor_percent: 25,
            },
        )
    }

    /// Particles that set out anywhere and fly straight at the middle.
    pub fn central_attractor() -> (r: Box<DLABuilder>)
        ensures
            r.algorithm == DLAAlgorithm::CentralAttractor,
            r.brush_size == 2,
            r.symmetry == Symmetry::Off,
            r.floor_percent == 25,
    {
        Box::new(
            DLABuilder {
                algorithm: DLAAlgorithm::CentralAttractor,
                brush_size: 2,
                symmetry: Symmetry::Off,
                floor_percent: 25,
            },
        )
    }

    /// Particles that fly at the middle, mirrored from left to right.
    pub fn insectoid() -> (r: Box<DLABuilder>)
        ensures
            r.algorithm == DLAAlgorithm::CentralAttractor,
            r.brush_size == 2,
            r.symmetry == Symmetry::Horizontal,
            r.floor_percent == 25,
    {
        Box::new(
            DLABuilder {
                algorithm: DLAAlgorithm::CentralAttractor,
                brush_size: 2,
                symmetry: Symmetry::Horizontal,
                floor_percent: 25,
            },
        )
    }

    /// Particles that drift inwards until more than a third of the grid
    /// is floor.
    pub fn heavy_erosion() -> (r: Box<DLABuilder>)
        ensures
            r.algorithm == DLAAlgorithm::WalkInwards,
            r.brush_size == 2,
            r.symmetry == Symmetry::Off,
            r.floor_percent == 35,
    {
        Box::new(
            DLABuilder {
                algorithm: DLAAlgorithm::WalkInwards,
                brush_size: 2,
                symmetry: Symmetry::Off,
                floor_percent: 35,
            },
        )
    }

    /// Lets a particle set out from a cell drawn at random and drift until
    /// it stands on a cell that is no wall, and tells the cell it stood on
    /// before that.
    pub fn drift_inwards(rng: &mut rltk::RandomNumberGenerator, map: &Grid) -> (at: (i32, i32))
        requires
            map.wf(),
            map.width >= 4,
            map.height >= 4,
        ensures
            2 <= at.0 <= map.width - 2,
            2 <= at.1 <= map.height - 2,
            exists|path: Seq<(int, int)>| #[trigger]
                drifted_in(map, (at.0 as int, at.1 as int), path),
    {
        let mut digger_x = roll_dice(rng, 1, map.width - 3) + 1;
        let mut digger_y = roll_dice(rng, 1, map.height - 3) + 1;
        let mut prev_x = digger_x;
        let mut prev_y = digger_y;
        let mut steps: u32 = 0;
        let ghost mut path: Seq<(int, int)> = seq![(digger_x as int, digger_y as int)];
        while map.tile(digger_x, digger_y) == TileType::Wall && steps < MAX_DRIFT
            invariant
                map.wf(),
                map.width >= 4,
                map.height >= 4,
                2 <= digger_x <= map.width - 2,
                2 <= digger_y <= map.height - 2,
                2 <= prev_x <= map.width - 2,
                2 <= prev_y <= map.height - 2,
                steps <= MAX_DRIFT,
                path.len() == steps + 1,
                off_edges(map, path[0].0, path[0].1),
                path.last() == (digger_x as int, digger_y as int),
                (prev_x as int, prev_y as int) == if path.len() >= 2 {
                    path[path.len() - 2]
                } else {
                    path[0]
                },
                forall|k: int| 0 <= k && k + 1 < path.len() ==> #[trigger] steps_on(map, path, k),
                forall|k: int|
                    0 <= k && k + 1 < path.len() ==> map.tile_at((#[trigger] path[k]).0, path[k].1)
                        == TileType::Wall,
            decreases MAX_DRIFT - steps,
        {
            prev_x = digger_x;
            prev_y = digger_y;
            let stagger_direction = roll_dice(rng, 1, 4);
            let next = DrunkardsWalkBuilder::stagger(
                digger_x,
                digger_y,
                stagger_direction,
                map.width,
                map.height,
            );
            proof {
                let earlier = path;
                path = path.push((next.0 as int, next.1 as int));
                assert((next.0 as int, next.1 as int) == staggered(
                    digger_x as int,
                    digger_y as int,
                    stagger_direction as int,
                    map.width as int,
                    map.height as int,
                ));
                assert forall|k: int| 0 <= k && k + 1 < path.len() implies #[trigger] steps_on(
                    map,
                    path,
                    k,
                ) by {
                    if k + 1 < earlier.len() {
                        assert(path[k] == earlier[k] && path[k + 1] == earlier[k + 1]);
                        assert(steps_on(map, earlier, k));
                    } else {
                        assert(path[k] == earlier.last());
                    }
                }
                assert forall|k: int| 0 <= k && k + 1 < path.len() implies map.tile_at(
                    (#[trigger] path[k]).0,
                    path[k].1,
                ) == TileType::Wall by {
                    if k + 1 < earlier.len() {
                        assert(path[k] == earlier[k]);
                    } else {
                        assert(path[k] == earlier.last());
                    }
                }
            }
            digger_x = next.0;
            digger_y = next.1;
            steps += 1;
        }
        proof {
            assert(drifted_in(map, (prev_x as int, prev_y as int), path));
        }
        (prev_x, prev_y)
    }

    /// Lets a particle set out from the middle and drift until it stands
    /// on a cell that is no floor, and tells that cell.
    pub fn drift_outwards(rng: &mut rltk::RandomNumberGenerator, map: &Grid) -> (at: (i32, i32))
        requires
            map.wf(),
        ensures
            stroke_on_grid(map, Symmetry::Both, at.0 as int, at.1 as int),
            exists|path: Seq<(int, int)>| #[trigger]
                drifted_out(map, (at.0 as int, at.1 as int), path),
    {
        let mut digger_x = map.width / 2;
        let mut digger_y = map.height / 2;
        let mut steps: u32 = 0;
        let ghost middle = (digger_x as int, digger_y as int);
        let ghost mut path: Seq<(int, int)> = seq![middle];
        while map.tile(digger_x, digger_y) == TileType::Floor && steps < MAX_DRIFT
            invariant
                map.wf(),
                stroke_on_grid(map, Symmetry::Both, digger_x as int, digger_y as int),
                steps <= MAX_DRIFT,
                path.len() == steps + 1,
                path[0] == middle,
                path.last() == (digger_x as int, digger_y as int),
                forall|k: int| 0 <= k && k + 1 < path.len() ==> #[trigger] steps_on(map, path, k),
                forall|k: int|
                    0 <= k && k + 1 < path.len() ==> map.tile_at((#[trigger] path[k]).0, path[k].1)
                        == TileType::Floor,
            decreases MAX_DRIFT - steps,
        {
            let stagger_direction = roll_dice(rng, 1, 4);
            let next = DrunkardsWalkBuilder::stagger(
                digger_x,
                digger_y,
                stagger_direction,
                map.width,
                map.height,
            );
            proof {
                lemma_stagger_stays(
                    map,
                    Symmetry::Both,
                    digger_x as int,
                    digger_y as int,
                    stagger_direction as int,
                );
                let earlier = path;
                path = path.push((next.0 as int, next.1 as int));
                assert((next.0 as int, next.1 as int) == staggered(
                    digger_x as int,
                    digger_y as int,
                    stagger_direction as int,
                    map.width as int,
                    map.height as int,
                ));
                assert forall|k: int| 0 <= k && k + 1 < path.len() implies #[trigger] steps_on(
                    map,
                    path,
                    k,
                ) by {
                    if k + 1 < earlier.len() {
                        assert(path[k] == earlier[k] && path[k + 1] == earlier[k + 1]);
                        assert(steps_on(map, earlier, k));
                    } else {
                        assert(path[k] == earlier.last());
                    }
                }
                assert forall|k: int| 0 <= k && k + 1 < path.len() implies map.tile_at(
                    (#[trigger] path[k]).0,
                    path[k].1,
                ) == TileType::Floor by {
                    if k + 1 < earlier.len() {
                        assert(path[k] == earlier[k]);
                    } else {
                        assert(path[k] == earlier.last());
                    }
                }
            }
            digger_x = next.0;
            digger_y = next.1;
            steps += 1;
        }
        proof {
            assert(drifted_out(map, (digger_x as int, digger_y as int), path));
        }
        (digger_x, digger_y)
    }

    /// Lets a particle that sets out from `start` fly along the cells of a
    /// line: it flies on from every wall that it stands on to the next
    /// cell of the line, as long as there is one on the grid. Tells the
    /// cell that it stood on before the one where it stops.
    pub fn fly_along(map: &Grid, start: (i32, i32), line: &Vec<(i32, i32)>) -> (at: (i32, i32))
        requires
            map.wf(),
            lands_on_grid(map, (start.0 as int, start.1 as int)),
        ensures
            (at.0 as int, at.1 as int) == landing(
                map,
                (start.0 as int, start.1 as int),
                (start.0 as int, start.1 as int),
                cells_of(line@),
                0,
            ),
            stroke_on_grid(map, Symmetry::Both, at.0 as int, at.1 as int),
    {
        let mut digger_x = start.0;
        let mut digger_y = start.1;
        let mut prev_x = digger_x;
        let mut prev_y = digger_y;
        let n = line.len();
        let mut i: usize = 0;
        let ghost from = (start.0 as int, start.1 as int);
        let ghost cells = cells_of(line@);
        loop
            invariant
                map.wf(),
                i <= n,
                n == line@.len(),
                cells == cells_of(line@),
                stroke_on_grid(map, Symmetry::Both, digger_x as int, digger_y as int),
                stroke_on_grid(map, Symmetry::Both, prev_x as int, prev_y as int),
                landing(map, from, from, cells, 0) == landing(
                    map,
                    (digger_x as int, digger_y as int),
                    (prev_x as int, prev_y as int),
                    cells,
                    i as int,
                ),
            ensures
                stroke_on_grid(map, Symmetry::Both, prev_x as int, prev_y as int),
                landing(map, from, from, cells, 0) == (prev_x as int, prev_y as int),
            decreases n - i,
        {
            if i >= n {
                break ;
            }
            if map.tile(digger_x, digger_y) != TileType::Wall {
                break ;
            }
            let cell = line[i];
            assert(cells[i as int] == (cell.0 as int, cell.1 as int));
            let center_x = map.width / 2;
            let center_y = map.height / 2;
            if !(0 <= cell.0 && cell.0 < map.width && 0 <= cell.1 && cell.1 < map.height && 2
                * center_x - cell.0 < map.width && 2 * center_y - cell.1 < map.height) {
                break ;
            }
            prev_x = digger_x;
            prev_y = digger_y;
            digger_x = cell.0;
            digger_y = cell.1;
            i += 1;
        }
        (prev_x, prev_y)
    }

    /// Lets a particle set out from a cell drawn at random and fly along
    /// the straight line to the middle until it stands on a cell that is
    /// no wall, and tells the cell it stood on before that.
    pub fn fly_inwards(rng: &mut rltk::RandomNumberGenerator, map: &Grid) -> (at: (i32, i32))
        requires
            map.wf(),
            4 <= map.width <= 0x3fff_ffff,
            4 <= map.height <= 0x3fff_ffff,
        ensures
            stroke_on_grid(map, Symmetry::Both, at.0 as int, at.1 as int),
            exists|start: (int, int)| #[trigger] flown_in(map, (at.0 as int, at.1 as int), start),
    {
        let digger_x = roll_dice(rng, 1, map.width - 3) + 1;
        let digger_y = roll_dice(rng, 1, map.height - 3) + 1;
        let path = line_between(digger_x, digger_y, map.width / 2, map.height / 2);
        let at = Self::fly_along(map, (digger_x, digger_y), &path);
        proof {
            assert(flown_in(map, (at.0 as int, at.1 as int), (digger_x as int, digger_y as int)));
        }
        at
    }

    /// Carves the level: a cross of floor in the middle of the grid, then
    /// particle after particle, each painted where it sticks, until the
    /// share of floor asked for is reached or the particles are used up.
    /// A snapshot is taken at the start and after each particle. The
    /// number of particles sent is returned.
    #[verifier::rlimit(100)]
    pub fn build(&mut self, rng: &mut rltk::RandomNumberGenerator, build_data: &mut BuilderMap) -> (sent:
        u32)
        requires
            old(build_data).wf(),
            4 <= old(build_data).width <= 0x3fff_ffff,
            4 <= old(build_data).height <= 0x3fff_ffff,
        ensures
            *final(self) == *old(self),
            final(build_data).wf(),
            final(build_data).extends(old(build_data)),
            final(build_data).same_records(old(build_data)),
            final(build_data).history@.len() == old(build_data).history@.len() + 1 + sent,
            carved_only(&old(build_data).map, &final(build_data).map),
            forall|x: int, y: int|
                seed_cross(&old(build_data).map, x, y) ==> #[trigger] final(build_data).map.tile_at(
                    x,
                    y,
                ) == TileType::Floor,
            sent == MAX_PARTICLES || Grid::count_of(
                final(build_data).map.tiles@,
                TileType::Floor,
                final(build_data).map.cells(),
            ) >= floor_target(old(self).floor_percent as int, old(build_data).map.cells()),
            exists|stuck: Seq<(int, int)>| #[trigger]
                stuck_plan(
                    &old(build_data).map,
                    &final(build_data).map,
                    old(self).symmetry,
                    old(self).brush_size as int,
                    sent as int,
                    stuck,
                ),
    {
        let ghost before = *build_data;
        let width = build_data.map.width;
        let height = build_data.map.height;
        let start_x = width / 2;
        let start_y = height / 2;
        build_data.take_snapshot();
        build_data.map.set_tile(start_x, start_y, TileType::Floor);
        build_data.map.set_tile(start_x - 1, start_y, TileType::Floor);
        build_data.map.set_tile(start_x + 1, start_y, TileType::Floor);
        build_data.map.set_tile(start_x, start_y - 1, TileType::Floor);
        build_data.map.set_tile(start_x, start_y + 1, TileType::Floor);
        let total_tiles = build_data.map.tiles.len();
        let desired_floor_tiles = DrunkardsWalkBuilder::desired_floor_tiles(
            self.floor_percent,
            total_tiles,
        );
        let mut floor_tile_count = build_data.map.count_tiles(TileType::Floor);
        let mut sent: u32 = 0;
        let ghost mut stuck: Seq<(int, int)> = Seq::empty();
        while (floor_tile_count as u64) < desired_floor_tiles && sent < MAX_PARTICLES
            invariant
                *self == *old(self),
                stuck_plan(
                    &before.map,
                    &build_data.map,
                    self.symmetry,
                    self.brush_size as int,
                    sent as int,
                    stuck,
                ),
                before.wf(),
                width == before.width,
                height == before.height,
                4 <= width <= 0x3fff_ffff,
                4 <= height <= 0x3fff_ffff,
                total_tiles == before.map.cells(),
                desired_floor_tiles == floor_target(self.floor_percent as int, before.map.cells()),
                build_data.wf(),
                build_data.same_records(&before),
                build_data.history@.len() == before.history@.len() + 1 + sent,
                carved_only(&before.map, &build_data.map),
                forall|x: int, y: int|
                    seed_cross(&before.map, x, y) ==> #[trigger] build_data.map.tile_at(x, y)
                        == TileType::Floor,
                floor_tile_count == Grid::count_of(
                    build_data.map.tiles@,
                    TileType::Floor,
                    build_data.map.cells(),
                ),
                sent <= MAX_PARTICLES,
            decreases MAX_PARTICLES - sent,
        {
            let at = match self.algorithm {
                DLAAlgorithm::WalkInwards => Self::drift_inwards(rng, &build_data.map),
                DLAAlgorithm::WalkOutwards => Self::drift_outwards(rng, &build_data.map),
                DLAAlgorithm::CentralAttractor => Self::fly_inwards(rng, &build_data.map),
            };
            let ghost prev = *build_data;
            paint(&mut build_data.map, self.symmetry, self.brush_size, at.0, at.1);
            proof {
                let more = stuck.push((at.0 as int, at.1 as int));
                assert forall|k: int| 0 <= k < more.len() implies stroke_on_grid(
                    &before.map,
                    self.symmetry,
                    (#[trigger] more[k]).0,
                    more[k].1,
                ) by {
                    if k < stuck.len() {
                        assert(more[k] == stuck[k]);
                    }
                }
                assert forall|a: int, b: int|
                    before.map.in_bounds(a, b) implies #[trigger] build_data.map.tile_at(a, b)
                    == if seed_cross(&before.map, a, b) || particles_cover(
                    &before.map,
                    self.symmetry,
                    self.brush_size as int,
                    more,
                    more.len() as int,
                    a,
                    b,
                ) {
                    TileType::Floor
                } else {
                    before.map.tile_at(a, b)
                } by {
                    lemma_particles_prefix(
                        &before.map,
                        self.symmetry,
                        self.brush_size as int,
                        stuck,
                        more,
                        stuck.len() as int,
                        a,
                        b,
                    );
                    lemma_stroke_by_shape(
                        &prev.map,
                        &before.map,
                        self.symmetry,
                        self.brush_size as int,
                        at.0 as int,
                        at.1 as int,
                        a,
                        b,
                    );
                    assert(prev.map.in_bounds(a, b));
                    assert(prev.map.tile_at(a, b) == if seed_cross(&before.map, a, b)
                        || particles_cover(
                        &before.map,
                        self.symmetry,
                        self.brush_size as int,
                        stuck,
                        stuck.len() as int,
                        a,
                        b,
                    ) {
                        TileType::Floor
                    } else {
                        before.map.tile_at(a, b)
                    });
                }
                stuck = more;
            }
            proof {
                assert(carved_only(&prev.map, &build_data.map));
                lemma_carved_twice(&before.map, &prev.map, &build_data.map);
                assert forall|x: int, y: int| seed_cross(&before.map, x, y) implies #[trigger] build_data.map.tile_at(
                    x,
                    y,
                ) == TileType::Floor by {
                    assert(prev.map.tile_at(x, y) == TileType::Floor);
                    assert(prev.map.in_bounds(x, y));
                }
            }
            build_data.take_snapshot();
            sent += 1;
            floor_tile_count = build_data.map.count_tiles(TileType::Floor);
        }
        sent
    }
}

impl InitialMapBuilder for DLABuilder {
    open spec fn fits_grid(&self, width: int, height: int) -> bool {
        4 <= width <= 0x3fff_ffff && 4 <= height <= 0x3fff_ffff
    }

    open spec fn provides(&self) -> Fields {
        Fields::none()
    }

    open spec fn outcome(&self, before: &BuilderMap, after: &BuilderMap) -> bool {
        &&& carved_only(&before.map, &after.map)
        &&& forall|x: int, y: int|
            seed_cross(&before.map, x, y) ==> #[trigger] after.map.tile_at(x, y) == TileType::Floor
        &&& exists|stuck: Seq<(int, int)>, sent: int| #[trigger]
            stuck_plan(&before.map, &after.map, self.symmetry, self.brush_size as int, sent, stuck)
    }

    fn grid_ok(&self, width: i32, height: i32) -> (r: bool) {
        4 <= width && width <= 0x3fff_ffff && 4 <= height && height <= 0x3fff_ffff
    }

    fn provided(&self) -> (r: Fields) {
        Fields { rooms: false, corridors: false, submaps: false }
    }

    fn build_map(&mut self, rng: &mut rltk::RandomNumberGenerator, build_data: &mut BuilderMap) {
        let _sent = self.build(rng, build_data);
    }
}

} // verus!
