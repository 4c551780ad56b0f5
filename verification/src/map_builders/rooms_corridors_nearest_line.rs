use crate::map::{Grid, TileType};
use crate::map_builders::common::{
    carved_only,
    halls_on_floor,
    lemma_carved_twice,
    lemma_halls_stay_on_floor,
    repainted,
};
use crate::map_builders::rooms_corridors_nearest::NearestCorridors;
use crate::map_builders::{BuilderMap, Fields, MetaMapBuilder};
use crate::rect::{half, Rect};
use vstd::prelude::*;

verus! {

/// The stage that joins each room to the nearest room that has no
/// corridor of its own yet by a straight line of floor.
pub struct StraightLineCorridors {}

/// The largest coordinate that a line is drawn between.
pub const LINE_LIMIT: i32 = 0x3fff_ffff;

/// The cells of the line from `(x1, y1)` to `(x2, y2)` as
/// `rltk::line2d` plots it with Bresenham's algorithm, in its order.
pub uninterp spec fn line_cells(x1: int, y1: int, x2: int, y2: int) -> Seq<(i32, i32)>;

/// The cells as contracts see them.
pub open spec fn cells_of(line: Seq<(i32, i32)>) -> Seq<(int, int)> {
    Seq::new(line.len(), |i: int| (line[i].0 as int, line[i].1 as int))
}

/// Calls `rltk::line2d` with `LineAlg::Bresenham`. The cells that it
/// returns are named `line_cells`, and nothing more is claimed of them.
/// Coordinates whose differences could leave `i32` are ruled out.
#[verifier::external_body]
pub(crate) fn line_between(x1: i32, y1: i32, x2: i32, y2: i32) -> (line: Vec<(i32, i32)>)
    requires
        0 <= x1 <= LINE_LIMIT,
        0 <= y1 <= LINE_LIMIT,
        0 <= x2 <= LINE_LIMIT,
        0 <= y2 <= LINE_LIMIT,
    ensures
        line@ == line_cells(x1 as int, y1 as int, x2 as int, y2 as int),
{
    rltk::line2d(rltk::LineAlg::Bresenham, rltk::Point::new(x1, y1), rltk::Point::new(x2, y2))
        .iter()
        .map(|p| (p.x, p.y))
        .collect()
}

/// Whether `(x, y)` is one of the first `n` of the cells.
pub open spec fn on_line(cells: Seq<(int, int)>, n: int, x: int, y: int) -> bool
    decreases n,
{
    n > 0 && (on_line(cells, n - 1, x, y) || cells[n - 1] == (x, y))
}

/// The indices of those among the first `n` cells that are on the grid
/// and not floor, each once, in the order of the cells.
pub open spec fn line_carved(map: &Grid, cells: Seq<(int, int)>, n: int) -> Seq<usize>
    decreases n,
{
    if n <= 0 {
        Seq::empty()
    } else {
        let rest = line_carved(map, cells, n - 1);
        let (x, y) = cells[n - 1];
        if map.in_bounds(x, y) && map.tile_at(x, y) != TileType::Floor && !on_line(
            cells,
            n - 1,
            x,
            y,
        ) {
            rest.push(map.index_of(x, y) as usize)
        } else {
            rest
        }
    }
}

/// The cells of the line from the middle of one room to the middle of
/// another.
pub open spec fn middle_line(from: Rect, to: Rect) -> Seq<(i32, i32)> {
    line_cells(half(from.x1 + from.x2), half(from.y1 + from.y2), half(to.x1 + to.x2), half(
        to.y1 + to.y2,
    ))
}

/// Whether `(x, y)` lies on one of the first `n` lines, each from the
/// middle of one room to the middle of another, as `joins` names the two
/// rooms by their places.
pub open spec fn lines_cover(rooms: Seq<Rect>, joins: Seq<(int, int)>, n: int, x: int, y: int) -> bool
    decreases n,
{
    n > 0 && (lines_cover(rooms, joins, n - 1, x, y) || on_line(
        cells_of(middle_line(rooms[joins[n - 1].0], rooms[joins[n - 1].1])),
        middle_line(rooms[joins[n - 1].0], rooms[joins[n - 1].1]).len() as int,
        x,
        y,
    ))
}

/// What the first `n` lines cover does not depend on the lines after
/// them.
pub proof fn lemma_lines_cover_prefix(
    rooms: Seq<Rect>,
    joins: Seq<(int, int)>,
    more: Seq<(int, int)>,
    n: int,
    x: int,
    y: int,
)
    requires
        0 <= n <= joins.len() <= more.len(),
        forall|i: int| 0 <= i < n ==> more[i] == joins[i],
    ensures
        lines_cover(rooms, more, n, x, y) == lines_cover(rooms, joins, n, x, y),
    decreases n,
{
    if n > 0 {
        lemma_lines_cover_prefix(rooms, joins, more, n - 1, x, y);
    }
}

/// Whether `after` is `before` with the lines that `joins` names turned
/// into floor: each goes from a room to another room, and the rooms that
/// they set out from come in the order of the rooms.
pub open spec fn line_plan(before: &Grid, after: &Grid, rooms: Seq<Rect>, joins: Seq<(int, int)>) -> bool {
    &&& forall|k: int|
        0 <= k < joins.len() ==> {
            &&& 0 <= (#[trigger] joins[k]).0 < rooms.len()
            &&& 0 <= joins[k].1 < rooms.len()
            &&& joins[k].0 != joins[k].1
        }
    &&& forall|k: int, l: int|
        #![trigger joins[k], joins[l]]
        0 <= k < l < joins.len() ==> joins[k].0 < joins[l].0
    &&& forall|x: int, y: int|
        before.in_bounds(x, y) ==> #[trigger] after.tile_at(x, y) == if lines_cover(
            rooms,
            joins,
            joins.len() as int,
            x,
            y,
        ) {
            TileType::Floor
        } else {
            before.tile_at(x, y)
        }
}

impl StraightLineCorridors {
    /// The stage; it has nothing to set.
    pub fn new() -> (r: Box<StraightLineCorridors>)
        ensures
            *r == (StraightLineCorridors {  }),
    {
        Box::new(StraightLineCorridors {  })
    }

    /// Turns into floor the cells of a line that are on the grid, and
    /// tells which of them were not floor before, in the order of the
    /// line.
    #[verifier::rlimit(50)]
    pub fn carve_line(map: &mut Grid, line: &Vec<(i32, i32)>) -> (corridor: Vec<usize>)
        requires
            old(map).wf(),
        ensures
            final(map).wf(),
            carved_only(old(map), final(map)),
            repainted(
                old(map),
                final(map),
                |x: int, y: int| on_line(cells_of(line@), line@.len() as int, x, y),
                TileType::Floor,
            ),
            corridor@ == line_carved(old(map), cells_of(line@), line@.len() as int),
            forall|k: int|
                0 <= k < corridor@.len() ==> #[trigger] corridor@[k] < old(map).cells() && final(
                    map).tiles@[corridor@[k] as int] == TileType::Floor,
    {
        let ghost before = *map;
        let ghost cells = cells_of(line@);
        let mut corridor: Vec<usize> = Vec::new();
        let n = line.len();
        let mut i: usize = 0;
        while i < n
            invariant
                i <= n,
                n == line@.len(),
                cells == cells_of(line@),
                before.wf(),
                map.wf(),
                map.same_shape(&before),
                corridor@ == line_carved(&before, cells, i as int),
                forall|k: int|
                    0 <= k < corridor@.len() ==> #[trigger] corridor@[k] < before.cells()
                        && map.tiles@[corridor@[k] as int] == TileType::Floor,
                forall|x: int, y: int|
                    before.in_bounds(x, y) ==> #[trigger] map.tile_at(x, y) == if on_line(
                        cells,
                        i as int,
                        x,
                        y,
                    ) {
                        TileType::Floor
                    } else {
                        before.tile_at(x, y)
                    },
            decreases n - i,
        {
            let cell = line[i];
            assert(cells[i as int] == (cell.0 as int, cell.1 as int));
            if 0 <= cell.0 && cell.0 < map.width && 0 <= cell.1 && cell.1 < map.height {
                let idx = map.xy_idx(cell.0, cell.1);
                if map.tile(cell.0, cell.1) != TileType::Floor {
                    corridor.push(idx);
                }
                map.set_tile(cell.0, cell.1, TileType::Floor);
            }
            i += 1;
        }
        corridor
    }

    /// Carves the straight line from the middle of one room to the middle
    /// of another, and tells which cells of it were not floor before, in
    /// the order of the line.
    pub fn join(map: &mut Grid, from: &Rect, to: &Rect) -> (corridor: Vec<usize>)
        requires
            old(map).wf(),
            old(map).width <= LINE_LIMIT,
            old(map).height <= LINE_LIMIT,
            from.fits(old(map).width as int, old(map).height as int),
            to.fits(old(map).width as int, old(map).height as int),
        ensures
            final(map).wf(),
            carved_only(old(map), final(map)),
            repainted(
                old(map),
                final(map),
                |x: int, y: int|
                    on_line(
                        cells_of(middle_line(*from, *to)),
                        middle_line(*from, *to).len() as int,
                        x,
                        y,
                    ),
                TileType::Floor,
            ),
            corridor@ == line_carved(
                old(map),
                cells_of(middle_line(*from, *to)),
                middle_line(*from, *to).len() as int,
            ),
            forall|k: int|
                0 <= k < corridor@.len() ==> #[trigger] corridor@[k] < old(map).cells() && final(
                    map).tiles@[corridor@[k] as int] == TileType::Floor,
    {
        let room_center = from.center();
        let dest_center = to.center();
        let line = line_between(room_center.0, room_center.1, dest_center.0, dest_center.1);
        Self::carve_line(map, &line)
    }

    /// Carves, for every room in turn, a straight corridor from its
    /// middle to the middle of the nearest room that has no corridor of
    /// its own yet, and records the cells that each corridor turned into
    /// floor.
    #[verifier::rlimit(50)]
    pub fn corridors(&mut self, build_data: &mut BuilderMap)
        requires
            old(build_data).wf(),
            old(build_data).rooms is Some,
            old(build_data).width <= LINE_LIMIT,
            old(build_data).height <= LINE_LIMIT,
        ensures
            final(build_data).wf(),
            final(build_data).extends(old(build_data)),
            final(build_data).list_spawns == old(build_data).list_spawns,
            final(build_data).starting_position == old(build_data).starting_position,
            final(build_data).rooms == old(build_data).rooms,
            final(build_data).submaps == old(build_data).submaps,
            carved_only(&old(build_data).map, &final(build_data).map),
            exists|joins: Seq<(int, int)>| #[trigger]
                line_plan(
                    &old(build_data).map,
                    &final(build_data).map,
                    old(build_data).rooms->0@,
                    joins,
                ),
            final(build_data).corridors matches Some(halls) && {
                &&& halls@.len() <= old(build_data).rooms->0@.len()
                &&& old(build_data).rooms->0@.len() >= 2 ==> halls@.len() >= 1
                &&& halls_on_floor(&final(build_data).map, halls@)
            },
    {
        let ghost before = *build_data;
        let mut corridors: Vec<Vec<usize>> = Vec::new();
        let n = match &build_data.rooms {
            Some(rooms) => rooms.len(),
            None => 0,
        };
        let mut connected: Vec<bool> = Vec::new();
        let mut c: usize = 0;
        while c < n
            invariant
                c <= n,
                connected@.len() == c,
                forall|k: int| 0 <= k < c ==> !#[trigger] connected@[k],
            decreases n - c,
        {
            connected.push(false);
            c += 1;
        }
        let mut i: usize = 0;
        let ghost mut joins: Seq<(int, int)> = Seq::empty();
        proof {
            lemma_carved_twice(&before.map, &before.map, &before.map);
        }
        while i < n
            invariant
                forall|k: int|
                    0 <= k < joins.len() ==> {
                        &&& 0 <= (#[trigger] joins[k]).0 < i
                        &&& 0 <= joins[k].1 < n
                        &&& joins[k].0 != joins[k].1
                    },
                forall|k: int, l: int|
                    #![trigger joins[k], joins[l]]
                    0 <= k < l < joins.len() ==> joins[k].0 < joins[l].0,
                forall|x: int, y: int|
                    before.map.in_bounds(x, y) ==> #[trigger] build_data.map.tile_at(x, y)
                        == if lines_cover(before.rooms->0@, joins, joins.len() as int, x, y) {
                        TileType::Floor
                    } else {
                        before.map.tile_at(x, y)
                    },
                i <= n,
                before.wf(),
                before.rooms is Some,
                before.width <= LINE_LIMIT,
                before.height <= LINE_LIMIT,
                n == before.rooms->0@.len(),
                connected@.len() == n,
                i == 0 ==> forall|k: int| 0 <= k < n ==> !#[trigger] connected@[k],
                build_data.wf(),
                build_data.same_records(&before),
                carved_only(&before.map, &build_data.map),
                corridors@.len() <= i,
                i >= 1 && n >= 2 ==> corridors@.len() >= 1,
                halls_on_floor(&build_data.map, corridors@),
            decreases n - i,
        {
            let ghost prev = *build_data;
            let mut made: Option<Vec<usize>> = None;
            match &build_data.rooms {
                Some(rooms) => {
                    match NearestCorridors::nearest_room(rooms, &connected, i) {
                        Some(j) => {
                            assert(rooms@[i as int].fits(before.width as int, before.height as int));
                            assert(rooms@[j as int].fits(before.width as int, before.height as int));
                            let corridor = Self::join(&mut build_data.map, &rooms[i], &rooms[j]);
                            made = Some(corridor);
                            proof {
                                let earlier = joins;
                                joins = joins.push((i as int, j as int));
                                assert forall|x: int, y: int|
                                    before.map.in_bounds(x, y) implies #[trigger] build_data.map.tile_at(
                                    x,
                                    y,
                                ) == if lines_cover(
                                    before.rooms->0@,
                                    joins,
                                    joins.len() as int,
                                    x,
                                    y,
                                ) {
                                    TileType::Floor
                                } else {
                                    before.map.tile_at(x, y)
                                } by {
                                    lemma_lines_cover_prefix(
                                        before.rooms->0@,
                                        earlier,
                                        joins,
                                        earlier.len() as int,
                                        x,
                                        y,
                                    );
                                    assert(prev.map.tile_at(x, y) == if lines_cover(
                                        before.rooms->0@,
                                        earlier,
                                        earlier.len() as int,
                                        x,
                                        y,
                                    ) {
                                        TileType::Floor
                                    } else {
                                        before.map.tile_at(x, y)
                                    });
                                }
                                assert forall|k: int, l: int|
                                    #![trigger joins[k], joins[l]]
                                    0 <= k < l < joins.len() implies joins[k].0 < joins[l].0 by {
                                    assert(joins[k] == earlier[k]);
                                    if l < earlier.len() {
                                        assert(joins[l] == earlier[l]);
                                    }
                                }
                            }
                        },
                        None => {
                            proof {
                                if i == 0 && n >= 2 {
                                    assert(crate::map_builders::rooms_corridors_nearest::open_to(
                                        connected@,
                                        0,
                                        1,
                                    ));
                                }
                            }
                        },
                    }
                },
                None => {},
            }
            match made {
                Some(corridor) => {
                    proof {
                        lemma_carved_twice(&before.map, &prev.map, &build_data.map);
                        lemma_halls_stay_on_floor(&prev.map, &build_data.map, corridors@);
                        assert forall|a: int, b: int|
                            0 <= a < corridors@.push(corridor).len() && 0 <= b < corridors@.push(
                                corridor,
                            )[a]@.len() implies (#[trigger] corridors@.push(corridor)[a]@[b])
                            < build_data.map.cells() && build_data.map.tiles@[corridors@.push(
                            corridor,
                        )[a]@[b] as int] == TileType::Floor by {
                            if a < corridors@.len() {
                                assert(corridors@.push(corridor)[a] == corridors@[a]);
                                assert(corridors@[a]@[b] < build_data.map.cells());
                            }
                        }
                    }
                    connected[i] = true;
                    build_data.take_snapshot();
                    corridors.push(corridor);
                },
                None => {},
            }
            i += 1;
        }
        proof {
            assert(line_plan(&before.map, &build_data.map, before.rooms->0@, joins));
        }
        build_data.corridors = Some(corridors);
    }
}

impl MetaMapBuilder for StraightLineCorridors {
    open spec fn fits_grid(&self, width: int, height: int) -> bool {
        width <= LINE_LIMIT && height <= LINE_LIMIT
    }

    open spec fn needs(&self) -> Fields {
        Fields { rooms: true, corridors: false, submaps: false }
    }

    open spec fn provides(&self) -> Fields {
        Fields { rooms: false, corridors: true, submaps: false }
    }

    open spec fn outcome(&self, before: &BuilderMap, after: &BuilderMap) -> bool {
        &&& exists|joins: Seq<(int, int)>| #[trigger]
            line_plan(&before.map, &after.map, before.rooms->0@, joins)
        &&& after.corridors matches Some(halls) && halls_on_floor(&after.map, halls@)
    }

    fn grid_ok(&self, width: i32, height: i32) -> (r: bool) {
        width <= LINE_LIMIT && height <= LINE_LIMIT
    }

    fn needed(&self) -> (r: Fields) {
        Fields { rooms: true, corridors: false, submaps: false }
    }

    fn provided(&self) -> (r: Fields) {
        Fields { rooms: false, corridors: true, submaps: false }
    }

    fn build_map(&mut self, rng: &mut rltk::RandomNumberGenerator, build_data: &mut BuilderMap) {
        self.corridors(build_data);
    }
}

} // verus!
