use crate::map::{tile_walkable, walkable, Grid};
use crate::map_builders::voronoi::gap;
use crate::map_builders::{BuilderMap, Fields, MetaMapBuilder, Position};
use vstd::prelude::*;

verus! {

/// Where to look for a starting position, from left to right.
#[derive(PartialEq, Eq, Structural, Copy, Clone, Debug)]
#[allow(non_camel_case_types)]
pub enum XStart {
    LEFT,
    CENTER,
    RIGHT,
}

/// Where to look for a starting position, from top to bottom.
#[derive(PartialEq, Eq, Structural, Copy, Clone, Debug)]
#[allow(non_camel_case_types)]
pub enum YStart {
    TOP,
    CENTER,
    BOTTOM,
}

/// The stage that makes the walkable cell nearest to a point of the grid
/// the starting position.
pub struct AreaStartingPosition {
    pub x: XStart,
    pub y: YStart,
}

/// The column to start the search from.
pub open spec fn seed_column(x: XStart, width: int) -> int {
    match x {
        XStart::LEFT => 1,
        XStart::CENTER => width / 2,
        XStart::RIGHT => width - 2,
    }
}

/// The row to start the search from.
pub open spec fn seed_row(y: YStart, height: int) -> int {
    match y {
        YStart::TOP => 1,
        YStart::CENTER => height / 2,
        YStart::BOTTOM => height - 2,
    }
}

/// The square of the straight-line distance from the cell of index `idx`
/// to the point `(x, y)`.
pub open spec fn reach(map: &Grid, idx: int, x: int, y: int) -> int {
    let dx = gap(idx % (map.width as int), x);
    let dy = gap(idx / (map.width as int), y);
    dx * dx + dy * dy
}

/// Whether the cell of index `idx` is the walkable cell nearest to
/// `(x, y)` among the first `n` cells, and of several equally near the one
/// of the lowest index.
pub open spec fn nearest_walkable(map: &Grid, x: int, y: int, n: int, idx: int) -> bool {
    &&& 0 <= idx < n
    &&& walkable(map.tiles@[idx])
    &&& forall|k: int|
        0 <= k < n && walkable(#[trigger] map.tiles@[k]) ==> reach(map, idx, x, y) <= reach(
            map,
            k,
            x,
            y,
        )
    &&& forall|k: int|
        0 <= k < idx && walkable(#[trigger] map.tiles@[k]) ==> reach(map, idx, x, y) < reach(
            map,
            k,
            x,
            y,
        )
}

/// Whether any of the first `n` cells is walkable.
pub open spec fn any_walkable(map: &Grid, n: int) -> bool {
    exists|k: int| 0 <= k < n && walkable(#[trigger] map.tiles@[k])
}

/// Whether `after` is `before` with the walkable cell nearest to the
/// point given by `x` and `y` for its starting position, or `before` with
/// the starting position it has where no cell is walkable.
pub open spec fn started_near(before: &BuilderMap, after: &BuilderMap, x: XStart, y: YStart) -> bool {
    &&& after.map == before.map
    &&& !any_walkable(&before.map, before.map.cells()) ==> after.starting_position
        == before.starting_position
    &&& any_walkable(&before.map, before.map.cells()) ==> (after.starting_position matches Some(p)
        && nearest_walkable(
        &before.map,
        seed_column(x, before.width as int),
        seed_row(y, before.height as int),
        before.map.cells(),
        before.map.index_of(p.x as int, p.y as int),
    ))
}

impl AreaStartingPosition {
    /// The stage that looks for a start near the point given by `x` and `y`.
    pub fn new(x: XStart, y: YStart) -> (r: Box<AreaStartingPosition>)
        ensures
            r.x == x,
            r.y == y,
    {
        Box::new(AreaStartingPosition { x, y })
    }

    /// Finds the walkable cell nearest to `(x, y)`, if the grid has a
    /// walkable cell at all.
    pub fn find_nearest(map: &Grid, x: i32, y: i32) -> (found: Option<usize>)
        requires
            map.wf(),
        ensures
            found is None <==> !any_walkable(map, map.cells()),
            found matches Some(idx) ==> nearest_walkable(map, x as int, y as int, map.cells(), idx as int),
    {
        let n = map.tiles.len();
        let mut best: Option<(usize, i128)> = None;
        let mut i: usize = 0;
        while i < n
            invariant
                i <= n,
                n == map.cells(),
                map.wf(),
                best is None <==> !any_walkable(map, i as int),
                best matches Some(b) ==> nearest_walkable(map, x as int, y as int, i as int, b.0 as int)
                    && b.1 == reach(map, b.0 as int, x as int, y as int),
            decreases n - i,
        {
            if tile_walkable(map.tiles[i]) {
                let xy = map.idx_xy(i);
                let dx: i128 = if xy.0 >= x {
                    xy.0 as i128 - x as i128
                } else {
                    x as i128 - xy.0 as i128
                };
                let dy: i128 = if xy.1 >= y {
                    xy.1 as i128 - y as i128
                } else {
                    y as i128 - xy.1 as i128
                };
                assert(0 <= dx * dx <= 0x1_0000_0000 * 0x1_0000_0000) by (nonlinear_arith)
                    requires
                        0 <= dx <= 0x1_0000_0000,
                ;
                assert(0 <= dy * dy <= 0x1_0000_0000 * 0x1_0000_0000) by (nonlinear_arith)
                    requires
                        0 <= dy <= 0x1_0000_0000,
                ;
                let d = dx * dx + dy * dy;
                let nearer = match best {
                    None => true,
                    Some(b) => d < b.1,
                };
                if nearer {
                    best = Some((i, d));
                }
            }
            i += 1;
        }
        match best {
            None => None,
            Some(b) => Some(b.0),
        }
    }

    /// Makes the walkable cell nearest to the point that the stage was
    /// made for the starting position. A grid without a walkable cell
    /// keeps the starting position it has.
    pub fn build(&mut self, build_data: &mut BuilderMap)
        requires
            old(build_data).wf(),
        ensures
            *final(self) == *old(self),
            final(build_data).wf(),
            final(build_data).extends(old(build_data)),
            final(build_data).map == old(build_data).map,
            final(build_data).list_spawns == old(build_data).list_spawns,
            final(build_data).history == old(build_data).history,
            final(build_data).rooms == old(build_data).rooms,
            final(build_data).corridors == old(build_data).corridors,
            final(build_data).submaps == old(build_data).submaps,
            any_walkable(&old(build_data).map, old(build_data).map.cells()) ==> final(
                build_data).start_walkable(),
            started_near(old(build_data), final(build_data), old(self).x, old(self).y),
            !any_walkable(&old(build_data).map, old(build_data).map.cells()) ==> final(
                build_data).starting_position == old(build_data).starting_position,
            any_walkable(&old(build_data).map, old(build_data).map.cells()) ==> (final(
                build_data).starting_position matches Some(p) && nearest_walkable(
                &old(build_data).map,
                seed_column(old(self).x, old(build_data).width as int),
                seed_row(old(self).y, old(build_data).height as int),
                old(build_data).map.cells(),
                old(build_data).map.index_of(p.x as int, p.y as int),
            ) && walkable(final(build_data).map.tile_at(p.x as int, p.y as int))),
    {
        let width = build_data.map.width;
        let height = build_data.map.height;
        let seed_x = match self.x {
            XStart::LEFT => 1,
            XStart::CENTER => width / 2,
            XStart::RIGHT => width - 2,
        };
        let seed_y = match self.y {
            YStart::TOP => 1,
            YStart::CENTER => height / 2,
            YStart::BOTTOM => height - 2,
        };
        match Self::find_nearest(&build_data.map, seed_x, seed_y) {
            Some(idx) => {
                let xy = build_data.map.idx_xy(idx);
                build_data.starting_position = Some(Position { x: xy.0, y: xy.1 });
            },
            None => {},
        }
    }
}

/// Of the walkable cells no two are the nearest to a point.
pub proof fn lemma_nearest_walkable_unique(map: &Grid, x: int, y: int, n: int, i: int, j: int)
    requires
        nearest_walkable(map, x, y, n, i),
        nearest_walkable(map, x, y, n, j),
    ensures
        i == j,
{
}

/// The stage draws nothing: whatever it makes of a context, the grid and
/// the starting position are the same every time.
pub proof fn lemma_start_determined(
    stage: AreaStartingPosition,
    before: BuilderMap,
    one: BuilderMap,
    other: BuilderMap,
)
    requires
        before.wf(),
        one.wf(),
        other.wf(),
        stage.outcome(&before, &one),
        stage.outcome(&before, &other),
    ensures
        one.map == other.map,
        one.starting_position == other.starting_position,
{
    if any_walkable(&before.map, before.map.cells()) {
        let p = one.starting_position->0;
        let q = other.starting_position->0;
        lemma_nearest_walkable_unique(
            &before.map,
            seed_column(stage.x, before.width as int),
            seed_row(stage.y, before.height as int),
            before.map.cells(),
            before.map.index_of(p.x as int, p.y as int),
            before.map.index_of(q.x as int, q.y as int),
        );
        before.map.lemma_index_in_range(p.x as int, p.y as int);
        before.map.lemma_index_in_range(q.x as int, q.y as int);
    }
}

impl MetaMapBuilder for AreaStartingPosition {
    open spec fn fits_grid(&self, width: int, height: int) -> bool {
        true
    }

    open spec fn needs(&self) -> Fields {
        Fields::none()
    }

    open spec fn provides(&self) -> Fields {
        Fields::none()
    }

    open spec fn outcome(&self, before: &BuilderMap, after: &BuilderMap) -> bool {
        started_near(before, after, self.x, self.y)
    }

    fn grid_ok(&self, width: i32, height: i32) -> (r: bool) {
        true
    }

    fn needed(&self) -> (r: Fields) {
        Fields { rooms: false, corridors: false, submaps: false }
    }

    fn provided(&self) -> (r: Fields) {
        Fields { rooms: false, corridors: false, submaps: false }
    }

    fn build_map(&mut self, rng: &mut rltk::RandomNumberGenerator, build_data: &mut BuilderMap) {
        self.build(build_data);
    }
}

} // verus!
