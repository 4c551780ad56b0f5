use crate::map::{Grid, TileType};
use crate::map_builders::common::{paint, stroke_covers, stroke_on_grid, Symmetry};
use crate::map_builders::{BuilderMap, Fields, InitialMapBuilder, Position};
use crate::rng::roll_dice;
use vstd::prelude::*;

verus! {

/// Where a walker sets out.
#[derive(PartialEq, Eq, Structural, Copy, Clone, Debug)]
pub enum DrunkSpawnMode {
    StartingPoint,
    Random,
}

/// What tells one kind of drunkard's walk from another. The share of floor
/// to reach is a whole percentage of all cells.
#[derive(PartialEq, Eq, Structural, Copy, Clone, Debug)]
pub struct DrunkardSettings {
    pub spawn_mode: DrunkSpawnMode,
    pub drunken_lifetime: i32,
    pub floor_percent: u32,
    pub brush_size: i32,
    pub symmetry: Symmetry,
}

/// The stage that lets walkers stagger over the grid and turns to floor
/// what they step on, until enough of the grid is floor.
pub struct DrunkardsWalkBuilder {
    pub settings: DrunkardSettings,
}

/// The most walkers that are sent out.
pub const MAX_WALKERS: i32 = 0x7fff_ffff;

/// The number of floor cells to reach: the given percentage of all cells,
/// rounded down.
pub open spec fn floor_target(percent: int, cells: int) -> int {
    percent * cells / 100
}

/// Where a walker at `(x, y)` is after a step in `direction`: one is left,
/// two is right, three is up, anything else is down. A step that would
/// bring it within two cells of the edge it steps toward is not taken.
pub open spec fn staggered(x: int, y: int, direction: int, width: int, height: int) -> (int, int) {
    if direction == 1 {
        if x > 2 {
            (x - 1, y)
        } else {
            (x, y)
        }
    } else if direction == 2 {
        if x < width - 2 {
            (x + 1, y)
        } else {
            (x, y)
        }
    } else if direction == 3 {
        if y > 2 {
            (x, y - 1)
        } else {
            (x, y)
        }
    } else {
        if y < height - 2 {
            (x, y + 1)
        } else {
            (x, y)
        }
    }
}

/// Whether a walker that paints with the symmetry `mode` may stand on
/// `(x, y)`: the cell is on the grid, and so are its mirror images.
pub open spec fn walkable_ground(map: &Grid, mode: Symmetry, x: int, y: int) -> bool {
    stroke_on_grid(map, mode, x, y)
}

/// A step leaves a walker on ground that it may stand on.
pub proof fn lemma_stagger_stays(map: &Grid, mode: Symmetry, x: int, y: int, direction: int)
    requires
        map.wf(),
        walkable_ground(map, mode, x, y),
    ensures
        walkable_ground(
            map,
            mode,
            staggered(x, y, direction, map.width as int, map.height as int).0,
            staggered(x, y, direction, map.width as int, map.height as int).1,
        ),
{
}

/// Whether a walker that stands on `at` changes the cell `(a, b)`: it
/// stands on it or its brush covers it.
pub open spec fn stroke_hits(
    map: &Grid,
    settings: DrunkardSettings,
    at: (int, int),
    a: int,
    b: int,
) -> bool {
    (a == at.0 && b == at.1) || stroke_covers(
        map,
        settings.symmetry,
        settings.brush_size as int,
        at.0,
        at.1,
        a,
        b,
    )
}

/// Whether a walker changes the cell `(a, b)` on one of the first `n` of
/// the cells it stands on.
pub open spec fn strokes_hit(
    map: &Grid,
    settings: DrunkardSettings,
    strokes: Seq<(int, int)>,
    n: int,
    a: int,
    b: int,
) -> bool
    decreases n,
{
    n > 0 && (strokes_hit(map, settings, strokes, n - 1, a, b) || stroke_hits(
        map,
        settings,
        strokes[n - 1],
        a,
        b,
    ))
}

/// What the cells of one list and then those of another change is what
/// either changes.
pub proof fn lemma_strokes_joined(
    map: &Grid,
    settings: DrunkardSettings,
    first: Seq<(int, int)>,
    second: Seq<(int, int)>,
    n: int,
    a: int,
    b: int,
)
    requires
        0 <= n <= second.len(),
    ensures
        strokes_hit(map, settings, first + second, first.len() + n, a, b) == (strokes_hit(
            map,
            settings,
            first,
            first.len() as int,
            a,
            b,
        ) || strokes_hit(map, settings, second, n, a, b)),
    decreases first.len() + n,
{
    if n > 0 {
        lemma_strokes_joined(map, settings, first, second, n - 1, a, b);
        assert((first + second)[first.len() + n - 1] == second[n - 1]);
    } else if first.len() > 0 {
        lemma_strokes_prefix(map, settings, first, first + second, first.len() as int, a, b);
    }
}

/// What the first `n` cells change does not depend on the cells after
/// them.
pub proof fn lemma_strokes_prefix(
    map: &Grid,
    settings: DrunkardSettings,
    strokes: Seq<(int, int)>,
    more: Seq<(int, int)>,
    n: int,
    a: int,
    b: int,
)
    requires
        0 <= n <= strokes.len() <= more.len(),
        forall|i: int| 0 <= i < n ==> more[i] == strokes[i],
    ensures
        strokes_hit(map, settings, more, n, a, b) == strokes_hit(map, settings, strokes, n, a, b),
    decreases n,
{
    if n > 0 {
        lemma_strokes_prefix(map, settings, strokes, more, n - 1, a, b);
    }
}

/// What walkers change depends on the size of the grid only, not on its
/// tiles.
pub proof fn lemma_strokes_by_shape(
    one: &Grid,
    other: &Grid,
    settings: DrunkardSettings,
    strokes: Seq<(int, int)>,
    n: int,
    a: int,
    b: int,
)
    requires
        one.width == other.width,
        one.height == other.height,
    ensures
        strokes_hit(one, settings, strokes, n, a, b) == strokes_hit(
            other,
            settings,
            strokes,
            n,
            a,
            b,
        ),
    decreases n,
{
    if n > 0 {
        lemma_strokes_by_shape(one, other, settings, strokes, n - 1, a, b);
        lemma_stroke_by_shape(
            one,
            other,
            settings.symmetry,
            settings.brush_size as int,
            strokes[n - 1].0,
            strokes[n - 1].1,
            a,
            b,
        );
    }
}

/// Whether a walker can get from `(fx, fy)` to `(tx, ty)` by one step.
pub open spec fn one_step(map: &Grid, fx: int, fy: int, tx: int, ty: int) -> bool {
    exists|direction: int|
        1 <= direction <= 4 && (tx, ty) == #[trigger] staggered(
            fx,
            fy,
            direction,
            map.width as int,
            map.height as int,
        )
}

/// What a stroke covers depends on the size of the grid only, not on its
/// tiles.
pub proof fn lemma_stroke_by_shape(
    one: &Grid,
    other: &Grid,
    mode: Symmetry,
    brush_size: int,
    x: int,
    y: int,
    a: int,
    b: int,
)
    requires
        one.width == other.width,
        one.height == other.height,
    ensures
        stroke_covers(one, mode, brush_size, x, y, a, b) == stroke_covers(
            other,
            mode,
            brush_size,
            x,
            y,
            a,
            b,
        ),
{
    if stroke_covers(one, mode, brush_size, x, y, a, b) {
        let (cx, cy) = choose|cx: int, cy: int| #[trigger]
            crate::map_builders::common::stroke_center(one, mode, x, y, cx, cy)
                && crate::map_builders::common::brush_covers(one, brush_size, cx, cy, a, b);
        assert(crate::map_builders::common::stroke_center(other, mode, x, y, cx, cy)
            && crate::map_builders::common::brush_covers(other, brush_size, cx, cy, a, b));
    }
    if stroke_covers(other, mode, brush_size, x, y, a, b) {
        let (cx, cy) = choose|cx: int, cy: int| #[trigger]
            crate::map_builders::common::stroke_center(other, mode, x, y, cx, cy)
                && crate::map_builders::common::brush_covers(other, brush_size, cx, cy, a, b);
        assert(crate::map_builders::common::stroke_center(one, mode, x, y, cx, cy)
            && crate::map_builders::common::brush_covers(one, brush_size, cx, cy, a, b));
    }
}

/// Whether `after` is what a walker that sets out from `(x, y)` and stands
/// on the cells `strokes`, one after the other, makes of `before`: it
/// stands on as many cells as its lifetime says, each a step from the one
/// before, and every cell that it changes is floor or bears its mark.
pub open spec fn walked(
    before: &Grid,
    after: &Grid,
    settings: DrunkardSettings,
    x: int,
    y: int,
    strokes: Seq<(int, int)>,
) -> bool {
    &&& strokes.len() == if settings.drunken_lifetime > 0 {
        settings.drunken_lifetime as int
    } else {
        0
    }
    &&& strokes.len() > 0 ==> strokes[0] == (x, y)
    &&& forall|k: int|
        0 <= k < strokes.len() ==> walkable_ground(
            before,
            settings.symmetry,
            (#[trigger] strokes[k]).0,
            strokes[k].1,
        )
    &&& forall|k: int|
        0 <= k && k + 1 < strokes.len() ==> one_step(
            before,
            strokes[k].0,
            strokes[k].1,
            (#[trigger] strokes[k + 1]).0,
            strokes[k + 1].1,
        )
    &&& forall|a: int, b: int|
        before.in_bounds(a, b) ==> if strokes_hit(
            before,
            settings,
            strokes,
            strokes.len() as int,
            a,
            b,
        ) {
            #[trigger] after.tile_at(a, b) == TileType::Floor || after.tile_at(a, b)
                == TileType::DownStairs
        } else {
            after.tile_at(a, b) == before.tile_at(a, b)
        }
}

/// Whether `after` is what walkers that stood on the cells `strokes` make
/// of `before`: the starting cell and every cell that a walker changed is
/// floor, and so is every cell that bore a mark before, if a walker was
/// sent at all.
pub open spec fn carved_by(
    before: &Grid,
    after: &Grid,
    settings: DrunkardSettings,
    start: (int, int),
    walkers: int,
    strokes: Seq<(int, int)>,
) -> bool {
    &&& forall|k: int|
        0 <= k < strokes.len() ==> walkable_ground(
            before,
            settings.symmetry,
            (#[trigger] strokes[k]).0,
            strokes[k].1,
        )
    &&& forall|a: int, b: int|
        before.in_bounds(a, b) ==> #[trigger] after.tile_at(a, b) == if (a, b) == start
            || strokes_hit(before, settings, strokes, strokes.len() as int, a, b) || (walkers > 0
            && before.tile_at(a, b) == TileType::DownStairs) {
            TileType::Floor
        } else {
            before.tile_at(a, b)
        }
}

/// Whether the cell at place `k + 1` of `strokes` is a step from the one
/// at place `k`.
pub open spec fn steps_on(map: &Grid, strokes: Seq<(int, int)>, k: int) -> bool {
    one_step(map, strokes[k].0, strokes[k].1, strokes[k + 1].0, strokes[k + 1].1)
}

/// Whether a cell lies two cells or more off every edge of the grid but
/// the right and the bottom one, which it may be a cell nearer to: the
/// cells that a step never leaves.
pub open spec fn off_edges(map: &Grid, x: int, y: int) -> bool {
    2 <= x <= map.width - 2 && 2 <= y <= map.height - 2
}

/// The number of cells that a walker stands on.
pub open spec fn steps_of(settings: DrunkardSettings) -> int {
    if settings.drunken_lifetime > 0 {
        settings.drunken_lifetime as int
    } else {
        0
    }
}

/// A walker that sets out off the edges stays off the edges.
pub proof fn lemma_walk_off_edges(map: &Grid, path: Seq<(int, int)>, k: int)
    requires
        0 <= k < path.len(),
        off_edges(map, path[0].0, path[0].1),
        forall|j: int|
            0 <= j && j + 1 < path.len() ==> one_step(
                map,
                path[j].0,
                path[j].1,
                (#[trigger] path[j + 1]).0,
                path[j + 1].1,
            ),
    ensures
        off_edges(map, path[k].0, path[k].1),
    decreases k,
{
    if k > 0 {
        lemma_walk_off_edges(map, path, k - 1);
        let j = k - 1;
        assert(path[j + 1] == path[k]);
        assert(one_step(map, path[j].0, path[j].1, path[j + 1].0, path[j + 1].1));
    }
}

/// Whether `path` holds the cells that the walker of number `w` stands on,
/// one after the other: as many as its lifetime says, each a step from
/// the one before. The first walker sets out from `start`, and so does
/// every walker of a stage whose walkers set out from the starting point;
/// every other walker sets out from a cell off the edges. A walker that
/// sets out off the edges stays off the edges.
pub open spec fn a_walk(
    map: &Grid,
    settings: DrunkardSettings,
    start: (int, int),
    w: int,
    path: Seq<(int, int)>,
) -> bool {
    &&& path.len() == steps_of(settings)
    &&& path.len() > 0 ==> if settings.spawn_mode == DrunkSpawnMode::StartingPoint || w == 0 {
        path[0] == start
    } else {
        off_edges(map, path[0].0, path[0].1)
    }
    &&& forall|k: int|
        0 <= k < path.len() ==> walkable_ground(
            map,
            settings.symmetry,
            (#[trigger] path[k]).0,
            path[k].1,
        )
    &&& forall|k: int| 0 <= k && k + 1 < path.len() ==> #[trigger] steps_on(map, path, k)
    &&& path.len() > 0 && off_edges(map, path[0].0, path[0].1) ==> forall|k: int|
        0 <= k < path.len() ==> off_edges(map, (#[trigger] path[k]).0, path[k].1)
}

/// The cells of the first `n` walks, one walk after the other.
pub open spec fn in_a_row(walks: Seq<Seq<(int, int)>>, n: int) -> Seq<(int, int)>
    decreases n,
{
    if n <= 0 {
        Seq::empty()
    } else {
        in_a_row(walks, n - 1) + walks[n - 1]
    }
}

/// The cells of the first `n` walks do not depend on the walks after
/// them.
pub proof fn lemma_in_a_row_prefix(
    walks: Seq<Seq<(int, int)>>,
    more: Seq<Seq<(int, int)>>,
    n: int,
)
    requires
        0 <= n <= walks.len() <= more.len(),
        forall|i: int| 0 <= i < n ==> more[i] == walks[i],
    ensures
        in_a_row(more, n) == in_a_row(walks, n),
    decreases n,
{
    if n > 0 {
        lemma_in_a_row_prefix(walks, more, n - 1);
    }
}

/// Whether `after` is what the walkers make of `before` whose walks are
/// given: there is one walk for each walker sent, each is a walk as the
/// stage lets a walker of its number take it, and the grid is carved by
/// their cells.
pub open spec fn walks_plan(
    before: &Grid,
    after: &Grid,
    settings: DrunkardSettings,
    start: (int, int),
    walkers: int,
    walks: Seq<Seq<(int, int)>>,
) -> bool {
    &&& walks.len() == walkers
    &&& forall|w: int| 0 <= w < walks.len() ==> a_walk(before, settings, start, w, #[trigger] walks[w])
    &&& carved_by(before, after, settings, start, walkers, in_a_row(walks, walks.len() as int))
}

/// A cell that one of the first `n` strokes changes is one of the cells
/// of those strokes, where the brush is one cell wide and nothing is
/// mirrored.
pub proof fn lemma_fine_hit_is_stroke(
    map: &Grid,
    settings: DrunkardSettings,
    strokes: Seq<(int, int)>,
    n: int,
    a: int,
    b: int,
)
    requires
        settings.brush_size == 1,
        settings.symmetry == Symmetry::Off,
        0 <= n <= strokes.len(),
        strokes_hit(map, settings, strokes, n, a, b),
    ensures
        exists|k: int| 0 <= k < n && #[trigger] strokes[k] == (a, b),
    decreases n,
{
    if n > 0 {
        if strokes_hit(map, settings, strokes, n - 1, a, b) {
            lemma_fine_hit_is_stroke(map, settings, strokes, n - 1, a, b);
            let k = choose|k: int| 0 <= k < n - 1 && #[trigger] strokes[k] == (a, b);
            assert(strokes[k] == (a, b));
        } else {
            assert(stroke_hits(map, settings, strokes[n - 1], a, b));
            assert(strokes[n - 1] == (a, b));
        }
    }
}

/// Where the walkers set out off the edges, every cell of their walks
/// lies off the edges.
pub proof fn lemma_walks_off_edges(
    map: &Grid,
    settings: DrunkardSettings,
    start: (int, int),
    walks: Seq<Seq<(int, int)>>,
    n: int,
    k: int,
)
    requires
        0 <= n <= walks.len(),
        off_edges(map, start.0, start.1),
        forall|w: int| 0 <= w < walks.len() ==> a_walk(map, settings, start, w, #[trigger] walks[w]),
        0 <= k < in_a_row(walks, n).len(),
    ensures
        off_edges(map, in_a_row(walks, n)[k].0, in_a_row(walks, n)[k].1),
    decreases n,
{
    if n > 0 {
        let earlier = in_a_row(walks, n - 1);
        let path = walks[n - 1];
        assert(a_walk(map, settings, start, n - 1, path));
        if k < earlier.len() {
            lemma_walks_off_edges(map, settings, start, walks, n - 1, k);
            assert(in_a_row(walks, n)[k] == earlier[k]);
        } else {
            let j = k - earlier.len();
            assert(in_a_row(walks, n)[k] == path[j]);
            assert(off_edges(map, path[0].0, path[0].1));
            assert(off_edges(map, path[j].0, path[j].1));
        }
    }
}

/// On a grid four cells or more wide and high, walkers that paint one
/// cell at a time and mirror nothing turn into floor only cells off the
/// edges, and the marks that walkers before them have left. Every other
/// cell stays as it is.
pub proof fn lemma_fine_walkers_stay_off_edges(
    before: &Grid,
    after: &Grid,
    settings: DrunkardSettings,
    walkers: int,
    walks: Seq<Seq<(int, int)>>,
    a: int,
    b: int,
)
    requires
        before.wf(),
        before.width >= 4,
        before.height >= 4,
        settings.brush_size == 1,
        settings.symmetry == Symmetry::Off,
        walks_plan(
            before,
            after,
            settings,
            (before.width as int / 2, before.height as int / 2),
            walkers,
            walks,
        ),
        before.in_bounds(a, b),
        before.tile_at(a, b) != TileType::DownStairs,
        after.tile_at(a, b) != before.tile_at(a, b),
    ensures
        after.tile_at(a, b) == TileType::Floor,
        off_edges(before, a, b),
{
    let start = (before.width as int / 2, before.height as int / 2);
    let strokes = in_a_row(walks, walks.len() as int);
    if (a, b) != start {
        assert(strokes_hit(before, settings, strokes, strokes.len() as int, a, b));
        lemma_fine_hit_is_stroke(before, settings, strokes, strokes.len() as int, a, b);
        let k = choose|k: int| 0 <= k < strokes.len() && #[trigger] strokes[k] == (a, b);
        lemma_walks_off_edges(before, settings, start, walks, walks.len() as int, k);
    }
}

/// The walks decide what the walkers make of a grid: two grids that the
/// same walks make of one grid hold the same tiles.
pub proof fn lemma_walks_determine(
    before: &Grid,
    one: &Grid,
    other: &Grid,
    settings: DrunkardSettings,
    start: (int, int),
    walks: Seq<Seq<(int, int)>>,
)
    requires
        before.wf(),
        one.wf(),
        other.wf(),
        one.same_shape(before),
        other.same_shape(before),
        walks_plan(before, one, settings, start, walks.len() as int, walks),
        walks_plan(before, other, settings, start, walks.len() as int, walks),
    ensures
        one.tiles@ == other.tiles@,
{
    assert forall|x: int, y: int| one.in_bounds(x, y) implies #[trigger] one.tile_at(x, y)
        == other.tile_at(x, y) by {
        assert(before.in_bounds(x, y));
    }
    Grid::lemma_same_tiles(one, other);
}

impl DrunkardsWalkBuilder {
    /// The stage with the settings given.
    pub fn new(settings: DrunkardSettings) -> (r: DrunkardsWalkBuilder)
        ensures
            r.settings == settings,
    {
        DrunkardsWalkBuilder { settings }
    }

    /// Walkers that all set out from the middle and live long: a wide open cave.
    pub fn open_area() -> (r: DrunkardsWalkBuilder)
        ensures
            r.settings.spawn_mode == DrunkSpawnMode::StartingPoint,
            r.settings.drunken_lifetime == 400,
            r.settings.floor_percent == 50,
            r.settings.brush_size == 1,
            r.settings.symmetry == Symmetry::Off,
    {
        DrunkardsWalkBuilder {
            settings: DrunkardSettings {
                spawn_mode: DrunkSpawnMode::StartingPoint,
                drunken_lifetime: 400,
                floor_percent: 50,
                brush_size: 1,
                symmetry: Symmetry::Off,
            },
        }
    }

    /// Walkers that set out anywhere and live long: halls joined by passages.
    pub fn open_halls() -> (r: DrunkardsWalkBuilder)
        ensures
            r.settings.spawn_mode == DrunkSpawnMode::Random,
            r.settings.drunken_lifetime == 400,
            r.settings.floor_percent == 50,
            r.settings.brush_size == 1,
            r.settings.symmetry == Symmetry::Off,
    {
        DrunkardsWalkBuilder {
            settings: DrunkardSettings {
                spawn_mode: DrunkSpawnMode::Random,
                drunken_lifetime: 400,
                floor_percent: 50,
                brush_size: 1,
                symmetry: Symmetry::Off,
            },
        }
    }

    /// Walkers that set out anywhere and live briefly: winding passages.
    pub fn winding_passages() -> (r: DrunkardsWalkBuilder)
        ensures
            r.settings.spawn_mode == DrunkSpawnMode::Random,
            r.settings.drunken_lifetime == 100,
            r.settings.floor_percent == 40,
            r.settings.brush_size == 1,
            r.settings.symmetry == Symmetry::Off,
    {
        DrunkardsWalkBuilder {
            settings: DrunkardSettings {
                spawn_mode: DrunkSpawnMode::Random,
                drunken_lifetime: 100,
                floor_percent: 40,
                brush_size: 1,
                symmetry: Symmetry::Off,
            },
        }
    }

    /// Winding passages dug with a brush of two cells.
    pub fn fat_passages() -> (r: DrunkardsWalkBuilder)
        ensures
            r.settings.spawn_mode == DrunkSpawnMode::Random,
            r.settings.drunken_lifetime == 100,
            r.settings.floor_percent == 40,
            r.settings.brush_size == 2,
            r.settings.symmetry == Symmetry::Off,
    {
        DrunkardsWalkBuilder {
            settings: DrunkardSettings {
                spawn_mode: DrunkSpawnMode::Random,
                drunken_lifetime: 100,
                floor_percent: 40,
                brush_size: 2,
                symmetry: Symmetry::Off,
            },
        }
    }

    /// Winding passages mirrored across both middle lines.
    pub fn fearful_symmetry() -> (r: DrunkardsWalkBuilder)
        ensures
            r.settings.spawn_mode == DrunkSpawnMode::Random,
            r.settings.drunken_lifetime == 100,
            r.settings.floor_percent == 40,
            r.settings.brush_size == 1,
            r.settings.symmetry == Symmetry::Both,
    {
        DrunkardsWalkBuilder {
            settings: DrunkardSettings {
                spawn_mode: DrunkSpawnMode::Random,
                drunken_lifetime: 100,
                floor_percent: 40,
                brush_size: 1,
                symmetry: Symmetry::Both,
            },
        }
    }

    /// The number of floor cells that a grid of `cells` cells has to reach.
    pub fn desired_floor_tiles(percent: u32, cells: usize) -> (n: u64)
        requires
            cells <= i32::MAX,
        ensures
            n == floor_target(percent as int, cells as int),
    {
        assert(percent * cells <= 0xffff_ffff * 0x7fff_ffff) by (nonlinear_arith)
            requires
                percent <= 0xffff_ffff,
                cells <= 0x7fff_ffff,
        ;
        percent as u64 * cells as u64 / 100
    }

    /// Moves a walker by one step in the direction drawn.
    pub fn stagger(x: i32, y: i32, direction: i32, width: i32, height: i32) -> (r: (i32, i32))
        requires
            0 <= x < width,
            0 <= y < height,
        ensures
            (r.0 as int, r.1 as int) == staggered(
                x as int,
                y as int,
                direction as int,
                width as int,
                height as int,
            ),
    {
        let mut drunk_x = x;
        let mut drunk_y = y;
        if direction == 1 {
            if drunk_x > 2 {
                drunk_x -= 1;
            }
        } else if direction == 2 {
            if drunk_x < width - 2 {
                drunk_x += 1;
            }
        } else if direction == 3 {
            if drunk_y > 2 {
                drunk_y -= 1;
            }
        } else {
            if drunk_y < height - 2 {
                drunk_y += 1;
            }
        }
        (drunk_x, drunk_y)
    }

    /// Turns the marks that a walker left into floor.
    pub fn settle(map: &mut Grid)
        requires
            old(map).wf(),
        ensures
            final(map).wf(),
            final(map).same_shape(old(map)),
            forall|i: int|
                0 <= i < old(map).cells() ==> #[trigger] final(map).tiles@[i] == if old(
                    map,
                ).tiles@[i] == TileType::DownStairs {
                    TileType::Floor
                } else {
                    old(map).tiles@[i]
                },
    {
        let n = map.tiles.len();
        let mut i: usize = 0;
        while i < n
            invariant
                i <= n,
                n == old(map).cells(),
                map.wf(),
                map.same_shape(old(map)),
                forall|j: int|
                    0 <= j < n ==> #[trigger] map.tiles@[j] == if j < i && old(map).tiles@[j]
                        == TileType::DownStairs {
                        TileType::Floor
                    } else {
                        old(map).tiles@[j]
                    },
            decreases n - i,
        {
            if map.tiles[i] == TileType::DownStairs {
                map.tiles[i] = TileType::Floor;
            }
            i += 1;
        }
    }

    /// Lets one walker set out from `(x, y)` and stagger for as many steps
    /// as its lifetime allows, painting floor where it goes and leaving a
    /// mark on each cell it stood on. Tells whether it stood on a wall.
    #[verifier::rlimit(50)]
    pub fn walk(
        &self,
        rng: &mut rltk::RandomNumberGenerator,
        map: &mut Grid,
        x: i32,
        y: i32,
    ) -> (did_something: bool)
        requires
            old(map).wf(),
            walkable_ground(old(map), self.settings.symmetry, x as int, y as int),
        ensures
            final(map).wf(),
            final(map).same_shape(old(map)),
            forall|a: int, b: int|
                old(map).in_bounds(a, b) ==> {
                    ||| #[trigger] final(map).tile_at(a, b) == old(map).tile_at(a, b)
                    ||| final(map).tile_at(a, b) == TileType::Floor
                    ||| final(map).tile_at(a, b) == TileType::DownStairs
                },
            exists|strokes: Seq<(int, int)>| #[trigger]
                walked(old(map), final(map), self.settings, x as int, y as int, strokes),
    {
        let ghost before = *map;
        let mut did_something = false;
        let mut drunk_x = x;
        let mut drunk_y = y;
        let mut drunk_life = self.settings.drunken_lifetime;
        let ghost mut strokes: Seq<(int, int)> = Seq::empty();
        let ghost lifetime: int = if self.settings.drunken_lifetime > 0 {
            self.settings.drunken_lifetime as int
        } else {
            0
        };
        while drunk_life > 0
            invariant
                before.wf(),
                map.wf(),
                map.same_shape(&before),
                walkable_ground(&before, self.settings.symmetry, drunk_x as int, drunk_y as int),
                lifetime == if self.settings.drunken_lifetime > 0 {
                    self.settings.drunken_lifetime as int
                } else {
                    0
                },
                lifetime > 0 ==> drunk_life >= 0 && strokes.len() + drunk_life == lifetime,
                lifetime == 0 ==> drunk_life <= 0 && strokes.len() == 0,
                strokes.len() == 0 ==> drunk_x == x && drunk_y == y,
                strokes.len() > 0 ==> strokes[0] == (x as int, y as int) && one_step(
                    &before,
                    strokes.last().0,
                    strokes.last().1,
                    drunk_x as int,
                    drunk_y as int,
                ),
                forall|k: int|
                    0 <= k < strokes.len() ==> walkable_ground(
                        &before,
                        self.settings.symmetry,
                        (#[trigger] strokes[k]).0,
                        strokes[k].1,
                    ),
                forall|k: int|
                    0 <= k && k + 1 < strokes.len() ==> one_step(
                        &before,
                        strokes[k].0,
                        strokes[k].1,
                        (#[trigger] strokes[k + 1]).0,
                        strokes[k + 1].1,
                    ),
                forall|a: int, b: int|
                    before.in_bounds(a, b) ==> if strokes_hit(
                        &before,
                        self.settings,
                        strokes,
                        strokes.len() as int,
                        a,
                        b,
                    ) {
                        #[trigger] map.tile_at(a, b) == TileType::Floor || map.tile_at(a, b)
                            == TileType::DownStairs
                    } else {
                        map.tile_at(a, b) == before.tile_at(a, b)
                    },
                forall|a: int, b: int|
                    before.in_bounds(a, b) ==> {
                        ||| #[trigger] map.tile_at(a, b) == before.tile_at(a, b)
                        ||| map.tile_at(a, b) == TileType::Floor
                        ||| map.tile_at(a, b) == TileType::DownStairs
                    },
            decreases drunk_life,
        {
            let ghost prev = *map;
            if map.tile(drunk_x, drunk_y) == TileType::Wall {
                did_something = true;
            }
            paint(map, self.settings.symmetry, self.settings.brush_size, drunk_x, drunk_y);
            let ghost painted = *map;
            map.set_tile(drunk_x, drunk_y, TileType::DownStairs);
            proof {
                assert forall|a: int, b: int| before.in_bounds(a, b) implies {
                    ||| #[trigger] map.tile_at(a, b) == before.tile_at(a, b)
                    ||| map.tile_at(a, b) == TileType::Floor
                    ||| map.tile_at(a, b) == TileType::DownStairs
                } by {
                    assert(painted.tile_at(a, b) == TileType::Floor || painted.tile_at(a, b)
                        == prev.tile_at(a, b));
                    assert(prev.tile_at(a, b) == before.tile_at(a, b) || prev.tile_at(a, b)
                        == TileType::Floor || prev.tile_at(a, b) == TileType::DownStairs);
                }
                lemma_stagger_stays(
                    &before,
                    self.settings.symmetry,
                    drunk_x as int,
                    drunk_y as int,
                    0,
                );
                let earlier = strokes;
                strokes = strokes.push((drunk_x as int, drunk_y as int));
                assert forall|a: int, b: int| before.in_bounds(a, b) implies if strokes_hit(
                    &before,
                    self.settings,
                    strokes,
                    strokes.len() as int,
                    a,
                    b,
                ) {
                    #[trigger] map.tile_at(a, b) == TileType::Floor || map.tile_at(a, b)
                        == TileType::DownStairs
                } else {
                    map.tile_at(a, b) == before.tile_at(a, b)
                } by {
                    lemma_strokes_prefix(
                        &before,
                        self.settings,
                        earlier,
                        strokes,
                        earlier.len() as int,
                        a,
                        b,
                    );
                    assert(painted.tile_at(a, b) == if stroke_covers(
                        &prev,
                        self.settings.symmetry,
                        self.settings.brush_size as int,
                        drunk_x as int,
                        drunk_y as int,
                        a,
                        b,
                    ) {
                        TileType::Floor
                    } else {
                        prev.tile_at(a, b)
                    });
                    lemma_stroke_by_shape(
                        &prev,
                        &before,
                        self.settings.symmetry,
                        self.settings.brush_size as int,
                        drunk_x as int,
                        drunk_y as int,
                        a,
                        b,
                    );
                }
                assert forall|k: int| 0 <= k && k + 1 < strokes.len() implies one_step(
                    &before,
                    strokes[k].0,
                    strokes[k].1,
                    (#[trigger] strokes[k + 1]).0,
                    strokes[k + 1].1,
                ) by {
                    if k + 1 < earlier.len() {
                        assert(strokes[k + 1] == earlier[k + 1]);
                        assert(strokes[k] == earlier[k]);
                    } else {
                        assert(strokes[k] == earlier.last());
                    }
                }
            }
            let stagger_direction = roll_dice(rng, 1, 4);
            proof {
                lemma_stagger_stays(
                    &before,
                    self.settings.symmetry,
                    drunk_x as int,
                    drunk_y as int,
                    stagger_direction as int,
                );
            }
            let next = Self::stagger(drunk_x, drunk_y, stagger_direction, map.width, map.height);
            proof {
                assert(one_step(
                    &before,
                    drunk_x as int,
                    drunk_y as int,
                    next.0 as int,
                    next.1 as int,
                )) by {
                    assert((next.0 as int, next.1 as int) == staggered(
                        drunk_x as int,
                        drunk_y as int,
                        stagger_direction as int,
                        before.width as int,
                        before.height as int,
                    ));
                }
            }
            drunk_x = next.0;
            drunk_y = next.1;
            drunk_life -= 1;
        }
        proof {
            assert(walked(&before, map, self.settings, x as int, y as int, strokes));
        }
        did_something
    }

    /// Carves the level. The middle of the grid becomes floor and the
    /// starting position. Walkers are sent out, one after the other, until
    /// the share of floor asked for is reached or the walkers are used up;
    /// the number of walkers sent and the number of those that stood on a
    /// wall are returned.
    #[verifier::rlimit(100)]
    pub fn build(&mut self, rng: &mut rltk::RandomNumberGenerator, build_data: &mut BuilderMap) -> (walkers:
        (i32, i32))
        requires
            old(build_data).wf(),
            old(self).settings.spawn_mode == DrunkSpawnMode::Random ==> old(build_data).width >= 4
                && old(build_data).height >= 4,
        ensures
            *final(self) == *old(self),
            final(build_data).wf(),
            final(build_data).extends(old(build_data)),
            final(build_data).list_spawns == old(build_data).list_spawns,
            final(build_data).rooms == old(build_data).rooms,
            final(build_data).corridors == old(build_data).corridors,
            final(build_data).submaps == old(build_data).submaps,
            final(build_data).starting_position == Some(
                Position {
                    x: (old(build_data).width / 2) as i32,
                    y: (old(build_data).height / 2) as i32,
                },
            ),
            final(build_data).map.tile_at(
                old(build_data).width as int / 2,
                old(build_data).height as int / 2,
            ) == TileType::Floor,
            forall|a: int, b: int|
                old(build_data).map.in_bounds(a, b) ==> {
                    ||| #[trigger] final(build_data).map.tile_at(a, b) == old(
                        build_data,
                    ).map.tile_at(a, b)
                    ||| final(build_data).map.tile_at(a, b) == TileType::Floor
                },
            final(build_data).start_walkable(),
            exists|walks: Seq<Seq<(int, int)>>| #[trigger]
                walks_plan(
                    &old(build_data).map,
                    &final(build_data).map,
                    old(self).settings,
                    (old(build_data).width as int / 2, old(build_data).height as int / 2),
                    walkers.0 as int,
                    walks,
                ),
            0 <= walkers.1 <= walkers.0,
            walkers.0 == MAX_WALKERS || Grid::count_of(
                final(build_data).map.tiles@,
                TileType::Floor,
                final(build_data).map.cells(),
            ) >= floor_target(old(self).settings.floor_percent as int, old(build_data).map.cells()),
            walkers.0 == 0 <==> Grid::count_of(
                old(build_data).map.tiles@.update(
                    old(build_data).map.index_of(
                        old(build_data).width as int / 2,
                        old(build_data).height as int / 2,
                    ),
                    TileType::Floor,
                ),
                TileType::Floor,
                old(build_data).map.cells(),
            ) >= floor_target(old(self).settings.floor_percent as int, old(build_data).map.cells()),
    {
        let ghost before = *build_data;
        let width = build_data.map.width;
        let height = build_data.map.height;
        let start = Position { x: width / 2, y: height / 2 };
        build_data.starting_position = Some(start);
        build_data.map.set_tile(start.x, start.y, TileType::Floor);
        let total_tiles = build_data.map.tiles.len();
        let desired_floor_tiles = Self::desired_floor_tiles(
            self.settings.floor_percent,
            total_tiles,
        );
        let mut floor_tile_count = build_data.map.count_tiles(TileType::Floor);
        let ghost first_count = floor_tile_count;
        assert(first_count == Grid::count_of(
            before.map.tiles@.update(
                before.map.index_of(before.width as int / 2, before.height as int / 2),
                TileType::Floor,
            ),
            TileType::Floor,
            before.map.cells(),
        ));
        let mut digger_count: i32 = 0;
        let mut active_digger_count: i32 = 0;
        let ghost mut all: Seq<(int, int)> = Seq::empty();
        let ghost mut walks: Seq<Seq<(int, int)>> = Seq::empty();
        while (floor_tile_count as u64) < desired_floor_tiles && digger_count < MAX_WALKERS
            invariant
                digger_count == 0 ==> floor_tile_count == first_count,
                digger_count > 0 ==> first_count < desired_floor_tiles,
                walks.len() == digger_count,
                all == in_a_row(walks, walks.len() as int),
                forall|w: int|
                    0 <= w < walks.len() ==> a_walk(
                        &before.map,
                        self.settings,
                        (start.x as int, start.y as int),
                        w,
                        #[trigger] walks[w],
                    ),
                carved_by(
                    &before.map,
                    &build_data.map,
                    self.settings,
                    (start.x as int, start.y as int),
                    digger_count as int,
                    all,
                ),
                before.wf(),
                *self == *old(self),
                self.settings.spawn_mode == DrunkSpawnMode::Random ==> width >= 4 && height >= 4,
                width == before.width,
                height == before.height,
                start == (Position { x: (width / 2) as i32, y: (height / 2) as i32 }),
                total_tiles == before.map.cells(),
                desired_floor_tiles == floor_target(
                    self.settings.floor_percent as int,
                    before.map.cells(),
                ),
                build_data.wf(),
                build_data.extends(&before),
                build_data.list_spawns == before.list_spawns,
                build_data.rooms == before.rooms,
                build_data.corridors == before.corridors,
                build_data.submaps == before.submaps,
                build_data.starting_position == Some(start),
                build_data.map.tile_at(start.x as int, start.y as int) == TileType::Floor,
                forall|a: int, b: int|
                    before.map.in_bounds(a, b) ==> {
                        ||| #[trigger] build_data.map.tile_at(a, b) == before.map.tile_at(a, b)
                        ||| build_data.map.tile_at(a, b) == TileType::Floor
                    },
                floor_tile_count == Grid::count_of(
                    build_data.map.tiles@,
                    TileType::Floor,
                    build_data.map.cells(),
                ),
                0 <= active_digger_count <= digger_count <= MAX_WALKERS,
            decreases MAX_WALKERS - digger_count,
        {
            let mut drunk_x = start.x;
            let mut drunk_y = start.y;
            match self.settings.spawn_mode {
                DrunkSpawnMode::StartingPoint => {},
                DrunkSpawnMode::Random => {
                    if digger_count != 0 {
                        drunk_x = roll_dice(rng, 1, width - 3) + 1;
                        drunk_y = roll_dice(rng, 1, height - 3) + 1;
                    }
                },
            }
            let ghost prev = *build_data;
            let did_something = self.walk(rng, &mut build_data.map, drunk_x, drunk_y);
            if did_something {
                build_data.take_snapshot();
                active_digger_count += 1;
            }
            digger_count += 1;
            let ghost roamed = *build_data;
            Self::settle(&mut build_data.map);
            proof {
                let path = choose|path: Seq<(int, int)>| #[trigger]
                    walked(
                        &prev.map,
                        &roamed.map,
                        self.settings,
                        drunk_x as int,
                        drunk_y as int,
                        path,
                    );
                let joined = all + path;
                assert forall|k: int| 0 <= k < joined.len() implies walkable_ground(
                    &before.map,
                    self.settings.symmetry,
                    (#[trigger] joined[k]).0,
                    joined[k].1,
                ) by {
                    if k < all.len() {
                        assert(joined[k] == all[k]);
                    } else {
                        assert(joined[k] == path[k - all.len()]);
                    }
                }
                assert forall|a: int, b: int|
                    before.map.in_bounds(a, b) implies #[trigger] build_data.map.tile_at(a, b)
                    == if (a, b) == (start.x as int, start.y as int) || strokes_hit(
                    &before.map,
                    self.settings,
                    joined,
                    joined.len() as int,
                    a,
                    b,
                ) || (digger_count > 0 && before.map.tile_at(a, b) == TileType::DownStairs) {
                    TileType::Floor
                } else {
                    before.map.tile_at(a, b)
                } by {
                    lemma_strokes_joined(
                        &before.map,
                        self.settings,
                        all,
                        path,
                        path.len() as int,
                        a,
                        b,
                    );
                    lemma_strokes_by_shape(
                        &prev.map,
                        &before.map,
                        self.settings,
                        path,
                        path.len() as int,
                        a,
                        b,
                    );
                    before.map.lemma_index_in_range(a, b);
                    let i = before.map.index_of(a, b);
                    assert(build_data.map.tiles@[i] == if roamed.map.tiles@[i]
                        == TileType::DownStairs {
                        TileType::Floor
                    } else {
                        roamed.map.tiles@[i]
                    });
                    assert(prev.map.in_bounds(a, b));
                    assert(joined.len() == all.len() + path.len());
                    assert(if strokes_hit(
                        &prev.map,
                        self.settings,
                        path,
                        path.len() as int,
                        a,
                        b,
                    ) {
                        roamed.map.tile_at(a, b) == TileType::Floor || roamed.map.tile_at(a, b)
                            == TileType::DownStairs
                    } else {
                        roamed.map.tile_at(a, b) == prev.map.tile_at(a, b)
                    });
                    assert(build_data.map.tile_at(a, b) == build_data.map.tiles@[i]);
                    assert(roamed.map.tile_at(a, b) == roamed.map.tiles@[i]);
                    assert(prev.map.tile_at(a, b) == if (a, b) == (start.x as int, start.y as int)
                        || strokes_hit(&before.map, self.settings, all, all.len() as int, a, b) || (
                    digger_count - 1 > 0 && before.map.tile_at(a, b) == TileType::DownStairs) {
                        TileType::Floor
                    } else {
                        before.map.tile_at(a, b)
                    });
                }
                all = joined;
                let w = digger_count - 1;
                let more = walks.push(path);
                assert forall|k: int| 0 <= k < path.len() implies walkable_ground(
                    &before.map,
                    self.settings.symmetry,
                    (#[trigger] path[k]).0,
                    path[k].1,
                ) by {
                    assert(walkable_ground(&prev.map, self.settings.symmetry, path[k].0, path[k].1));
                }
                assert forall|k: int| 0 <= k && k + 1 < path.len() implies #[trigger] steps_on(
                    &before.map,
                    path,
                    k,
                ) by {
                    assert(one_step(&prev.map, path[k].0, path[k].1, path[k + 1].0, path[k + 1].1));
                }
                if path.len() > 0 && off_edges(&before.map, path[0].0, path[0].1) {
                    assert forall|k: int| 0 <= k < path.len() implies off_edges(
                        &before.map,
                        (#[trigger] path[k]).0,
                        path[k].1,
                    ) by {
                        lemma_walk_off_edges(&prev.map, path, k);
                    }
                }
                assert(a_walk(
                    &before.map,
                    self.settings,
                    (start.x as int, start.y as int),
                    w as int,
                    path,
                ));
                lemma_in_a_row_prefix(walks, more, walks.len() as int);
                assert forall|v: int| 0 <= v < more.len() implies a_walk(
                    &before.map,
                    self.settings,
                    (start.x as int, start.y as int),
                    v,
                    #[trigger] more[v],
                ) by {
                    if v < walks.len() {
                        assert(more[v] == walks[v]);
                    }
                }
                walks = more;
            }
            proof {
                assert forall|a: int, b: int| before.map.in_bounds(a, b) implies {
                    ||| #[trigger] build_data.map.tile_at(a, b) == before.map.tile_at(a, b)
                    ||| build_data.map.tile_at(a, b) == TileType::Floor
                } by {
                    before.map.lemma_index_in_range(a, b);
                    let i = before.map.index_of(a, b);
                    assert(build_data.map.tiles@[i] == if roamed.map.tiles@[i]
                        == TileType::DownStairs {
                        TileType::Floor
                    } else {
                        roamed.map.tiles@[i]
                    });
                    assert(roamed.map.tile_at(a, b) == prev.map.tile_at(a, b) || roamed.map.tile_at(
                        a,
                        b,
                    ) == TileType::Floor || roamed.map.tile_at(a, b) == TileType::DownStairs);
                    assert(prev.map.tile_at(a, b) == before.map.tile_at(a, b) || prev.map.tile_at(
                        a,
                        b,
                    ) == TileType::Floor);
                }
                before.map.lemma_index_in_range(start.x as int, start.y as int);
                let s = before.map.index_of(start.x as int, start.y as int);
                assert(build_data.map.tiles@[s] == if roamed.map.tiles@[s] == TileType::DownStairs {
                    TileType::Floor
                } else {
                    roamed.map.tiles@[s]
                });
                assert(roamed.map.tile_at(start.x as int, start.y as int) == prev.map.tile_at(
                    start.x as int,
                    start.y as int,
                ) || roamed.map.tile_at(start.x as int, start.y as int) == TileType::Floor
                    || roamed.map.tile_at(start.x as int, start.y as int)
                    == TileType::DownStairs);
            }
            floor_tile_count = build_data.map.count_tiles(TileType::Floor);
        }
        build_data.take_snapshot();
        proof {
            assert(carved_by(
                &before.map,
                &build_data.map,
                self.settings,
                (before.width as int / 2, before.height as int / 2),
                digger_count as int,
                all,
            ));
        }
        let walkers = (digger_count, active_digger_count);
        proof {
            assert(walks_plan(
                &old(build_data).map,
                &build_data.map,
                old(self).settings,
                (old(build_data).width as int / 2, old(build_data).height as int / 2),
                walkers.0 as int,
                walks,
            ));
        }
        walkers
    }
}

impl InitialMapBuilder for DrunkardsWalkBuilder {
    open spec fn fits_grid(&self, width: int, height: int) -> bool {
        self.settings.spawn_mode == DrunkSpawnMode::Random ==> width >= 4 && height >= 4
    }

    open spec fn provides(&self) -> Fields {
        Fields::none()
    }

    open spec fn outcome(&self, before: &BuilderMap, after: &BuilderMap) -> bool {
        &&& after.starting_position == Some(
            Position { x: (before.width / 2) as i32, y: (before.height / 2) as i32 },
        )
        &&& exists|walks: Seq<Seq<(int, int)>>, walkers: int| #[trigger]
            walks_plan(
                &before.map,
                &after.map,
                self.settings,
                (before.width as int / 2, before.height as int / 2),
                walkers,
                walks,
            )
    }

    fn grid_ok(&self, width: i32, height: i32) -> (r: bool) {
        match self.settings.spawn_mode {
            DrunkSpawnMode::StartingPoint => true,
            DrunkSpawnMode::Random => width >= 4 && height >= 4,
        }
    }

    fn provided(&self) -> (r: Fields) {
        Fields { rooms: false, corridors: false, submaps: false }
    }

    fn build_map(&mut self, rng: &mut rltk::RandomNumberGenerator, build_data: &mut BuilderMap) {
        let _walkers = self.build(rng, build_data);
    }
}

} // verus!
