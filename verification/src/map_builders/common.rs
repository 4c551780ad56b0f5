use crate::map::{Grid, TileType};
use crate::rect::{half, Rect};
use vstd::prelude::*;

verus! {

/// The axes across which a brush stroke is mirrored.
#[derive(PartialEq, Eq, Structural, Copy, Clone, Debug)]
pub enum Symmetry {
    Off,
    Horizontal,
    Vertical,
    Both,
}

/// Whether `(x, y)` lies in the box of the columns `xa..xb` and the rows
/// `ya..yb`, each without its upper end. With `spare_first` the cell of
/// index zero is no part of the box, with `spare_last` the cell of the
/// highest index is none.
pub open spec fn in_box(
    map: &Grid,
    xa: int,
    xb: int,
    ya: int,
    yb: int,
    spare_first: bool,
    spare_last: bool,
    x: int,
    y: int,
) -> bool {
    &&& xa <= x < xb
    &&& ya <= y < yb
    &&& spare_first ==> map.index_of(x, y) > 0
    &&& spare_last ==> map.index_of(x, y) < map.cells() - 1
}

/// `after` is `before` with every cell of the grid for which `covered`
/// holds set to `tile`.
pub open spec fn repainted(
    before: &Grid,
    after: &Grid,
    covered: spec_fn(int, int) -> bool,
    tile: TileType,
) -> bool {
    &&& after.same_shape(before)
    &&& forall|x: int, y: int|
        before.in_bounds(x, y) ==> #[trigger] after.tile_at(x, y) == if covered(x, y) {
            tile
        } else {
            before.tile_at(x, y)
        }
}

/// The value `v` brought into `lo..=hi`.
pub open spec fn clamped(v: int, lo: int, hi: int) -> int {
    if v < lo {
        lo
    } else if v > hi {
        hi
    } else {
        v
    }
}

/// Brings a value into the range from `lo` to `hi`.
pub fn clamp_to(v: i64, lo: i32, hi: i32) -> (r: i32)
    requires
        lo <= hi,
    ensures
        r == clamped(v as int, lo as int, hi as int),
{
    if v < lo as i64 {
        lo
    } else if v > hi as i64 {
        hi
    } else {
        v as i32
    }
}

/// Sets to `tile` every cell of the grid that lies in the box given (see
/// `in_box`); the part of the box off the grid is skipped.
#[verifier::rlimit(50)]
pub fn fill_box(
    map: &mut Grid,
    xa: i64,
    xb: i64,
    ya: i64,
    yb: i64,
    spare_first: bool,
    spare_last: bool,
    tile: TileType,
)
    requires
        old(map).wf(),
    ensures
        final(map).wf(),
        repainted(
            old(map),
            final(map),
            |x: int, y: int|
                in_box(old(map), xa as int, xb as int, ya as int, yb as int, spare_first, spare_last, x, y),
            tile,
        ),
{
    let ghost before = *map;
    let x_lo = clamp_to(xa, 0, map.width);
    let x_hi = clamp_to(xb, 0, map.width);
    let y_lo = clamp_to(ya, 0, map.height);
    let y_hi = clamp_to(yb, 0, map.height);
    proof {
        map.lemma_has_cells();
    }
    let last = map.tiles.len() - 1;
    let mut y = y_lo;
    while y < y_hi
        invariant
            before.wf(),
            map.wf(),
            map.same_shape(&before),
            last == before.cells() - 1,
            x_lo == clamped(xa as int, 0, before.width as int),
            x_hi == clamped(xb as int, 0, before.width as int),
            y_lo == clamped(ya as int, 0, before.height as int),
            y_hi == clamped(yb as int, 0, before.height as int),
            y_lo <= y,
            y < y_hi || y_hi <= y_lo || y == y_hi,
            forall|a: int, b: int|
                before.in_bounds(a, b) ==> #[trigger] map.tile_at(a, b) == if b < y && in_box(
                    &before,
                    xa as int,
                    xb as int,
                    ya as int,
                    yb as int,
                    spare_first,
                    spare_last,
                    a,
                    b,
                ) {
                    tile
                } else {
                    before.tile_at(a, b)
                },
        decreases y_hi - y,
    {
        let mut x = x_lo;
        while x < x_hi
            invariant
                before.wf(),
                map.wf(),
                map.same_shape(&before),
                last == before.cells() - 1,
                x_lo == clamped(xa as int, 0, before.width as int),
                x_hi == clamped(xb as int, 0, before.width as int),
                y_lo == clamped(ya as int, 0, before.height as int),
                y_hi == clamped(yb as int, 0, before.height as int),
                y_lo <= y < y_hi,
                x_lo <= x,
                x < x_hi || x_hi <= x_lo || x == x_hi,
                forall|a: int, b: int|
                    before.in_bounds(a, b) ==> #[trigger] map.tile_at(a, b) == if (b < y || (b == y
                        && a < x)) && in_box(
                        &before,
                        xa as int,
                        xb as int,
                        ya as int,
                        yb as int,
                        spare_first,
                        spare_last,
                        a,
                        b,
                    ) {
                        tile
                    } else {
                        before.tile_at(a, b)
                    },
            decreases x_hi - x,
        {
            let idx = map.xy_idx(x, y);
            if (!spare_first || idx > 0) && (!spare_last || idx < last) {
                map.set_tile(x, y, tile);
            }
            x += 1;
        }
        y += 1;
    }
}

/// Whether a brush of the given size held at `(cx, cy)` covers `(x, y)`.
/// The brush of size one covers the cell it is held at. Any other covers
/// the square that reaches half its size up and left of the cell and one
/// less down and right, without the two outermost rows and columns of the
/// grid.
pub open spec fn brush_covers(
    map: &Grid,
    brush_size: int,
    cx: int,
    cy: int,
    x: int,
    y: int,
) -> bool {
    if brush_size == 1 {
        x == cx && y == cy
    } else {
        let h = half(brush_size);
        &&& cx - h <= x < cx + h
        &&& cy - h <= y < cy + h
        &&& 1 < x < map.width - 1
        &&& 1 < y < map.height - 1
    }
}

/// Paints `tile` with a brush held at `(x, y)`.
#[verifier::rlimit(50)]
pub fn apply_paint(map: &mut Grid, brush_size: i32, x: i32, y: i32, tile: TileType)
    requires
        old(map).wf(),
        brush_size == 1 ==> old(map).in_bounds(x as int, y as int),
    ensures
        final(map).wf(),
        repainted(
            old(map),
            final(map),
            |a: int, b: int| brush_covers(old(map), brush_size as int, x as int, y as int, a, b),
            tile,
        ),
{
    if brush_size == 1 {
        map.set_tile(x, y, tile);
    } else {
        let ghost before = *map;
        let h = (brush_size / 2) as i64;
        let w = map.width as i64;
        let ht = map.height as i64;
        let x_lo = if x as i64 - h > 2 {
            x as i64 - h
        } else {
            2
        };
        let x_hi = if x as i64 + h < w - 1 {
            x as i64 + h
        } else {
            w - 1
        };
        let y_lo = if y as i64 - h > 2 {
            y as i64 - h
        } else {
            2
        };
        let y_hi = if y as i64 + h < ht - 1 {
            y as i64 + h
        } else {
            ht - 1
        };
        fill_box(map, x_lo, x_hi, y_lo, y_hi, false, false, tile);
        assert forall|a: int, b: int| before.in_bounds(a, b) implies #[trigger] map.tile_at(a, b)
            == if brush_covers(&before, brush_size as int, x as int, y as int, a, b) {
            tile
        } else {
            before.tile_at(a, b)
        } by {
            assert(brush_covers(&before, brush_size as int, x as int, y as int, a, b) == in_box(
                &before,
                x_lo as int,
                x_hi as int,
                y_lo as int,
                y_hi as int,
                false,
                false,
                a,
                b,
            ));
        }
    }
}

/// The centers at which a stroke at `(x, y)` is painted under a symmetry:
/// whether `(cx, cy)` is one of them. Across an axis the stroke is painted
/// at the same distance on both sides of the middle of the grid.
pub open spec fn stroke_center(map: &Grid, mode: Symmetry, x: int, y: int, cx: int, cy: int) -> bool {
    let mx = map.width as int / 2;
    let my = map.height as int / 2;
    let across_x = cy == y && (cx == x || cx == 2 * mx - x);
    let across_y = cx == x && (cy == y || cy == 2 * my - y);
    match mode {
        Symmetry::Off => cx == x && cy == y,
        Symmetry::Horizontal => across_x,
        Symmetry::Vertical => across_y,
        Symmetry::Both => across_x || across_y,
    }
}

/// Whether a stroke at `(x, y)` under a symmetry covers `(a, b)`.
pub open spec fn stroke_covers(
    map: &Grid,
    mode: Symmetry,
    brush_size: int,
    x: int,
    y: int,
    a: int,
    b: int,
) -> bool {
    exists|cx: int, cy: int| #[trigger]
        stroke_center(map, mode, x, y, cx, cy) && brush_covers(map, brush_size, cx, cy, a, b)
}

/// Whether every center of a stroke at `(x, y)` is a cell of the grid.
pub open spec fn stroke_on_grid(map: &Grid, mode: Symmetry, x: int, y: int) -> bool {
    let mx = map.width as int / 2;
    let my = map.height as int / 2;
    &&& map.in_bounds(x, y)
    &&& (mode == Symmetry::Horizontal || mode == Symmetry::Both) ==> 2 * mx - x < map.width
    &&& (mode == Symmetry::Vertical || mode == Symmetry::Both) ==> 2 * my - y < map.height
}

/// Paints floor with a brush at `(x, y)` and at its mirror images.
#[verifier::rlimit(50)]
pub fn paint(map: &mut Grid, mode: Symmetry, brush_size: i32, x: i32, y: i32)
    requires
        old(map).wf(),
        stroke_on_grid(old(map), mode, x as int, y as int),
    ensures
        final(map).wf(),
        repainted(
            old(map),
            final(map),
            |a: int, b: int| stroke_covers(old(map), mode, brush_size as int, x as int, y as int, a, b),
            TileType::Floor,
        ),
{
    let ghost before = *map;
    let center_x = map.width / 2;
    let center_y = map.height / 2;
    let mirror_x = 2 * center_x - x;
    let mirror_y = 2 * center_y - y;
    let ghost bs = brush_size as int;
    match mode {
        Symmetry::Off => {
            apply_paint(map, brush_size, x, y, TileType::Floor);
            assert forall|a: int, b: int| before.in_bounds(a, b) implies #[trigger] map.tile_at(
                a,
                b,
            ) == if stroke_covers(&before, mode, bs, x as int, y as int, a, b) {
                TileType::Floor
            } else {
                before.tile_at(a, b)
            } by {
                if brush_covers(&before, bs, x as int, y as int, a, b) {
                    assert(stroke_center(&before, mode, x as int, y as int, x as int, y as int));
                }
            }
        },
        Symmetry::Horizontal => {
            apply_paint(map, brush_size, x, y, TileType::Floor);
            let ghost mid = *map;
            apply_paint(map, brush_size, mirror_x, y, TileType::Floor);
            assert forall|a: int, b: int| before.in_bounds(a, b) implies #[trigger] map.tile_at(
                a,
                b,
            ) == if stroke_covers(&before, mode, bs, x as int, y as int, a, b) {
                TileType::Floor
            } else {
                before.tile_at(a, b)
            } by {
                assert(mid.tile_at(a, b) == if brush_covers(&before, bs, x as int, y as int, a, b) {
                    TileType::Floor
                } else {
                    before.tile_at(a, b)
                });
                if brush_covers(&before, bs, x as int, y as int, a, b) {
                    assert(stroke_center(&before, mode, x as int, y as int, x as int, y as int));
                }
                if brush_covers(&before, bs, mirror_x as int, y as int, a, b) {
                    assert(stroke_center(
                        &before,
                        mode,
                        x as int,
                        y as int,
                        mirror_x as int,
                        y as int,
                    ));
                }
            }
        },
        Symmetry::Vertical => {
            apply_paint(map, brush_size, x, y, TileType::Floor);
            let ghost mid = *map;
            apply_paint(map, brush_size, x, mirror_y, TileType::Floor);
            assert forall|a: int, b: int| before.in_bounds(a, b) implies #[trigger] map.tile_at(
                a,
                b,
            ) == if stroke_covers(&before, mode, bs, x as int, y as int, a, b) {
                TileType::Floor
            } else {
                before.tile_at(a, b)
            } by {
                assert(mid.tile_at(a, b) == if brush_covers(&before, bs, x as int, y as int, a, b) {
                    TileType::Floor
                } else {
                    before.tile_at(a, b)
                });
                if brush_covers(&before, bs, x as int, y as int, a, b) {
                    assert(stroke_center(&before, mode, x as int, y as int, x as int, y as int));
                }
                if brush_covers(&before, bs, x as int, mirror_y as int, a, b) {
                    assert(stroke_center(
                        &before,
                        mode,
                        x as int,
                        y as int,
                        x as int,
                        mirror_y as int,
                    ));
                }
            }
        },
        Symmetry::Both => {
            apply_paint(map, brush_size, x, y, TileType::Floor);
            let ghost m1 = *map;
            apply_paint(map, brush_size, mirror_x, y, TileType::Floor);
            let ghost m2 = *map;
            apply_paint(map, brush_size, x, mirror_y, TileType::Floor);
            assert forall|a: int, b: int| before.in_bounds(a, b) implies #[trigger] map.tile_at(
                a,
                b,
            ) == if stroke_covers(&before, mode, bs, x as int, y as int, a, b) {
                TileType::Floor
            } else {
                before.tile_at(a, b)
            } by {
                assert(m1.tile_at(a, b) == if brush_covers(&before, bs, x as int, y as int, a, b) {
                    TileType::Floor
                } else {
                    before.tile_at(a, b)
                });
                assert(m2.tile_at(a, b) == if brush_covers(&before, bs, mirror_x as int, y as int, a, b) {
                    TileType::Floor
                } else {
                    m1.tile_at(a, b)
                });
                if brush_covers(&before, bs, x as int, y as int, a, b) {
                    assert(stroke_center(&before, mode, x as int, y as int, x as int, y as int));
                }
                if brush_covers(&before, bs, mirror_x as int, y as int, a, b) {
                    assert(stroke_center(
                        &before,
                        mode,
                        x as int,
                        y as int,
                        mirror_x as int,
                        y as int,
                    ));
                }
                if brush_covers(&before, bs, x as int, mirror_y as int, a, b) {
                    assert(stroke_center(
                        &before,
                        mode,
                        x as int,
                        y as int,
                        x as int,
                        mirror_y as int,
                    ));
                }
            }
        },
    }
}

/// `after` is `before` with some cells turned into floor.
pub open spec fn carved_only(before: &Grid, after: &Grid) -> bool {
    &&& after.same_shape(before)
    &&& forall|x: int, y: int|
        before.in_bounds(x, y) ==> {
            ||| #[trigger] after.tile_at(x, y) == before.tile_at(x, y)
            ||| after.tile_at(x, y) == TileType::Floor
        }
}

/// Carving after carving is carving, and what has become floor stays
/// floor.
pub proof fn lemma_carved_twice(a: &Grid, b: &Grid, c: &Grid)
    requires
        carved_only(a, b),
        carved_only(b, c),
    ensures
        carved_only(a, c),
        forall|x: int, y: int|
            a.in_bounds(x, y) && b.tile_at(x, y) == TileType::Floor ==> #[trigger] c.tile_at(x, y)
                == TileType::Floor,
{
    assert forall|x: int, y: int| a.in_bounds(x, y) implies (#[trigger] c.tile_at(x, y) == a.tile_at(
        x,
        y,
    ) || c.tile_at(x, y) == TileType::Floor) by {
        assert(b.tile_at(x, y) == a.tile_at(x, y) || b.tile_at(x, y) == TileType::Floor);
    }
    assert forall|x: int, y: int|
        a.in_bounds(x, y) && b.tile_at(x, y) == TileType::Floor implies #[trigger] c.tile_at(x, y)
        == TileType::Floor by {
        assert(b.in_bounds(x, y));
    }
}

/// Carving, seen cell by cell in the order of the indices.
pub proof fn lemma_carved_by_index(before: &Grid, after: &Grid)
    requires
        before.wf(),
        carved_only(before, after),
    ensures
        forall|idx: int|
            0 <= idx < before.cells() ==> #[trigger] after.tiles@[idx] == before.tiles@[idx]
                || after.tiles@[idx] == TileType::Floor,
{
    assert forall|idx: int| 0 <= idx < before.cells() implies #[trigger] after.tiles@[idx]
        == before.tiles@[idx] || after.tiles@[idx] == TileType::Floor by {
        before.lemma_coordinates_in_bounds(idx);
        let x = idx % (before.width as int);
        let y = idx / (before.width as int);
        assert(after.tile_at(x, y) == before.tile_at(x, y) || after.tile_at(x, y)
            == TileType::Floor);
    }
}

/// Whether every cell of every corridor is a cell of the grid and floor.
pub open spec fn halls_on_floor(map: &Grid, halls: Seq<Vec<usize>>) -> bool {
    forall|i: int, j: int|
        0 <= i < halls.len() && 0 <= j < halls[i]@.len() ==> (#[trigger] halls[i]@[j])
            < map.cells() && map.tiles@[halls[i]@[j] as int] == TileType::Floor
}

/// Corridors that lie on floor still do after more carving.
pub proof fn lemma_halls_stay_on_floor(before: &Grid, after: &Grid, halls: Seq<Vec<usize>>)
    requires
        before.wf(),
        carved_only(before, after),
        halls_on_floor(before, halls),
    ensures
        halls_on_floor(after, halls),
{
    lemma_carved_by_index(before, after);
    assert forall|i: int, j: int|
        0 <= i < halls.len() && 0 <= j < halls[i]@.len() implies (#[trigger] halls[i]@[j])
        < after.cells() && after.tiles@[halls[i]@[j] as int] == TileType::Floor by {
        let idx = halls[i]@[j] as int;
        assert(after.tiles@[idx] == before.tiles@[idx] || after.tiles@[idx] == TileType::Floor);
    }
}

/// Whether `(x, y)` is a cell that a room gives floor to: every cell
/// between its corners but those of its top row and left column, and
/// never the first or the last cell of the grid.
pub open spec fn room_floor(map: &Grid, room: Rect, x: int, y: int) -> bool {
    in_box(map, room.x1 + 1, room.x2 + 1, room.y1 + 1, room.y2 + 1, true, true, x, y)
}

/// Turns the cells of a room into floor.
pub fn apply_room_to_map(map: &mut Grid, room: &Rect)
    requires
        old(map).wf(),
    ensures
        final(map).wf(),
        carved_only(old(map), final(map)),
        repainted(
            old(map),
            final(map),
            |x: int, y: int| room_floor(old(map), *room, x, y),
            TileType::Floor,
        ),
{
    fill_box(
        map,
        room.x1 as i64 + 1,
        room.x2 as i64 + 1,
        room.y1 as i64 + 1,
        room.y2 as i64 + 1,
        true,
        true,
        TileType::Floor,
    );
    assert forall|x: int, y: int| old(map).in_bounds(x, y) implies #[trigger] map.tile_at(x, y)
        == if room_floor(old(map), *room, x, y) {
        TileType::Floor
    } else {
        old(map).tile_at(x, y)
    } by {}
}

/// The smaller of two numbers.
pub open spec fn lower(a: int, b: int) -> int {
    if a <= b {
        a
    } else {
        b
    }
}

/// The larger of two numbers.
pub open spec fn upper(a: int, b: int) -> int {
    if a >= b {
        a
    } else {
        b
    }
}

/// Whether `(x, y)` lies on the run of cells in row `row` between the
/// columns `x1` and `x2`, both included. The first cell of the grid is no
/// part of any run.
pub open spec fn on_row(map: &Grid, x1: int, x2: int, row: int, x: int, y: int) -> bool {
    y == row && lower(x1, x2) <= x <= upper(x1, x2) && map.index_of(x, y) > 0
}

/// Whether `(x, y)` lies on the run of cells in column `column` between
/// the rows `y1` and `y2`, both included. The first cell of the grid is no
/// part of any run.
pub open spec fn on_column(map: &Grid, y1: int, y2: int, column: int, x: int, y: int) -> bool {
    x == column && lower(y1, y2) <= y <= upper(y1, y2) && map.index_of(x, y) > 0
}

/// The indices of those among the first `n` cells of the run along row
/// `row` from column `lo` on that are on the grid, are not the first cell
/// of the grid and are not floor, in the order of the run.
pub open spec fn row_carved(map: &Grid, lo: int, row: int, n: int) -> Seq<usize>
    decreases n,
{
    if n <= 0 {
        Seq::empty()
    } else {
        let rest = row_carved(map, lo, row, n - 1);
        let x = lo + n - 1;
        if map.in_bounds(x, row) && map.index_of(x, row) > 0 && map.tile_at(x, row)
            != TileType::Floor {
            rest.push(map.index_of(x, row) as usize)
        } else {
            rest
        }
    }
}

/// The indices of those among the first `n` cells of the run along column
/// `column` from row `lo` on that are on the grid, are not the first cell
/// of the grid and are not floor, in the order of the run.
pub open spec fn column_carved(map: &Grid, lo: int, column: int, n: int) -> Seq<usize>
    decreases n,
{
    if n <= 0 {
        Seq::empty()
    } else {
        let rest = column_carved(map, lo, column, n - 1);
        let y = lo + n - 1;
        if map.in_bounds(column, y) && map.index_of(column, y) > 0 && map.tile_at(column, y)
            != TileType::Floor {
            rest.push(map.index_of(column, y) as usize)
        } else {
            rest
        }
    }
}

/// Turns into floor the cells of row `y` from column `x1` to column `x2`,
/// and tells which cells were not floor before, from left to right.
#[verifier::rlimit(50)]
pub fn apply_horizontal_tunnel(map: &mut Grid, x1: i32, x2: i32, y: i32) -> (corridor: Vec<usize>)
    requires
        old(map).wf(),
    ensures
        final(map).wf(),
        carved_only(old(map), final(map)),
        repainted(
            old(map),
            final(map),
            |a: int, b: int| on_row(old(map), x1 as int, x2 as int, y as int, a, b),
            TileType::Floor,
        ),
        corridor@ == row_carved(
            old(map),
            lower(x1 as int, x2 as int),
            y as int,
            upper(x1 as int, x2 as int) - lower(x1 as int, x2 as int) + 1,
        ),
        forall|k: int|
            0 <= k < corridor@.len() ==> #[trigger] corridor@[k] < old(map).cells() && final(map).tiles@[corridor@[k] as int] == TileType::Floor,
{
    let ghost before = *map;
    let mut corridor: Vec<usize> = Vec::new();
    let lo = if x1 <= x2 {
        x1
    } else {
        x2
    };
    let hi = if x1 >= x2 {
        x1
    } else {
        x2
    };
    if y < 0 || y >= map.height {
        proof {
            lemma_row_off_grid(&before, lo as int, y as int, hi - lo + 1);
        }
        return corridor;
    }
    let first = if lo < 0 {
        0
    } else {
        lo
    };
    proof {
        lemma_row_before_grid(&before, lo as int, y as int, first - lo);
    }
    let mut x = first;
    while x <= hi && x < map.width
        invariant
            before.wf(),
            map.wf(),
            map.same_shape(&before),
            0 <= y < before.height,
            lo <= hi,
            lo == lower(x1 as int, x2 as int),
            hi == upper(x1 as int, x2 as int),
            0 <= first <= x,
            lo <= first,
            first == lo || first == 0,
            x <= hi + 1 || hi < first,
            hi < first ==> x == first,
            corridor@ == row_carved(&before, lo as int, y as int, x - lo),
            forall|k: int|
                0 <= k < corridor@.len() ==> #[trigger] corridor@[k] < before.cells()
                    && map.tiles@[corridor@[k] as int] == TileType::Floor,
            forall|a: int, b: int|
                before.in_bounds(a, b) ==> #[trigger] map.tile_at(a, b) == if a < x && on_row(
                    &before,
                    x1 as int,
                    x2 as int,
                    y as int,
                    a,
                    b,
                ) {
                    TileType::Floor
                } else {
                    before.tile_at(a, b)
                },
        decreases hi + 1 - x,
    {
        let idx = map.xy_idx(x, y);
        if idx > 0 {
            if map.tile(x, y) != TileType::Floor {
                corridor.push(idx);
            }
            map.set_tile(x, y, TileType::Floor);
        }
        x += 1;
    }
    proof {
        if x <= hi {
            lemma_row_past_grid(&before, lo as int, y as int, x - lo, hi - lo + 1);
        } else if hi < first {
            lemma_row_before_grid(&before, lo as int, y as int, hi - lo + 1);
            lemma_row_before_grid(&before, lo as int, y as int, x - lo);
        }
    }
    corridor
}

/// A run along a row that is off the grid carves nothing.
pub proof fn lemma_row_off_grid(map: &Grid, lo: int, row: int, n: int)
    requires
        row < 0 || row >= map.height,
    ensures
        row_carved(map, lo, row, n) == Seq::<usize>::empty(),
    decreases n,
{
    if n > 0 {
        lemma_row_off_grid(map, lo, row, n - 1);
    }
}

/// The part of a run along a row that lies left of the grid carves
/// nothing.
pub proof fn lemma_row_before_grid(map: &Grid, lo: int, row: int, n: int)
    requires
        n <= 0 || lo + n <= 0,
    ensures
        row_carved(map, lo, row, n) == Seq::<usize>::empty(),
    decreases n,
{
    if n > 0 {
        lemma_row_before_grid(map, lo, row, n - 1);
    }
}

/// The part of a run along a row that lies right of the grid carves
/// nothing more.
pub proof fn lemma_row_past_grid(map: &Grid, lo: int, row: int, m: int, n: int)
    requires
        0 <= m <= n,
        lo + m >= map.width,
    ensures
        row_carved(map, lo, row, n) == row_carved(map, lo, row, m),
    decreases n - m,
{
    if m < n {
        lemma_row_past_grid(map, lo, row, m, n - 1);
    }
}

/// A run along a column that is off the grid carves nothing.
pub proof fn lemma_column_off_grid(map: &Grid, lo: int, column: int, n: int)
    requires
        column < 0 || column >= map.width,
    ensures
        column_carved(map, lo, column, n) == Seq::<usize>::empty(),
    decreases n,
{
    if n > 0 {
        lemma_column_off_grid(map, lo, column, n - 1);
    }
}

/// The part of a run along a column that lies above the grid carves
/// nothing.
pub proof fn lemma_column_before_grid(map: &Grid, lo: int, column: int, n: int)
    requires
        n <= 0 || lo + n <= 0,
    ensures
        column_carved(map, lo, column, n) == Seq::<usize>::empty(),
    decreases n,
{
    if n > 0 {
        lemma_column_before_grid(map, lo, column, n - 1);
    }
}

/// The part of a run along a column that lies below the grid carves
/// nothing more.
pub proof fn lemma_column_past_grid(map: &Grid, lo: int, column: int, m: int, n: int)
    requires
        0 <= m <= n,
        lo + m >= map.height,
    ensures
        column_carved(map, lo, column, n) == column_carved(map, lo, column, m),
    decreases n - m,
{
    if m < n {
        lemma_column_past_grid(map, lo, column, m, n - 1);
    }
}

/// Turns into floor the cells of column `x` from row `y1` to row `y2`, and
/// tells which cells were not floor before, from top to bottom.
#[verifier::rlimit(50)]
pub fn apply_vertical_tunnel(map: &mut Grid, y1: i32, y2: i32, x: i32) -> (corridor: Vec<usize>)
    requires
        old(map).wf(),
    ensures
        final(map).wf(),
        carved_only(old(map), final(map)),
        repainted(
            old(map),
            final(map),
            |a: int, b: int| on_column(old(map), y1 as int, y2 as int, x as int, a, b),
            TileType::Floor,
        ),
        corridor@ == column_carved(
            old(map),
            lower(y1 as int, y2 as int),
            x as int,
            upper(y1 as int, y2 as int) - lower(y1 as int, y2 as int) + 1,
        ),
        forall|k: int|
            0 <= k < corridor@.len() ==> #[trigger] corridor@[k] < old(map).cells() && final(map).tiles@[corridor@[k] as int] == TileType::Floor,
{
    let ghost before = *map;
    let mut corridor: Vec<usize> = Vec::new();
    let lo = if y1 <= y2 {
        y1
    } else {
        y2
    };
    let hi = if y1 >= y2 {
        y1
    } else {
        y2
    };
    if x < 0 || x >= map.width {
        proof {
            lemma_column_off_grid(&before, lo as int, x as int, hi - lo + 1);
        }
        return corridor;
    }
    let first = if lo < 0 {
        0
    } else {
        lo
    };
    proof {
        lemma_column_before_grid(&before, lo as int, x as int, first - lo);
    }
    let mut y = first;
    while y <= hi && y < map.height
        invariant
            before.wf(),
            map.wf(),
            map.same_shape(&before),
            0 <= x < before.width,
            lo <= hi,
            lo == lower(y1 as int, y2 as int),
            hi == upper(y1 as int, y2 as int),
            0 <= first <= y,
            lo <= first,
            first == lo || first == 0,
            y <= hi + 1 || hi < first,
            hi < first ==> y == first,
            corridor@ == column_carved(&before, lo as int, x as int, y - lo),
            forall|k: int|
                0 <= k < corridor@.len() ==> #[trigger] corridor@[k] < before.cells()
                    && map.tiles@[corridor@[k] as int] == TileType::Floor,
            forall|a: int, b: int|
                before.in_bounds(a, b) ==> #[trigger] map.tile_at(a, b) == if b < y && on_column(
                    &before,
                    y1 as int,
                    y2 as int,
                    x as int,
                    a,
                    b,
                ) {
                    TileType::Floor
                } else {
                    before.tile_at(a, b)
                },
        decreases hi + 1 - y,
    {
        let idx = map.xy_idx(x, y);
        if idx > 0 {
            if map.tile(x, y) != TileType::Floor {
                corridor.push(idx);
            }
            map.set_tile(x, y, TileType::Floor);
        }
        y += 1;
    }
    proof {
        if y <= hi {
            lemma_column_past_grid(&before, lo as int, x as int, y - lo, hi - lo + 1);
        } else if hi < first {
            lemma_column_before_grid(&before, lo as int, x as int, hi - lo + 1);
            lemma_column_before_grid(&before, lo as int, x as int, y - lo);
        }
    }
    corridor
}

/// Whether `(x, y)` lies on the path from `(x1, y1)` to `(x2, y2)` that
/// first runs along the row `y1` to the column `x2` and then along that
/// column, the cell `(x1, y1)` left out.
pub open spec fn on_corridor(x1: int, y1: int, x2: int, y2: int, x: int, y: int) -> bool {
    ||| (y == y1 && x != x1 && lower(x1, x2) <= x <= upper(x1, x2))
    ||| (x == x2 && y != y1 && lower(y1, y2) <= y <= upper(y1, y2))
}

/// The cell reached after `k` steps on the path from `(x1, y1)` to
/// `(x2, y2)`.
pub open spec fn corridor_step(x1: int, y1: int, x2: int, y2: int, k: int) -> (int, int) {
    let across = upper(x1, x2) - lower(x1, x2);
    if k <= across {
        if x1 <= x2 {
            (x1 + k, y1)
        } else {
            (x1 - k, y1)
        }
    } else {
        if y1 <= y2 {
            (x2, y1 + (k - across))
        } else {
            (x2, y1 - (k - across))
        }
    }
}

/// The number of steps of the path from `(x1, y1)` to `(x2, y2)`.
pub open spec fn corridor_length(x1: int, y1: int, x2: int, y2: int) -> int {
    (upper(x1, x2) - lower(x1, x2)) + (upper(y1, y2) - lower(y1, y2))
}

/// The indices of the cells reached by the first `k` steps of the path
/// that are not floor, in the order of the steps.
pub open spec fn corridor_carved(map: &Grid, x1: int, y1: int, x2: int, y2: int, k: int) -> Seq<
    usize,
>
    decreases k,
{
    if k <= 0 {
        Seq::empty()
    } else {
        let rest = corridor_carved(map, x1, y1, x2, y2, k - 1);
        let (x, y) = corridor_step(x1, y1, x2, y2, k);
        if map.tile_at(x, y) != TileType::Floor {
            rest.push(map.index_of(x, y) as usize)
        } else {
            rest
        }
    }
}

/// Turns into floor the cells of the path from `(x1, y1)` to `(x2, y2)`,
/// stepping along the row first and then along the column, and tells
/// which cells were not floor before, in the order of the steps.
#[verifier::rlimit(50)]
pub fn draw_corridor(map: &mut Grid, x1: i32, y1: i32, x2: i32, y2: i32) -> (corridor: Vec<usize>)
    requires
        old(map).wf(),
        old(map).in_bounds(x1 as int, y1 as int),
        old(map).in_bounds(x2 as int, y2 as int),
    ensures
        final(map).wf(),
        carved_only(old(map), final(map)),
        repainted(
            old(map),
            final(map),
            |a: int, b: int| on_corridor(x1 as int, y1 as int, x2 as int, y2 as int, a, b),
            TileType::Floor,
        ),
        corridor@ == corridor_carved(
            old(map),
            x1 as int,
            y1 as int,
            x2 as int,
            y2 as int,
            corridor_length(x1 as int, y1 as int, x2 as int, y2 as int),
        ),
        forall|k: int|
            0 <= k < corridor@.len() ==> #[trigger] corridor@[k] < old(map).cells() && final(map).tiles@[corridor@[k] as int] == TileType::Floor,
{
    let ghost before = *map;
    let mut corridor: Vec<usize> = Vec::new();
    let mut x = x1;
    let mut y = y1;
    let ghost across = upper(x1 as int, x2 as int) - lower(x1 as int, x2 as int);
    let ghost down = upper(y1 as int, y2 as int) - lower(y1 as int, y2 as int);
    while x != x2
        invariant
            before.wf(),
            before.in_bounds(x1 as int, y1 as int),
            before.in_bounds(x2 as int, y2 as int),
            map.wf(),
            map.same_shape(&before),
            y == y1,
            across == upper(x1 as int, x2 as int) - lower(x1 as int, x2 as int),
            x1 <= x2 ==> x1 <= x <= x2,
            x1 > x2 ==> x2 <= x <= x1,
            corridor@ == corridor_carved(
                &before,
                x1 as int,
                y1 as int,
                x2 as int,
                y2 as int,
                upper(x1 as int, x as int) - lower(x1 as int, x as int),
            ),
            forall|k: int|
                0 <= k < corridor@.len() ==> #[trigger] corridor@[k] < before.cells()
                    && map.tiles@[corridor@[k] as int] == TileType::Floor,
            forall|a: int, b: int|
                before.in_bounds(a, b) ==> #[trigger] map.tile_at(a, b) == if b == y1 && a != x1
                    && lower(x1 as int, x as int) <= a <= upper(x1 as int, x as int) {
                    TileType::Floor
                } else {
                    before.tile_at(a, b)
                },
        decreases
                if x <= x2 {
                    x2 - x
                } else {
                    x - x2
                },
    {
        if x < x2 {
            x += 1;
        } else {
            x -= 1;
        }
        let idx = map.xy_idx(x, y);
        if map.tile(x, y) != TileType::Floor {
            corridor.push(idx);
        }
        map.set_tile(x, y, TileType::Floor);
    }
    while y != y2
        invariant
            before.wf(),
            before.in_bounds(x1 as int, y1 as int),
            before.in_bounds(x2 as int, y2 as int),
            map.wf(),
            map.same_shape(&before),
            x == x2,
            across == upper(x1 as int, x2 as int) - lower(x1 as int, x2 as int),
            y1 <= y2 ==> y1 <= y <= y2,
            y1 > y2 ==> y2 <= y <= y1,
            corridor@ == corridor_carved(
                &before,
                x1 as int,
                y1 as int,
                x2 as int,
                y2 as int,
                across + (upper(y1 as int, y as int) - lower(y1 as int, y as int)),
            ),
            forall|k: int|
                0 <= k < corridor@.len() ==> #[trigger] corridor@[k] < before.cells()
                    && map.tiles@[corridor@[k] as int] == TileType::Floor,
            forall|a: int, b: int|
                before.in_bounds(a, b) ==> #[trigger] map.tile_at(a, b) == if (b == y1 && a != x1
                    && lower(x1 as int, x2 as int) <= a <= upper(x1 as int, x2 as int)) || (a == x2
                    && b != y1 && lower(y1 as int, y as int) <= b <= upper(y1 as int, y as int)) {
                    TileType::Floor
                } else {
                    before.tile_at(a, b)
                },
        decreases
                if y <= y2 {
                    y2 - y
                } else {
                    y - y2
                },
    {
        if y < y2 {
            y += 1;
        } else {
            y -= 1;
        }
        let idx = map.xy_idx(x, y);
        if map.tile(x, y) != TileType::Floor {
            corridor.push(idx);
        }
        map.set_tile(x, y, TileType::Floor);
    }
    corridor
}

} // verus!
