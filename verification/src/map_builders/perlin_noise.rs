use crate::map::{Grid, TileType};
use crate::map_builders::common::{apply_paint, brush_covers};
use crate::map_builders::{BuilderMap, Fields, InitialMapBuilder};
use crate::rng::roll_dice;
use vstd::prelude::*;

verus! {

/// The size of the brush that the terrain is painted with.
pub const NOISE_BRUSH: i32 = 2;

/// The largest seed that is drawn for a noise field.
pub const MAX_NOISE_SEED: i32 = 65536;

/// The stage that paints open ground and trees by the sign of a noise
/// field. The field is sampled outside the stage, once per cell, at the
/// point `(x / (2 * width), y / (2 * height))`; the stage holds for every
/// cell whether its sample is negative.
pub struct NoiseMapBuilder {
    pub negative: Vec<bool>,
}

/// The terrain for a sample: open ground where it is negative, trees
/// where it is not.
pub open spec fn terrain(negative: bool) -> TileType {
    if negative {
        TileType::Floor
    } else {
        TileType::Tree
    }
}

/// Whether the stroke at `(cx, cy)` is among those made before the stroke
/// at `(x, y)`: the strokes are made row after row at every cell off the
/// border.
pub open spec fn stroke_done(map: &Grid, x: int, y: int, cx: int, cy: int) -> bool {
    &&& 1 <= cx < map.width - 1
    &&& 1 <= cy < map.height - 1
    &&& cy < y || (cy == y && cx < x)
}

/// The tile at `(a, b)` after the strokes made before the stroke at
/// `(x, y)`: a stroke covers the cell it is made at and the cells left of
/// it, above it and left above it, and the last stroke to cover a cell
/// decides.
pub open spec fn terrain_so_far(
    negative: Seq<bool>,
    before: &Grid,
    x: int,
    y: int,
    a: int,
    b: int,
) -> TileType {
    if !(1 < a < before.width - 1 && 1 < b < before.height - 1) {
        before.tile_at(a, b)
    } else if stroke_done(before, x, y, a + 1, b + 1) {
        terrain(negative[before.index_of(a + 1, b + 1)])
    } else if stroke_done(before, x, y, a, b + 1) {
        terrain(negative[before.index_of(a, b + 1)])
    } else if stroke_done(before, x, y, a + 1, b) {
        terrain(negative[before.index_of(a + 1, b)])
    } else if stroke_done(before, x, y, a, b) {
        terrain(negative[before.index_of(a, b)])
    } else {
        before.tile_at(a, b)
    }
}

/// The tile at `(a, b)` once the terrain is painted: outside the two
/// outermost rows and columns, the terrain for the sample of the cell
/// right below of it, or of the nearest cell to that off the border.
pub open spec fn terrain_tile(negative: Seq<bool>, before: &Grid, a: int, b: int) -> TileType {
    if !(1 < a < before.width - 1 && 1 < b < before.height - 1) {
        before.tile_at(a, b)
    } else {
        let cx = if a + 1 < before.width - 1 {
            a + 1
        } else {
            a
        };
        let cy = if b + 1 < before.height - 1 {
            b + 1
        } else {
            b
        };
        terrain(negative[before.index_of(cx, cy)])
    }
}

impl NoiseMapBuilder {
    /// The stage without samples.
    pub fn new() -> (r: Box<NoiseMapBuilder>)
        ensures
            r.negative@.len() == 0,
    {
        Box::new(NoiseMapBuilder { negative: Vec::new() })
    }

    /// The stage for a field of which `negative` tells, cell by cell,
    /// where it is negative.
    pub fn with_samples(negative: Vec<bool>) -> (r: Box<NoiseMapBuilder>)
        ensures
            r.negative == negative,
    {
        Box::new(NoiseMapBuilder { negative })
    }

    /// Draws the seed of a noise field.
    pub fn draw_seed(rng: &mut rltk::RandomNumberGenerator) -> (seed: u64)
        ensures
            1 <= seed <= MAX_NOISE_SEED,
    {
        roll_dice(rng, 1, MAX_NOISE_SEED) as u64
    }

    /// Paints the terrain: at every cell off the border a stroke of the
    /// brush, of open ground or of trees by the sample of the cell. A
    /// snapshot is taken at the end.
    #[verifier::rlimit(50)]
    pub fn build(&mut self, build_data: &mut BuilderMap)
        requires
            old(build_data).wf(),
            old(self).negative@.len() == old(build_data).map.cells(),
        ensures
            *final(self) == *old(self),
            final(build_data).wf(),
            final(build_data).extends(old(build_data)),
            final(build_data).same_records(old(build_data)),
            final(build_data).history@.len() == old(build_data).history@.len() + 1,
            forall|a: int, b: int|
                old(build_data).map.in_bounds(a, b) ==> #[trigger] final(build_data).map.tile_at(
                    a,
                    b,
                ) == terrain_tile(old(self).negative@, &old(build_data).map, a, b),
    {
        let ghost before = *build_data;
        let width = build_data.map.width;
        let height = build_data.map.height;
        let mut y: i32 = 1;
        while y < height - 1
            invariant
                *self == *old(self),
                before.wf(),
                self.negative@.len() == before.map.cells(),
                width == before.width,
                height == before.height,
                1 <= y,
                y <= height - 1 || height <= 2,
                build_data.wf(),
                build_data.same_records(&before),
                build_data.history == before.history,
                forall|a: int, b: int|
                    before.map.in_bounds(a, b) ==> #[trigger] build_data.map.tile_at(a, b)
                        == terrain_so_far(self.negative@, &before.map, 1, y as int, a, b),
            decreases height - y,
        {
            let mut x: i32 = 1;
            while x < width - 1
                invariant
                    *self == *old(self),
                    before.wf(),
                    self.negative@.len() == before.map.cells(),
                    width == before.width,
                    height == before.height,
                    1 <= y < height - 1,
                    1 <= x,
                    x <= width - 1 || width <= 2,
                    build_data.wf(),
                    build_data.same_records(&before),
                    build_data.history == before.history,
                    forall|a: int, b: int|
                        before.map.in_bounds(a, b) ==> #[trigger] build_data.map.tile_at(a, b)
                            == terrain_so_far(self.negative@, &before.map, x as int, y as int, a, b),
                decreases width - x,
            {
                let idx = build_data.map.xy_idx(x, y);
                let ghost prev = *build_data;
                if self.negative[idx] {
                    apply_paint(&mut build_data.map, NOISE_BRUSH, x, y, TileType::Floor);
                } else {
                    apply_paint(&mut build_data.map, NOISE_BRUSH, x, y, TileType::Tree);
                }
                proof {
                    assert forall|a: int, b: int|
                        before.map.in_bounds(a, b) implies #[trigger] build_data.map.tile_at(a, b)
                        == terrain_so_far(self.negative@, &before.map, x + 1, y as int, a, b) by {
                        assert(prev.map.tile_at(a, b) == terrain_so_far(
                            self.negative@,
                            &before.map,
                            x as int,
                            y as int,
                            a,
                            b,
                        ));
                        assert(brush_covers(
                            &prev.map,
                            NOISE_BRUSH as int,
                            x as int,
                            y as int,
                            a,
                            b,
                        ) == (x - 1 <= a < x + 1 && y - 1 <= b < y + 1 && 1 < a < width - 1 && 1 < b
                            < height - 1));
                    }
                }
                x += 1;
            }
            proof {
                assert forall|a: int, b: int|
                    before.map.in_bounds(a, b) implies #[trigger] build_data.map.tile_at(a, b)
                    == terrain_so_far(self.negative@, &before.map, 1, y + 1, a, b) by {
                    assert(build_data.map.tile_at(a, b) == terrain_so_far(
                        self.negative@,
                        &before.map,
                        x as int,
                        y as int,
                        a,
                        b,
                    ));
                }
            }
            y += 1;
        }
        proof {
            assert forall|a: int, b: int|
                before.map.in_bounds(a, b) implies #[trigger] build_data.map.tile_at(a, b)
                == terrain_tile(self.negative@, &before.map, a, b) by {
                assert(build_data.map.tile_at(a, b) == terrain_so_far(
                    self.negative@,
                    &before.map,
                    1,
                    y as int,
                    a,
                    b,
                ));
            }
        }
        build_data.take_snapshot();
    }
}

/// Given its samples the stage draws nothing: whatever it makes of a
/// context, its tiles are the same every time.
pub proof fn lemma_terrain_determined(
    stage: NoiseMapBuilder,
    before: BuilderMap,
    one: BuilderMap,
    other: BuilderMap,
)
    requires
        before.wf(),
        one.wf(),
        other.wf(),
        one.extends(&before),
        other.extends(&before),
        stage.outcome(&before, &one),
        stage.outcome(&before, &other),
    ensures
        one.map.tiles@ == other.map.tiles@,
{
    assert forall|x: int, y: int| one.map.in_bounds(x, y) implies #[trigger] one.map.tile_at(x, y)
        == other.map.tile_at(x, y) by {
        assert(before.map.in_bounds(x, y));
    }
    Grid::lemma_same_tiles(&one.map, &other.map);
}

impl InitialMapBuilder for NoiseMapBuilder {
    open spec fn fits_grid(&self, width: int, height: int) -> bool {
        self.negative@.len() == width * height
    }

    open spec fn provides(&self) -> Fields {
        Fields::none()
    }

    open spec fn outcome(&self, before: &BuilderMap, after: &BuilderMap) -> bool {
        forall|a: int, b: int|
            before.map.in_bounds(a, b) ==> #[trigger] after.map.tile_at(a, b) == terrain_tile(
                self.negative@,
                &before.map,
                a,
                b,
            )
    }

    fn grid_ok(&self, width: i32, height: i32) -> (r: bool) {
        let w = width as i64;
        let h = height as i64;
        assert(-0x8000_0000 * 0x8000_0000 <= w * h <= 0x8000_0000 * 0x8000_0000)
            by (nonlinear_arith)
            requires
                -0x8000_0000 <= w <= 0x8000_0000,
                -0x8000_0000 <= h <= 0x8000_0000,
        ;
        let cells = w * h;
        cells >= 0 && self.negative.len() as u64 == cells as u64
    }

    fn provided(&self) -> (r: Fields) {
        Fields { rooms: false, corridors: false, submaps: false }
    }

    fn build_map(&mut self, rng: &mut rltk::RandomNumberGenerator, build_data: &mut BuilderMap) {
        self.build(build_data);
    }
}

} // verus!
