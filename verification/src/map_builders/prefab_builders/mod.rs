use crate::map::{Grid, TileType};
use crate::map_builders::{BuilderMap, Fields, InitialMapBuilder, MetaMapBuilder, SpawnModel};
use vstd::prelude::*;
use vstd::string::*;

pub mod prefab_levels;
pub mod prefab_sections;

use prefab_levels::PrefabLevel;
use prefab_sections::{horizontal_anchor, vertical_anchor, anchor_x, anchor_y, PrefabSection};

verus! {

/// One layer of a picture made of character cells, stored column after
/// column.
#[derive(Clone, Debug)]
pub struct RexLayer {
    pub width: usize,
    pub height: usize,
    pub cells: Vec<u32>,
}

/// A drawing in characters, stored row after row.
pub struct AsciiGrid {
    pub chars: Vec<char>,
    pub width: usize,
    pub height: usize,
}

/// What a prefab stage lays on the grid.
#[derive(Clone, Debug)]
pub enum PrefabMode {
    RexLevel { layers: Vec<RexLayer> },
    Constant { level: PrefabLevel },
    Sectional { section: PrefabSection },
}

/// The stage that lays a drawing on the grid, as a whole level or as a
/// section of one.
pub struct PrefabBuilder {
    pub mode: PrefabMode,
}

/// The kind of tile that a glyph stands for: a wall for `#`, floor for
/// everything else.
pub open spec fn glyph_tile(ch: char) -> TileType {
    if ch == '#' {
        TileType::Wall
    } else {
        TileType::Floor
    }
}

/// Whether a glyph asks for something to be placed on its cell.
pub open spec fn glyph_spawns(ch: char) -> bool {
    ch == 'g'
}

/// Whether a glyph is one that has a meaning: a space, a `#` or a `g`.
/// Every other glyph is laid as floor.
pub open spec fn known_glyph(ch: char) -> bool {
    ch == ' ' || ch == '#' || ch == 'g'
}

/// Glyphs laid out in columns and rows, as contracts see them: the glyphs
/// in the order in which they are stored, which is row after row, or with
/// `by_columns` column after column.
pub struct GlyphModel {
    pub cols: int,
    pub rows: int,
    pub cells: Seq<char>,
    pub by_columns: bool,
}

impl GlyphModel {
    /// The place in `cells` of the glyph in column `tx` of row `ty`.
    pub open spec fn place(&self, tx: int, ty: int) -> int {
        if self.by_columns {
            tx * self.rows + ty
        } else {
            ty * self.cols + tx
        }
    }

    /// The glyph in column `tx` of row `ty`, where there is one.
    pub open spec fn glyph_at(&self, tx: int, ty: int) -> Option<char> {
        if 0 <= self.place(tx, ty) < self.cells.len() {
            Some(self.cells[self.place(tx, ty)])
        } else {
            None
        }
    }

    /// The glyph that lands on the cell `(x, y)` of a grid when the upper
    /// left corner of the glyphs is laid on `(off_x, off_y)`, where one
    /// lands there.
    pub open spec fn glyph_on(&self, off_x: int, off_y: int, x: int, y: int) -> Option<char> {
        if 0 <= x - off_x < self.cols && 0 <= y - off_y < self.rows {
            self.glyph_at(x - off_x, y - off_y)
        } else {
            None
        }
    }
}

/// A source of glyphs laid out in columns and rows.
pub trait GlyphSource {
    /// The glyphs of the source.
    spec fn glyphs(&self) -> GlyphModel;

    fn width(&self) -> (w: usize)
        ensures
            w == self.glyphs().cols,
    ;

    fn height(&self) -> (h: usize)
        ensures
            h == self.glyphs().rows,
    ;

    fn glyph(&self, tx: usize, ty: usize) -> (g: Option<char>)
        requires
            tx < self.glyphs().cols,
            ty < self.glyphs().rows,
        ensures
            g == self.glyphs().glyph_at(tx as int, ty as int),
    ;
}

/// The character of a cell of a picture: the one whose code is the lowest
/// byte of the cell's code.
pub open spec fn cell_char(code: u32) -> char {
    ((code % 256) as u8) as char
}

impl GlyphSource for RexLayer {
    open spec fn glyphs(&self) -> GlyphModel {
        GlyphModel {
            cols: self.width as int,
            rows: self.height as int,
            cells: self.cells@.map_values(|code: u32| cell_char(code)),
            by_columns: true,
        }
    }

    fn width(&self) -> (w: usize) {
        self.width
    }

    fn height(&self) -> (h: usize) {
        self.height
    }

    fn glyph(&self, tx: usize, ty: usize) -> (g: Option<char>) {
        let n = self.cells.len();
        proof {
            assert(0 <= tx * self.height) by (nonlinear_arith);
        }
        match tx.checked_mul(self.height) {
            None => None,
            Some(column) => match column.checked_add(ty) {
                None => None,
                Some(i) => if i < n {
                    Some(((self.cells[i] % 256) as u8) as char)
                } else {
                    None
                },
            },
        }
    }
}

impl GlyphSource for AsciiGrid {
    open spec fn glyphs(&self) -> GlyphModel {
        GlyphModel {
            cols: self.width as int,
            rows: self.height as int,
            cells: self.chars@,
            by_columns: false,
        }
    }

    fn width(&self) -> (w: usize) {
        self.width
    }

    fn height(&self) -> (h: usize) {
        self.height
    }

    fn glyph(&self, tx: usize, ty: usize) -> (g: Option<char>) {
        let n = self.chars.len();
        proof {
            assert(0 <= ty * self.width) by (nonlinear_arith);
        }
        match ty.checked_mul(self.width) {
            None => None,
            Some(row) => match row.checked_add(tx) {
                None => None,
                Some(i) => if i < n {
                    Some(self.chars[i])
                } else {
                    None
                },
            },
        }
    }
}

/// The tile at `(x, y)` once the glyphs are laid on the grid.
pub open spec fn stamped_tile(
    glyphs: GlyphModel,
    before: &Grid,
    off_x: int,
    off_y: int,
    x: int,
    y: int,
) -> TileType {
    match glyphs.glyph_on(off_x, off_y, x, y) {
        Some(ch) => glyph_tile(ch),
        None => before.tile_at(x, y),
    }
}

/// The spawn requests that the glyphs make in the first `n` cells of the
/// row `y` of the grid.
pub open spec fn stamped_row_spawns(
    glyphs: GlyphModel,
    map: &Grid,
    off_x: int,
    off_y: int,
    y: int,
    n: int,
) -> Seq<SpawnModel>
    decreases n,
{
    if n <= 0 {
        Seq::empty()
    } else {
        let rest = stamped_row_spawns(glyphs, map, off_x, off_y, y, n - 1);
        match glyphs.glyph_on(off_x, off_y, n - 1, y) {
            Some(ch) => if glyph_spawns(ch) {
                rest.push((map.index_of(n - 1, y) as usize, "Human"@))
            } else {
                rest
            },
            None => rest,
        }
    }
}

/// The spawn requests that the glyphs make in the first `n` rows of the
/// grid, row by row and from left to right in each.
pub open spec fn stamped_spawns(
    glyphs: GlyphModel,
    map: &Grid,
    off_x: int,
    off_y: int,
    n: int,
) -> Seq<SpawnModel>
    decreases n,
{
    if n <= 0 {
        Seq::empty()
    } else {
        stamped_spawns(glyphs, map, off_x, off_y, n - 1) + stamped_row_spawns(
            glyphs,
            map,
            off_x,
            off_y,
            n - 1,
            map.width as int,
        )
    }
}

/// The glyphs of a text: the first `n` characters without the line breaks,
/// each character whose code ends in the byte 160 taken for a blank.
pub open spec fn ascii_cells(text: Seq<char>, n: int) -> Seq<char>
    decreases n,
{
    if n <= 0 {
        Seq::empty()
    } else {
        let rest = ascii_cells(text, n - 1);
        let ch = text[n - 1];
        if ch == '\r' || ch == '\n' {
            rest
        } else if (ch as u32) % 256 == 160 {
            rest.push(' ')
        } else {
            rest.push(ch)
        }
    }
}

/// The tile at `(x, y)` once the first `n` of the layers are laid on the
/// grid, one after the other, where `previous` was there before.
pub open spec fn layered_tile(layers: Seq<RexLayer>, n: int, x: int, y: int, previous: TileType) -> TileType
    decreases n,
{
    if n <= 0 {
        previous
    } else {
        match layers[n - 1].glyphs().glyph_on(0, 0, x, y) {
            Some(ch) => glyph_tile(ch),
            None => layered_tile(layers, n - 1, x, y, previous),
        }
    }
}

/// The spawn requests that the first `n` of the layers make, layer after
/// layer.
pub open spec fn layered_spawns(layers: Seq<RexLayer>, map: &Grid, n: int) -> Seq<SpawnModel>
    decreases n,
{
    if n <= 0 {
        Seq::empty()
    } else {
        layered_spawns(layers, map, n - 1) + stamped_spawns(
            layers[n - 1].glyphs(),
            map,
            0,
            0,
            map.height as int,
        )
    }
}

/// The spawn requests of glyphs depend on the size of the grid only, not
/// on its tiles.
pub proof fn lemma_spawns_by_shape(
    glyphs: GlyphModel,
    a: &Grid,
    b: &Grid,
    off_x: int,
    off_y: int,
    n: int,
)
    requires
        a.width == b.width,
    ensures
        stamped_spawns(glyphs, a, off_x, off_y, n) == stamped_spawns(glyphs, b, off_x, off_y, n),
    decreases n,
{
    if n > 0 {
        lemma_spawns_by_shape(glyphs, a, b, off_x, off_y, n - 1);
        lemma_row_spawns_by_shape(glyphs, a, b, off_x, off_y, n - 1, a.width as int);
    }
}

/// The spawn requests of glyphs in a row depend on the size of the grid
/// only, not on its tiles.
pub proof fn lemma_row_spawns_by_shape(
    glyphs: GlyphModel,
    a: &Grid,
    b: &Grid,
    off_x: int,
    off_y: int,
    y: int,
    n: int,
)
    requires
        a.width == b.width,
    ensures
        stamped_row_spawns(glyphs, a, off_x, off_y, y, n) == stamped_row_spawns(
            glyphs,
            b,
            off_x,
            off_y,
            y,
            n,
        ),
    decreases n,
{
    if n > 0 {
        lemma_row_spawns_by_shape(glyphs, a, b, off_x, off_y, y, n - 1);
    }
}

impl PrefabBuilder {
    /// The stage that lays a whole level drawn in characters.
    pub fn constant(level: PrefabLevel) -> (r: Box<PrefabBuilder>)
        ensures
            r.mode == (PrefabMode::Constant { level }),
    {
        Box::new(PrefabBuilder { mode: PrefabMode::Constant { level } })
    }

    /// The stage that lays a section over a level that is there already.
    pub fn sectional(section: PrefabSection) -> (r: Box<PrefabBuilder>)
        ensures
            r.mode == (PrefabMode::Sectional { section }),
    {
        Box::new(PrefabBuilder { mode: PrefabMode::Sectional { section } })
    }

    /// The stage that lays the layers of a picture.
    pub fn rex_level(layers: Vec<RexLayer>) -> (r: Box<PrefabBuilder>)
        ensures
            r.mode == (PrefabMode::RexLevel { layers }),
    {
        Box::new(PrefabBuilder { mode: PrefabMode::RexLevel { layers } })
    }

    /// Tells whether the stage can work on a grid of the given size.
    pub fn fits(&self, width: i32, height: i32) -> (r: bool)
        ensures
            r == self.template_fits(width as int, height as int),
    {
        match &self.mode {
            PrefabMode::RexLevel { layers } => true,
            PrefabMode::Constant { level } => width >= 0 && height >= 0 && level.width
                <= width as usize && level.height <= height as usize,
            PrefabMode::Sectional { section } => width >= 0 && height >= 0 && section.width
                <= width as usize && section.height <= height as usize,
        }
    }

    /// Tells whether a glyph has a meaning. A glyph without one is laid as
    /// floor; whoever keeps a log can warn of it.
    pub fn glyph_known(ch: char) -> (known: bool)
        ensures
            known == known_glyph(ch),
    {
        ch == ' ' || ch == '#' || ch == 'g'
    }

    /// Puts on the cell `idx` what the glyph stands for: the tile, and for
    /// a `g` a request to place a human there.
    pub fn char_to_map(&self, ch: char, idx: usize, build_data: &mut BuilderMap)
        requires
            old(build_data).wf(),
            idx < old(build_data).map.cells(),
        ensures
            final(build_data).wf(),
            final(build_data).extends(old(build_data)),
            final(build_data).same_records_but_spawns(old(build_data)),
            final(build_data).history == old(build_data).history,
            final(build_data).map.tiles@ == old(build_data).map.tiles@.update(
                idx as int,
                glyph_tile(ch),
            ),
            final(build_data).spawns() == if glyph_spawns(ch) {
                old(build_data).spawns().push((idx, "Human"@))
            } else {
                old(build_data).spawns()
            },
    {
        if ch == '#' {
            build_data.map.tiles[idx] = TileType::Wall;
        } else if ch == 'g' {
            build_data.map.tiles[idx] = TileType::Floor;
            build_data.request_spawn(idx, "Human");
        } else {
            build_data.map.tiles[idx] = TileType::Floor;
        }
    }

    /// Reads the glyphs of a text.
    pub fn read_ascii_to_vec(template: &str) -> (cells: Vec<char>)
        ensures
            cells@ == ascii_cells(template@, template@.len() as int),
    {
        let n = template.unicode_len();
        let mut string_vec: Vec<char> = Vec::new();
        let mut i: usize = 0;
        while i < n
            invariant
                i <= n,
                n == template@.len(),
                string_vec@ == ascii_cells(template@, i as int),
            decreases n - i,
        {
            let ch = template.get_char(i);
            if ch != '\r' && ch != '\n' {
                if (ch as u32) % 256 == 160 {
                    string_vec.push(' ');
                } else {
                    string_vec.push(ch);
                }
            }
            i += 1;
        }
        string_vec
    }
    /// Lays the glyphs of a source on the grid, the upper left corner of
    /// the source on `(off_x, off_y)`: every cell of the grid on which a
    /// glyph lands gets what the glyph stands for, cell after cell in the
    /// order of the rows.
    #[verifier::rlimit(50)]
    pub fn stamp<S: GlyphSource>(
        &self,
        src: &S,
        off_x: i32,
        off_y: i32,
        build_data: &mut BuilderMap,
    )
        requires
            old(build_data).wf(),
        ensures
            final(build_data).wf(),
            final(build_data).extends(old(build_data)),
            final(build_data).same_records_but_spawns(old(build_data)),
            final(build_data).history == old(build_data).history,
            forall|x: int, y: int|
                old(build_data).map.in_bounds(x, y) ==> #[trigger] final(build_data).map.tile_at(
                    x,
                    y,
                ) == stamped_tile(src.glyphs(), &old(build_data).map, off_x as int, off_y as int, x, y),
            final(build_data).spawns() == old(build_data).spawns() + stamped_spawns(
                src.glyphs(),
                &old(build_data).map,
                off_x as int,
                off_y as int,
                old(build_data).height as int,
            ),
    {
        let ghost before = *build_data;
        let ghost glyphs = src.glyphs();
        let cols = src.width();
        let rows = src.height();
        let width = build_data.map.width;
        let height = build_data.map.height;
        let mut y: i32 = 0;
        assert(before.spawns() + stamped_spawns(glyphs, &before.map, off_x as int, off_y as int, 0)
            =~= before.spawns());
        while y < height
            invariant
                before.wf(),
                glyphs == src.glyphs(),
                cols == glyphs.cols,
                rows == glyphs.rows,
                width == before.width,
                height == before.height,
                0 <= y <= height,
                build_data.wf(),
                build_data.extends(&before),
                build_data.same_records_but_spawns(&before),
                build_data.history == before.history,
                forall|a: int, b: int|
                    before.map.in_bounds(a, b) ==> #[trigger] build_data.map.tile_at(a, b) == if b
                        < y {
                        stamped_tile(glyphs, &before.map, off_x as int, off_y as int, a, b)
                    } else {
                        before.map.tile_at(a, b)
                    },
                build_data.spawns() == before.spawns() + stamped_spawns(
                    glyphs,
                    &before.map,
                    off_x as int,
                    off_y as int,
                    y as int,
                ),
            decreases height - y,
        {
            let ghost row_start = build_data.spawns();
            let mut x: i32 = 0;
            assert(row_start + stamped_row_spawns(
                glyphs,
                &before.map,
                off_x as int,
                off_y as int,
                y as int,
                0,
            ) =~= row_start);
            while x < width
                invariant
                        before.wf(),
                    glyphs == src.glyphs(),
                    cols == glyphs.cols,
                    rows == glyphs.rows,
                    width == before.width,
                    height == before.height,
                    0 <= y < height,
                    0 <= x <= width,
                    build_data.wf(),
                    build_data.extends(&before),
                    build_data.same_records_but_spawns(&before),
                    build_data.history == before.history,
                    forall|a: int, b: int|
                        before.map.in_bounds(a, b) ==> #[trigger] build_data.map.tile_at(a, b)
                            == if b < y || (b == y && a < x) {
                            stamped_tile(glyphs, &before.map, off_x as int, off_y as int, a, b)
                        } else {
                            before.map.tile_at(a, b)
                        },
                    row_start == before.spawns() + stamped_spawns(
                        glyphs,
                        &before.map,
                        off_x as int,
                        off_y as int,
                        y as int,
                    ),
                    build_data.spawns() == row_start + stamped_row_spawns(
                        glyphs,
                        &before.map,
                        off_x as int,
                        off_y as int,
                        y as int,
                        x as int,
                    ),
                decreases width - x,
            {
                let tx = x as i64 - off_x as i64;
                let ty = y as i64 - off_y as i64;
                let ghost prev = *build_data;
                if 0 <= tx && 0 <= ty && (tx as u64) < cols as u64 && (ty as u64) < rows as u64 {
                    match src.glyph(tx as usize, ty as usize) {
                        Some(ch) => {
                            let idx = build_data.map.xy_idx(x, y);
                            self.char_to_map(ch, idx, build_data);
                            proof {
                                assert forall|a: int, b: int|
                                    before.map.in_bounds(a, b) && (a != x || b
                                        != y) implies #[trigger] build_data.map.tile_at(a, b)
                                    == prev.map.tile_at(a, b) by {
                                    before.map.lemma_index_in_range(a, b);
                                    before.map.lemma_index_in_range(x as int, y as int);
                                }
                                assert(build_data.spawns() =~= row_start + stamped_row_spawns(
                                    glyphs,
                                    &before.map,
                                    off_x as int,
                                    off_y as int,
                                    y as int,
                                    x + 1,
                                ));
                            }
                        },
                        None => {},
                    }
                }
                x += 1;
            }
            proof {
                assert(build_data.spawns() =~= before.spawns() + stamped_spawns(
                    glyphs,
                    &before.map,
                    off_x as int,
                    off_y as int,
                    y + 1,
                ));
            }
            y += 1;
        }
    }

    /// Lays a whole level drawn in characters on the grid, its upper left
    /// corner on that of the grid.
    pub fn load_ascii_map(&self, level: &PrefabLevel, build_data: &mut BuilderMap)
        requires
            old(build_data).wf(),
        ensures
            final(build_data).wf(),
            final(build_data).extends(old(build_data)),
            final(build_data).same_records_but_spawns(old(build_data)),
            final(build_data).history == old(build_data).history,
            forall|x: int, y: int|
                old(build_data).map.in_bounds(x, y) ==> #[trigger] final(build_data).map.tile_at(
                    x,
                    y,
                ) == stamped_tile(level.glyphs(), &old(build_data).map, 0, 0, x, y),
            final(build_data).spawns() == old(build_data).spawns() + stamped_spawns(
                level.glyphs(),
                &old(build_data).map,
                0,
                0,
                old(build_data).height as int,
            ),
    {
        let grid = AsciiGrid {
            chars: Self::read_ascii_to_vec(level.template),
            width: level.width,
            height: level.height,
        };
        assert(grid.glyphs() == level.glyphs());
        self.stamp(&grid, 0, 0, build_data);
    }

    /// Lays the layers of a picture on the grid, one after the other, the
    /// upper left corner of each on that of the grid.
    #[verifier::rlimit(50)]
    pub fn load_rex_map(&self, layers: &Vec<RexLayer>, build_data: &mut BuilderMap)
        requires
            old(build_data).wf(),
        ensures
            final(build_data).wf(),
            final(build_data).extends(old(build_data)),
            final(build_data).same_records_but_spawns(old(build_data)),
            final(build_data).history == old(build_data).history,
            forall|x: int, y: int|
                old(build_data).map.in_bounds(x, y) ==> #[trigger] final(build_data).map.tile_at(
                    x,
                    y,
                ) == layered_tile(
                    layers@,
                    layers@.len() as int,
                    x,
                    y,
                    old(build_data).map.tile_at(x, y),
                ),
            final(build_data).spawns() == old(build_data).spawns() + layered_spawns(
                layers@,
                &old(build_data).map,
                layers@.len() as int,
            ),
    {
        let ghost before = *build_data;
        let n = layers.len();
        let mut i: usize = 0;
        assert(before.spawns() + layered_spawns(layers@, &before.map, 0) =~= before.spawns());
        while i < n
            invariant
                i <= n,
                n == layers@.len(),
                before.wf(),
                build_data.wf(),
                build_data.extends(&before),
                build_data.same_records_but_spawns(&before),
                build_data.history == before.history,
                forall|x: int, y: int|
                    before.map.in_bounds(x, y) ==> #[trigger] build_data.map.tile_at(x, y)
                        == layered_tile(layers@, i as int, x, y, before.map.tile_at(x, y)),
                build_data.spawns() == before.spawns() + layered_spawns(
                    layers@,
                    &before.map,
                    i as int,
                ),
            decreases n - i,
        {
            let ghost prev = *build_data;
            self.stamp(&layers[i], 0, 0, build_data);
            proof {
                lemma_spawns_by_shape(
                    layers@[i as int].glyphs(),
                    &prev.map,
                    &before.map,
                    0,
                    0,
                    before.height as int,
                );
                assert(build_data.spawns() =~= before.spawns() + layered_spawns(
                    layers@,
                    &before.map,
                    i + 1,
                ));
                assert forall|x: int, y: int|
                    before.map.in_bounds(x, y) implies #[trigger] build_data.map.tile_at(x, y)
                    == layered_tile(layers@, i + 1, x, y, before.map.tile_at(x, y)) by {
                    assert(prev.map.tile_at(x, y) == layered_tile(
                        layers@,
                        i as int,
                        x,
                        y,
                        before.map.tile_at(x, y),
                    ));
                }
            }
            i += 1;
        }
    }
    /// Carries the level that is there over to the level with the
    /// section: every spawn request stays in the list where it is, on the
    /// footprint of the section and off it, and none is added. A snapshot
    /// is taken.
    pub fn apply_previous_iteration(&self, build_data: &mut BuilderMap)
        requires
            old(build_data).wf(),
        ensures
            final(build_data).wf(),
            final(build_data).extends(old(build_data)),
            final(build_data).same_records(old(build_data)),
            final(build_data).map == old(build_data).map,
            final(build_data).history@.len() == old(build_data).history@.len() + 1,
            final(build_data).spawns() == old(build_data).spawns(),
    {
        build_data.take_snapshot();
    }

    /// Lays a section on a level that is there already. The upper left
    /// corner of the section goes where its placement says. The spawn
    /// requests of the level stay as they are, and those of the section
    /// follow them.
    #[verifier::rlimit(50)]
    pub fn apply_sectional(&self, section: &PrefabSection, build_data: &mut BuilderMap)
        requires
            old(build_data).wf(),
            section.width <= old(build_data).width,
            section.height <= old(build_data).height,
        ensures
            final(build_data).wf(),
            final(build_data).extends(old(build_data)),
            final(build_data).same_records_but_spawns(old(build_data)),
            final(build_data).history@.len() == old(build_data).history@.len() + 2,
            forall|x: int, y: int|
                old(build_data).map.in_bounds(x, y) ==> #[trigger] final(build_data).map.tile_at(
                    x,
                    y,
                ) == stamped_tile(
                    section.glyphs(),
                    &old(build_data).map,
                    anchor_x(
                        section.placement.0,
                        old(build_data).width as int,
                        section.width as int,
                    ),
                    anchor_y(
                        section.placement.1,
                        old(build_data).height as int,
                        section.height as int,
                    ),
                    x,
                    y,
                ),
            final(build_data).spawns() == old(build_data).spawns() + stamped_spawns(
                section.glyphs(),
                &old(build_data).map,
                anchor_x(section.placement.0, old(build_data).width as int, section.width as int),
                anchor_y(section.placement.1, old(build_data).height as int, section.height as int),
                old(build_data).height as int,
            ),
    {
        let ghost before = *build_data;
        let grid = AsciiGrid {
            chars: Self::read_ascii_to_vec(section.template),
            width: section.width,
            height: section.height,
        };
        assert(grid.glyphs() == section.glyphs());
        let chunk_x = horizontal_anchor(
            section.placement.0,
            build_data.map.width,
            section.width as i32,
        );
        let chunk_y = vertical_anchor(
            section.placement.1,
            build_data.map.height,
            section.height as i32,
        );
        self.apply_previous_iteration(build_data);
        let ghost carried = *build_data;
        self.stamp(&grid, chunk_x, chunk_y, build_data);
        proof {
            lemma_spawns_by_shape(
                section.glyphs(),
                &carried.map,
                &before.map,
                chunk_x as int,
                chunk_y as int,
                before.height as int,
            );
        }
        build_data.take_snapshot();
    }

    /// Whether the stage can work on a grid of the given size: a level or
    /// a section must not be wider or higher than the grid.
    pub open spec fn template_fits(&self, width: int, height: int) -> bool {
        match self.mode {
            PrefabMode::RexLevel { layers } => true,
            PrefabMode::Constant { level } => level.width <= width && level.height <= height,
            PrefabMode::Sectional { section } => section.width <= width && section.height <= height,
        }
    }

    /// Whether `after` is `before` with what the stage was made with laid
    /// on it: the tiles that the glyphs stand for, and the spawn requests
    /// that they make.
    pub open spec fn laid(&self, before: &BuilderMap, after: &BuilderMap) -> bool {
        match self.mode {
            PrefabMode::RexLevel { layers } => {
                &&& forall|x: int, y: int|
                    before.map.in_bounds(x, y) ==> #[trigger] after.map.tile_at(x, y) == layered_tile(
                        layers@,
                        layers@.len() as int,
                        x,
                        y,
                        before.map.tile_at(x, y),
                    )
                &&& after.spawns() == before.spawns() + layered_spawns(
                    layers@,
                    &before.map,
                    layers@.len() as int,
                )
            },
            PrefabMode::Constant { level } => {
                &&& forall|x: int, y: int|
                    before.map.in_bounds(x, y) ==> #[trigger] after.map.tile_at(x, y) == stamped_tile(
                        level.glyphs(),
                        &before.map,
                        0,
                        0,
                        x,
                        y,
                    )
                &&& after.spawns() == before.spawns() + stamped_spawns(
                    level.glyphs(),
                    &before.map,
                    0,
                    0,
                    before.height as int,
                )
            },
            PrefabMode::Sectional { section } => {
                let ax = anchor_x(
                    section.placement.0,
                    before.width as int,
                    section.width as int,
                );
                let ay = anchor_y(
                    section.placement.1,
                    before.height as int,
                    section.height as int,
                );
                &&& forall|x: int, y: int|
                    before.map.in_bounds(x, y) ==> #[trigger] after.map.tile_at(x, y) == stamped_tile(
                        section.glyphs(),
                        &before.map,
                        ax,
                        ay,
                        x,
                        y,
                    )
                &&& after.spawns() == before.spawns() + stamped_spawns(
                    section.glyphs(),
                    &before.map,
                    ax,
                    ay,
                    before.height as int,
                )
            },
        }
    }

    /// Lays on the grid what the stage was made with, and takes a
    /// snapshot.
    #[verifier::rlimit(50)]
    pub fn build(&mut self, build_data: &mut BuilderMap)
        requires
            old(build_data).wf(),
            old(self).template_fits(old(build_data).width as int, old(build_data).height as int),
        ensures
            final(build_data).wf(),
            final(build_data).extends(old(build_data)),
            final(build_data).same_records_but_spawns(old(build_data)),
            old(self).laid(old(build_data), final(build_data)),
    {
        match &self.mode {
            PrefabMode::RexLevel { layers } => {
                self.load_rex_map(layers, build_data);
            },
            PrefabMode::Constant { level } => {
                self.load_ascii_map(level, build_data);
            },
            PrefabMode::Sectional { section } => {
                self.apply_sectional(section, build_data);
            },
        }
        build_data.take_snapshot();
    }
}

/// The stage draws nothing: whatever it makes of a context, its tiles and
/// its spawn requests are the same every time.
pub proof fn lemma_prefab_determined(
    stage: PrefabBuilder,
    before: BuilderMap,
    one: BuilderMap,
    other: BuilderMap,
)
    requires
        before.wf(),
        one.wf(),
        other.wf(),
        one.extends(&before),
        other.extends(&before),
        stage.laid(&before, &one),
        stage.laid(&before, &other),
    ensures
        one.map.tiles@ == other.map.tiles@,
        one.spawns() == other.spawns(),
{
    assert forall|x: int, y: int| one.map.in_bounds(x, y) implies #[trigger] one.map.tile_at(x, y)
        == other.map.tile_at(x, y) by {
        assert(before.map.in_bounds(x, y));
    }
    Grid::lemma_same_tiles(&one.map, &other.map);
}

impl InitialMapBuilder for PrefabBuilder {
    open spec fn fits_grid(&self, width: int, height: int) -> bool {
        self.template_fits(width, height)
    }

    open spec fn provides(&self) -> Fields {
        Fields::none()
    }

    open spec fn outcome(&self, before: &BuilderMap, after: &BuilderMap) -> bool {
        self.laid(before, after)
    }

    fn grid_ok(&self, width: i32, height: i32) -> (r: bool) {
        self.fits(width, height)
    }

    fn provided(&self) -> (r: Fields) {
        Fields { rooms: false, corridors: false, submaps: false }
    }

    fn build_map(&mut self, rng: &mut rltk::RandomNumberGenerator, build_data: &mut BuilderMap) {
        self.build(build_data);
    }
}

impl MetaMapBuilder for PrefabBuilder {
    open spec fn fits_grid(&self, width: int, height: int) -> bool {
        self.template_fits(width, height)
    }

    open spec fn needs(&self) -> Fields {
        Fields::none()
    }

    open spec fn provides(&self) -> Fields {
        Fields::none()
    }

    open spec fn outcome(&self, before: &BuilderMap, after: &BuilderMap) -> bool {
        self.laid(before, after)
    }

    fn grid_ok(&self, width: i32, height: i32) -> (r: bool) {
        self.fits(width, height)
    }

    fn needed(&self) -> (r: Fields) {
        Fields { rooms: false, corridors: false, submaps: false }
    }

    fn provided(&self) -> (r: Fields) {
        Fields { rooms: false, corridors: false, submaps: false }
    }

    fn build_map(&mut self, rng: &mut rltk::RandomNumberGenerator, build_data: &mut BuilderMap) {
        self.build(build_data);
    }
}

} // verus!
