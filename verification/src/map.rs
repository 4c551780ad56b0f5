use std::collections::HashSet;
use vstd::prelude::*;

verus! {

/// The kind of terrain in one cell of the grid.
#[derive(PartialEq, Eq, Structural, Copy, Clone, Debug)]
pub enum TileType {
    Wall,
    Tree,
    Floor,
    FloorIndoor,
    DownStairs,
}

/// Whether a kind of tile can be walked on.
pub open spec fn walkable(tt: TileType) -> bool {
    tt == TileType::Floor || tt == TileType::FloorIndoor || tt == TileType::DownStairs
}

/// Whether a kind of tile blocks the line of sight.
pub open spec fn opaque(tt: TileType) -> bool {
    tt == TileType::Wall || tt == TileType::Tree
}

/// Tells whether a kind of tile can be walked on.
pub fn tile_walkable(tt: TileType) -> (r: bool)
    ensures
        r == walkable(tt),
{
    match tt {
        TileType::Floor | TileType::FloorIndoor | TileType::DownStairs => true,
        _ => false,
    }
}

/// Tells whether a kind of tile blocks the line of sight.
pub fn tile_opaque(tt: TileType) -> (r: bool)
    ensures
        r == opaque(tt),
{
    match tt {
        TileType::Wall | TileType::Tree => true,
        _ => false,
    }
}

/// The level grid: one tile kind per cell, stored row by row, with the flags
/// that the other systems keep per cell.
pub struct Grid {
    pub width: i32,
    pub height: i32,
    pub tiles: Vec<TileType>,
    pub revealed_tiles: Vec<bool>,
    pub visible_tiles: Vec<bool>,
    pub blocked: Vec<bool>,
    pub view_blocked: HashSet<usize>,
    pub tile_content: Vec<Vec<u32>>,
}

/// Copies a set of cell indices with `HashSet::clone`; the copy holds the
/// indices of the set it was made from, and no others.
#[verifier::external_body]
fn clone_index_set(s: &HashSet<usize>) -> (r: HashSet<usize>)
    ensures
        r@ == s@,
{
    s.clone()
}

impl Grid {
    /// The number of cells of the grid.
    pub open spec fn cells(&self) -> int {
        self.width * self.height
    }

    /// The dimensions are positive and every per-cell array has one entry
    /// for each cell.
    pub open spec fn wf(&self) -> bool {
        &&& 0 < self.width
        &&& 0 < self.height
        &&& self.width * self.height <= i32::MAX
        &&& self.tiles@.len() == self.cells()
        &&& self.revealed_tiles@.len() == self.cells()
        &&& self.visible_tiles@.len() == self.cells()
        &&& self.blocked@.len() == self.cells()
        &&& self.tile_content@.len() == self.cells()
    }

    /// Whether `(x, y)` names a cell of the grid.
    pub open spec fn in_bounds(&self, x: int, y: int) -> bool {
        0 <= x < self.width && 0 <= y < self.height
    }

    /// The index of the cell `(x, y)` in the per-cell arrays.
    pub open spec fn index_of(&self, x: int, y: int) -> int {
        y * self.width + x
    }

    /// The kind of the tile at `(x, y)`.
    pub open spec fn tile_at(&self, x: int, y: int) -> TileType {
        self.tiles@[self.index_of(x, y)]
    }

    /// `self` differs from `other` in the kinds of its tiles at most.
    pub open spec fn same_shape(&self, other: &Grid) -> bool {
        &&& self.width == other.width
        &&& self.height == other.height
        &&& self.tiles@.len() == other.tiles@.len()
        &&& self.revealed_tiles == other.revealed_tiles
        &&& self.visible_tiles == other.visible_tiles
        &&& self.blocked == other.blocked
        &&& self.view_blocked == other.view_blocked
        &&& self.tile_content == other.tile_content
    }

    /// The number of cells among the first `n` that hold a tile of `kind`.
    pub open spec fn count_of(tiles: Seq<TileType>, kind: TileType, n: int) -> int
        decreases n,
    {
        if n <= 0 {
            0
        } else {
            Self::count_of(tiles, kind, n - 1) + if tiles[n - 1] == kind {
                1int
            } else {
                0int
            }
        }
    }

    /// A well-formed grid has at least one cell.
    pub proof fn lemma_has_cells(&self)
        requires
            self.wf(),
        ensures
            0 < self.cells(),
    {
        assert(0 < self.width * self.height) by (nonlinear_arith)
            requires
                0 < self.width,
                0 < self.height,
        ;
    }

    /// An in-bounds coordinate pair has an index below the number of cells.
    pub proof fn lemma_index_in_range(&self, x: int, y: int)
        requires
            0 < self.width,
            0 < self.height,
            self.in_bounds(x, y),
        ensures
            0 <= self.index_of(x, y) < self.cells(),
            self.index_of(x, y) % (self.width as int) == x,
            self.index_of(x, y) / (self.width as int) == y,
    {
        let w = self.width as int;
        assert(y * w + x < self.height * w) by (nonlinear_arith)
            requires
                0 <= x < w,
                0 <= y < self.height,
        ;
        assert(0 <= y * w) by (nonlinear_arith)
            requires
                0 <= y,
                0 < w,
        ;
        vstd::arithmetic::div_mod::lemma_fundamental_div_mod_converse(y * w + x, w, y, x);
    }

    /// A cell off the left and right border is neither the first nor the
    /// last cell of the grid.
    pub proof fn lemma_inner_index(&self, x: int, y: int)
        requires
            self.wf(),
            self.in_bounds(x, y),
            0 < x < self.width - 1,
        ensures
            0 < self.index_of(x, y) < self.cells() - 1,
    {
        let w = self.width as int;
        let h = self.height as int;
        assert(y * w <= (h - 1) * w) by (nonlinear_arith)
            requires
                0 <= y <= h - 1,
                0 < w,
        ;
        assert((h - 1) * w == h * w - w) by (nonlinear_arith);
        assert(h * w == w * h) by (nonlinear_arith);
        assert(0 <= y * w) by (nonlinear_arith)
            requires
                0 <= y,
                0 < w,
        ;
    }

    /// Every index below the number of cells is the index of exactly the
    /// cell `(idx % width, idx / width)`, which is in bounds.
    pub proof fn lemma_coordinates_in_bounds(&self, idx: int)
        requires
            0 < self.width,
            0 < self.height,
            0 <= idx < self.cells(),
        ensures
            self.in_bounds(idx % (self.width as int), idx / (self.width as int)),
            self.index_of(idx % (self.width as int), idx / (self.width as int)) == idx,
    {
        let w = self.width as int;
        vstd::arithmetic::div_mod::lemma_fundamental_div_mod(idx, w);
        vstd::arithmetic::div_mod::lemma_mod_bound(idx, w);
        let q = idx / w;
        assert(q < self.height) by (nonlinear_arith)
            requires
                w * q + idx % w == idx,
                0 <= idx % w,
                idx < w * self.height,
                0 < w,
        ;
        assert(0 <= q) by (nonlinear_arith)
            requires
                w * q + idx % w == idx,
                idx % w < w,
                0 <= idx,
                0 < w,
        ;
        assert(w * q == q * w) by (nonlinear_arith);
    }

    /// Two grids of one size that hold the same tile on every cell hold
    /// the same tiles.
    pub proof fn lemma_same_tiles(a: &Grid, b: &Grid)
        requires
            a.wf(),
            b.wf(),
            a.width == b.width,
            a.height == b.height,
            forall|x: int, y: int| a.in_bounds(x, y) ==> #[trigger] a.tile_at(x, y) == b.tile_at(x, y),
        ensures
            a.tiles@ == b.tiles@,
    {
        assert forall|i: int| 0 <= i < a.tiles@.len() implies a.tiles@[i] == b.tiles@[i] by {
            a.lemma_coordinates_in_bounds(i);
            let x = i % (a.width as int);
            let y = i / (a.width as int);
            assert(a.tile_at(x, y) == b.tile_at(x, y));
        }
        assert(a.tiles@ =~= b.tiles@);
    }

    /// Maps a coordinate pair to its index in the per-cell arrays.
    pub fn xy_idx(&self, x: i32, y: i32) -> (idx: usize)
        requires
            self.wf(),
            self.in_bounds(x as int, y as int),
        ensures
            idx == self.index_of(x as int, y as int),
            idx < self.cells(),
    {
        proof {
            self.lemma_index_in_range(x as int, y as int);
            assert(y * self.width >= 0) by (nonlinear_arith)
                requires
                    y >= 0,
                    self.width > 0,
            ;
        }
        (y as usize * self.width as usize) + x as usize
    }

    /// Maps an index back to its coordinate pair.
    pub fn idx_xy(&self, idx: usize) -> (xy: (i32, i32))
        requires
            self.wf(),
            idx < self.cells(),
        ensures
            xy.0 == idx as int % (self.width as int),
            xy.1 == idx as int / (self.width as int),
            self.in_bounds(xy.0 as int, xy.1 as int),
            self.index_of(xy.0 as int, xy.1 as int) == idx,
    {
        proof {
            self.lemma_coordinates_in_bounds(idx as int);
        }
        (idx as i32 % self.width, idx as i32 / self.width)
    }

    /// Sets the kind of the tile at `(x, y)` and leaves every other cell as
    /// it is.
    pub fn set_tile(&mut self, x: i32, y: i32, tile: TileType)
        requires
            old(self).wf(),
            old(self).in_bounds(x as int, y as int),
        ensures
            final(self).wf(),
            final(self).same_shape(old(self)),
            final(self).tiles@ == old(self).tiles@.update(
                old(self).index_of(x as int, y as int),
                tile,
            ),
            final(self).tile_at(x as int, y as int) == tile,
            forall|a: int, b: int|
                old(self).in_bounds(a, b) && (a != x || b != y) ==> #[trigger] final(self).tile_at(
                    a,
                    b,
                ) == old(self).tile_at(a, b),
    {
        let idx = self.xy_idx(x, y);
        self.tiles[idx] = tile;
        proof {
            assert forall|a: int, b: int|
                old(self).in_bounds(a, b) && (a != x || b != y) implies #[trigger] self.tile_at(
                a,
                b,
            ) == old(self).tile_at(a, b) by {
                old(self).lemma_index_in_range(a, b);
                old(self).lemma_index_in_range(x as int, y as int);
            }
        }
    }

    /// The kind of the tile at `(x, y)`.
    pub fn tile(&self, x: i32, y: i32) -> (tile: TileType)
        requires
            self.wf(),
            self.in_bounds(x as int, y as int),
        ensures
            tile == self.tile_at(x as int, y as int),
    {
        let idx = self.xy_idx(x, y);
        self.tiles[idx]
    }

    /// Counts the cells that hold a tile of `kind`.
    pub fn count_tiles(&self, kind: TileType) -> (n: usize)
        ensures
            n == Self::count_of(self.tiles@, kind, self.tiles@.len() as int),
    {
        let len = self.tiles.len();
        let mut n: usize = 0;
        let mut i: usize = 0;
        while i < len
            invariant
                i <= len,
                len == self.tiles@.len(),
                n <= i,
                n == Self::count_of(self.tiles@, kind, i as int),
            decreases len - i,
        {
            if self.tiles[i] == kind {
                n += 1;
            }
            i += 1;
        }
        n
    }

    /// Generates an empty map, consisting entirely of solid walls.
    pub fn new(width: i32, height: i32) -> (map: Grid)
        requires
            0 < width,
            0 < height,
            width * height <= i32::MAX,
        ensures
            map.wf(),
            map.width == width,
            map.height == height,
            forall|i: int| 0 <= i < map.cells() ==> map.tiles@[i] == TileType::Wall,
            forall|i: int| 0 <= i < map.cells() ==> !map.revealed_tiles@[i],
            forall|i: int| 0 <= i < map.cells() ==> !map.visible_tiles@[i],
            forall|i: int| 0 <= i < map.cells() ==> !map.blocked@[i],
            forall|i: int| 0 <= i < map.cells() ==> map.tile_content@[i]@.len() == 0,
            map.view_blocked@ == Set::<usize>::empty(),
    {
        assert(0 < width * height) by (nonlinear_arith)
            requires
                0 < width,
                0 < height,
        ;
        let map_count = (width * height) as usize;
        let mut tile_content: Vec<Vec<u32>> = Vec::new();
        let mut i: usize = 0;
        while i < map_count
            invariant
                i <= map_count,
                tile_content@.len() == i,
                forall|j: int| 0 <= j < i ==> tile_content@[j]@.len() == 0,
            decreases map_count - i,
        {
            tile_content.push(Vec::new());
            i += 1;
        }
        Grid {
            width,
            height,
            tiles: vec![TileType::Wall; map_count],
            revealed_tiles: vec![false; map_count],
            visible_tiles: vec![false; map_count],
            blocked: vec![false; map_count],
            view_blocked: HashSet::new(),
            tile_content,
        }
    }

    /// Empties the list of occupants of every cell.
    pub fn clear_content_index(&mut self)
        ensures
            final(self).width == old(self).width,
            final(self).height == old(self).height,
            final(self).tiles == old(self).tiles,
            final(self).revealed_tiles == old(self).revealed_tiles,
            final(self).visible_tiles == old(self).visible_tiles,
            final(self).blocked == old(self).blocked,
            final(self).view_blocked == old(self).view_blocked,
            final(self).tile_content@.len() == old(self).tile_content@.len(),
            forall|i: int|
                0 <= i < final(self).tile_content@.len() ==> final(self).tile_content@[i]@.len()
                    == 0,
    {
        let n = self.tile_content.len();
        let mut i: usize = 0;
        while i < n
            invariant
                i <= n,
                self.tile_content@.len() == n,
                self.width == old(self).width,
                self.height == old(self).height,
                self.tiles == old(self).tiles,
                self.revealed_tiles == old(self).revealed_tiles,
                self.visible_tiles == old(self).visible_tiles,
                self.blocked == old(self).blocked,
                self.view_blocked == old(self).view_blocked,
                forall|j: int| 0 <= j < i ==> self.tile_content@[j]@.len() == 0,
            decreases n - i,
        {
            self.tile_content[i].clear();
            i += 1;
        }
    }

    /// Recomputes the movement flags: a cell is blocked exactly when its
    /// tile cannot be walked on.
    pub fn populate_blocked(&mut self)
        requires
            old(self).wf(),
        ensures
            final(self).wf(),
            final(self).width == old(self).width,
            final(self).height == old(self).height,
            final(self).tiles == old(self).tiles,
            final(self).revealed_tiles == old(self).revealed_tiles,
            final(self).visible_tiles == old(self).visible_tiles,
            final(self).view_blocked == old(self).view_blocked,
            final(self).tile_content == old(self).tile_content,
            forall|i: int|
                0 <= i < final(self).cells() ==> final(self).blocked@[i] == !walkable(
                    final(self).tiles@[i],
                ),
    {
        let n = self.tiles.len();
        let mut i: usize = 0;
        while i < n
            invariant
                i <= n,
                n == self.tiles@.len(),
                self.wf(),
                self.width == old(self).width,
                self.height == old(self).height,
                self.tiles == old(self).tiles,
                self.revealed_tiles == old(self).revealed_tiles,
                self.visible_tiles == old(self).visible_tiles,
                self.view_blocked == old(self).view_blocked,
                self.tile_content == old(self).tile_content,
                forall|j: int| 0 <= j < i ==> self.blocked@[j] == !walkable(self.tiles@[j]),
            decreases n - i,
        {
            let walk = tile_walkable(self.tiles[i]);
            self.blocked[i] = !walk;
            i += 1;
        }
    }

    /// Whether a step onto `(x, y)` is allowed: the cell lies off the outer
    /// border and is not blocked.
    pub fn is_exit_valid(&self, x: i32, y: i32) -> (r: bool)
        requires
            self.wf(),
        ensures
            r == (1 <= x <= self.width - 1 && 1 <= y <= self.height - 1 && !self.blocked@[self.index_of(
                x as int,
                y as int,
            )]),
    {
        if x < 1 || x > self.width - 1 || y < 1 || y > self.height - 1 {
            return false;
        }
        let idx = self.xy_idx(x, y);
        !self.blocked[idx]
    }

    /// Whether the cell at `idx` blocks the line of sight: by its tile, or
    /// because it was marked so. Index zero and below always does.
    pub fn is_opaque(&self, idx: i32) -> (r: bool)
        requires
            self.wf(),
            idx < self.cells(),
        ensures
            r == (idx <= 0 || opaque(self.tiles@[idx as int]) || self.view_blocked@.contains(
                idx as usize,
            )),
    {
        if idx > 0 {
            let idx_u = idx as usize;
            tile_opaque(self.tiles[idx_u]) || self.view_blocked.contains(&idx_u)
        } else {
            true
        }
    }

    /// A copy of the grid in which every cell counts as revealed.
    pub fn snapshot(&self) -> (snap: Grid)
        requires
            self.wf(),
        ensures
            snap.wf(),
            snap.width == self.width,
            snap.height == self.height,
            snap.tiles@ == self.tiles@,
            snap.visible_tiles@ == self.visible_tiles@,
            snap.blocked@ == self.blocked@,
            snap.view_blocked@ == self.view_blocked@,
            forall|i: int| 0 <= i < snap.cells() ==> snap.revealed_tiles@[i],
    {
        let n = self.tiles.len();
        let tiles = self.tiles.clone();
        let visible_tiles = self.visible_tiles.clone();
        let blocked = self.blocked.clone();
        let mut tile_content: Vec<Vec<u32>> = Vec::new();
        let mut i: usize = 0;
        while i < n
            invariant
                i <= n,
                n == self.tile_content@.len(),
                tile_content@.len() == i,
            decreases n - i,
        {
            tile_content.push(self.tile_content[i].clone());
            i += 1;
        }
        assert(tiles@ =~= self.tiles@);
        assert(visible_tiles@ =~= self.visible_tiles@);
        assert(blocked@ =~= self.blocked@);
        Grid {
            width: self.width,
            height: self.height,
            tiles,
            revealed_tiles: vec![true; n],
            visible_tiles,
            blocked,
            view_blocked: clone_index_set(&self.view_blocked),
            tile_content,
        }
    }
}

} // verus!
