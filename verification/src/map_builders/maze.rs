use crate::map::{Grid, TileType};
use crate::map_builders::{BuilderMap, Fields, InitialMapBuilder};
use crate::rng::roll_dice;
use vstd::prelude::*;

verus! {

/// The stage that carves a maze: passages one cell wide between rooms one
/// cell wide, on every other row and column of the grid.
pub struct MazeBuilder {}

/// One room of the maze, with the walls that still stand around it.
#[derive(PartialEq, Eq, Structural, Copy, Clone, Debug)]
pub struct Cell {
    pub row: i32,
    pub column: i32,
    pub top: bool,
    pub right: bool,
    pub bottom: bool,
    pub left: bool,
    pub visited: bool,
}

/// The maze while it is made: its rooms row after row, the room that the
/// digger is in, and the rooms that it can go back to.
pub struct MazeGrid {
    pub width: i32,
    pub height: i32,
    pub cells: Vec<Cell>,
    pub backtrace: Vec<usize>,
    pub current: usize,
}

/// How many steps of the digger lie between two snapshots.
pub const SNAPSHOT_EVERY: u32 = 50;

/// The number of rooms among the first `n` that the digger has not been
/// in.
pub open spec fn unvisited(cells: Seq<Cell>, n: int) -> int
    decreases n,
{
    if n <= 0 {
        0
    } else {
        unvisited(cells, n - 1) + if cells[n - 1].visited {
            0int
        } else {
            1int
        }
    }
}

/// A change to one room changes the number of rooms not visited by what
/// it changes of that room.
pub proof fn lemma_unvisited_update(cells: Seq<Cell>, k: int, cell: Cell, n: int)
    requires
        0 <= k < cells.len(),
        0 <= n <= cells.len(),
    ensures
        0 <= unvisited(cells, n) <= n,
        unvisited(cells.update(k, cell), n) == unvisited(cells, n) + if k < n {
            (if cell.visited {
                0int
            } else {
                1int
            }) - (if cells[k].visited {
                0int
            } else {
                1int
            })
        } else {
            0int
        },
    decreases n,
{
    if n > 0 {
        lemma_unvisited_update(cells, k, cell, n - 1);
    }
}

/// Whether a room changes the cell `(x, y)` of the grid into floor: the
/// room itself lies on twice its column and row, two cells off the corner
/// of the grid, and where a wall of it is down the cell on that side is
/// floor too.
pub open spec fn room_paints(cell: Cell, x: int, y: int) -> bool {
    let cx = (cell.column + 1) * 2;
    let cy = (cell.row + 1) * 2;
    ||| (x == cx && y == cy)
    ||| (!cell.top && x == cx && y == cy - 1)
    ||| (!cell.right && x == cx + 1 && y == cy)
    ||| (!cell.bottom && x == cx && y == cy + 1)
    ||| (!cell.left && x == cx - 1 && y == cy)
}

/// Whether one of the first `n` rooms changes the cell `(x, y)` into
/// floor.
pub open spec fn maze_paints(cells: Seq<Cell>, n: int, x: int, y: int) -> bool
    decreases n,
{
    n > 0 && (maze_paints(cells, n - 1, x, y) || room_paints(cells[n - 1], x, y))
}

/// Whether the grid shows the maze: floor where a room of the maze puts
/// floor, and wall everywhere else.
pub open spec fn shows(map: &Grid, cells: Seq<Cell>) -> bool {
    forall|x: int, y: int|
        map.in_bounds(x, y) ==> #[trigger] map.tile_at(x, y) == if maze_paints(
            cells,
            cells.len() as int,
            x,
            y,
        ) {
            TileType::Floor
        } else {
            TileType::Wall
        }
}

/// Two rooms after the wall between them is taken down: the first loses
/// its wall on the side of the second, and the second its wall on the side
/// of the first. The side is told by the columns first, then by the rows;
/// rooms that are not one column or one row apart stay as they are.
pub open spec fn without_wall(here: Cell, there: Cell) -> (Cell, Cell) {
    let x = here.column - there.column;
    let y = here.row - there.row;
    if x == 1 {
        (Cell { left: false, ..here }, Cell { right: false, ..there })
    } else if x == -1 {
        (Cell { right: false, ..here }, Cell { left: false, ..there })
    } else if y == 1 {
        (Cell { top: false, ..here }, Cell { bottom: false, ..there })
    } else if y == -1 {
        (Cell { bottom: false, ..here }, Cell { top: false, ..there })
    } else {
        (here, there)
    }
}

/// Whether the rooms `after` are the rooms `before` with some walls taken
/// down and some more rooms that the digger has been in: no wall stands
/// that did not stand before, and the digger has been wherever it had
/// been.
pub open spec fn dug_from(before: Seq<Cell>, after: Seq<Cell>) -> bool {
    &&& after.len() == before.len()
    &&& forall|i: int|
        0 <= i < before.len() ==> {
            let a = #[trigger] after[i];
            let b = before[i];
            &&& a.row == b.row && a.column == b.column
            &&& a.top ==> b.top
            &&& a.right ==> b.right
            &&& a.bottom ==> b.bottom
            &&& a.left ==> b.left
            &&& b.visited ==> a.visited
        }
}

impl Cell {
    /// The room in the given row and column, with all its walls, not
    /// visited.
    pub fn new(row: i32, column: i32) -> (c: Cell)
        ensures
            c == (Cell {
                row,
                column,
                top: true,
                right: true,
                bottom: true,
                left: true,
                visited: false,
            }),
    {
        Cell { row, column, top: true, right: true, bottom: true, left: true, visited: false }
    }
}

impl MazeGrid {
    /// The rooms lie row after row, each knows its row and column, and the
    /// digger and the rooms to go back to are rooms of the maze.
    pub open spec fn wf(&self) -> bool {
        &&& 0 < self.width
        &&& 0 < self.height
        &&& self.width * self.height <= i32::MAX
        &&& self.cells@.len() == self.width * self.height
        &&& forall|i: int|
            0 <= i < self.cells@.len() ==> (#[trigger] self.cells@[i]).column == i % (
            self.width as int) && self.cells@[i].row == i / (self.width as int)
        &&& self.current < self.cells@.len()
        &&& forall|i: int|
            0 <= i < self.backtrace@.len() ==> #[trigger] self.backtrace@[i] < self.cells@.len()
    }

    /// A maze of the given size with all walls standing and the digger in
    /// its first room.
    pub fn new(width: i32, height: i32) -> (maze: MazeGrid)
        requires
            0 < width,
            0 < height,
            width * height <= i32::MAX,
        ensures
            maze.wf(),
            maze.width == width,
            maze.height == height,
            maze.current == 0,
            maze.backtrace@.len() == 0,
            forall|i: int|
                0 <= i < maze.cells@.len() ==> {
                    let c = #[trigger] maze.cells@[i];
                    c.top && c.right && c.bottom && c.left && !c.visited
                },
    {
        let mut cells: Vec<Cell> = Vec::new();
        let mut row: i32 = 0;
        assert(0 < width * height) by (nonlinear_arith)
            requires
                0 < width,
                0 < height,
        ;
        while row < height
            invariant
                0 < width,
                0 < height,
                width * height <= i32::MAX,
                0 <= row <= height,
                cells@.len() == row * width,
                forall|i: int|
                    0 <= i < cells@.len() ==> (#[trigger] cells@[i]).column == i % (width as int)
                        && cells@[i].row == i / (width as int),
                forall|i: int|
                    0 <= i < cells@.len() ==> {
                        let c = #[trigger] cells@[i];
                        c.top && c.right && c.bottom && c.left && !c.visited
                    },
            decreases height - row,
        {
            let mut column: i32 = 0;
            while column < width
                invariant
                    0 < width,
                    0 < height,
                    width * height <= i32::MAX,
                    0 <= row < height,
                    0 <= column <= width,
                    cells@.len() == row * width + column,
                    forall|i: int|
                        0 <= i < cells@.len() ==> (#[trigger] cells@[i]).column == i % (
                        width as int) && cells@[i].row == i / (width as int),
                    forall|i: int|
                        0 <= i < cells@.len() ==> {
                            let c = #[trigger] cells@[i];
                            c.top && c.right && c.bottom && c.left && !c.visited
                        },
                decreases width - column,
            {
                proof {
                    assert(0 <= row * width) by (nonlinear_arith)
                        requires
                            0 <= row,
                            0 < width,
                    ;
                    vstd::arithmetic::div_mod::lemma_fundamental_div_mod_converse(
                        row * width + column,
                        width as int,
                        row as int,
                        column as int,
                    );
                }
                cells.push(Cell::new(row, column));
                column += 1;
            }
            proof {
                assert((row + 1) * width == row * width + width) by (nonlinear_arith);
            }
            row += 1;
        }
        proof {
            assert(height * width == width * height) by (nonlinear_arith);
        }
        MazeGrid { width, height, cells, backtrace: Vec::new(), current: 0 }
    }

    /// The place of the room in the given row and column among the rooms,
    /// or minus one where the maze has no such room.
    pub open spec fn place_of(&self, row: int, column: int) -> int {
        if row < 0 || column < 0 || column > self.width - 1 || row > self.height - 1 {
            -1
        } else {
            column + row * self.width
        }
    }

    /// `found`, followed by the room at the given place where the maze has
    /// that room and the digger has not been in it.
    pub open spec fn with_unvisited(&self, found: Seq<usize>, place: int) -> Seq<usize> {
        if place != -1 && !self.cells@[place].visited {
            found.push(place as usize)
        } else {
            found
        }
    }

    /// The rooms next to the room of the digger that it has not been in:
    /// above, right, below and left of it, in this order.
    pub open spec fn available(&self) -> Seq<usize> {
        let row = self.cells@[self.current as int].row as int;
        let column = self.cells@[self.current as int].column as int;
        let up = self.with_unvisited(Seq::empty(), self.place_of(row - 1, column));
        let right = self.with_unvisited(up, self.place_of(row, column + 1));
        let down = self.with_unvisited(right, self.place_of(row + 1, column));
        self.with_unvisited(down, self.place_of(row, column - 1))
    }

    /// Whether there is no going to the given place: the maze has no room
    /// there, or the digger has been in it.
    pub open spec fn no_way(&self, place: int) -> bool {
        place == -1 || self.cells@[place].visited
    }

    /// Whether the room at place `i` is hemmed in: there is no going to
    /// any of the four places next to it.
    pub open spec fn hemmed_in(&self, i: int) -> bool {
        let row = self.cells@[i].row as int;
        let column = self.cells@[i].column as int;
        &&& self.no_way(self.place_of(row - 1, column))
        &&& self.no_way(self.place_of(row, column + 1))
        &&& self.no_way(self.place_of(row + 1, column))
        &&& self.no_way(self.place_of(row, column - 1))
    }

    /// Whether the digger can go on from where it is without leaving a
    /// room behind: every room that it has been in, but the one that it is
    /// in, is a room that it goes back to or a room that is hemmed in. It
    /// is so in a maze that the digger has not been in at all.
    pub open spec fn on_its_way(&self) -> bool {
        forall|k: int|
            0 <= k < self.cells@.len() && (#[trigger] self.cells@[k]).visited && k != self.current
                ==> self.backtrace@.contains(k as usize) || self.hemmed_in(k)
    }

    /// Whether the digger has been in every room that is next to a room
    /// that it has been in.
    pub open spec fn dug_out(&self) -> bool {
        forall|i: int|
            0 <= i < self.cells@.len() && (#[trigger] self.cells@[i]).visited ==> self.hemmed_in(i)
    }

    /// The room in row `r` and column `c` of the maze is the one at place
    /// `c + r * width`.
    pub proof fn lemma_room_at(&self, r: int, c: int)
        requires
            self.wf(),
            0 <= r < self.height,
            0 <= c < self.width,
        ensures
            0 <= c + r * self.width < self.cells@.len(),
            self.place_of(r, c) == c + r * self.width,
            self.cells@[c + r * self.width].row == r,
            self.cells@[c + r * self.width].column == c,
    {
        let w = self.width as int;
        let i = c + r * w;
        assert(0 <= r * w <= (self.height - 1) * w) by (nonlinear_arith)
            requires
                0 <= r <= self.height - 1,
                0 < w,
        ;
        assert((self.height - 1) * w == self.width * self.height - w) by (nonlinear_arith)
            requires
                w == self.width,
        ;
        vstd::arithmetic::div_mod::lemma_fundamental_div_mod_converse(i, w, r, c);
        assert(self.cells@[i].column == i % w);
    }

    /// The row and the column of a room of the maze are a row and a column
    /// of the maze.
    pub proof fn lemma_room_of(&self, i: int)
        requires
            self.wf(),
            0 <= i < self.cells@.len(),
        ensures
            0 <= self.cells@[i].row < self.height,
            0 <= self.cells@[i].column < self.width,
            i == self.cells@[i].column + self.cells@[i].row * self.width,
    {
        let w = self.width as int;
        assert(self.cells@[i].column == i % w);
        vstd::arithmetic::div_mod::lemma_fundamental_div_mod(i, w);
        vstd::arithmetic::div_mod::lemma_mod_bound(i, w);
        assert(0 <= i / w) by (nonlinear_arith)
            requires
                0 <= i,
                0 < w,
                w * (i / w) + i % w == i,
                0 <= i % w < w,
        ;
        assert(i / w < self.height) by (nonlinear_arith)
            requires
                i < w * self.height,
                0 < w,
                w * (i / w) + i % w == i,
                0 <= i % w < w,
        ;
        assert(w * (i / w) == (i / w) * w) by (nonlinear_arith);
    }

    /// A room that is hemmed in stays hemmed in while the digger goes on:
    /// the rooms that it has been in, it has been in for good.
    pub proof fn lemma_stays_hemmed_in(&self, later: &MazeGrid, i: int)
        requires
            self.wf(),
            later.wf(),
            later.width == self.width,
            later.height == self.height,
            forall|j: int|
                0 <= j < self.cells@.len() && (#[trigger] self.cells@[j]).visited
                    ==> later.cells@[j].visited,
            0 <= i < self.cells@.len(),
            self.hemmed_in(i),
        ensures
            later.hemmed_in(i),
    {
        self.lemma_room_of(i);
        let r = self.cells@[i].row as int;
        let c = self.cells@[i].column as int;
        assert(later.cells@[i].row == r && later.cells@[i].column == c);
        if r - 1 >= 0 {
            self.lemma_room_at(r - 1, c);
            assert(self.cells@[c + (r - 1) * self.width].visited);
        }
        if c + 1 < self.width {
            self.lemma_room_at(r, c + 1);
            assert(self.cells@[c + 1 + r * self.width].visited);
        }
        if r + 1 < self.height {
            self.lemma_room_at(r + 1, c);
            assert(self.cells@[c + (r + 1) * self.width].visited);
        }
        if c - 1 >= 0 {
            self.lemma_room_at(r, c - 1);
            assert(self.cells@[c - 1 + r * self.width].visited);
        }
    }

    /// In a maze that is dug out the digger has been in every room of a
    /// row in which it has been in one room.
    pub proof fn lemma_row_dug_out(&self, r: int, from: int, to: int)
        requires
            self.wf(),
            self.dug_out(),
            0 <= r < self.height,
            0 <= from < self.width,
            0 <= to < self.width,
            self.cells@[from + r * self.width].visited,
        ensures
            self.cells@[to + r * self.width].visited,
        decreases
                if from <= to {
                    to - from
                } else {
                    from - to
                },
    {
        self.lemma_room_at(r, from);
        let i = from + r * self.width;
        assert(self.cells@[i].visited && self.hemmed_in(i));
        if from < to {
            self.lemma_room_at(r, from + 1);
            self.lemma_row_dug_out(r, from + 1, to);
        } else if from > to {
            self.lemma_room_at(r, from - 1);
            self.lemma_row_dug_out(r, from - 1, to);
        }
    }

    /// In a maze that is dug out the digger has been in every room of a
    /// column in which it has been in one room.
    pub proof fn lemma_column_dug_out(&self, c: int, from: int, to: int)
        requires
            self.wf(),
            self.dug_out(),
            0 <= c < self.width,
            0 <= from < self.height,
            0 <= to < self.height,
            self.cells@[c + from * self.width].visited,
        ensures
            self.cells@[c + to * self.width].visited,
        decreases
                if from <= to {
                    to - from
                } else {
                    from - to
                },
    {
        self.lemma_room_at(from, c);
        let i = c + from * self.width;
        assert(self.cells@[i].visited && self.hemmed_in(i));
        if from < to {
            self.lemma_room_at(from + 1, c);
            self.lemma_column_dug_out(c, from + 1, to);
        } else if from > to {
            self.lemma_room_at(from - 1, c);
            self.lemma_column_dug_out(c, from - 1, to);
        }
    }

    /// In a maze that is dug out the digger has been in every room, if it
    /// has been in one.
    pub proof fn lemma_all_dug_out(&self, start: int, target: int)
        requires
            self.wf(),
            self.dug_out(),
            0 <= start < self.cells@.len(),
            0 <= target < self.cells@.len(),
            self.cells@[start].visited,
        ensures
            self.cells@[target].visited,
    {
        self.lemma_room_of(start);
        self.lemma_room_of(target);
        let r0 = self.cells@[start].row as int;
        let c0 = self.cells@[start].column as int;
        let r1 = self.cells@[target].row as int;
        let c1 = self.cells@[target].column as int;
        self.lemma_row_dug_out(r0, c0, c1);
        self.lemma_column_dug_out(c1, r0, r1);
    }

    /// Where no room next to the room of the digger is left that it has
    /// not been in, that room is hemmed in.
    pub proof fn lemma_none_left_hemmed_in(&self)
        requires
            self.wf(),
            self.available().len() == 0,
        ensures
            self.hemmed_in(self.current as int),
    {
        let row = self.cells@[self.current as int].row as int;
        let column = self.cells@[self.current as int].column as int;
        let up = self.with_unvisited(Seq::empty(), self.place_of(row - 1, column));
        let right = self.with_unvisited(up, self.place_of(row, column + 1));
        let down = self.with_unvisited(right, self.place_of(row + 1, column));
        let left = self.with_unvisited(down, self.place_of(row, column - 1));
        assert(left.len() >= down.len() >= right.len() >= up.len());
    }

    /// The place of the room in the given row and column among the rooms,
    /// or minus one where the maze has no such room.
    pub fn calculate_index(&self, row: i32, column: i32) -> (idx: i32)
        requires
            self.wf(),
        ensures
            idx == self.place_of(row as int, column as int),
            idx == -1 || 0 <= idx < self.cells@.len(),
    {
        if row < 0 || column < 0 || column > self.width - 1 || row > self.height - 1 {
            -1
        } else {
            proof {
                assert(0 <= row * self.width <= (self.height - 1) * self.width) by (nonlinear_arith)
                    requires
                        0 <= row <= self.height - 1,
                        0 < self.width,
                ;
                assert((self.height - 1) * self.width == self.height * self.width - self.width)
                    by (nonlinear_arith);
                assert(self.height * self.width == self.width * self.height) by (nonlinear_arith);
            }
            column + (row * self.width)
        }
    }

    /// The rooms next to the room of the digger that it has not been in:
    /// above, right, below and left of it, in this order.
    pub fn get_available_neighbors(&self) -> (neighbors: Vec<usize>)
        requires
            self.wf(),
        ensures
            neighbors@ == self.available(),
            neighbors@.len() <= 4,
            forall|i: int|
                0 <= i < neighbors@.len() ==> #[trigger] neighbors@[i] < self.cells@.len()
                    && !self.cells@[neighbors@[i] as int].visited && neighbors@[i] != self.current,
    {
        let mut neighbors: Vec<usize> = Vec::new();
        let current_row = self.cells[self.current].row;
        let current_column = self.cells[self.current].column;
        proof {
            let i = self.current as int;
            let w = self.width as int;
            vstd::arithmetic::div_mod::lemma_fundamental_div_mod(i, w);
            vstd::arithmetic::div_mod::lemma_mod_bound(i, w);
            assert(0 <= i / w) by (nonlinear_arith)
                requires
                    0 <= i,
                    0 < w,
                    w * (i / w) + i % w == i,
                    0 <= i % w < w,
            ;
            assert(i / w < self.height) by (nonlinear_arith)
                requires
                    i < w * self.height,
                    0 < w,
                    w * (i / w) + i % w == i,
                    0 <= i % w < w,
            ;
            assert(w * (i / w) == (i / w) * w) by (nonlinear_arith);
        }
        proof {
            let i = self.current as int;
            let w = self.width as int;
            assert(i == current_column + current_row * w) by (nonlinear_arith)
                requires
                    w * (i / w) + i % w == i,
                    current_column == i % w,
                    current_row == i / w,
            ;
            assert((current_row - 1) * w == current_row * w - w) by (nonlinear_arith);
            assert((current_row + 1) * w == current_row * w + w) by (nonlinear_arith);
        }
        let up = self.calculate_index(current_row - 1, current_column);
        let right = self.calculate_index(current_row, current_column + 1);
        let down = self.calculate_index(current_row + 1, current_column);
        let left = self.calculate_index(current_row, current_column - 1);
        if up != -1 && !self.cells[up as usize].visited {
            neighbors.push(up as usize);
        }
        if right != -1 && !self.cells[right as usize].visited {
            neighbors.push(right as usize);
        }
        if down != -1 && !self.cells[down as usize].visited {
            neighbors.push(down as usize);
        }
        if left != -1 && !self.cells[left as usize].visited {
            neighbors.push(left as usize);
        }
        neighbors
    }

    /// Picks the room that the digger goes to next: one of the rooms next
    /// to it that it has not been in, if there is any. Where there is one
    /// such room it is taken; among several a die decides; where there is
    /// none the answer is `None`.
    pub fn find_next_cell(&self, rng: &mut rltk::RandomNumberGenerator) -> (next: Option<usize>)
        requires
            self.wf(),
        ensures
            next is None <==> self.available().len() == 0,
            next matches Some(n) ==> self.available().contains(n),
            self.available().len() == 1 ==> next == Some(self.available()[0]),
            next matches Some(n) ==> n < self.cells@.len() && !self.cells@[n as int].visited && n
                != self.current,
    {
        let neighbors = self.get_available_neighbors();
        if neighbors.len() > 0 {
            if neighbors.len() == 1 {
                assert(neighbors@[0] == self.available()[0]);
                return Some(neighbors[0]);
            } else {
                let pick = (roll_dice(rng, 1, neighbors.len() as i32) - 1) as usize;
                assert(neighbors@[pick as int] == self.available()[pick as int]);
                return Some(neighbors[pick]);
            }
        }
        None
    }

    /// Takes down the wall between the room of the digger and a room next
    /// to it: each of the two loses the wall on the side of the other, and
    /// nothing else changes.
    pub fn remove_walls(&mut self, next: usize)
        requires
            old(self).wf(),
            next < old(self).cells@.len(),
            next != old(self).current,
        ensures
            final(self).wf(),
            final(self).cells@ == old(self).cells@.update(
                old(self).current as int,
                without_wall(
                    old(self).cells@[old(self).current as int],
                    old(self).cells@[next as int],
                ).0,
            ).update(
                next as int,
                without_wall(
                    old(self).cells@[old(self).current as int],
                    old(self).cells@[next as int],
                ).1,
            ),
            final(self).width == old(self).width,
            final(self).height == old(self).height,
            final(self).current == old(self).current,
            final(self).backtrace == old(self).backtrace,
            final(self).cells@.len() == old(self).cells@.len(),
            forall|i: int|
                0 <= i < final(self).cells@.len() ==> (#[trigger] final(self).cells@[i]).visited
                    == old(self).cells@[i].visited,
            forall|i: int|
                0 <= i < final(self).cells@.len() && i != next && i != old(self).current
                    ==> #[trigger] final(self).cells@[i] == old(self).cells@[i],
    {
        let mut cell1 = self.cells[self.current];
        let mut cell2 = self.cells[next];
        let x = cell1.column as i64 - cell2.column as i64;
        let y = cell1.row as i64 - cell2.row as i64;
        if x == 1 {
            cell1.left = false;
            cell2.right = false;
        } else if x == -1 {
            cell1.right = false;
            cell2.left = false;
        } else if y == 1 {
            cell1.top = false;
            cell2.bottom = false;
        } else if y == -1 {
            cell1.bottom = false;
            cell2.top = false;
        }
        let current = self.current;
        self.cells[current] = cell1;
        self.cells[next] = cell2;
    }

    /// Shows the maze on the grid: all walls first, then floor for every
    /// room and for every wall that is down.
    #[verifier::rlimit(50)]
    pub fn copy_to_map(&self, map: &mut Grid)
        requires
            self.wf(),
            old(map).wf(),
            self.width <= old(map).width / 2 - 2,
            self.height <= old(map).height / 2 - 2,
        ensures
            final(map).wf(),
            final(map).same_shape(old(map)),
            shows(final(map), self.cells@),
    {
        let ghost before = *map;
        let total = map.tiles.len();
        let mut t: usize = 0;
        while t < total
            invariant
                t <= total,
                total == before.cells(),
                before.wf(),
                map.wf(),
                map.same_shape(&before),
                forall|i: int| 0 <= i < t ==> #[trigger] map.tiles@[i] == TileType::Wall,
            decreases total - t,
        {
            map.tiles[t] = TileType::Wall;
            t += 1;
        }
        proof {
            assert forall|x: int, y: int| before.in_bounds(x, y) implies #[trigger] map.tile_at(
                x,
                y,
            ) == TileType::Wall by {
                before.lemma_index_in_range(x, y);
            }
        }
        let n = self.cells.len();
        let mut k: usize = 0;
        while k < n
            invariant
                k <= n,
                n == self.cells@.len(),
                self.wf(),
                before.wf(),
                self.width <= before.width / 2 - 2,
                self.height <= before.height / 2 - 2,
                map.wf(),
                map.same_shape(&before),
                forall|x: int, y: int|
                    before.in_bounds(x, y) ==> #[trigger] map.tile_at(x, y) == if maze_paints(
                        self.cells@,
                        k as int,
                        x,
                        y,
                    ) {
                        TileType::Floor
                    } else {
                        TileType::Wall
                    },
            decreases n - k,
        {
            let cell = self.cells[k];
            proof {
                let i = k as int;
                let w = self.width as int;
                vstd::arithmetic::div_mod::lemma_fundamental_div_mod(i, w);
                vstd::arithmetic::div_mod::lemma_mod_bound(i, w);
                assert(0 <= i / w) by (nonlinear_arith)
                    requires
                        0 <= i,
                        0 < w,
                        w * (i / w) + i % w == i,
                        0 <= i % w < w,
                ;
                assert(i / w < self.height) by (nonlinear_arith)
                    requires
                        i < w * self.height,
                        0 < w,
                        w * (i / w) + i % w == i,
                        0 <= i % w < w,
                ;
            }
            let x = (cell.column + 1) * 2;
            let y = (cell.row + 1) * 2;
            let ghost m0 = *map;
            map.set_tile(x, y, TileType::Floor);
            let ghost m1 = *map;
            if !cell.top {
                map.set_tile(x, y - 1, TileType::Floor);
            }
            let ghost m2 = *map;
            if !cell.right {
                map.set_tile(x + 1, y, TileType::Floor);
            }
            let ghost m3 = *map;
            if !cell.bottom {
                map.set_tile(x, y + 1, TileType::Floor);
            }
            let ghost m4 = *map;
            if !cell.left {
                map.set_tile(x - 1, y, TileType::Floor);
            }
            proof {
                assert forall|a: int, b: int| before.in_bounds(a, b) implies #[trigger] map.tile_at(
                    a,
                    b,
                ) == if maze_paints(self.cells@, k + 1, a, b) {
                    TileType::Floor
                } else {
                    TileType::Wall
                } by {
                    assert(m0.tile_at(a, b) == if maze_paints(self.cells@, k as int, a, b) {
                        TileType::Floor
                    } else {
                        TileType::Wall
                    });
                    assert(m1.tile_at(a, b) == if a == x && b == y {
                        TileType::Floor
                    } else {
                        m0.tile_at(a, b)
                    });
                    assert(m2.tile_at(a, b) == if !cell.top && a == x && b == y - 1 {
                        TileType::Floor
                    } else {
                        m1.tile_at(a, b)
                    });
                    assert(m3.tile_at(a, b) == if !cell.right && a == x + 1 && b == y {
                        TileType::Floor
                    } else {
                        m2.tile_at(a, b)
                    });
                    assert(m4.tile_at(a, b) == if !cell.bottom && a == x && b == y + 1 {
                        TileType::Floor
                    } else {
                        m3.tile_at(a, b)
                    });
                }
            }
            k += 1;
        }
    }

    /// Digs the maze: the digger goes from room to room, each time to a
    /// room next to it that it has not been in, and takes down the wall
    /// between the two; where there is no such room it goes back to the
    /// room that it has longest been waiting to go back to, and it stops
    /// when there is none. By then it has been in every room. The grid
    /// shows the maze at the end; on the way a snapshot of it is taken
    /// every fifty steps.
    #[verifier::rlimit(100)]
    pub fn generate_maze(&mut self, rng: &mut rltk::RandomNumberGenerator, build_data: &mut BuilderMap)
        requires
            old(self).wf(),
            old(build_data).wf(),
            old(self).width <= old(build_data).width / 2 - 2,
            old(self).height <= old(build_data).height / 2 - 2,
        ensures
            final(self).wf(),
            final(self).width == old(self).width,
            final(self).height == old(self).height,
            final(self).backtrace@.len() == 0,
            dug_from(old(self).cells@, final(self).cells@),
            final(self).cells@[final(self).current as int].visited,
            old(self).on_its_way() ==> forall|i: int|
                0 <= i < final(self).cells@.len() ==> (#[trigger] final(self).cells@[i]).visited,
            final(build_data).wf(),
            final(build_data).extends(old(build_data)),
            final(build_data).same_records(old(build_data)),
            shows(&final(build_data).map, final(self).cells@),
    {
        let ghost before = *build_data;
        let mut i: u32 = 0;
        loop
            invariant
                self.wf(),
                self.width == old(self).width,
                self.height == old(self).height,
                before.wf(),
                self.width <= before.width / 2 - 2,
                self.height <= before.height / 2 - 2,
                build_data.wf(),
                build_data.same_records(&before),
                i < SNAPSHOT_EVERY,
                dug_from(old(self).cells@, self.cells@),
                old(self).on_its_way() ==> self.on_its_way(),
            ensures
                self.wf(),
                self.width == old(self).width,
                self.height == old(self).height,
                build_data.wf(),
                build_data.same_records(&before),
                dug_from(old(self).cells@, self.cells@),
                self.backtrace@.len() == 0,
                self.cells@[self.current as int].visited,
                old(self).on_its_way() ==> self.dug_out(),
            decreases unvisited(self.cells@, self.cells@.len() as int), self.backtrace@.len(),
        {
            let ghost m0 = *self;
            let ghost cells0 = self.cells@;
            let current = self.current;
            let mut here = self.cells[current];
            here.visited = true;
            proof {
                lemma_unvisited_update(cells0, current as int, here, cells0.len() as int);
            }
            self.cells[current] = here;
            let ghost m1 = *self;
            let ghost cells1 = self.cells@;
            proof {
                if old(self).on_its_way() {
                    assert forall|k: int|
                        0 <= k < m1.cells@.len() && (#[trigger] m1.cells@[k]).visited && k
                            != m1.current implies m1.backtrace@.contains(k as usize)
                        || m1.hemmed_in(k) by {
                        assert(m0.cells@[k].visited);
                        if !m0.backtrace@.contains(k as usize) {
                            m0.lemma_stays_hemmed_in(&m1, k);
                        }
                    }
                }
            }
            let next = self.find_next_cell(rng);
            match next {
                Some(next) => {
                    let mut there = self.cells[next];
                    there.visited = true;
                    proof {
                        lemma_unvisited_update(cells1, next as int, there, cells1.len() as int);
                    }
                    self.cells[next] = there;
                    let ghost cells2 = self.cells@;
                    self.backtrace.push(current);
                    self.remove_walls(next);
                    proof {
                        lemma_same_visits(cells2, self.cells@, cells2.len() as int);
                    }
                    self.current = next;
                    proof {
                        let m3 = *self;
                        assert(m3.backtrace@[m3.backtrace@.len() - 1] == current);
                        assert forall|k: int|
                            old(self).on_its_way() &&
                            0 <= k < m3.cells@.len() && (#[trigger] m3.cells@[k]).visited && k
                                != m3.current implies m3.backtrace@.contains(k as usize)
                            || m3.hemmed_in(k) by {
                            if k == current {
                                assert(m3.backtrace@.contains(k as usize));
                            } else {
                                assert(m1.cells@[k].visited);
                                if m1.backtrace@.contains(k as usize) {
                                    let at = choose|at: int|
                                        0 <= at < m1.backtrace@.len() && m1.backtrace@[at] == k as usize;
                                    assert(m3.backtrace@[at] == k as usize);
                                } else {
                                    m1.lemma_stays_hemmed_in(&m3, k);
                                }
                            }
                        }
                    }
                },
                None => {
                    proof {
                        m1.lemma_none_left_hemmed_in();
                    }
                    if self.backtrace.len() > 0 {
                        self.current = self.backtrace[0];
                        self.backtrace.remove(0);
                        proof {
                            let m3 = *self;
                            assert forall|k: int|
                                old(self).on_its_way() && 0 <= k < m3.cells@.len() && (#[trigger] m3.cells@[k]).visited && k
                                    != m3.current implies m3.backtrace@.contains(k as usize)
                                || m3.hemmed_in(k) by {
                                if k == current {
                                    m1.lemma_stays_hemmed_in(&m3, k);
                                } else if m1.backtrace@.contains(k as usize) {
                                    let at = choose|at: int|
                                        0 <= at < m1.backtrace@.len() && m1.backtrace@[at] == k as usize;
                                    assert(at > 0);
                                    assert(m3.backtrace@[at - 1] == k as usize);
                                } else {
                                    m1.lemma_stays_hemmed_in(&m3, k);
                                }
                            }
                        }
                    } else {
                        proof {
                            assert forall|k: int|
                                old(self).on_its_way() && 0 <= k < m1.cells@.len() && (
                                #[trigger] m1.cells@[k]).visited implies m1.hemmed_in(k) by {
                                if k != m1.current {
                                    assert(!m1.backtrace@.contains(k as usize));
                                }
                            }
                        }
                        break ;
                    }
                },
            }
            proof {
                lemma_unvisited_update(
                    self.cells@,
                    0,
                    self.cells@[0],
                    self.cells@.len() as int,
                );
            }
            if i == 0 {
                self.copy_to_map(&mut build_data.map);
                build_data.take_snapshot();
            }
            i = if i + 1 == SNAPSHOT_EVERY {
                0
            } else {
                i + 1
            };
        }
        proof {
            if old(self).on_its_way() {
                assert forall|k: int| 0 <= k < self.cells@.len() implies (
                #[trigger] self.cells@[k]).visited by {
                    self.lemma_all_dug_out(self.current as int, k);
                }
            }
        }
        self.copy_to_map(&mut build_data.map);
        build_data.take_snapshot();
    }
}

/// Rooms that were visited alike are not visited in the same number.
pub proof fn lemma_same_visits(one: Seq<Cell>, other: Seq<Cell>, n: int)
    requires
        0 <= n <= one.len(),
        one.len() == other.len(),
        forall|i: int| 0 <= i < one.len() ==> (#[trigger] other[i]).visited == one[i].visited,
    ensures
        unvisited(other, n) == unvisited(one, n),
    decreases n,
{
    if n > 0 {
        lemma_same_visits(one, other, n - 1);
    }
}

impl MazeBuilder {
    /// The stage; it has nothing to set.
    pub fn new() -> (r: Box<MazeBuilder>)
        ensures
            *r == (MazeBuilder {  }),
    {
        Box::new(MazeBuilder {  })
    }

    /// Carves a maze of as many rooms as fit on every other row and
    /// column of the grid, two cells off its edges.
    pub fn build(&mut self, rng: &mut rltk::RandomNumberGenerator, build_data: &mut BuilderMap)
        requires
            old(build_data).wf(),
            6 <= old(build_data).width,
            6 <= old(build_data).height,
        ensures
            final(build_data).wf(),
            final(build_data).extends(old(build_data)),
            final(build_data).same_records(old(build_data)),
            exists|cells: Seq<Cell>| #[trigger]
                maze_shown(old(build_data), final(build_data), cells),
    {
        let ghost before = *build_data;
        let mw = build_data.map.width / 2 - 2;
        let mh = build_data.map.height / 2 - 2;
        proof {
            assert(mw * mh <= build_data.map.width * build_data.map.height) by (nonlinear_arith)
                requires
                    0 < mw <= build_data.map.width,
                    0 < mh <= build_data.map.height,
            ;
        }
        let mut maze = MazeGrid::new(mw, mh);
        assert(maze.on_its_way());
        maze.generate_maze(rng, build_data);
        proof {
            assert(maze_shown(&before, build_data, maze.cells@));
        }
    }
}

/// Whether `after` shows a maze of the rooms given, as many as fit on
/// every other row and column of the grid of `before`, in every one of
/// which the digger has been.
pub open spec fn maze_shown(before: &BuilderMap, after: &BuilderMap, cells: Seq<Cell>) -> bool {
    let mw = before.width as int / 2 - 2;
    let mh = before.height as int / 2 - 2;
    &&& cells.len() == mw * mh
    &&& forall|i: int|
        0 <= i < cells.len() ==> (#[trigger] cells[i]).column == i % mw && cells[i].row == i / mw
    &&& forall|i: int| 0 <= i < cells.len() ==> (#[trigger] cells[i]).visited
    &&& shows(&after.map, cells)
}

impl InitialMapBuilder for MazeBuilder {
    open spec fn fits_grid(&self, width: int, height: int) -> bool {
        6 <= width && 6 <= height
    }

    open spec fn provides(&self) -> Fields {
        Fields::none()
    }

    open spec fn outcome(&self, before: &BuilderMap, after: &BuilderMap) -> bool {
        exists|cells: Seq<Cell>| #[trigger] maze_shown(before, after, cells)
    }

    fn grid_ok(&self, width: i32, height: i32) -> (r: bool) {
        6 <= width && 6 <= height
    }

    fn provided(&self) -> (r: Fields) {
        Fields { rooms: false, corridors: false, submaps: false }
    }

    fn build_map(&mut self, rng: &mut rltk::RandomNumberGenerator, build_data: &mut BuilderMap) {
        self.build(rng, build_data);
    }
}

} // verus!
