use crate::map::{Grid, TileType};
use crate::map_builders::{BuilderMap, Fields, MetaMapBuilder};
use crate::rect::Rect;
use vstd::prelude::*;

verus! {

/// The stage that rounds the rooms of the context by filling in their
/// corners.
pub struct RoomCornerRounder {}

/// One where `(x, y)` is a cell of the grid and a wall, else zero.
pub open spec fn is_wall(map: &Grid, x: int, y: int) -> int {
    if map.in_bounds(x, y) && map.tile_at(x, y) == TileType::Wall {
        1
    } else {
        0
    }
}

/// The number of walls among the four cells next to `(x, y)`; the cells
/// right of the last column but one and below the last row but one are
/// not looked at.
pub open spec fn walls_beside(map: &Grid, x: int, y: int) -> int {
    is_wall(map, x - 1, y) + is_wall(map, x, y - 1) + (if x < map.width - 2 {
        is_wall(map, x + 1, y)
    } else {
        0
    }) + (if y < map.height - 2 {
        is_wall(map, x, y + 1)
    } else {
        0
    })
}

/// Whether the cell `(x, y)` is filled in as a corner: it has a wall on
/// two of its sides exactly.
pub open spec fn is_corner(map: &Grid, x: int, y: int) -> bool {
    walls_beside(map, x, y) == 2
}

/// `after` is `before` with some cells turned into wall.
pub open spec fn walled_only(before: &Grid, after: &Grid) -> bool {
    &&& after.same_shape(before)
    &&& forall|x: int, y: int|
        before.in_bounds(x, y) ==> {
            ||| #[trigger] after.tile_at(x, y) == before.tile_at(x, y)
            ||| after.tile_at(x, y) == TileType::Wall
        }
}

/// The corners of a room in the order in which they are looked at: the
/// two upper ones from left to right, then the two lower ones.
pub open spec fn corner_of(room: Rect, c: int) -> (int, int) {
    if c == 0 {
        (room.x1 + 1, room.y1 + 1)
    } else if c == 1 {
        (room.x2 as int, room.y1 + 1)
    } else if c == 2 {
        (room.x1 + 1, room.y2 as int)
    } else {
        (room.x2 as int, room.y2 as int)
    }
}

/// The number of walls among the four cells next to `(x, y)` of a grid
/// of the shape of `map` whose cells left, above, right and below of
/// `(x, y)` are of the given kinds.
pub open spec fn walls_among(
    map: &Grid,
    x: int,
    y: int,
    left: TileType,
    above: TileType,
    right: TileType,
    below: TileType,
) -> int {
    (if map.in_bounds(x - 1, y) && left == TileType::Wall {
        1int
    } else {
        0int
    }) + (if map.in_bounds(x, y - 1) && above == TileType::Wall {
        1int
    } else {
        0int
    }) + (if x < map.width - 2 && map.in_bounds(x + 1, y) && right == TileType::Wall {
        1int
    } else {
        0int
    }) + (if y < map.height - 2 && map.in_bounds(x, y + 1) && below == TileType::Wall {
        1int
    } else {
        0int
    })
}

/// The kind of the cell `(x, y)` after the first `k` corners of the rooms
/// have been looked at, four for each room, in the order of the rooms: a
/// corner that is a cell of the grid and has, at that time, a wall on two
/// of its sides exactly is wall from then on.
pub open spec fn rounded_tile(before: &Grid, rooms: Seq<Rect>, k: int, x: int, y: int) -> TileType
    decreases k,
{
    if k <= 0 {
        before.tile_at(x, y)
    } else {
        let (cx, cy) = corner_of(rooms[(k - 1) / 4], (k - 1) % 4);
        if x == cx && y == cy && before.in_bounds(cx, cy) && walls_among(
            before,
            cx,
            cy,
            rounded_tile(before, rooms, k - 1, cx - 1, cy),
            rounded_tile(before, rooms, k - 1, cx, cy - 1),
            rounded_tile(before, rooms, k - 1, cx + 1, cy),
            rounded_tile(before, rooms, k - 1, cx, cy + 1),
        ) == 2 {
            TileType::Wall
        } else {
            rounded_tile(before, rooms, k - 1, x, y)
        }
    }
}

/// `after` is `before` with the corners of all the rooms looked at and
/// filled in, one after the other.
pub open spec fn rounded(before: &Grid, after: &Grid, rooms: Seq<Rect>) -> bool {
    &&& after.same_shape(before)
    &&& forall|x: int, y: int|
        before.in_bounds(x, y) ==> #[trigger] after.tile_at(x, y) == rounded_tile(
            before,
            rooms,
            4 * (rooms.len() as int),
            x,
            y,
        )
}

impl RoomCornerRounder {
    /// The stage; it has nothing to set.
    pub fn new() -> (r: Box<RoomCornerRounder>)
        ensures
            *r == (RoomCornerRounder {  }),
    {
        Box::new(RoomCornerRounder {  })
    }

    /// Turns the cell `(x, y)` into wall where it has a wall on two of
    /// its sides exactly.
    pub fn fill_if_corner(&mut self, x: i32, y: i32, build_data: &mut BuilderMap)
        requires
            old(build_data).wf(),
            old(build_data).map.in_bounds(x as int, y as int),
        ensures
            final(build_data).wf(),
            final(build_data).same_records(old(build_data)),
            final(build_data).history == old(build_data).history,
            walled_only(&old(build_data).map, &final(build_data).map),
            forall|a: int, b: int|
                old(build_data).map.in_bounds(a, b) ==> #[trigger] final(build_data).map.tile_at(
                    a,
                    b,
                ) == if a == x && b == y && is_corner(&old(build_data).map, x as int, y as int) {
                    TileType::Wall
                } else {
                    old(build_data).map.tile_at(a, b)
                },
    {
        let w = build_data.map.width;
        let h = build_data.map.height;
        let mut neighbor_walls: u32 = 0;
        if x > 0 && build_data.map.tile(x - 1, y) == TileType::Wall {
            neighbor_walls += 1;
        }
        if y > 0 && build_data.map.tile(x, y - 1) == TileType::Wall {
            neighbor_walls += 1;
        }
        if x < w - 2 && build_data.map.tile(x + 1, y) == TileType::Wall {
            neighbor_walls += 1;
        }
        if y < h - 2 && build_data.map.tile(x, y + 1) == TileType::Wall {
            neighbor_walls += 1;
        }
        assert(neighbor_walls == walls_beside(&build_data.map, x as int, y as int));
        if neighbor_walls == 2 {
            build_data.map.set_tile(x, y, TileType::Wall);
        }
    }

    /// Fills in a corner of a room if the corner is a cell of the grid.
    pub fn round(&mut self, x: i64, y: i64, build_data: &mut BuilderMap)
        requires
            old(build_data).wf(),
        ensures
            final(build_data).wf(),
            final(build_data).same_records(old(build_data)),
            final(build_data).history == old(build_data).history,
            walled_only(&old(build_data).map, &final(build_data).map),
            forall|a: int, b: int|
                old(build_data).map.in_bounds(a, b) ==> #[trigger] final(build_data).map.tile_at(
                    a,
                    b,
                ) == if a == x && b == y && is_corner(&old(build_data).map, x as int, y as int) {
                    TileType::Wall
                } else {
                    old(build_data).map.tile_at(a, b)
                },
    {
        if 0 <= x && x < build_data.map.width as i64 && 0 <= y && y < build_data.map.height as i64 {
            self.fill_if_corner(x as i32, y as i32, build_data);
        }
    }

    /// Where a grid shows the first `k` corners looked at, the grid that
    /// one more look makes of it shows the first `k + 1`.
    pub proof fn lemma_next_corner(
        before: &Grid,
        now: &Grid,
        then: &Grid,
        rooms: Seq<Rect>,
        k: int,
    )
        requires
            before.wf(),
            now.same_shape(before),
            then.same_shape(before),
            0 <= k < 4 * rooms.len(),
            forall|x: int, y: int|
                before.in_bounds(x, y) ==> #[trigger] now.tile_at(x, y) == rounded_tile(
                    before,
                    rooms,
                    k,
                    x,
                    y,
                ),
            forall|a: int, b: int|
                before.in_bounds(a, b) ==> #[trigger] then.tile_at(a, b) == if a == corner_of(
                    rooms[k / 4],
                    k % 4,
                ).0 && b == corner_of(rooms[k / 4], k % 4).1 && is_corner(now, a, b) {
                    TileType::Wall
                } else {
                    now.tile_at(a, b)
                },
        ensures
            forall|x: int, y: int|
                before.in_bounds(x, y) ==> #[trigger] then.tile_at(x, y) == rounded_tile(
                    before,
                    rooms,
                    k + 1,
                    x,
                    y,
                ),
    {
        let (cx, cy) = corner_of(rooms[k / 4], k % 4);
        if before.in_bounds(cx, cy) {
            assert(walls_beside(now, cx, cy) == walls_among(
                before,
                cx,
                cy,
                rounded_tile(before, rooms, k, cx - 1, cy),
                rounded_tile(before, rooms, k, cx, cy - 1),
                rounded_tile(before, rooms, k, cx + 1, cy),
                rounded_tile(before, rooms, k, cx, cy + 1),
            ));
        }
        assert forall|x: int, y: int| before.in_bounds(x, y) implies #[trigger] then.tile_at(x, y)
            == rounded_tile(before, rooms, k + 1, x, y) by {
            assert(now.tile_at(x, y) == rounded_tile(before, rooms, k, x, y));
        }
    }

    /// Rounds every room of the context: the four cells in its corners
    /// are filled in, one after the other, where they have a wall on two
    /// sides. A snapshot is taken after each room.
    #[verifier::rlimit(50)]
    pub fn build(&mut self, build_data: &mut BuilderMap)
        requires
            old(build_data).wf(),
            old(build_data).rooms is Some,
        ensures
            final(build_data).wf(),
            final(build_data).extends(old(build_data)),
            final(build_data).same_records(old(build_data)),
            final(build_data).history@.len() == old(build_data).history@.len() + old(
                build_data).rooms->0@.len(),
            walled_only(&old(build_data).map, &final(build_data).map),
            rounded(&old(build_data).map, &final(build_data).map, old(build_data).rooms->0@),
    {
        let ghost before = *build_data;
        let ghost rooms = before.rooms->0@;
        let n = match &build_data.rooms {
            Some(rooms) => rooms.len(),
            None => 0,
        };
        let mut i: usize = 0;
        while i < n
            invariant
                i <= n,
                before.wf(),
                before.rooms is Some,
                n == before.rooms->0@.len(),
                build_data.wf(),
                build_data.same_records(&before),
                build_data.history@.len() == before.history@.len() + i,
                walled_only(&before.map, &build_data.map),
                rooms == before.rooms->0@,
                forall|x: int, y: int|
                    before.map.in_bounds(x, y) ==> #[trigger] build_data.map.tile_at(x, y)
                        == rounded_tile(&before.map, rooms, 4 * i, x, y),
            decreases n - i,
        {
            let room = match &build_data.rooms {
                Some(rooms) => rooms[i],
                None => Rect { x1: 0, x2: 0, y1: 0, y2: 0 },
            };
            let ghost m0 = *build_data;
            self.round(room.x1 as i64 + 1, room.y1 as i64 + 1, build_data);
            let ghost m1 = *build_data;
            self.round(room.x2 as i64, room.y1 as i64 + 1, build_data);
            let ghost m2 = *build_data;
            self.round(room.x1 as i64 + 1, room.y2 as i64, build_data);
            let ghost m3 = *build_data;
            self.round(room.x2 as i64, room.y2 as i64, build_data);
            proof {
                Self::lemma_next_corner(&before.map, &m0.map, &m1.map, rooms, 4 * i);
                Self::lemma_next_corner(&before.map, &m1.map, &m2.map, rooms, 4 * i + 1);
                Self::lemma_next_corner(&before.map, &m2.map, &m3.map, rooms, 4 * i + 2);
                Self::lemma_next_corner(&before.map, &m3.map, &build_data.map, rooms, 4 * i + 3);
            }
            proof {
                assert forall|x: int, y: int| before.map.in_bounds(x, y) implies (
                #[trigger] build_data.map.tile_at(x, y) == before.map.tile_at(x, y)
                    || build_data.map.tile_at(x, y) == TileType::Wall) by {
                    assert(m0.map.tile_at(x, y) == before.map.tile_at(x, y) || m0.map.tile_at(x, y)
                        == TileType::Wall);
                    assert(m1.map.tile_at(x, y) == m0.map.tile_at(x, y) || m1.map.tile_at(x, y)
                        == TileType::Wall);
                    assert(m2.map.tile_at(x, y) == m1.map.tile_at(x, y) || m2.map.tile_at(x, y)
                        == TileType::Wall);
                    assert(m3.map.tile_at(x, y) == m2.map.tile_at(x, y) || m3.map.tile_at(x, y)
                        == TileType::Wall);
                }
            }
            build_data.take_snapshot();
            i += 1;
        }
    }
}

impl MetaMapBuilder for RoomCornerRounder {
    open spec fn fits_grid(&self, width: int, height: int) -> bool {
        true
    }

    open spec fn needs(&self) -> Fields {
        Fields { rooms: true, corridors: false, submaps: false }
    }

    open spec fn provides(&self) -> Fields {
        Fields::none()
    }

    open spec fn outcome(&self, before: &BuilderMap, after: &BuilderMap) -> bool {
        &&& walled_only(&before.map, &after.map)
        &&& rounded(&before.map, &after.map, before.rooms->0@)
        &&& after.history@.len() == before.history@.len() + before.rooms->0@.len()
    }

    fn grid_ok(&self, width: i32, height: i32) -> (r: bool) {
        true
    }

    fn needed(&self) -> (r: Fields) {
        Fields { rooms: true, corridors: false, submaps: false }
    }

    fn provided(&self) -> (r: Fields) {
        Fields { rooms: false, corridors: false, submaps: false }
    }

    fn build_map(&mut self, rng: &mut rltk::RandomNumberGenerator, build_data: &mut BuilderMap) {
        self.build(build_data);
    }
}

} // verus!
