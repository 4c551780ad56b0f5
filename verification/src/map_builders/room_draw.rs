use crate::map::{Grid, TileType};
use crate::map_builders::common::{apply_room_to_map, carved_only, lemma_carved_twice, repainted, room_floor};
use crate::map_builders::voronoi::gap;
use crate::map_builders::{BuilderMap, Fields, MetaMapBuilder};
use crate::rect::{half, Rect};
use crate::rng::roll_dice;
use vstd::prelude::*;

verus! {

/// The stage that carves the rooms of the context, most as rectangles and
/// some as circles.
pub struct RoomDrawer {}

/// The smaller of the width and the height of a room.
pub open spec fn least_side(room: Rect) -> int {
    if room.x2 - room.x1 <= room.y2 - room.y1 {
        room.x2 - room.x1
    } else {
        room.y2 - room.y1
    }
}

/// Whether `(x, y)` is a cell that a round room gives floor to: it lies
/// between the corners of the room, no further from the middle of the room
/// than half the smaller side of the room, and is neither the first nor
/// the last cell of the grid.
pub open spec fn round_floor(map: &Grid, room: Rect, x: int, y: int) -> bool {
    let dx = gap(x, half(room.x1 + room.x2));
    let dy = gap(y, half(room.y1 + room.y2));
    &&& room.x1 <= x <= room.x2
    &&& room.y1 <= y <= room.y2
    &&& 0 < map.index_of(x, y) < map.cells() - 1
    &&& least_side(room) >= 0
    &&& 4 * (dx * dx + dy * dy) <= least_side(room) * least_side(room)
}

/// Whether `(x, y)` is a cell that a room of the given shape gives floor
/// to: the shape one is the circle, every other the rectangle.
pub open spec fn shaped_floor(map: &Grid, room: Rect, shape: int, x: int, y: int) -> bool {
    if shape == 1 {
        round_floor(map, room, x, y)
    } else {
        room_floor(map, room, x, y)
    }
}

/// Whether every cell that a room of the given shape gives floor to is
/// floor in `after`.
pub open spec fn drawn(before: &Grid, after: &Grid, room: Rect, shape: int) -> bool {
    forall|x: int, y: int|
        before.in_bounds(x, y) && #[trigger] shaped_floor(before, room, shape, x, y)
            ==> after.tile_at(x, y) == TileType::Floor
}

/// Whether the room is carved in `after`, in one of its shapes.
pub open spec fn room_drawn(before: &Grid, after: &Grid, room: Rect) -> bool {
    exists|shape: int| 1 <= shape <= 4 && #[trigger] drawn(before, after, room, shape)
}

impl RoomDrawer {
    /// The stage; it has nothing to set.
    pub fn new() -> (r: Box<RoomDrawer>)
        ensures
            *r == (RoomDrawer {  }),
    {
        Box::new(RoomDrawer {  })
    }

    /// Carves a room as a rectangle.
    pub fn rectangle(&mut self, build_data: &mut BuilderMap, room: &Rect)
        requires
            old(build_data).wf(),
        ensures
            final(build_data).wf(),
            final(build_data).same_records(old(build_data)),
            final(build_data).history == old(build_data).history,
            carved_only(&old(build_data).map, &final(build_data).map),
            repainted(
                &old(build_data).map,
                &final(build_data).map,
                |x: int, y: int| room_floor(&old(build_data).map, *room, x, y),
                TileType::Floor,
            ),
    {
        apply_room_to_map(&mut build_data.map, room);
    }

    /// Carves a room as a circle around its middle.
    #[verifier::rlimit(50)]
    pub fn circle(&mut self, build_data: &mut BuilderMap, room: &Rect)
        requires
            old(build_data).wf(),
            room.fits(old(build_data).width as int, old(build_data).height as int),
        ensures
            final(build_data).wf(),
            final(build_data).same_records(old(build_data)),
            final(build_data).history == old(build_data).history,
            carved_only(&old(build_data).map, &final(build_data).map),
            repainted(
                &old(build_data).map,
                &final(build_data).map,
                |x: int, y: int| round_floor(&old(build_data).map, *room, x, y),
                TileType::Floor,
            ),
    {
        let ghost before = *build_data;
        let across = room.x2 as i64 - room.x1 as i64;
        let down = room.y2 as i64 - room.y1 as i64;
        let least = if across <= down {
            across
        } else {
            down
        };
        let center = room.center();
        proof {
            build_data.map.lemma_has_cells();
        }
        let last = build_data.map.tiles.len() - 1;
        if least < 0 || room.x1 > room.x2 || room.y1 > room.y2 {
            return ;
        }
        assert(0 <= least * least <= 0x1_0000_0000 * 0x1_0000_0000) by (nonlinear_arith)
            requires
                0 <= least <= 0x1_0000_0000,
        ;
        let mut y = room.y1;
        while y <= room.y2
            invariant
                before.wf(),
                room.fits(before.width as int, before.height as int),
                room.x1 <= room.x2,
                room.y1 <= y <= room.y2 + 1,
                least == least_side(*room),
                0 <= least <= 0x1_0000_0000,
                center.0 == half(room.x1 + room.x2),
                center.1 == half(room.y1 + room.y2),
                last == before.map.cells() - 1,
                build_data.wf(),
                build_data.same_records(&before),
                build_data.history == before.history,
                forall|a: int, b: int|
                    before.map.in_bounds(a, b) ==> #[trigger] build_data.map.tile_at(a, b) == if b
                        < y && round_floor(&before.map, *room, a, b) {
                        TileType::Floor
                    } else {
                        before.map.tile_at(a, b)
                    },
            decreases room.y2 + 1 - y,
        {
            let mut x = room.x1;
            while x <= room.x2
                invariant
                    before.wf(),
                    room.fits(before.width as int, before.height as int),
                    room.x1 <= x <= room.x2 + 1,
                    room.y1 <= y <= room.y2,
                    least == least_side(*room),
                    0 <= least <= 0x1_0000_0000,
                    center.0 == half(room.x1 + room.x2),
                    center.1 == half(room.y1 + room.y2),
                    last == before.map.cells() - 1,
                    build_data.wf(),
                    build_data.same_records(&before),
                    build_data.history == before.history,
                    forall|a: int, b: int|
                        before.map.in_bounds(a, b) ==> #[trigger] build_data.map.tile_at(a, b)
                            == if (b < y || (b == y && a < x)) && round_floor(
                            &before.map,
                            *room,
                            a,
                            b,
                        ) {
                            TileType::Floor
                        } else {
                            before.map.tile_at(a, b)
                        },
                decreases room.x2 + 1 - x,
            {
                let idx = build_data.map.xy_idx(x, y);
                let dx: i64 = if x >= center.0 {
                    (x - center.0) as i64
                } else {
                    (center.0 - x) as i64
                };
                let dy: i64 = if y >= center.1 {
                    (y - center.1) as i64
                } else {
                    (center.1 - y) as i64
                };
                assert(0 <= dx * dx <= 0x8000_0000 * 0x8000_0000) by (nonlinear_arith)
                    requires
                        0 <= dx <= 0x8000_0000,
                ;
                assert(0 <= dy * dy <= 0x8000_0000 * 0x8000_0000) by (nonlinear_arith)
                    requires
                        0 <= dy <= 0x8000_0000,
                ;
                assert(0 <= least * least <= 0x1_0000_0000 * 0x1_0000_0000) by (nonlinear_arith)
                    requires
                        0 <= least <= 0x1_0000_0000,
                ;
                let far = 4 * (dx as i128 * dx as i128 + dy as i128 * dy as i128);
                if idx > 0 && idx < last && far <= least as i128 * least as i128 {
                    build_data.map.set_tile(x, y, TileType::Floor);
                }
                x += 1;
            }
            y += 1;
        }
    }

    /// Carves every room of the context, as a circle where a die with four
    /// faces shows a one and as a rectangle where it does not, and takes a
    /// snapshot after each.
    #[verifier::rlimit(50)]
    pub fn build(&mut self, rng: &mut rltk::RandomNumberGenerator, build_data: &mut BuilderMap)
        requires
            old(build_data).wf(),
            old(build_data).rooms is Some,
        ensures
            final(build_data).wf(),
            final(build_data).extends(old(build_data)),
            final(build_data).same_records(old(build_data)),
            final(build_data).history@.len() == old(build_data).history@.len() + old(
                build_data).rooms->0@.len(),
            carved_only(&old(build_data).map, &final(build_data).map),
            forall|i: int|
                0 <= i < old(build_data).rooms->0@.len() ==> room_drawn(
                    &old(build_data).map,
                    &final(build_data).map,
                    #[trigger] old(build_data).rooms->0@[i],
                ),
    {
        let ghost before = *build_data;
        let n = match &build_data.rooms {
            Some(rooms) => rooms.len(),
            None => 0,
        };
        let mut i: usize = 0;
        proof {
            lemma_carved_twice(&before.map, &before.map, &before.map);
        }
        while i < n
            invariant
                i <= n,
                before.wf(),
                before.rooms is Some,
                n == before.rooms->0@.len(),
                build_data.wf(),
                build_data.same_records(&before),
                build_data.history@.len() == before.history@.len() + i,
                carved_only(&before.map, &build_data.map),
                forall|k: int|
                    0 <= k < i ==> room_drawn(
                        &before.map,
                        &build_data.map,
                        #[trigger] before.rooms->0@[k],
                    ),
            decreases n - i,
        {
            let ghost prev = *build_data;
            let room = match &build_data.rooms {
                Some(rooms) => rooms[i],
                None => Rect { x1: 0, x2: 0, y1: 0, y2: 0 },
            };
            assert(room == before.rooms->0@[i as int]);
            assert(room.fits(before.width as int, before.height as int));
            let room_type = roll_dice(rng, 1, 4);
            if room_type == 1 {
                self.circle(build_data, &room);
            } else {
                self.rectangle(build_data, &room);
            }
            proof {
                lemma_carved_twice(&before.map, &prev.map, &build_data.map);
                lemma_carved_twice(&prev.map, &prev.map, &build_data.map);
                assert forall|k: int| 0 <= k < i + 1 implies room_drawn(
                    &before.map,
                    &build_data.map,
                    #[trigger] before.rooms->0@[k],
                ) by {
                    if k < i {
                        assert(room_drawn(&before.map, &prev.map, before.rooms->0@[k]));
                        let shape = choose|shape: int|
                            1 <= shape <= 4 && #[trigger] drawn(
                                &before.map,
                                &prev.map,
                                before.rooms->0@[k],
                                shape,
                            );
                        assert forall|x: int, y: int|
                            before.map.in_bounds(x, y) && #[trigger] shaped_floor(
                                &before.map,
                                before.rooms->0@[k],
                                shape,
                                x,
                                y,
                            ) implies build_data.map.tile_at(x, y) == TileType::Floor by {
                            assert(prev.map.tile_at(x, y) == TileType::Floor);
                        }
                        assert(drawn(&before.map, &build_data.map, before.rooms->0@[k], shape));
                    } else {
                        let shape = room_type as int;
                        assert forall|x: int, y: int|
                            before.map.in_bounds(x, y) && #[trigger] shaped_floor(
                                &before.map,
                                before.rooms->0@[k],
                                shape,
                                x,
                                y,
                            ) implies build_data.map.tile_at(x, y) == TileType::Floor by {
                            assert(prev.map.in_bounds(x, y));
                            assert(shaped_floor(&prev.map, room, shape, x, y));
                        }
                        assert(drawn(&before.map, &build_data.map, before.rooms->0@[k], shape));
                    }
                }
            }
            build_data.take_snapshot();
            i += 1;
        }
    }
}

impl MetaMapBuilder for RoomDrawer {
    open spec fn fits_grid(&self, width: int, height: int) -> bool {
        true
    }

    open spec fn needs(&self) -> Fields {
        Fields { rooms: true, corridors: false, submaps: false }
    }

    open spec fn provides(&self) -> Fields {
        Fields::none()
    }

    open spec fn outcome(&self, before: &BuilderMap, after: &BuilderMap) -> bool {
        &&& carved_only(&before.map, &after.map)
        &&& forall|i: int|
            0 <= i < before.rooms->0@.len() ==> room_drawn(
                &before.map,
                &after.map,
                #[trigger] before.rooms->0@[i],
            )
    }

    fn grid_ok(&self, width: i32, height: i32) -> (r: bool) {
        true
    }

    fn needed(&self) -> (r: Fields) {
        Fields { rooms: true, corridors: false, submaps: false }
    }

    fn provided(&self) -> (r: Fields) {
        Fields { rooms: false, corridors: false, submaps: false }
    }

    fn build_map(&mut self, rng: &mut rltk::RandomNumberGenerator, build_data: &mut BuilderMap) {
        self.build(rng, build_data);
    }
}

} // verus!
