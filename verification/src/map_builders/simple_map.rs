use crate::map::{Grid, TileType};
use crate::map_builders::common::{
    apply_horizontal_tunnel,
    apply_room_to_map,
    apply_vertical_tunnel,
    carved_only,
    lemma_carved_twice,
    on_column,
    on_row,
    repainted,
    room_floor,
};
use crate::map_builders::{BuilderMap, Fields, InitialMapBuilder, Position};
use crate::rect::{half, Rect};
use crate::rng::{range, roll_dice};
use vstd::prelude::*;

verus! {

/// How many times the stage tries to place a room.
pub const MAX_ROOMS: i32 = 30;

/// The least width and height of a room.
pub const MIN_SIZE: i32 = 6;

/// The width and height that no room reaches.
pub const MAX_SIZE: i32 = 10;

/// The stage that scatters rooms which do not touch and joins each to the
/// one before it by a corridor with one bend.
pub struct SimpleMapBuilder {}

/// Whether the rooms are as the stage places them on a grid of the given
/// size: of the sizes allowed, off the right and bottom edge, and no two
/// touching.
pub open spec fn simple_rooms(rooms: Seq<Rect>, width: int, height: int) -> bool {
    &&& forall|i: int|
        0 <= i < rooms.len() ==> {
            &&& 0 <= (#[trigger] rooms[i]).x1
            &&& rooms[i].x2 <= width - 2
            &&& 0 <= rooms[i].y1
            &&& rooms[i].y2 <= height - 2
            &&& MIN_SIZE <= rooms[i].x2 - rooms[i].x1 < MAX_SIZE
            &&& MIN_SIZE <= rooms[i].y2 - rooms[i].y1 < MAX_SIZE
        }
    &&& forall|i: int, j: int|
        #![trigger rooms[i], rooms[j]]
        0 <= i < j < rooms.len() ==> !rooms[i].overlaps(&rooms[j])
}

/// Whether `(x, y)` lies on the corridor between the middles of two rooms:
/// a run along the row of one middle and a run along the column of the
/// other, meeting in a bend. With `horizontal_first` the row is that of the
/// middle of `previous`, else that of the middle of `new_room`.
pub open spec fn on_bend(
    map: &Grid,
    previous: Rect,
    new_room: Rect,
    horizontal_first: bool,
    x: int,
    y: int,
) -> bool {
    let px = half(previous.x1 + previous.x2);
    let py = half(previous.y1 + previous.y2);
    let nx = half(new_room.x1 + new_room.x2);
    let ny = half(new_room.y1 + new_room.y2);
    if horizontal_first {
        on_row(map, px, nx, py, x, y) || on_column(map, py, ny, nx, x, y)
    } else {
        on_column(map, py, ny, px, x, y) || on_row(map, px, nx, ny, x, y)
    }
}

/// Whether `(x, y)` is turned into floor by the first `n` of the rooms or
/// by the corridors that join each of them to the room before it;
/// `flips[i]` tells whether the corridor to the room at place `i` runs
/// along the row first.
pub open spec fn simple_covered(
    map: &Grid,
    rooms: Seq<Rect>,
    flips: Seq<bool>,
    n: int,
    x: int,
    y: int,
) -> bool
    decreases n,
{
    if n <= 0 {
        false
    } else {
        ||| simple_covered(map, rooms, flips, n - 1, x, y)
        ||| room_floor(map, rooms[n - 1], x, y)
        ||| (n >= 2 && on_bend(map, rooms[n - 2], rooms[n - 1], flips[n - 1], x, y))
    }
}

/// Whether `after` is `before` with the rooms and the corridors between
/// them turned into floor, the corridors bent as `flips` says.
pub open spec fn simple_plan(before: &Grid, after: &Grid, rooms: Seq<Rect>, flips: Seq<bool>) -> bool {
    &&& flips.len() == rooms.len()
    &&& forall|x: int, y: int|
        before.in_bounds(x, y) ==> #[trigger] after.tile_at(x, y) == if simple_covered(
            before,
            rooms,
            flips,
            rooms.len() as int,
            x,
            y,
        ) {
            TileType::Floor
        } else {
            before.tile_at(x, y)
        }
}

/// What the first `n` rooms cover does not depend on the rooms from the
/// `n`-th on.
pub proof fn lemma_simple_covered_prefix(
    map: &Grid,
    rooms: Seq<Rect>,
    flips: Seq<bool>,
    more_rooms: Seq<Rect>,
    more_flips: Seq<bool>,
    n: int,
    x: int,
    y: int,
)
    requires
        0 <= n <= rooms.len(),
        n <= flips.len(),
        rooms.len() <= more_rooms.len(),
        flips.len() <= more_flips.len(),
        forall|i: int| 0 <= i < n ==> more_rooms[i] == rooms[i] && more_flips[i] == flips[i],
    ensures
        simple_covered(map, more_rooms, more_flips, n, x, y) == simple_covered(
            map,
            rooms,
            flips,
            n,
            x,
            y,
        ),
    decreases n,
{
    if n > 0 {
        lemma_simple_covered_prefix(map, rooms, flips, more_rooms, more_flips, n - 1, x, y);
    }
}

/// Whether every cell that the rooms give floor to is floor.
pub open spec fn rooms_carved(map: &Grid, rooms: Seq<Rect>) -> bool {
    forall|i: int, x: int, y: int|
        0 <= i < rooms.len() && room_floor(map, #[trigger] rooms[i], x, y) ==> #[trigger] map.tile_at(
            x,
            y,
        ) == TileType::Floor
}

impl SimpleMapBuilder {
    /// The stage; it has nothing to set.
    pub fn new() -> (r: SimpleMapBuilder)
        ensures
            r == (SimpleMapBuilder {  }),
    {
        SimpleMapBuilder {  }
    }

    /// Whether `room` touches one of the rooms.
    pub fn touches(rooms: &Vec<Rect>, room: &Rect) -> (r: bool)
        ensures
            r == exists|i: int| 0 <= i < rooms@.len() && room.overlaps(&#[trigger] rooms@[i]),
    {
        let n = rooms.len();
        let mut i: usize = 0;
        while i < n
            invariant
                i <= n,
                n == rooms@.len(),
                forall|j: int| 0 <= j < i ==> !room.overlaps(&#[trigger] rooms@[j]),
            decreases n - i,
        {
            if room.intersect(&rooms[i]) {
                return true;
            }
            i += 1;
        }
        false
    }

    /// Joins the middle of `new_room` to the middle of `previous` by two
    /// straight runs of floor: along the row first where `horizontal_first`
    /// says so, else along the column first. The cells that were turned
    /// into floor are returned, those of the first run first.
    #[verifier::rlimit(50)]
    pub fn connect(map: &mut Grid, previous: &Rect, new_room: &Rect, horizontal_first: bool) -> (corridor:
        Vec<usize>)
        requires
            old(map).wf(),
        ensures
            final(map).wf(),
            carved_only(old(map), final(map)),
            repainted(
                old(map),
                final(map),
                |x: int, y: int| on_bend(old(map), *previous, *new_room, horizontal_first, x, y),
                TileType::Floor,
            ),
            forall|k: int|
                0 <= k < corridor@.len() ==> #[trigger] corridor@[k] < old(map).cells() && final(
                    map).tiles@[corridor@[k] as int] == TileType::Floor,
    {
        let ghost before = *map;
        let (new_x, new_y) = new_room.center();
        let (prev_x, prev_y) = previous.center();
        if horizontal_first {
            let mut c1 = apply_horizontal_tunnel(map, prev_x, new_x, prev_y);
            let ghost mid = *map;
            let mut c2 = apply_vertical_tunnel(map, prev_y, new_y, new_x);
            proof {
                crate::map_builders::common::lemma_carved_by_index(&mid, map);
            }
            c1.append(&mut c2);
            proof {
                lemma_carved_twice(&before, &mid, map);
                assert forall|x: int, y: int| before.in_bounds(x, y) implies #[trigger] map.tile_at(
                    x,
                    y,
                ) == if on_bend(&before, *previous, *new_room, horizontal_first, x, y) {
                    TileType::Floor
                } else {
                    before.tile_at(x, y)
                } by {
                    assert(mid.tile_at(x, y) == if on_row(
                        &before,
                        prev_x as int,
                        new_x as int,
                        prev_y as int,
                        x,
                        y,
                    ) {
                        TileType::Floor
                    } else {
                        before.tile_at(x, y)
                    });
                }
            }
            c1
        } else {
            let mut c1 = apply_vertical_tunnel(map, prev_y, new_y, prev_x);
            let ghost mid = *map;
            let mut c2 = apply_horizontal_tunnel(map, prev_x, new_x, new_y);
            proof {
                crate::map_builders::common::lemma_carved_by_index(&mid, map);
            }
            c1.append(&mut c2);
            proof {
                lemma_carved_twice(&before, &mid, map);
                assert forall|x: int, y: int| before.in_bounds(x, y) implies #[trigger] map.tile_at(
                    x,
                    y,
                ) == if on_bend(&before, *previous, *new_room, horizontal_first, x, y) {
                    TileType::Floor
                } else {
                    before.tile_at(x, y)
                } by {
                    assert(mid.tile_at(x, y) == if on_column(
                        &before,
                        prev_y as int,
                        new_y as int,
                        prev_x as int,
                        x,
                        y,
                    ) {
                        TileType::Floor
                    } else {
                        before.tile_at(x, y)
                    });
                }
            }
            c1
        }
    }

    /// Makes the rooms and corridors. The rooms that found a place are
    /// recorded in the context, and the middle of the first becomes the
    /// starting position.
    #[verifier::rlimit(50)]
    pub fn rooms_and_corridors(
        &mut self,
        rng: &mut rltk::RandomNumberGenerator,
        build_data: &mut BuilderMap,
    )
        requires
            old(build_data).wf(),
            old(build_data).width > MAX_SIZE,
            old(build_data).height > MAX_SIZE,
        ensures
            final(build_data).wf(),
            final(build_data).extends(old(build_data)),
            final(build_data).list_spawns == old(build_data).list_spawns,
            final(build_data).history == old(build_data).history,
            final(build_data).corridors == old(build_data).corridors,
            final(build_data).submaps == old(build_data).submaps,
            carved_only(&old(build_data).map, &final(build_data).map),
            final(build_data).start_walkable(),
            final(build_data).rooms matches Some(rooms) && {
                &&& 1 <= rooms@.len() <= MAX_ROOMS
                &&& simple_rooms(
                    rooms@,
                    old(build_data).width as int,
                    old(build_data).height as int,
                )
                &&& rooms_carved(&final(build_data).map, rooms@)
                &&& exists|flips: Seq<bool>| #[trigger]
                    simple_plan(&old(build_data).map, &final(build_data).map, rooms@, flips)
                &&& final(build_data).starting_position == Some(
                    Position {
                        x: half(rooms@[0].x1 + rooms@[0].x2) as i32,
                        y: half(rooms@[0].y1 + rooms@[0].y2) as i32,
                    },
                )
                &&& final(build_data).map.tile_at(
                    half(rooms@[0].x1 + rooms@[0].x2),
                    half(rooms@[0].y1 + rooms@[0].y2),
                ) == TileType::Floor
            },
    {
        let ghost before = *build_data;
        let width = build_data.map.width;
        let height = build_data.map.height;
        let mut rooms: Vec<Rect> = Vec::new();
        let mut attempt: i32 = 0;
        let ghost mut flips: Seq<bool> = Seq::empty();
        while attempt < MAX_ROOMS
            invariant
                0 <= attempt <= MAX_ROOMS,
                flips.len() == rooms@.len(),
                forall|x: int, y: int|
                    before.map.in_bounds(x, y) ==> #[trigger] build_data.map.tile_at(x, y)
                        == if simple_covered(
                        &before.map,
                        rooms@,
                        flips,
                        rooms@.len() as int,
                        x,
                        y,
                    ) {
                        TileType::Floor
                    } else {
                        before.map.tile_at(x, y)
                    },
                before.wf(),
                width == before.width,
                height == before.height,
                width > MAX_SIZE,
                height > MAX_SIZE,
                build_data.wf(),
                build_data.same_records(&before),
                build_data.history == before.history,
                carved_only(&before.map, &build_data.map),
                rooms@.len() <= attempt,
                attempt >= 1 ==> rooms@.len() >= 1,
                simple_rooms(rooms@, width as int, height as int),
                rooms_carved(&build_data.map, rooms@),
            decreases MAX_ROOMS - attempt,
        {
            let w = range(rng, MIN_SIZE, MAX_SIZE);
            let h = range(rng, MIN_SIZE, MAX_SIZE);
            let x = roll_dice(rng, 1, width - w - 1) - 1;
            let y = roll_dice(rng, 1, height - h - 1) - 1;
            let new_room = Rect::new(x, y, w, h);
            if !Self::touches(&rooms, &new_room) {
                let ghost prev = *build_data;
                apply_room_to_map(&mut build_data.map, &new_room);
                let ghost roomed = *build_data;
                let ghost mut flip = false;
                if rooms.len() > 0 {
                    let horizontal_first = range(rng, 0, 2) == 1;
                    proof {
                        flip = horizontal_first;
                    }
                    Self::connect(
                        &mut build_data.map,
                        &rooms[rooms.len() - 1],
                        &new_room,
                        horizontal_first,
                    );
                }
                proof {
                    let more_rooms = rooms@.push(new_room);
                    let more_flips = flips.push(flip);
                    let m = rooms@.len() as int;
                    assert forall|x: int, y: int|
                        before.map.in_bounds(x, y) implies #[trigger] build_data.map.tile_at(x, y)
                        == if simple_covered(&before.map, more_rooms, more_flips, m + 1, x, y) {
                        TileType::Floor
                    } else {
                        before.map.tile_at(x, y)
                    } by {
                        lemma_simple_covered_prefix(
                            &before.map,
                            rooms@,
                            flips,
                            more_rooms,
                            more_flips,
                            m,
                            x,
                            y,
                        );
                        assert(prev.map.tile_at(x, y) == if simple_covered(
                            &before.map,
                            rooms@,
                            flips,
                            m,
                            x,
                            y,
                        ) {
                            TileType::Floor
                        } else {
                            before.map.tile_at(x, y)
                        });
                        assert(roomed.map.tile_at(x, y) == if room_floor(&prev.map, new_room, x, y) {
                            TileType::Floor
                        } else {
                            prev.map.tile_at(x, y)
                        });
                        if m > 0 {
                            assert(build_data.map.tile_at(x, y) == if on_bend(
                                &roomed.map,
                                rooms@[m - 1],
                                new_room,
                                flip,
                                x,
                                y,
                            ) {
                                TileType::Floor
                            } else {
                                roomed.map.tile_at(x, y)
                            });
                        }
                    }
                    flips = more_flips;
                }
                proof {
                    lemma_carved_twice(&before.map, &prev.map, &roomed.map);
                    lemma_carved_twice(&before.map, &roomed.map, &build_data.map);
                    assert forall|i: int, a: int, b: int|
                        0 <= i < rooms@.push(new_room).len() && room_floor(
                            &build_data.map,
                            #[trigger] rooms@.push(new_room)[i],
                            a,
                            b,
                        ) implies #[trigger] build_data.map.tile_at(a, b) == TileType::Floor by {
                        if i < rooms@.len() {
                            assert(room_floor(&prev.map, rooms@[i], a, b));
                            assert(prev.map.tile_at(a, b) == TileType::Floor);
                            assert(roomed.map.tile_at(a, b) == TileType::Floor);
                        } else {
                            assert(room_floor(&prev.map, new_room, a, b));
                            assert(roomed.map.tile_at(a, b) == TileType::Floor);
                        }
                        assert(roomed.map.in_bounds(a, b));
                    }
                    assert forall|i: int, j: int|
                        #![trigger rooms@.push(new_room)[i], rooms@.push(new_room)[j]]
                        0 <= i < j < rooms@.push(new_room).len() implies !rooms@.push(
                        new_room,
                    )[i].overlaps(&rooms@.push(new_room)[j]) by {
                        if j == rooms@.len() {
                            Rect::lemma_overlaps_symmetric(rooms@[i], new_room);
                        }
                    }
                }
                rooms.push(new_room);
            }
            attempt += 1;
        }
        let start_pos = rooms[0].center();
        proof {
            let room = rooms@[0];
            let cx = half(room.x1 + room.x2);
            let cy = half(room.y1 + room.y2);
            build_data.map.lemma_inner_index(cx, cy);
            assert(room_floor(&build_data.map, room, cx, cy));
        }
        build_data.starting_position = Some(Position { x: start_pos.0, y: start_pos.1 });
        proof {
            assert(simple_plan(&before.map, &build_data.map, rooms@, flips));
        }
        build_data.rooms = Some(rooms);
    }
}

impl InitialMapBuilder for SimpleMapBuilder {
    open spec fn fits_grid(&self, width: int, height: int) -> bool {
        width > MAX_SIZE && height > MAX_SIZE
    }

    open spec fn provides(&self) -> Fields {
        Fields { rooms: true, corridors: false, submaps: false }
    }

    open spec fn outcome(&self, before: &BuilderMap, after: &BuilderMap) -> bool {
        after.rooms matches Some(rooms) && {
            &&& 1 <= rooms@.len() <= MAX_ROOMS
            &&& simple_rooms(rooms@, before.width as int, before.height as int)
            &&& exists|flips: Seq<bool>| #[trigger] simple_plan(&before.map, &after.map, rooms@, flips)
            &&& after.starting_position == Some(
                Position {
                    x: half(rooms@[0].x1 + rooms@[0].x2) as i32,
                    y: half(rooms@[0].y1 + rooms@[0].y2) as i32,
                },
            )
        }
    }

    fn grid_ok(&self, width: i32, height: i32) -> (r: bool) {
        width > MAX_SIZE && height > MAX_SIZE
    }

    fn provided(&self) -> (r: Fields) {
        Fields { rooms: true, corridors: false, submaps: false }
    }

    fn build_map(&mut self, rng: &mut rltk::RandomNumberGenerator, build_data: &mut BuilderMap) {
        self.rooms_and_corridors(rng, build_data);
    }
}

} // verus!
