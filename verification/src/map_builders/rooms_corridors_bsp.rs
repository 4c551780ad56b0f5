use crate::map_builders::common::{
    carved_only,
    draw_corridor,
    halls_on_floor,
    lemma_carved_twice,
    lemma_halls_stay_on_floor,
};
use crate::map::{Grid, TileType};
use crate::map_builders::bsp_interior::{halls_cover, lemma_halls_cover_prefix};
use crate::map_builders::{BuilderMap, Fields, MetaMapBuilder};
use crate::rect::{side, side_of, Rect};
use crate::rng::roll_dice;
use vstd::prelude::*;

verus! {

/// The stage that joins each room to the next by a corridor between a
/// point drawn at random in the one and a point drawn at random in the
/// other.
pub struct BSPCorridors {}

/// Whether `p` is a coordinate of a point in a room along one axis: not
/// before the first corner, before the second where the corners are in
/// order, the first corner where the room has no extent, and less than
/// the side of the room after the first corner where the corners are out
/// of order.
pub open spec fn point_of(from: int, to: int, p: int) -> bool {
    &&& from <= p
    &&& from < to ==> p < to
    &&& from == to ==> p == from
    &&& to < from ==> p < from + (from - to)
}

/// The coordinate that a roll gives: the first corner for a one, the cell
/// after it for a two, and so on, but never a cell past the last one of
/// the grid.
pub open spec fn point_for(from: int, extent: int, roll: int) -> int {
    if from + roll - 1 >= extent {
        extent - 1
    } else {
        from + roll - 1
    }
}

/// Whether `after` is `before` with a corridor from each room to the next
/// turned into floor, each between a point of the one room and a point of
/// the other, as `ends` gives them.
pub open spec fn bsp_corridor_plan(
    before: &Grid,
    after: &Grid,
    rooms: Seq<Rect>,
    ends: Seq<(int, int, int, int)>,
) -> bool {
    &&& rooms.len() > 0 ==> ends.len() == rooms.len() - 1
    &&& rooms.len() == 0 ==> ends.len() == 0
    &&& forall|c: int|
        0 <= c < ends.len() ==> {
            &&& point_of(rooms[c].x1 as int, rooms[c].x2 as int, (#[trigger] ends[c]).0)
            &&& point_of(rooms[c].y1 as int, rooms[c].y2 as int, ends[c].1)
            &&& point_of(rooms[c + 1].x1 as int, rooms[c + 1].x2 as int, ends[c].2)
            &&& point_of(rooms[c + 1].y1 as int, rooms[c + 1].y2 as int, ends[c].3)
        }
    &&& forall|x: int, y: int|
        before.in_bounds(x, y) ==> #[trigger] after.tile_at(x, y) == if halls_cover(
            ends,
            ends.len() as int,
            x,
            y,
        ) {
            TileType::Floor
        } else {
            before.tile_at(x, y)
        }
}

impl BSPCorridors {
    /// The stage; it has nothing to set.
    pub fn new() -> (r: Box<BSPCorridors>)
        ensures
            *r == (BSPCorridors {  }),
    {
        Box::new(BSPCorridors {  })
    }

    /// The coordinate along one axis that a roll of the die gives for a
    /// room whose first corner is at `from`, on a grid of the given
    /// extent.
    pub fn point_at(from: i32, extent: i32, roll: i32) -> (p: i32)
        requires
            0 <= from < extent,
            1 <= roll,
        ensures
            p == point_for(from as int, extent as int, roll as int),
    {
        let offset = roll - 1;
        if from as i64 + offset as i64 >= extent as i64 {
            extent - 1
        } else {
            from + offset
        }
    }

    /// Draws a coordinate of a point in a room along one axis: between
    /// the first corner and the second where the corners are in order. A
    /// room without extent along the axis gives its first corner; for any
    /// other the die has as many faces as the room has cells along the
    /// axis, and the coordinate is the one that the roll gives.
    pub fn point_in(rng: &mut rltk::RandomNumberGenerator, from: i32, to: i32, extent: i32) -> (p:
        i32)
        requires
            0 <= from < extent,
            0 <= to < extent,
        ensures
            0 <= p < extent,
            point_of(from as int, to as int, p as int),
            from == to ==> p == from,
            from != to ==> exists|roll: int|
                1 <= roll <= side(from as int, to as int) && p == #[trigger] point_for(
                    from as int,
                    extent as int,
                    roll,
                ),
    {
        let faces = side_of(from, to);
        if faces == 0 {
            return from;
        }
        let roll = roll_dice(rng, 1, faces);
        let p = Self::point_at(from, extent, roll);
        assert(p == point_for(from as int, extent as int, roll as int));
        p
    }

    /// Carves a corridor from every room to the next and records the
    /// cells that each corridor turned into floor.
    #[verifier::rlimit(50)]
    pub fn corridors(&mut self, rng: &mut rltk::RandomNumberGenerator, build_data: &mut BuilderMap)
        requires
            old(build_data).wf(),
            old(build_data).rooms is Some,
        ensures
            final(build_data).wf(),
            final(build_data).extends(old(build_data)),
            final(build_data).list_spawns == old(build_data).list_spawns,
            final(build_data).starting_position == old(build_data).starting_position,
            final(build_data).rooms == old(build_data).rooms,
            final(build_data).submaps == old(build_data).submaps,
            carved_only(&old(build_data).map, &final(build_data).map),
            exists|ends: Seq<(int, int, int, int)>| #[trigger]
                bsp_corridor_plan(
                    &old(build_data).map,
                    &final(build_data).map,
                    old(build_data).rooms->0@,
                    ends,
                ),
            final(build_data).corridors matches Some(halls) && {
                &&& old(build_data).rooms->0@.len() > 0 ==> halls@.len() == old(
                    build_data).rooms->0@.len() - 1
                &&& old(build_data).rooms->0@.len() == 0 ==> halls@.len() == 0
                &&& halls_on_floor(&final(build_data).map, halls@)
            },
    {
        let ghost before = *build_data;
        let mut corridors: Vec<Vec<usize>> = Vec::new();
        let n = match &build_data.rooms {
            Some(rooms) => rooms.len(),
            None => 0,
        };
        let width = build_data.map.width;
        let height = build_data.map.height;
        let mut i: usize = 0;
        let ghost mut ends: Seq<(int, int, int, int)> = Seq::empty();
        proof {
            lemma_carved_twice(&before.map, &before.map, &before.map);
        }
        while i + 1 < n
            invariant
                ends.len() == i,
                forall|c: int|
                    0 <= c < i ==> {
                        &&& point_of(
                            before.rooms->0@[c].x1 as int,
                            before.rooms->0@[c].x2 as int,
                            (#[trigger] ends[c]).0,
                        )
                        &&& point_of(
                            before.rooms->0@[c].y1 as int,
                            before.rooms->0@[c].y2 as int,
                            ends[c].1,
                        )
                        &&& point_of(
                            before.rooms->0@[c + 1].x1 as int,
                            before.rooms->0@[c + 1].x2 as int,
                            ends[c].2,
                        )
                        &&& point_of(
                            before.rooms->0@[c + 1].y1 as int,
                            before.rooms->0@[c + 1].y2 as int,
                            ends[c].3,
                        )
                    },
                forall|x: int, y: int|
                    before.map.in_bounds(x, y) ==> #[trigger] build_data.map.tile_at(x, y)
                        == if halls_cover(ends, i as int, x, y) {
                        TileType::Floor
                    } else {
                        before.map.tile_at(x, y)
                    },
                i + 1 <= n || n == 0,
                n == 0 ==> i == 0,
                before.wf(),
                before.rooms is Some,
                n == before.rooms->0@.len(),
                width == before.width,
                height == before.height,
                build_data.wf(),
                build_data.same_records(&before),
                carved_only(&before.map, &build_data.map),
                corridors@.len() == i,
                halls_on_floor(&build_data.map, corridors@),
            decreases n - i,
        {
            let ghost prev = *build_data;
            let ghost earlier = ends;
            let mut corridor: Vec<usize> = Vec::new();
            match &build_data.rooms {
                Some(rooms) => {
                    let room = rooms[i];
                    let next_room = rooms[i + 1];
                    assert(room.fits(width as int, height as int));
                    assert(next_room.fits(width as int, height as int));
                    let start_x = Self::point_in(rng, room.x1, room.x2, width);
                    let start_y = Self::point_in(rng, room.y1, room.y2, height);
                    let end_x = Self::point_in(rng, next_room.x1, next_room.x2, width);
                    let end_y = Self::point_in(rng, next_room.y1, next_room.y2, height);
                    corridor = draw_corridor(&mut build_data.map, start_x, start_y, end_x, end_y);
                    proof {
                        ends = ends.push(
                            (start_x as int, start_y as int, end_x as int, end_y as int),
                        );
                    }
                },
                None => {},
            }
            proof {
                assert forall|x: int, y: int|
                    before.map.in_bounds(x, y) implies #[trigger] build_data.map.tile_at(x, y)
                    == if halls_cover(ends, i + 1, x, y) {
                    TileType::Floor
                } else {
                    before.map.tile_at(x, y)
                } by {
                    lemma_halls_cover_prefix(earlier, ends, i as int, x, y);
                    assert(prev.map.tile_at(x, y) == if halls_cover(earlier, i as int, x, y) {
                        TileType::Floor
                    } else {
                        before.map.tile_at(x, y)
                    });
                }
                assert forall|c: int| 0 <= c < i + 1 implies {
                    &&& point_of(
                        before.rooms->0@[c].x1 as int,
                        before.rooms->0@[c].x2 as int,
                        (#[trigger] ends[c]).0,
                    )
                    &&& point_of(
                        before.rooms->0@[c].y1 as int,
                        before.rooms->0@[c].y2 as int,
                        ends[c].1,
                    )
                    &&& point_of(
                        before.rooms->0@[c + 1].x1 as int,
                        before.rooms->0@[c + 1].x2 as int,
                        ends[c].2,
                    )
                    &&& point_of(
                        before.rooms->0@[c + 1].y1 as int,
                        before.rooms->0@[c + 1].y2 as int,
                        ends[c].3,
                    )
                } by {
                    if c < i {
                        assert(ends[c] == earlier[c]);
                    }
                }
            }
            proof {
                lemma_carved_twice(&before.map, &prev.map, &build_data.map);
                lemma_halls_stay_on_floor(&prev.map, &build_data.map, corridors@);
                assert forall|a: int, b: int|
                    0 <= a < corridors@.push(corridor).len() && 0 <= b < corridors@.push(
                        corridor,
                    )[a]@.len() implies (#[trigger] corridors@.push(corridor)[a]@[b])
                    < build_data.map.cells() && build_data.map.tiles@[corridors@.push(
                    corridor,
                )[a]@[b] as int] == crate::map::TileType::Floor by {
                    if a < corridors@.len() {
                        assert(corridors@.push(corridor)[a] == corridors@[a]);
                        assert(corridors@[a]@[b] < build_data.map.cells());
                    }
                }
            }
            corridors.push(corridor);
            build_data.take_snapshot();
            i += 1;
        }
        proof {
            assert(bsp_corridor_plan(&before.map, &build_data.map, before.rooms->0@, ends));
        }
        build_data.corridors = Some(corridors);
    }
}

impl MetaMapBuilder for BSPCorridors {
    open spec fn fits_grid(&self, width: int, height: int) -> bool {
        true
    }

    open spec fn needs(&self) -> Fields {
        Fields { rooms: true, corridors: false, submaps: false }
    }

    open spec fn provides(&self) -> Fields {
        Fields { rooms: false, corridors: true, submaps: false }
    }

    open spec fn outcome(&self, before: &BuilderMap, after: &BuilderMap) -> bool {
        &&& exists|ends: Seq<(int, int, int, int)>| #[trigger]
            bsp_corridor_plan(&before.map, &after.map, before.rooms->0@, ends)
        &&& after.corridors matches Some(halls) && halls_on_floor(&after.map, halls@)
    }

    fn grid_ok(&self, width: i32, height: i32) -> (r: bool) {
        true
    }

    fn needed(&self) -> (r: Fields) {
        Fields { rooms: true, corridors: false, submaps: false }
    }

    fn provided(&self) -> (r: Fields) {
        Fields { rooms: false, corridors: true, submaps: false }
    }

    fn build_map(&mut self, rng: &mut rltk::RandomNumberGenerator, build_data: &mut BuilderMap) {
        self.corridors(rng, build_data);
    }
}

} // verus!
