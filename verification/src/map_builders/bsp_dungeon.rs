use crate::map::{Grid, TileType};
use crate::map_builders::bsp_town::{
    can_place_on,
    placeable,
    quadrants,
    sub_rect_of,
    BSPTownBuilder,
};
use crate::map_builders::{BuilderMap, Fields, InitialMapBuilder};
use crate::rect::{side_of, Rect};
use crate::rng::roll_dice;
use vstd::prelude::*;

verus! {

/// How many times the stage tries to place a room.
pub const DUNGEON_ATTEMPTS: u32 = 240;

/// The widest and highest grid that the stage works on.
pub const DUNGEON_LIMIT: i32 = 0x0fff_ffff;

/// The stage that cuts the grid into lots, quarter by quarter, and places
/// rooms on lots drawn at random, on solid rock only. It places the rooms
/// and leaves it to later stages to carve them.
pub struct BspDungeonBuilder {
    pub rects: Vec<Rect>,
}

/// Whether the rooms are as the stage places them on a grid of the given
/// size: three cells or more off every edge, four to ten cells wide and
/// high, and no two touching.
pub open spec fn dungeon_rooms(rooms: Seq<Rect>, width: int, height: int) -> bool {
    &&& forall|i: int|
        0 <= i < rooms.len() ==> {
            &&& 3 <= (#[trigger] rooms[i]).x1
            &&& rooms[i].x2 <= width - 4
            &&& 3 <= rooms[i].y1
            &&& rooms[i].y2 <= height - 4
            &&& 4 <= rooms[i].x2 - rooms[i].x1 <= 10
            &&& 4 <= rooms[i].y2 - rooms[i].y1 <= 10
        }
    &&& forall|i: int, j: int|
        #![trigger rooms[i], rooms[j]]
        0 <= i < j < rooms.len() ==> !rooms[i].overlaps(&rooms[j])
}

/// The side of a room for a roll of a die: one less than the roll, three
/// at the least, and one more.
pub open spec fn room_side(roll: int) -> int {
    if roll - 1 >= 3 {
        roll
    } else {
        4
    }
}

/// The quarters of a lot with its corners in order have their corners in
/// order and reach past the lot by one cell at most.
pub proof fn lemma_quadrants_creep(rect: Rect)
    requires
        rect.tame(),
        0 <= rect.x1 < rect.x2,
        0 <= rect.y1 < rect.y2,
    ensures
        quadrants(rect).len() == 4,
        forall|i: int|
            0 <= i < 4 ==> {
                &&& 0 <= (#[trigger] quadrants(rect)[i]).x1 < quadrants(rect)[i].x2 <= rect.x2 + 1
                &&& 0 <= quadrants(rect)[i].y1 < quadrants(rect)[i].y2 <= rect.y2 + 1
            },
{
}

/// Whether a rectangle is a lot of the stage after so many rooms have been
/// placed: its corners are in order and it reaches no further than the
/// grid and a cell for each room.
pub open spec fn dungeon_lot(rect: Rect, width: int, height: int, placed: int) -> bool {
    &&& 0 <= rect.x1 < rect.x2 <= width + placed
    &&& 0 <= rect.y1 < rect.y2 <= height + placed
}

impl BspDungeonBuilder {
    /// The stage without lots.
    pub fn new() -> (r: Box<BspDungeonBuilder>)
        ensures
            r.rects@.len() == 0,
    {
        Box::new(BspDungeonBuilder { rects: Vec::new() })
    }

    /// Cuts a rectangle into its four quarters and adds them to the lots.
    pub fn add_subrects(&mut self, rect: Rect)
        requires
            rect.tame(),
        ensures
            final(self).rects@ == old(self).rects@ + quadrants(rect),
    {
        let mut town = BSPTownBuilder { rects: Vec::new() };
        town.add_subrects(rect);
        self.rects.append(&mut town.rects);
    }

    /// Picks one of the lots.
    pub fn get_random_rect(&mut self, rng: &mut rltk::RandomNumberGenerator) -> (r: Rect)
        requires
            1 <= old(self).rects@.len() < i32::MAX,
        ensures
            final(self).rects == old(self).rects,
            exists|i: int| 0 <= i < old(self).rects@.len() && r == #[trigger] old(self).rects@[i],
    {
        if self.rects.len() == 1 {
            return self.rects[0];
        }
        let idx = (roll_dice(rng, 1, self.rects.len() as i32) - 1) as usize;
        self.rects[idx]
    }

    /// The side of a room for a roll of a die.
    pub fn side_for(roll: i32) -> (side: i32)
        requires
            i32::MIN < roll < i32::MAX,
        ensures
            side == room_side(roll as int),
    {
        let least = if roll - 1 > 3 {
            roll - 1
        } else {
            3
        };
        least + 1
    }

    /// Draws a rectangle for a room on a lot: four to ten cells wide and
    /// high, and no more than five cells right and down of the lot's
    /// corner.
    pub fn get_random_sub_rect(&self, rect: Rect, rng: &mut rltk::RandomNumberGenerator) -> (r: Rect)
        requires
            rect.tame(),
            rect.x1 != rect.x2,
            rect.y1 != rect.y2,
        ensures
            exists|w: int, h: int, dx: int, dy: int|
                4 <= w <= 10 && 4 <= h <= 10 && 0 <= dx <= 5 && 0 <= dy <= 5 && r
                    == #[trigger] sub_rect_of(rect, w, h, dx, dy),
    {
        let rect_width = side_of(rect.x1, rect.x2);
        let rect_height = side_of(rect.y1, rect.y2);
        let across = if rect_width < 10 {
            rect_width
        } else {
            10
        };
        let down = if rect_height < 10 {
            rect_height
        } else {
            10
        };
        let w = Self::side_for(roll_dice(rng, 1, across));
        let h = Self::side_for(roll_dice(rng, 1, down));
        let dx = roll_dice(rng, 1, 6) - 1;
        let dy = roll_dice(rng, 1, 6) - 1;
        let r = BSPTownBuilder::sub_rect(rect, w, h, dx, dy);
        assert(r == sub_rect_of(rect, w as int, h as int, dx as int, dy as int));
        r
    }

    /// Decides whether a room can be placed on `rect`: it touches no room
    /// placed before, and it and the two cells around it are solid rock
    /// off the border.
    pub fn is_possible(&self, rect: Rect, build_data: &BuilderMap, rooms: &Vec<Rect>) -> (r: bool)
        requires
            build_data.wf(),
            -0x4000_0000 <= rect.x1 <= 0x4000_0000,
            -0x4000_0000 <= rect.x2 <= 0x4000_0000,
            -0x4000_0000 <= rect.y1 <= 0x4000_0000,
            -0x4000_0000 <= rect.y2 <= 0x4000_0000,
        ensures
            r == can_place_on(rect, &build_data.map, rooms@, TileType::Wall),
    {
        placeable(rect, &build_data.map, rooms, TileType::Wall)
    }

    /// Places the rooms: a fixed number of times a lot is drawn and a
    /// room on it, and where the room can be placed it is recorded and the
    /// lot is cut into quarters. The rooms are recorded in the context;
    /// the grid is left as it is.
    #[verifier::rlimit(50)]
    pub fn build(&mut self, rng: &mut rltk::RandomNumberGenerator, build_data: &mut BuilderMap)
        requires
            old(build_data).wf(),
            6 <= old(build_data).width <= DUNGEON_LIMIT,
            6 <= old(build_data).height <= DUNGEON_LIMIT,
        ensures
            final(build_data).wf(),
            final(build_data).extends(old(build_data)),
            final(build_data).map == old(build_data).map,
            final(build_data).list_spawns == old(build_data).list_spawns,
            final(build_data).history == old(build_data).history,
            final(build_data).starting_position == old(build_data).starting_position,
            final(build_data).corridors == old(build_data).corridors,
            final(build_data).submaps == old(build_data).submaps,
            final(build_data).rooms matches Some(rooms) && {
                &&& rooms@.len() <= DUNGEON_ATTEMPTS
                &&& dungeon_rooms(
                    rooms@,
                    old(build_data).width as int,
                    old(build_data).height as int,
                )
                &&& forall|i: int, x: int, y: int|
                    0 <= i < rooms@.len() && (#[trigger] rooms@[i]).x1 - 2 <= x <= rooms@[i].x2 + 2
                        && rooms@[i].y1 - 2 <= y <= rooms@[i].y2 + 2 ==> #[trigger] old(
                        build_data).map.tile_at(x, y) == TileType::Wall
            },
    {
        let ghost before = *build_data;
        let mut rooms: Vec<Rect> = Vec::new();
        let width = build_data.map.width;
        let height = build_data.map.height;
        self.rects.clear();
        self.rects.push(Rect::new(2, 2, width - 5, height - 5));
        let first_room = self.rects[0];
        proof {
            lemma_quadrants_creep(first_room);
        }
        self.add_subrects(first_room);
        let mut placed: u32 = 1;
        let mut n_rooms: u32 = 0;
        while n_rooms < DUNGEON_ATTEMPTS
            invariant
                *build_data == before,
                before.wf(),
                width == before.width,
                height == before.height,
                6 <= width <= DUNGEON_LIMIT,
                6 <= height <= DUNGEON_LIMIT,
                n_rooms <= DUNGEON_ATTEMPTS,
                1 <= self.rects@.len() <= 5 + 4 * n_rooms,
                1 <= placed <= n_rooms + 1,
                forall|i: int|
                    0 <= i < self.rects@.len() ==> dungeon_lot(
                        #[trigger] self.rects@[i],
                        width as int,
                        height as int,
                        placed as int,
                    ),
                dungeon_rooms(rooms@, width as int, height as int),
                rooms@.len() <= n_rooms,
                forall|i: int, x: int, y: int|
                    0 <= i < rooms@.len() && (#[trigger] rooms@[i]).x1 - 2 <= x <= rooms@[i].x2 + 2
                        && rooms@[i].y1 - 2 <= y <= rooms@[i].y2 + 2 ==> #[trigger] before.map.tile_at(
                        x,
                        y,
                    ) == TileType::Wall,
            decreases DUNGEON_ATTEMPTS - n_rooms,
        {
            let rect = self.get_random_rect(rng);
            let candidate = self.get_random_sub_rect(rect, rng);
            if self.is_possible(candidate, build_data, &rooms) {
                proof {
                    assert(build_data.map.tile_at(candidate.x1 - 2, candidate.y1 - 2)
                        == TileType::Wall);
                    assert(build_data.map.tile_at(candidate.x2 + 2, candidate.y2 + 2)
                        == TileType::Wall);
                    lemma_quadrants_creep(rect);
                    assert forall|i: int, x: int, y: int|
                        0 <= i < rooms@.push(candidate).len() && (#[trigger] rooms@.push(
                            candidate,
                        )[i]).x1 - 2 <= x <= rooms@.push(candidate)[i].x2 + 2 && rooms@.push(
                            candidate,
                        )[i].y1 - 2 <= y <= rooms@.push(candidate)[i].y2
                            + 2 implies #[trigger] before.map.tile_at(x, y) == TileType::Wall by {
                        if i < rooms@.len() {
                            assert(rooms@.push(candidate)[i] == rooms@[i]);
                        }
                    }
                }
                rooms.push(candidate);
                let ghost lots = self.rects@;
                self.add_subrects(rect);
                placed += 1;
                assert forall|i: int| 0 <= i < self.rects@.len() implies dungeon_lot(
                    #[trigger] self.rects@[i],
                    width as int,
                    height as int,
                    placed as int,
                ) by {
                    if i >= lots.len() {
                        assert(self.rects@[i] == quadrants(rect)[i - lots.len()]);
                    } else {
                        assert(self.rects@[i] == lots[i]);
                    }
                }
            }
            n_rooms += 1;
        }
        build_data.rooms = Some(rooms);
    }
}

impl InitialMapBuilder for BspDungeonBuilder {
    open spec fn fits_grid(&self, width: int, height: int) -> bool {
        6 <= width <= DUNGEON_LIMIT && 6 <= height <= DUNGEON_LIMIT
    }

    open spec fn provides(&self) -> Fields {
        Fields { rooms: true, corridors: false, submaps: false }
    }

    open spec fn outcome(&self, before: &BuilderMap, after: &BuilderMap) -> bool {
        &&& after.map == before.map
        &&& after.rooms matches Some(rooms) && dungeon_rooms(
            rooms@,
            before.width as int,
            before.height as int,
        )
    }

    fn grid_ok(&self, width: i32, height: i32) -> (r: bool) {
        6 <= width && width <= DUNGEON_LIMIT && 6 <= height && height <= DUNGEON_LIMIT
    }

    fn provided(&self) -> (r: Fields) {
        Fields { rooms: true, corridors: false, submaps: false }
    }

    fn build_map(&mut self, rng: &mut rltk::RandomNumberGenerator, build_data: &mut BuilderMap) {
        self.build(rng, build_data);
    }
}

} // verus!
