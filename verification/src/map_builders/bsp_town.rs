use crate::map::{Grid, TileType};
use crate::map_builders::common::{fill_box, in_box, repainted};
use crate::map_builders::{BuilderMap, Fields, InitialMapBuilder, MetaMapBuilder, Position, SpawnModel};
use crate::rect::{half, side, side_of, Rect};
use crate::rng::roll_dice;
use vstd::prelude::*;

verus! {

/// A rectangle is cut up further only while both its sides are longer than
/// this.
pub const MIN_ROOM_SIZE: i32 = 8;

/// How many times the stage tries to place a building.
pub const PLACEMENT_ATTEMPTS: u32 = 240;

/// The widest and highest grid that the stage works on.
pub const TOWN_LIMIT: i32 = 0x0fff_ffff;

/// The stage that lays out a town: a paved region cut into lots, with
/// walled buildings on some of them.
pub struct BSPTownBuilder {
    pub rects: Vec<Rect>,
}

/// What a building is used for.
#[derive(PartialEq, Eq, Structural, Copy, Clone, Debug)]
pub enum BuildingTag {
    Pub,
    Hovel,
    Unassigned,
}

/// Half of a side, and one at the least.
pub open spec fn half_side(a: int, b: int) -> int {
    if side(a, b) / 2 >= 1 {
        side(a, b) / 2
    } else {
        1
    }
}

/// The four quarters that a rectangle is cut into: upper left, lower left,
/// upper right, lower right, each half as wide and half as high as the
/// rectangle.
pub open spec fn quadrants(rect: Rect) -> Seq<Rect> {
    let hw = half_side(rect.x1 as int, rect.x2 as int);
    let hh = half_side(rect.y1 as int, rect.y2 as int);
    seq![
        Rect { x1: rect.x1, y1: rect.y1, x2: (rect.x1 + hw) as i32, y2: (rect.y1 + hh) as i32 },
        Rect {
            x1: rect.x1,
            y1: (rect.y1 + hh) as i32,
            x2: (rect.x1 + hw) as i32,
            y2: (rect.y1 + hh + hh) as i32,
        },
        Rect {
            x1: (rect.x1 + hw) as i32,
            y1: rect.y1,
            x2: (rect.x1 + hw + hw) as i32,
            y2: (rect.y1 + hh) as i32,
        },
        Rect {
            x1: (rect.x1 + hw) as i32,
            y1: (rect.y1 + hh) as i32,
            x2: (rect.x1 + hw + hw) as i32,
            y2: (rect.y1 + hh + hh) as i32,
        },
    ]
}

/// Whether the corners of a lot are in order, give or take one, so that
/// its quarters do not reach past it by more than two cells.
pub open spec fn lot(rect: Rect) -> bool {
    &&& 0 <= rect.x1 <= rect.x2 + 1
    &&& 0 <= rect.y1 <= rect.y2 + 1
    &&& rect.x2 <= 0x2000_0000 - 2
    &&& rect.y2 <= 0x2000_0000 - 2
}

/// The quarters of a lot are lots, and those of a lot with sides of two or
/// more lie within it.
pub proof fn lemma_quadrants_are_lots(rect: Rect)
    requires
        lot(rect),
        (rect.x2 - rect.x1 >= 2 && rect.y2 - rect.y1 >= 2) || (rect.x2 <= 0x2000_0000 - 5 && rect.y2
            <= 0x2000_0000 - 5),
    ensures
        quadrants(rect).len() == 4,
        forall|i: int| 0 <= i < 4 ==> lot(#[trigger] quadrants(rect)[i]),
        rect.x2 - rect.x1 >= 2 && rect.y2 - rect.y1 >= 2 ==> forall|i: int|
            0 <= i < 4 ==> {
                &&& rect.x1 <= (#[trigger] quadrants(rect)[i]).x1 < quadrants(rect)[i].x2 <= rect.x2
                &&& rect.y1 <= quadrants(rect)[i].y1 < quadrants(rect)[i].y2 <= rect.y2
            },
{
}

/// The rectangle that starts `dx` right and `dy` down of the corner of
/// `rect` and is `w` wide and `h` high.
pub open spec fn sub_rect_of(rect: Rect, w: int, h: int, dx: int, dy: int) -> Rect {
    Rect {
        x1: (rect.x1 + dx) as i32,
        y1: (rect.y1 + dy) as i32,
        x2: (rect.x1 + dx + w) as i32,
        y2: (rect.y1 + dy + h) as i32,
    }
}

/// Whether a room can be placed on `rect`: it touches none of the `rooms`,
/// and every cell of it and of the two cells around it lies off the border
/// of the grid and is of the kind `ground`.
pub open spec fn can_place_on(rect: Rect, map: &Grid, rooms: Seq<Rect>, ground: TileType) -> bool {
    &&& forall|i: int| 0 <= i < rooms.len() ==> !(#[trigger] rooms[i]).overlaps(&rect)
    &&& forall|x: int, y: int|
        rect.x1 - 2 <= x <= rect.x2 + 2 && rect.y1 - 2 <= y <= rect.y2 + 2 ==> {
            &&& 1 <= x <= map.width - 2
            &&& 1 <= y <= map.height - 2
            &&& #[trigger] map.tile_at(x, y) == ground
        }
}

/// Whether a building can stand on `rect`: it touches none of the `rooms`,
/// and every cell of it and of the two cells around it lies off the border
/// of the grid and is floor.
pub open spec fn can_place(rect: Rect, map: &Grid, rooms: Seq<Rect>) -> bool {
    can_place_on(rect, map, rooms, TileType::Floor)
}

/// Decides whether a room can be placed on `rect`.
#[verifier::rlimit(50)]
pub fn placeable(rect: Rect, map: &Grid, rooms: &Vec<Rect>, ground: TileType) -> (r: bool)
    requires
        map.wf(),
        -0x4000_0000 <= rect.x1 <= 0x4000_0000,
        -0x4000_0000 <= rect.x2 <= 0x4000_0000,
        -0x4000_0000 <= rect.y1 <= 0x4000_0000,
        -0x4000_0000 <= rect.y2 <= 0x4000_0000,
    ensures
        r == can_place_on(rect, map, rooms@, ground),
{
    let mut expanded = rect;
    expanded.x1 -= 2;
    expanded.x2 += 2;
    expanded.y1 -= 2;
    expanded.y2 += 2;
    let n = rooms.len();
    let mut i: usize = 0;
    while i < n
        invariant
            i <= n,
            n == rooms@.len(),
            forall|j: int| 0 <= j < i ==> !(#[trigger] rooms@[j]).overlaps(&rect),
        decreases n - i,
    {
        if rooms[i].intersect(&rect) {
            return false;
        }
        i += 1;
    }
    if expanded.x1 > expanded.x2 || expanded.y1 > expanded.y2 {
        return true;
    }
    if expanded.x1 < 1 || expanded.x2 > map.width - 2 || expanded.y1 < 1 || expanded.y2
        > map.height - 2 {
        proof {
            let x = if expanded.x1 < 1 {
                expanded.x1 as int
            } else {
                expanded.x2 as int
            };
            let y = if expanded.y1 < 1 {
                expanded.y1 as int
            } else {
                expanded.y2 as int
            };
            if can_place_on(rect, map, rooms@, ground) {
                assert(map.tile_at(x, y) == ground);
            }
        }
        return false;
    }
    let mut y = expanded.y1;
    while y <= expanded.y2
        invariant
            map.wf(),
            forall|j: int| 0 <= j < rooms@.len() ==> !(#[trigger] rooms@[j]).overlaps(&rect),
            expanded.x1 == rect.x1 - 2,
            expanded.x2 == rect.x2 + 2,
            expanded.y1 == rect.y1 - 2,
            expanded.y2 == rect.y2 + 2,
            1 <= expanded.x1 <= expanded.x2 <= map.width - 2,
            1 <= expanded.y1 <= expanded.y2 <= map.height - 2,
            expanded.y1 <= y <= expanded.y2 + 1,
            forall|a: int, b: int|
                expanded.x1 <= a <= expanded.x2 && expanded.y1 <= b < y ==> #[trigger] map.tile_at(
                    a,
                    b,
                ) == ground,
        decreases expanded.y2 + 1 - y,
    {
        let mut x = expanded.x1;
        while x <= expanded.x2
            invariant
                map.wf(),
                forall|j: int| 0 <= j < rooms@.len() ==> !(#[trigger] rooms@[j]).overlaps(&rect),
                expanded.x1 == rect.x1 - 2,
                expanded.x2 == rect.x2 + 2,
                expanded.y1 == rect.y1 - 2,
                expanded.y2 == rect.y2 + 2,
                1 <= expanded.x1 <= expanded.x2 <= map.width - 2,
                1 <= expanded.y1 <= expanded.y2 <= map.height - 2,
                expanded.y1 <= y <= expanded.y2,
                expanded.x1 <= x <= expanded.x2 + 1,
                forall|a: int, b: int|
                    expanded.x1 <= a <= expanded.x2 && (expanded.y1 <= b < y || (b == y && a < x))
                        ==> #[trigger] map.tile_at(a, b) == ground,
            decreases expanded.x2 + 1 - x,
        {
            if map.tile(x, y) != ground {
                return false;
            }
            x += 1;
        }
        y += 1;
    }
    true
}

/// The area of a building, by the lengths of its sides.
pub open spec fn area(rect: Rect) -> int {
    side(rect.x1 as int, rect.x2 as int) * side(rect.y1 as int, rect.y2 as int)
}

/// Whether the building at place `k` has an entry in the ranking.
pub open spec fn listed(ranking: Seq<(usize, i32, BuildingTag)>, k: int) -> bool {
    exists|i: int| 0 <= i < ranking.len() && (#[trigger] ranking[i]).0 == k
}

/// Whether `ranking` lists the buildings by area, the largest first and
/// those of one area in their order in `buildings`: each entry holds a
/// building's place in `buildings`, its area and its use, every building
/// has an entry, the first entry is the pub and all others are hovels.
pub open spec fn ranked(buildings: Seq<Rect>, ranking: Seq<(usize, i32, BuildingTag)>) -> bool {
    &&& ranking.len() == buildings.len()
    &&& forall|i: int|
        0 <= i < ranking.len() ==> (#[trigger] ranking[i]).0 < buildings.len() && ranking[i].1
            == area(buildings[ranking[i].0 as int])
    &&& forall|k: int| 0 <= k < buildings.len() ==> #[trigger] listed(ranking, k)
    &&& forall|i: int, j: int|
        0 <= i < j < ranking.len() ==> (#[trigger] ranking[i]).1 > (#[trigger] ranking[j]).1 || (
        ranking[i].1 == ranking[j].1 && ranking[i].0 < ranking[j].0)
    &&& forall|i: int|
        0 <= i < ranking.len() ==> (#[trigger] ranking[i]).2 == if i == 0 {
            BuildingTag::Pub
        } else {
            BuildingTag::Hovel
        }
}

/// The cell in the wall of a building where its door goes: in the middle
/// of the north, south, west or east wall for the directions one, two,
/// three and any other.
pub open spec fn door_cell(room: Rect, direction: int) -> (int, int) {
    let cx = half(room.x1 + room.x2);
    let cy = half(room.y1 + room.y2);
    if direction == 1 {
        (cx, room.y1 as int)
    } else if direction == 2 {
        (cx, room.y2 - 1)
    } else if direction == 3 {
        (room.x1 as int, cy)
    } else {
        (room.x2 - 1, cy)
    }
}

/// The tile at `(x, y)` once a building with its door stands on `room`:
/// floor in the door, indoor floor inside, wall around, and what was there
/// elsewhere. The first and the last cell of the grid are never built on.
pub open spec fn building_tile(before: &Grid, room: Rect, direction: int, x: int, y: int) -> TileType {
    if (x, y) == door_cell(room, direction) {
        TileType::Floor
    } else if in_box(
        before,
        room.x1 + 1,
        room.x2 - 1,
        room.y1 + 1,
        room.y2 - 1,
        true,
        true,
        x,
        y,
    ) {
        TileType::FloorIndoor
    } else if in_box(before, room.x1 as int, room.x2 as int, room.y1 as int, room.y2 as int, true, true, x, y) {
        TileType::Wall
    } else {
        before.tile_at(x, y)
    }
}

/// The name of the `k`-th thing that furnishes the pub.
pub open spec fn pub_item_name(k: int) -> Seq<char> {
    if k == 0 {
        "Barkeep"@
    } else if k == 1 {
        "Shady Salesman"@
    } else if k == 2 || k == 3 {
        "Patron"@
    } else if k == 4 || k == 6 {
        "Table"@
    } else {
        "Chair"@
    }
}

/// The things that furnish the pub are this many.
pub const PUB_ITEMS: usize = 8;

/// Whether the cell of index `idx` can take a thing of the pub: it is
/// indoor floor of the building and not the cell of the player.
pub open spec fn pub_spot(map: &Grid, building: Rect, start: int, idx: int) -> bool {
    &&& 0 <= idx < map.cells()
    &&& idx != start
    &&& map.tiles@[idx] == TileType::FloorIndoor
    &&& building.x1 <= idx % (map.width as int) < building.x2
    &&& building.y1 <= idx / (map.width as int) < building.y2
}

/// The name of the `k`-th thing that furnishes the pub.
pub fn pub_item(k: usize) -> (name: &'static str)
    ensures
        name@ == pub_item_name(k as int),
{
    if k == 0 {
        "Barkeep"
    } else if k == 1 {
        "Shady Salesman"
    } else if k == 2 || k == 3 {
        "Patron"
    } else if k == 4 || k == 6 {
        "Table"
    } else {
        "Chair"
    }
}

/// Whether the rooms are buildings as the stage places them on a grid of
/// the given size: six to twelve cells wide and high, three cells or more
/// off every edge, and no two touching.
pub open spec fn town_rooms(rooms: Seq<Rect>, width: int, height: int) -> bool {
    &&& forall|i: int|
        0 <= i < rooms.len() ==> {
            &&& 3 <= (#[trigger] rooms[i]).x1
            &&& rooms[i].x2 <= width - 4
            &&& 3 <= rooms[i].y1
            &&& rooms[i].y2 <= height - 4
            &&& 6 <= rooms[i].x2 - rooms[i].x1 <= 12
            &&& 6 <= rooms[i].y2 - rooms[i].y1 <= 12
        }
    &&& forall|i: int, j: int|
        #![trigger rooms[i], rooms[j]]
        0 <= i < j < rooms.len() ==> !rooms[i].overlaps(&rooms[j])
}

/// The region that the stage works on: the first sub-region of the context
/// where it has one, else the grid without its outermost cells. Whether
/// `(x, y)` lies in it.
pub open spec fn in_town(build_data: &BuilderMap, x: int, y: int) -> bool {
    if build_data.submaps is Some && build_data.submaps->0@.len() > 0 {
        let region = build_data.submaps->0@[0];
        region.x1 <= x < region.x2 && region.y1 <= y < region.y2
    } else {
        1 <= x < build_data.width - 1 && 1 <= y < build_data.height - 1
    }
}

/// Whether a tile is of a kind that the stage leaves in its region.
pub open spec fn town_tile(tt: TileType) -> bool {
    tt == TileType::Floor || tt == TileType::Wall || tt == TileType::FloorIndoor
}

/// The tile at `(x, y)` once the region is paved and the first `n` of the
/// buildings stand on it, each with its door where its direction says.
pub open spec fn town_tile_at(
    before: &BuilderMap,
    rooms: Seq<Rect>,
    doors: Seq<int>,
    n: int,
    x: int,
    y: int,
) -> TileType
    decreases n,
{
    if n <= 0 {
        if in_town(before, x, y) {
            TileType::Floor
        } else {
            before.map.tile_at(x, y)
        }
    } else {
        let room = rooms[n - 1];
        if (x, y) == door_cell(room, doors[n - 1]) {
            TileType::Floor
        } else if in_box(
            &before.map,
            room.x1 + 1,
            room.x2 - 1,
            room.y1 + 1,
            room.y2 - 1,
            true,
            true,
            x,
            y,
        ) {
            TileType::FloorIndoor
        } else if in_box(
            &before.map,
            room.x1 as int,
            room.x2 as int,
            room.y1 as int,
            room.y2 as int,
            true,
            true,
            x,
            y,
        ) {
            TileType::Wall
        } else {
            town_tile_at(before, rooms, doors, n - 1, x, y)
        }
    }
}

/// Whether `after` is the town that the stage makes of `before` with the
/// buildings on `rooms` and their doors in the directions `doors`: the
/// buildings are of the sizes allowed and do not touch, each stands, with
/// two cells around it, on paved ground off the border, the tiles are
/// those of the paved region with the buildings on it, the player starts
/// in the middle of the first building, and the things of the pub are
/// asked for, in their order, on cells of the indoor floor of that
/// building where the player does not stand.
pub open spec fn town_plan(
    before: &BuilderMap,
    after: &BuilderMap,
    rooms: Seq<Rect>,
    doors: Seq<int>,
) -> bool {
    &&& town_rooms(rooms, before.width as int, before.height as int)
    &&& rooms.len() <= PLACEMENT_ATTEMPTS
    &&& doors.len() == rooms.len()
    &&& forall|i: int| 0 <= i < doors.len() ==> 1 <= #[trigger] doors[i] <= 4
    &&& forall|i: int, x: int, y: int|
        0 <= i < rooms.len() && (#[trigger] rooms[i]).x1 - 2 <= x <= rooms[i].x2 + 2 && rooms[i].y1
            - 2 <= y <= rooms[i].y2 + 2 ==> #[trigger] town_tile_at(before, rooms, doors, 0, x, y)
            == TileType::Floor
    &&& forall|x: int, y: int|
        before.map.in_bounds(x, y) ==> #[trigger] after.map.tile_at(x, y) == town_tile_at(
            before,
            rooms,
            doors,
            rooms.len() as int,
            x,
            y,
        )
    &&& rooms.len() == 0 ==> after.starting_position == before.starting_position && after.spawns()
        == before.spawns()
    &&& rooms.len() > 0 ==> after.starting_position == Some(
        Position {
            x: half(rooms[0].x1 + rooms[0].x2) as i32,
            y: half(rooms[0].y1 + rooms[0].y2) as i32,
        },
    )
    &&& after.spawns().len() <= before.spawns().len() + PUB_ITEMS
    &&& forall|i: int|
        before.spawns().len() <= i < after.spawns().len() ==> {
            &&& (#[trigger] after.spawns()[i]).1 == pub_item_name(i - before.spawns().len())
            &&& rooms.len() > 0
            &&& pub_spot(
                &after.map,
                rooms[0],
                after.map.index_of(half(rooms[0].x1 + rooms[0].x2), half(rooms[0].y1 + rooms[0].y2)),
                after.spawns()[i].0 as int,
            )
        }
}

/// The paved ground and the buildings before the `n`-th do not depend on
/// the buildings from the `n`-th on.
pub proof fn lemma_town_tile_prefix(
    before: &BuilderMap,
    rooms: Seq<Rect>,
    doors: Seq<int>,
    more_rooms: Seq<Rect>,
    more_doors: Seq<int>,
    n: int,
    x: int,
    y: int,
)
    requires
        0 <= n <= rooms.len(),
        n <= doors.len(),
        rooms.len() <= more_rooms.len(),
        doors.len() <= more_doors.len(),
        forall|i: int| 0 <= i < n ==> more_rooms[i] == rooms[i] && more_doors[i] == doors[i],
    ensures
        town_tile_at(before, more_rooms, more_doors, n, x, y) == town_tile_at(
            before,
            rooms,
            doors,
            n,
            x,
            y,
        ),
    decreases n,
{
    if n > 0 {
        lemma_town_tile_prefix(before, rooms, doors, more_rooms, more_doors, n - 1, x, y);
    }
}

/// The middle of a building is indoor floor once the building stands.
pub proof fn lemma_center_is_indoor(before: &Grid, room: Rect, direction: int)
    requires
        before.wf(),
        3 <= room.x1,
        room.x2 <= before.width - 4,
        3 <= room.y1,
        room.y2 <= before.height - 4,
        6 <= room.x2 - room.x1 <= 12,
        6 <= room.y2 - room.y1 <= 12,
    ensures
        building_tile(
            before,
            room,
            direction,
            half(room.x1 + room.x2),
            half(room.y1 + room.y2),
        ) == TileType::FloorIndoor,
        before.in_bounds(half(room.x1 + room.x2), half(room.y1 + room.y2)),
        room.holds(half(room.x1 + room.x2), half(room.y1 + room.y2)),
{
    before.lemma_inner_index(half(room.x1 + room.x2), half(room.y1 + room.y2));
}

/// A building changes no cell outside its rectangle.
pub proof fn lemma_building_elsewhere(before: &Grid, room: Rect, direction: int, x: int, y: int)
    requires
        room.x1 < room.x2,
        room.y1 < room.y2,
        0 <= room.x1,
        0 <= room.y1,
        !room.holds(x, y),
    ensures
        building_tile(before, room, direction, x, y) == before.tile_at(x, y),
{
}

impl BSPTownBuilder {
    /// The stage without lots.
    pub fn new() -> (r: Box<BSPTownBuilder>)
        ensures
            r.rects@.len() == 0,
    {
        Box::new(BSPTownBuilder { rects: Vec::new() })
    }

    /// Cuts a rectangle into its four quarters and adds them to the lots.
    pub fn add_subrects(&mut self, rect: Rect)
        requires
            rect.tame(),
        ensures
            final(self).rects@ == old(self).rects@ + quadrants(rect),
    {
        let width = side_of(rect.x1, rect.x2);
        let height = side_of(rect.y1, rect.y2);
        let half_width = if width / 2 > 1 {
            width / 2
        } else {
            1
        };
        let half_height = if height / 2 > 1 {
            height / 2
        } else {
            1
        };
        self.rects.push(Rect::new(rect.x1, rect.y1, half_width, half_height));
        self.rects.push(Rect::new(rect.x1, rect.y1 + half_height, half_width, half_height));
        self.rects.push(Rect::new(rect.x1 + half_width, rect.y1, half_width, half_height));
        self.rects.push(
            Rect::new(rect.x1 + half_width, rect.y1 + half_height, half_width, half_height),
        );
        assert(self.rects@ =~= old(self).rects@ + quadrants(rect));
    }

    /// Picks one of the lots.
    pub fn get_random_rect(&mut self, rng: &mut rltk::RandomNumberGenerator) -> (r: Rect)
        requires
            1 <= old(self).rects@.len() < i32::MAX,
        ensures
            final(self).rects == old(self).rects,
            exists|i: int| 0 <= i < old(self).rects@.len() && r == #[trigger] old(self).rects@[i],
    {
        if self.rects.len() == 1 {
            return self.rects[0];
        }
        let idx = (roll_dice(rng, 1, self.rects.len() as i32) - 1) as usize;
        self.rects[idx]
    }

    /// The rectangle for a building on a lot, from the four numbers drawn
    /// for it.
    pub fn sub_rect(rect: Rect, w: i32, h: i32, dx: i32, dy: i32) -> (r: Rect)
        requires
            rect.tame(),
            0 <= w <= 0x1000_0000,
            0 <= h <= 0x1000_0000,
            0 <= dx <= 0x1000_0000,
            0 <= dy <= 0x1000_0000,
        ensures
            r == sub_rect_of(rect, w as int, h as int, dx as int, dy as int),
    {
        let mut result = rect;
        result.x1 += dx;
        result.y1 += dy;
        result.x2 = result.x1 + w;
        result.y2 = result.y1 + h;
        result
    }

    /// Draws a rectangle for a building on a lot: six to twelve cells wide
    /// and high, two to eight cells right and down of the lot's corner.
    pub fn get_random_sub_rect(&self, rect: Rect, rng: &mut rltk::RandomNumberGenerator) -> (r: Rect)
        requires
            rect.tame(),
        ensures
            exists|w: int, h: int, dx: int, dy: int|
                6 <= w <= 12 && 6 <= h <= 12 && 2 <= dx <= 8 && 2 <= dy <= 8 && r
                    == #[trigger] sub_rect_of(rect, w, h, dx, dy),
    {
        let w = roll_dice(rng, 2, 4) + 4;
        let h = roll_dice(rng, 2, 4) + 4;
        let dx = roll_dice(rng, 2, 4);
        let dy = roll_dice(rng, 2, 4);
        let r = Self::sub_rect(rect, w, h, dx, dy);
        assert(r == sub_rect_of(rect, w as int, h as int, dx as int, dy as int));
        r
    }

    /// Decides whether a building can stand on `rect`.
    pub fn is_possible(&self, rect: Rect, build_data: &BuilderMap, rooms: &Vec<Rect>) -> (r: bool)
        requires
            build_data.wf(),
            -0x4000_0000 <= rect.x1 <= 0x4000_0000,
            -0x4000_0000 <= rect.x2 <= 0x4000_0000,
            -0x4000_0000 <= rect.y1 <= 0x4000_0000,
            -0x4000_0000 <= rect.y2 <= 0x4000_0000,
        ensures
            r == can_place(rect, &build_data.map, rooms@),
    {
        placeable(rect, &build_data.map, rooms, TileType::Floor)
    }

    /// Puts up a building on `room`: walls around, indoor floor inside,
    /// then a door in the wall that `door_direction` names. A snapshot is
    /// taken before and after the door is made.
    #[verifier::rlimit(50)]
    pub fn carve_building(build_data: &mut BuilderMap, room: Rect, door_direction: i32)
        requires
            old(build_data).wf(),
            room.fits(old(build_data).width as int, old(build_data).height as int),
            room.tame(),
            room.x1 < room.x2,
            room.y1 < room.y2,
        ensures
            final(build_data).wf(),
            final(build_data).extends(old(build_data)),
            final(build_data).same_records(old(build_data)),
            final(build_data).history@.len() == old(build_data).history@.len() + 2,
            forall|x: int, y: int|
                old(build_data).map.in_bounds(x, y) ==> #[trigger] final(build_data).map.tile_at(
                    x,
                    y,
                ) == building_tile(&old(build_data).map, room, door_direction as int, x, y),
    {
        let ghost before = *build_data;
        fill_box(
            &mut build_data.map,
            room.x1 as i64,
            room.x2 as i64,
            room.y1 as i64,
            room.y2 as i64,
            true,
            true,
            TileType::Wall,
        );
        let ghost walled = *build_data;
        fill_box(
            &mut build_data.map,
            room.x1 as i64 + 1,
            room.x2 as i64 - 1,
            room.y1 as i64 + 1,
            room.y2 as i64 - 1,
            true,
            true,
            TileType::FloorIndoor,
        );
        let ghost floored = *build_data;
        build_data.take_snapshot();
        let cent = room.center();
        if door_direction == 1 {
            build_data.map.set_tile(cent.0, room.y1, TileType::Floor);
        } else if door_direction == 2 {
            build_data.map.set_tile(cent.0, room.y2 - 1, TileType::Floor);
        } else if door_direction == 3 {
            build_data.map.set_tile(room.x1, cent.1, TileType::Floor);
        } else {
            build_data.map.set_tile(room.x2 - 1, cent.1, TileType::Floor);
        }
        build_data.take_snapshot();
        proof {
            assert forall|x: int, y: int| before.map.in_bounds(x, y) implies #[trigger] build_data.map.tile_at(
                x,
                y,
            ) == building_tile(&before.map, room, door_direction as int, x, y) by {
                assert(walled.map.tile_at(x, y) == if in_box(
                    &before.map,
                    room.x1 as int,
                    room.x2 as int,
                    room.y1 as int,
                    room.y2 as int,
                    true,
                    true,
                    x,
                    y,
                ) {
                    TileType::Wall
                } else {
                    before.map.tile_at(x, y)
                });
                assert(floored.map.tile_at(x, y) == if in_box(
                    &walled.map,
                    room.x1 + 1,
                    room.x2 - 1,
                    room.y1 + 1,
                    room.y2 - 1,
                    true,
                    true,
                    x,
                    y,
                ) {
                    TileType::FloorIndoor
                } else {
                    walled.map.tile_at(x, y)
                });
            }
        }
    }

    /// Ranks the buildings by area, the largest first, and makes the first
    /// of the ranking the pub and all others hovels.
    #[verifier::rlimit(50)]
    pub fn sort_buildings(&mut self, buildings: &Vec<Rect>) -> (ranking: Vec<(usize, i32, BuildingTag)>)
        requires
            forall|i: int| 0 <= i < buildings@.len() ==> area(#[trigger] buildings@[i]) <= i32::MAX,
            forall|i: int|
                0 <= i < buildings@.len() ==> side(
                    (#[trigger] buildings@[i]).x1 as int,
                    buildings@[i].x2 as int,
                ) <= i32::MAX && side(buildings@[i].y1 as int, buildings@[i].y2 as int) <= i32::MAX,
        ensures
            *final(self) == *old(self),
            ranked(buildings@, ranking@),
    {
        let n = buildings.len();
        let mut ranking: Vec<(usize, i32, BuildingTag)> = Vec::new();
        let mut m: usize = 0;
        while m < n
            invariant
                m <= n,
                n == buildings@.len(),
                ranking@.len() == m,
                forall|i: int| 0 <= i < buildings@.len() ==> area(#[trigger] buildings@[i]) <= i32::MAX,
                forall|i: int|
                    0 <= i < buildings@.len() ==> side(
                        (#[trigger] buildings@[i]).x1 as int,
                        buildings@[i].x2 as int,
                    ) <= i32::MAX && side(buildings@[i].y1 as int, buildings@[i].y2 as int)
                        <= i32::MAX,
                forall|i: int|
                    0 <= i < m ==> (#[trigger] ranking@[i]).0 < m && ranking@[i].1 == area(
                        buildings@[ranking@[i].0 as int],
                    ),
                forall|k: int| 0 <= k < m ==> #[trigger] listed(ranking@, k),
                forall|i: int, j: int|
                    0 <= i < j < m ==> (#[trigger] ranking@[i]).1 > (#[trigger] ranking@[j]).1 || (
                    ranking@[i].1 == ranking@[j].1 && ranking@[i].0 < ranking@[j].0),
            decreases n - m,
        {
            let building = buildings[m];
            let rect_width = side_of(building.x1, building.x2);
            let rect_height = side_of(building.y1, building.y2);
            assert(rect_height * rect_width == area(building)) by (nonlinear_arith)
                requires
                    rect_width == side(building.x1 as int, building.x2 as int),
                    rect_height == side(building.y1 as int, building.y2 as int),
            ;
            assert(0 <= rect_height * rect_width) by (nonlinear_arith)
                requires
                    0 <= rect_width,
                    0 <= rect_height,
            ;
            let size = rect_height * rect_width;
            let ghost sorted = ranking@;
            ranking.push((m, size, BuildingTag::Unassigned));
            let mut j: usize = m;
            proof {
                assert forall|k: int| 0 <= k < m + 1 implies #[trigger] listed(ranking@, k) by {
                    if k < m {
                        assert(listed(sorted, k));
                        let i = choose|i: int| 0 <= i < m && (#[trigger] sorted[i]).0 == k;
                        assert(ranking@[i].0 == k);
                    } else {
                        assert(ranking@[m as int].0 == k);
                    }
                }
            }
            while j > 0 && ranking[j - 1].1 < ranking[j].1
                invariant
                    j <= m < n,
                    n == buildings@.len(),
                    ranking@.len() == m + 1,
                    ranking@[j as int] == (m, size, BuildingTag::Unassigned),
                    size == area(buildings@[m as int]),
                    forall|i: int|
                        0 <= i < m + 1 ==> (#[trigger] ranking@[i]).0 < m + 1 && ranking@[i].1
                            == area(buildings@[ranking@[i].0 as int]),
                    forall|i: int| 0 <= i < m + 1 && i != j ==> (#[trigger] ranking@[i]).0 < m,
                    forall|k: int| 0 <= k < m + 1 ==> #[trigger] listed(ranking@, k),
                    forall|a: int, b: int|
                        0 <= a < b < m + 1 && a != j && b != j ==> (#[trigger] ranking@[a]).1 > (
                        #[trigger] ranking@[b]).1 || (ranking@[a].1 == ranking@[b].1
                            && ranking@[a].0 < ranking@[b].0),
                    forall|b: int| j < b < m + 1 ==> (#[trigger] ranking@[b]).1 < size,
                decreases j,
            {
                let ghost prev = ranking@;
                let left = ranking[j - 1];
                let right = ranking[j];
                ranking[j - 1] = right;
                ranking[j] = left;
                proof {
                    assert forall|k: int| 0 <= k < m + 1 implies #[trigger] listed(ranking@, k) by {
                        assert(listed(prev, k));
                        let i = choose|i: int| 0 <= i < m + 1 && (#[trigger] prev[i]).0 == k;
                        let i2 = if i == j {
                            j - 1
                        } else if i == j - 1 {
                            j as int
                        } else {
                            i
                        };
                        assert(ranking@[i2].0 == k);
                    }
                    assert forall|a: int, b: int|
                        0 <= a < b < m + 1 && a != j - 1 && b != j - 1 implies (
                    #[trigger] ranking@[a]).1 > (#[trigger] ranking@[b]).1 || (ranking@[a].1
                        == ranking@[b].1 && ranking@[a].0 < ranking@[b].0) by {
                        let a0 = if a == j {
                            j - 1
                        } else {
                            a
                        };
                        let b0 = if b == j {
                            j - 1
                        } else {
                            b
                        };
                        assert(ranking@[a] == prev[a0]);
                        assert(ranking@[b] == prev[b0]);
                        if a0 < b0 {
                            assert(prev[a0].1 > prev[b0].1 || (prev[a0].1 == prev[b0].1
                                && prev[a0].0 < prev[b0].0));
                        }
                    }
                }
                j -= 1;
            }
            proof {
                assert forall|a: int, b: int| 0 <= a < b < m + 1 implies (#[trigger] ranking@[a]).1
                    > (#[trigger] ranking@[b]).1 || (ranking@[a].1 == ranking@[b].1
                    && ranking@[a].0 < ranking@[b].0) by {
                    if b == j && j > 0 {
                        if a < j - 1 {
                            assert(ranking@[a].1 > ranking@[j - 1].1 || (ranking@[a].1
                                == ranking@[j - 1].1 && ranking@[a].0 < ranking@[j - 1].0));
                        }
                    }
                }
            }
            m += 1;
        }
        let mut t: usize = 0;
        while t < n
            invariant
                t <= n,
                n == buildings@.len(),
                ranking@.len() == n,
                forall|i: int|
                    0 <= i < n ==> (#[trigger] ranking@[i]).0 < n && ranking@[i].1 == area(
                        buildings@[ranking@[i].0 as int],
                    ),
                forall|k: int| 0 <= k < n ==> #[trigger] listed(ranking@, k),
                forall|i: int, j: int|
                    0 <= i < j < n ==> (#[trigger] ranking@[i]).1 > (#[trigger] ranking@[j]).1 || (
                    ranking@[i].1 == ranking@[j].1 && ranking@[i].0 < ranking@[j].0),
                forall|i: int|
                    0 <= i < t ==> (#[trigger] ranking@[i]).2 == if i == 0 {
                        BuildingTag::Pub
                    } else {
                        BuildingTag::Hovel
                    },
            decreases n - t,
        {
            let ghost prev = ranking@;
            let entry = ranking[t];
            let tag = if t == 0 {
                BuildingTag::Pub
            } else {
                BuildingTag::Hovel
            };
            ranking[t] = (entry.0, entry.1, tag);
            proof {
                assert forall|k: int| 0 <= k < n implies #[trigger] listed(ranking@, k) by {
                    assert(listed(prev, k));
                    let i = choose|i: int| 0 <= i < n && (#[trigger] prev[i]).0 == k;
                    assert(ranking@[i].0 == k);
                }
                assert forall|i: int, j: int| 0 <= i < j < n implies (#[trigger] ranking@[i]).1 > (
                #[trigger] ranking@[j]).1 || (ranking@[i].1 == ranking@[j].1 && ranking@[i].0
                    < ranking@[j].0) by {
                    assert(prev[i].1 > prev[j].1 || (prev[i].1 == prev[j].1 && prev[i].0
                        < prev[j].0));
                }
            }
            t += 1;
        }
        ranking
    }
    /// Makes the middle of the building the starting position and asks for
    /// the things of a pub on cells of its indoor floor: going through the
    /// cells row by row, a thing is placed on one cell in three, by a roll
    /// of a die, until all are placed.
    #[verifier::rlimit(50)]
    pub fn build_pub(
        &mut self,
        building: &Rect,
        build_data: &mut BuilderMap,
        rng: &mut rltk::RandomNumberGenerator,
    )
        requires
            old(build_data).wf(),
            building.fits(old(build_data).width as int, old(build_data).height as int),
            building.tame(),
        ensures
            *final(self) == *old(self),
            final(build_data).wf(),
            final(build_data).extends(old(build_data)),
            final(build_data).map == old(build_data).map,
            final(build_data).history == old(build_data).history,
            final(build_data).rooms == old(build_data).rooms,
            final(build_data).corridors == old(build_data).corridors,
            final(build_data).submaps == old(build_data).submaps,
            final(build_data).starting_position == Some(
                Position {
                    x: half(building.x1 + building.x2) as i32,
                    y: half(building.y1 + building.y2) as i32,
                },
            ),
            final(build_data).spawns().len() <= old(build_data).spawns().len() + PUB_ITEMS,
            forall|i: int|
                old(build_data).spawns().len() <= i < final(build_data).spawns().len() ==> {
                    &&& (#[trigger] final(build_data).spawns()[i]).1 == pub_item_name(
                        i - old(build_data).spawns().len(),
                    )
                    &&& pub_spot(
                        &old(build_data).map,
                        *building,
                        old(build_data).map.index_of(
                            half(building.x1 + building.x2),
                            half(building.y1 + building.y2),
                        ),
                        final(build_data).spawns()[i].0 as int,
                    )
                },
    {
        let ghost before = *build_data;
        let cent = building.center();
        build_data.starting_position = Some(Position { x: cent.0, y: cent.1 });
        let player_idx = build_data.map.xy_idx(cent.0, cent.1);
        let mut placed: usize = 0;
        let mut y = building.y1;
        assert(build_data.spawns() =~= before.spawns());
        while y < building.y2
            invariant
                before.wf(),
                building.fits(before.width as int, before.height as int),
                build_data.wf(),
                build_data.extends(&before),
                build_data.map == before.map,
                build_data.history == before.history,
                build_data.rooms == before.rooms,
                build_data.corridors == before.corridors,
                build_data.submaps == before.submaps,
                build_data.starting_position == Some(Position { x: cent.0, y: cent.1 }),
                player_idx == before.map.index_of(cent.0 as int, cent.1 as int),
                building.y1 <= y,
                placed <= PUB_ITEMS,
                build_data.spawns().len() == before.spawns().len() + placed,
                forall|i: int|
                    before.spawns().len() <= i < build_data.spawns().len() ==> {
                        &&& (#[trigger] build_data.spawns()[i]).1 == pub_item_name(
                            i - before.spawns().len(),
                        )
                        &&& pub_spot(
                            &before.map,
                            *building,
                            player_idx as int,
                            build_data.spawns()[i].0 as int,
                        )
                    },
            decreases building.y2 - y,
        {
            let mut x = building.x1;
            while x < building.x2
                invariant
                    before.wf(),
                    building.fits(before.width as int, before.height as int),
                    build_data.wf(),
                    build_data.extends(&before),
                    build_data.map == before.map,
                    build_data.history == before.history,
                    build_data.rooms == before.rooms,
                    build_data.corridors == before.corridors,
                    build_data.submaps == before.submaps,
                    build_data.starting_position == Some(Position { x: cent.0, y: cent.1 }),
                    player_idx == before.map.index_of(cent.0 as int, cent.1 as int),
                    building.y1 <= y < building.y2,
                    building.x1 <= x,
                    placed <= PUB_ITEMS,
                    build_data.spawns().len() == before.spawns().len() + placed,
                    forall|i: int|
                        before.spawns().len() <= i < build_data.spawns().len() ==> {
                            &&& (#[trigger] build_data.spawns()[i]).1 == pub_item_name(
                                i - before.spawns().len(),
                            )
                            &&& pub_spot(
                                &before.map,
                                *building,
                                player_idx as int,
                                build_data.spawns()[i].0 as int,
                            )
                        },
                decreases building.x2 - x,
            {
                let idx = build_data.map.xy_idx(x, y);
                if build_data.map.tiles[idx] == TileType::FloorIndoor && idx != player_idx
                    && roll_dice(rng, 1, 3) == 1 && placed < PUB_ITEMS {
                    let ghost listed = build_data.spawns();
                    proof {
                        before.map.lemma_index_in_range(x as int, y as int);
                    }
                    build_data.request_spawn(idx, pub_item(placed));
                    placed += 1;
                    assert forall|i: int|
                        before.spawns().len() <= i < build_data.spawns().len() implies {
                        &&& (#[trigger] build_data.spawns()[i]).1 == pub_item_name(
                            i - before.spawns().len(),
                        )
                        &&& pub_spot(
                            &before.map,
                            *building,
                            player_idx as int,
                            build_data.spawns()[i].0 as int,
                        )
                    } by {
                        if i < listed.len() {
                            assert(build_data.spawns()[i] == listed[i]);
                        }
                    }
                }
                x += 1;
            }
            y += 1;
        }
    }

    /// Furnishes each building by its use: the pub, which is the building
    /// whose place in `buildings` is that of the pub in the ranking.
    #[verifier::rlimit(50)]
    pub fn building_factory(
        &mut self,
        rng: &mut rltk::RandomNumberGenerator,
        build_data: &mut BuilderMap,
        buildings: &Vec<Rect>,
        building_index: &Vec<(usize, i32, BuildingTag)>,
    )
        requires
            old(build_data).wf(),
            ranked(buildings@, building_index@),
            forall|i: int|
                0 <= i < buildings@.len() ==> (#[trigger] buildings@[i]).fits(
                    old(build_data).width as int,
                    old(build_data).height as int,
                ) && buildings@[i].tame(),
        ensures
            *final(self) == *old(self),
            final(build_data).wf(),
            final(build_data).extends(old(build_data)),
            final(build_data).map == old(build_data).map,
            final(build_data).history == old(build_data).history,
            final(build_data).rooms == old(build_data).rooms,
            final(build_data).corridors == old(build_data).corridors,
            final(build_data).submaps == old(build_data).submaps,
            buildings@.len() == 0 ==> *final(build_data) == *old(build_data),
            buildings@.len() > 0 ==> final(build_data).starting_position == Some(
                Position {
                    x: half(buildings@[0].x1 + buildings@[0].x2) as i32,
                    y: half(buildings@[0].y1 + buildings@[0].y2) as i32,
                },
            ),
            final(build_data).spawns().len() <= old(build_data).spawns().len() + PUB_ITEMS,
            forall|i: int|
                old(build_data).spawns().len() <= i < final(build_data).spawns().len() ==> {
                    &&& (#[trigger] final(build_data).spawns()[i]).1 == pub_item_name(
                        i - old(build_data).spawns().len(),
                    )
                    &&& pub_spot(
                        &old(build_data).map,
                        buildings@[0],
                        old(build_data).map.index_of(
                            half(buildings@[0].x1 + buildings@[0].x2),
                            half(buildings@[0].y1 + buildings@[0].y2),
                        ),
                        final(build_data).spawns()[i].0 as int,
                    )
                },
    {
        let ghost before = *build_data;
        let n = buildings.len();
        let mut i: usize = 0;
        while i < n
            invariant
                i <= n,
                n == buildings@.len(),
                *self == *old(self),
                before.wf(),
                ranked(buildings@, building_index@),
                forall|k: int|
                    0 <= k < buildings@.len() ==> (#[trigger] buildings@[k]).fits(
                        before.width as int,
                        before.height as int,
                    ) && buildings@[k].tame(),
                i == 0 ==> *build_data == before,
                build_data.wf(),
                build_data.extends(&before),
                build_data.map == before.map,
                build_data.history == before.history,
                build_data.rooms == before.rooms,
                build_data.corridors == before.corridors,
                build_data.submaps == before.submaps,
                i > 0 ==> build_data.starting_position == Some(
                    Position {
                        x: half(buildings@[0].x1 + buildings@[0].x2) as i32,
                        y: half(buildings@[0].y1 + buildings@[0].y2) as i32,
                    },
                ),
                build_data.spawns().len() <= before.spawns().len() + PUB_ITEMS,
                forall|k: int|
                    before.spawns().len() <= k < build_data.spawns().len() ==> {
                        &&& (#[trigger] build_data.spawns()[k]).1 == pub_item_name(
                            k - before.spawns().len(),
                        )
                        &&& pub_spot(
                            &before.map,
                            buildings@[0],
                            before.map.index_of(
                                half(buildings@[0].x1 + buildings@[0].x2),
                                half(buildings@[0].y1 + buildings@[0].y2),
                            ),
                            build_data.spawns()[k].0 as int,
                        )
                    },
            decreases n - i,
        {
            let build_type = building_index[i].2;
            match build_type {
                BuildingTag::Pub => {
                    assert(i == 0);
                    self.build_pub(&buildings[i], build_data, rng);
                },
                _ => {},
            }
            i += 1;
        }
    }
    /// Paves the region, cuts it into lots, tries a fixed number of times
    /// to place a building on a lot drawn at random, puts up the buildings
    /// that found a place, each with a door, and furnishes the first of
    /// them as the pub, where the player starts.
    #[verifier::rlimit(50)]
    pub fn build(&mut self, rng: &mut rltk::RandomNumberGenerator, build_data: &mut BuilderMap)
        requires
            old(build_data).wf(),
            old(build_data).width <= TOWN_LIMIT,
            old(build_data).height <= TOWN_LIMIT,
        ensures
            final(build_data).wf(),
            final(build_data).extends(old(build_data)),
            final(build_data).rooms == old(build_data).rooms,
            final(build_data).corridors == old(build_data).corridors,
            final(build_data).submaps == old(build_data).submaps,
            forall|x: int, y: int|
                old(build_data).map.in_bounds(x, y) && in_town(old(build_data), x, y) ==> town_tile(
                    #[trigger] final(build_data).map.tile_at(x, y),
                ),
            final(build_data).starting_position != old(build_data).starting_position ==> (
                final(build_data).starting_position matches Some(p)
                    && final(build_data).map.tile_at(p.x as int, p.y as int)
                    == TileType::FloorIndoor),
            exists|rooms: Seq<Rect>, doors: Seq<int>| #[trigger]
                town_plan(old(build_data), final(build_data), rooms, doors),
            final(build_data).starting_position != old(build_data).starting_position ==> final(
                build_data).start_walkable(),
            final(build_data).spawns().len() <= old(build_data).spawns().len() + PUB_ITEMS,
            forall|i: int|
                old(build_data).spawns().len() <= i < final(build_data).spawns().len() ==> {
                    &&& (#[trigger] final(build_data).spawns()[i]).1 == pub_item_name(
                        i - old(build_data).spawns().len(),
                    )
                    &&& final(build_data).map.tiles@[final(build_data).spawns()[i].0 as int]
                        == TileType::FloorIndoor
                },
    {
        let ghost before = *build_data;
        let mut rooms: Vec<Rect> = Vec::new();
        let width = build_data.map.width;
        let height = build_data.map.height;
        let mut sx: i32 = 1;
        let mut sy: i32 = 1;
        let mut endx: i32 = width - 1;
        let mut endy: i32 = height - 1;
        match &build_data.submaps {
            Some(submaps) => {
                if submaps.len() > 0 {
                    sx = submaps[0].x1;
                    sy = submaps[0].y1;
                    endx = submaps[0].x2;
                    endy = submaps[0].y2;
                }
            },
            None => {},
        }
        fill_box(
            &mut build_data.map,
            sx as i64,
            endx as i64,
            sy as i64,
            endy as i64,
            false,
            false,
            TileType::Floor,
        );
        build_data.take_snapshot();
        self.rects.clear();
        self.rects.push(Rect::new(sx, sy, endx - 1, endy - 1));
        let first_room = self.rects[0];
        proof {
            lemma_quadrants_are_lots(first_room);
        }
        self.add_subrects(first_room);
        let ghost paved = *build_data;
        let mut n_rooms: u32 = 0;
        while n_rooms < PLACEMENT_ATTEMPTS
            invariant
                *build_data == paved,
                paved.wf(),
                width == paved.width,
                height == paved.height,
                width <= TOWN_LIMIT,
                height <= TOWN_LIMIT,
                n_rooms <= PLACEMENT_ATTEMPTS,
                1 <= self.rects@.len() <= 5 + 4 * n_rooms,
                forall|i: int| 0 <= i < self.rects@.len() ==> lot(#[trigger] self.rects@[i]),
                town_rooms(rooms@, width as int, height as int),
                rooms@.len() <= n_rooms,
                forall|i: int, x: int, y: int|
                    0 <= i < rooms@.len() && (#[trigger] rooms@[i]).x1 - 2 <= x <= rooms@[i].x2 + 2
                        && rooms@[i].y1 - 2 <= y <= rooms@[i].y2 + 2 ==> #[trigger] paved.map.tile_at(
                        x,
                        y,
                    ) == TileType::Floor,
            decreases PLACEMENT_ATTEMPTS - n_rooms,
        {
            let rect = self.get_random_rect(rng);
            let rect_width = side_of(rect.x1, rect.x2);
            let rect_height = side_of(rect.y1, rect.y2);
            if rect_width > MIN_ROOM_SIZE && rect_height > MIN_ROOM_SIZE {
                let candidate = self.get_random_sub_rect(rect, rng);
                if self.is_possible(candidate, build_data, &rooms) {
                    proof {
                        assert(build_data.map.tile_at(candidate.x1 - 2, candidate.y1 - 2)
                            == TileType::Floor);
                        assert(build_data.map.tile_at(candidate.x2 + 2, candidate.y2 + 2)
                            == TileType::Floor);
                        lemma_quadrants_are_lots(rect);
                    }
                    proof {
                        assert forall|i: int, x: int, y: int|
                            0 <= i < rooms@.push(candidate).len() && (#[trigger] rooms@.push(
                                candidate,
                            )[i]).x1 - 2 <= x <= rooms@.push(candidate)[i].x2 + 2 && rooms@.push(
                                candidate,
                            )[i].y1 - 2 <= y <= rooms@.push(candidate)[i].y2
                                + 2 implies #[trigger] paved.map.tile_at(x, y) == TileType::Floor by {
                            if i < rooms@.len() {
                                assert(rooms@.push(candidate)[i] == rooms@[i]);
                            }
                        }
                    }
                    rooms.push(candidate);
                    let ghost lots = self.rects@;
                    self.add_subrects(rect);
                    assert forall|i: int| 0 <= i < self.rects@.len() implies lot(
                        #[trigger] self.rects@[i],
                    ) by {
                        if i >= lots.len() {
                            assert(self.rects@[i] == quadrants(rect)[i - lots.len()]);
                        }
                    }
                }
            }
            n_rooms += 1;
        }
        let n = rooms.len();
        let mut i: usize = 0;
        let ghost mut doors: Seq<int> = Seq::empty();
        while i < n
            invariant
                i <= n,
                n == rooms@.len(),
                n <= PLACEMENT_ATTEMPTS,
                doors.len() == i,
                forall|k: int| 0 <= k < i ==> 1 <= #[trigger] doors[k] <= 4,
                forall|x: int, y: int|
                    before.map.in_bounds(x, y) ==> #[trigger] paved.map.tile_at(x, y)
                        == town_tile_at(&before, rooms@, doors, 0, x, y),
                forall|x: int, y: int|
                    before.map.in_bounds(x, y) ==> #[trigger] build_data.map.tile_at(x, y)
                        == town_tile_at(&before, rooms@, doors, i as int, x, y),
                before.wf(),
                paved.wf(),
                paved.extends(&before),
                paved.same_records(&before),
                width == paved.width,
                height == paved.height,
                width <= TOWN_LIMIT,
                height <= TOWN_LIMIT,
                build_data.wf(),
                build_data.extends(&paved),
                build_data.same_records(&paved),
                town_rooms(rooms@, width as int, height as int),
                forall|x: int, y: int|
                    before.map.in_bounds(x, y) && in_town(&before, x, y) ==> town_tile(
                        #[trigger] build_data.map.tile_at(x, y),
                    ),
                i >= 1 ==> build_data.map.tile_at(
                    half(rooms@[0].x1 + rooms@[0].x2),
                    half(rooms@[0].y1 + rooms@[0].y2),
                ) == TileType::FloorIndoor,
            decreases n - i,
        {
            let room = rooms[i];
            let door_direction = roll_dice(rng, 1, 4);
            let ghost prev = *build_data;
            let ghost earlier = doors;
            Self::carve_building(build_data, room, door_direction);
            proof {
                doors = doors.push(door_direction as int);
                assert forall|x: int, y: int|
                    before.map.in_bounds(x, y) implies #[trigger] build_data.map.tile_at(x, y)
                    == town_tile_at(&before, rooms@, doors, i + 1, x, y) by {
                    lemma_town_tile_prefix(&before, rooms@, earlier, rooms@, doors, i as int, x, y);
                    assert(prev.map.tile_at(x, y) == town_tile_at(
                        &before,
                        rooms@,
                        earlier,
                        i as int,
                        x,
                        y,
                    ));
                    assert(build_data.map.tile_at(x, y) == building_tile(
                        &prev.map,
                        room,
                        door_direction as int,
                        x,
                        y,
                    ));
                }
                let cx = half(rooms@[0].x1 + rooms@[0].x2);
                let cy = half(rooms@[0].y1 + rooms@[0].y2);
                lemma_center_is_indoor(&prev.map, rooms@[0], door_direction as int);
                if i >= 1 {
                    assert(!rooms@[0].overlaps(&rooms@[i as int]));
                    lemma_building_elsewhere(&prev.map, room, door_direction as int, cx, cy);
                }
                assert(build_data.map.tile_at(cx, cy) == TileType::FloorIndoor);
                assert forall|x: int, y: int|
                    before.map.in_bounds(x, y) && in_town(&before, x, y) implies town_tile(
                    #[trigger] build_data.map.tile_at(x, y),
                ) by {
                    assert(town_tile(prev.map.tile_at(x, y)));
                }
            }
            i += 1;
        }
        if n > 0 {
            proof {
                assert forall|k: int| 0 <= k < rooms@.len() implies area(#[trigger] rooms@[k])
                    <= i32::MAX by {
                    let a = side(rooms@[k].x1 as int, rooms@[k].x2 as int);
                    let b = side(rooms@[k].y1 as int, rooms@[k].y2 as int);
                    assert(a * b <= 144) by (nonlinear_arith)
                        requires
                            0 <= a <= 12,
                            0 <= b <= 12,
                    ;
                }
                lemma_center_is_indoor(&build_data.map, rooms@[0], 1);
            }
            let ranking = self.sort_buildings(&rooms);
            self.building_factory(rng, build_data, &rooms, &ranking);
        }
        proof {
            assert forall|k: int, x: int, y: int|
                0 <= k < rooms@.len() && (#[trigger] rooms@[k]).x1 - 2 <= x <= rooms@[k].x2 + 2
                    && rooms@[k].y1 - 2 <= y <= rooms@[k].y2 + 2 implies #[trigger] town_tile_at(
                &before,
                rooms@,
                doors,
                0,
                x,
                y,
            ) == TileType::Floor by {
                assert(paved.map.tile_at(x, y) == TileType::Floor);
            }
            assert(town_plan(&before, build_data, rooms@, doors));
        }
    }
}

impl InitialMapBuilder for BSPTownBuilder {
    open spec fn fits_grid(&self, width: int, height: int) -> bool {
        width <= TOWN_LIMIT && height <= TOWN_LIMIT
    }

    open spec fn provides(&self) -> Fields {
        Fields::none()
    }

    open spec fn outcome(&self, before: &BuilderMap, after: &BuilderMap) -> bool {
        exists|rooms: Seq<Rect>, doors: Seq<int>| #[trigger] town_plan(before, after, rooms, doors)
    }

    fn grid_ok(&self, width: i32, height: i32) -> (r: bool) {
        width <= TOWN_LIMIT && height <= TOWN_LIMIT
    }

    fn provided(&self) -> (r: Fields) {
        Fields { rooms: false, corridors: false, submaps: false }
    }

    fn build_map(&mut self, rng: &mut rltk::RandomNumberGenerator, build_data: &mut BuilderMap) {
        self.build(rng, build_data);
    }
}

impl MetaMapBuilder for BSPTownBuilder {
    open spec fn fits_grid(&self, width: int, height: int) -> bool {
        width <= TOWN_LIMIT && height <= TOWN_LIMIT
    }

    open spec fn needs(&self) -> Fields {
        Fields { rooms: false, corridors: false, submaps: true }
    }

    open spec fn provides(&self) -> Fields {
        Fields::none()
    }

    open spec fn outcome(&self, before: &BuilderMap, after: &BuilderMap) -> bool {
        exists|rooms: Seq<Rect>, doors: Seq<int>| #[trigger] town_plan(before, after, rooms, doors)
    }

    fn grid_ok(&self, width: i32, height: i32) -> (r: bool) {
        width <= TOWN_LIMIT && height <= TOWN_LIMIT
    }

    fn needed(&self) -> (r: Fields) {
        Fields { rooms: false, corridors: false, submaps: true }
    }

    fn provided(&self) -> (r: Fields) {
        Fields { rooms: false, corridors: false, submaps: false }
    }

    fn build_map(&mut self, rng: &mut rltk::RandomNumberGenerator, build_data: &mut BuilderMap) {
        self.build(rng, build_data);
    }
}

} // verus!
