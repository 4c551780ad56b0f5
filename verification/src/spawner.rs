use crate::map::{Grid, TileType};
use crate::map_builders::{lemma_spawn_model_push, spawn_model};
use crate::random_table::RandomTable;
use crate::rect::Rect;
use crate::rng::roll_dice;
use vstd::prelude::*;
use vstd::string::*;

verus! {

/// Whether the cell of index `idx` is a floor cell of the room that is no
/// part of its top row or left column or bottom row or right column.
pub open spec fn room_target(map: &Grid, room: &Rect, idx: int) -> bool {
    exists|x: int, y: int|
        {
            &&& room.x1 < x < room.x2
            &&& room.y1 < y < room.y2
            &&& idx == #[trigger] map.index_of(x, y)
            &&& map.tile_at(x, y) == TileType::Floor
        }
}

/// Whether a name can come out of a draw from the table: it is the name of
/// an entry, or `"None"` where the table is empty.
pub open spec fn can_roll(table: &RandomTable, name: String) -> bool {
    if table.total_weight == 0 {
        name@ == "None"@
    } else {
        exists|i: int| 0 <= i < table.entries@.len() && name == #[trigger] table.entries@[i].name
    }
}

/// The name for a roll of a die with two faces.
pub open spec fn roll_name(roll: int) -> Seq<char> {
    if roll == 1 {
        "Human"@
    } else {
        "Cop"@
    }
}

/// The name of the item for a roll of a die with four faces.
pub open spec fn roll_item_name(roll: int) -> Seq<char> {
    if roll == 1 {
        "Medkit"@
    } else if roll == 2 {
        "Grenade"@
    } else if roll == 3 {
        "Concussion Grenade"@
    } else {
        "Pistol"@
    }
}

/// Collects the floor cells inside a room, row after row.
#[verifier::rlimit(50)]
pub fn room_targets(map: &Grid, room: &Rect) -> (targets: Vec<usize>)
    requires
        map.wf(),
        room.fits(map.width as int, map.height as int),
    ensures
        targets@.len() < map.cells(),
        forall|k: int| 0 <= k < targets@.len() ==> room_target(map, room, #[trigger] targets@[k] as int),
        forall|x: int, y: int|
            room.x1 < x < room.x2 && room.y1 < y < room.y2 && map.tile_at(x, y) == TileType::Floor
                ==> targets@.contains(#[trigger] map.index_of(x, y) as usize),
{
    let mut possible_targets: Vec<usize> = Vec::new();
    proof {
        map.lemma_has_cells();
    }
    if room.y1 >= room.y2 || room.x1 >= room.x2 {
        return possible_targets;
    }
    let mut y = room.y1 + 1;
    while y < room.y2
        invariant
            map.wf(),
            room.fits(map.width as int, map.height as int),
            room.x1 < room.x2,
            room.y1 < y <= room.y2,
            forall|k: int|
                0 <= k < possible_targets@.len() ==> k < #[trigger] possible_targets@[k] < y
                    * map.width,
            forall|k: int|
                0 <= k < possible_targets@.len() ==> room_target(
                    map,
                    room,
                    #[trigger] possible_targets@[k] as int,
                ),
            forall|a: int, b: int|
                room.x1 < a < room.x2 && room.y1 < b < y && map.tile_at(a, b) == TileType::Floor
                    ==> possible_targets@.contains(#[trigger] map.index_of(a, b) as usize),
        decreases room.y2 - y,
    {
        let mut x = room.x1 + 1;
        while x < room.x2
            invariant
                map.wf(),
                room.fits(map.width as int, map.height as int),
                room.y1 < y < room.y2,
                room.x1 < x <= room.x2,
                forall|k: int|
                    0 <= k < possible_targets@.len() ==> k < #[trigger] possible_targets@[k] < y
                        * map.width + x,
                forall|k: int|
                    0 <= k < possible_targets@.len() ==> room_target(
                        map,
                        room,
                        #[trigger] possible_targets@[k] as int,
                    ),
                forall|a: int, b: int|
                    room.x1 < a < room.x2 && (room.y1 < b < y || (b == y && a < x)) && map.tile_at(
                        a,
                        b,
                    ) == TileType::Floor ==> possible_targets@.contains(
                        #[trigger] map.index_of(a, b) as usize,
                    ),
            decreases room.x2 - x,
        {
            let idx = map.xy_idx(x, y);
            if map.tiles[idx] == TileType::Floor {
                let ghost found = possible_targets@;
                possible_targets.push(idx);
                proof {
                    assert(map.index_of(x as int, y as int) == idx);
                    assert(possible_targets@[found.len() as int] == idx);
                    assert(0 <= y * map.width) by (nonlinear_arith)
                        requires
                            0 <= y,
                            0 < map.width,
                    ;
                    if found.len() > 0 {
                        assert(found.len() - 1 < found[found.len() - 1]);
                    }
                    assert forall|k: int| 0 <= k < possible_targets@.len() implies k
                        < #[trigger] possible_targets@[k] < y * map.width + x + 1 by {
                        if k < found.len() {
                            assert(possible_targets@[k] == found[k]);
                        }
                    }
                    assert forall|a: int, b: int|
                        room.x1 < a < room.x2 && (room.y1 < b < y || (b == y && a < x + 1))
                            && map.tile_at(a, b) == TileType::Floor implies possible_targets@.contains(
                        #[trigger] map.index_of(a, b) as usize,
                    ) by {
                        if b == y && a == x {
                        } else {
                            let k = choose|k: int|
                                0 <= k < found.len() && found[k] == map.index_of(a, b) as usize;
                            assert(possible_targets@[k] == found[k]);
                        }
                    }
                }
            }
            x += 1;
        }
        proof {
            assert((y + 1) * map.width == y * map.width + map.width) by (nonlinear_arith);
        }
        y += 1;
    }
    proof {
        if possible_targets@.len() > 0 {
            let last = possible_targets@.len() - 1;
            assert(last < possible_targets@[last]);
            assert(y * map.width <= map.height * map.width) by (nonlinear_arith)
                requires
                    y <= map.height,
                    0 < map.width,
            ;
            assert(map.height * map.width == map.width * map.height) by (nonlinear_arith);
        }
    }
    possible_targets
}

/// Asks for one thing, drawn from the table, on one of the cells of the
/// area, drawn at random. Nothing is asked for where the area is empty.
pub fn spawn_region(
    rng: &mut rltk::RandomNumberGenerator,
    area: &Vec<usize>,
    table: &RandomTable,
    list_spawns: &mut Vec<(usize, String)>,
)
    requires
        table.wf(),
        area@.len() < i32::MAX,
    ensures
        area@.len() == 0 ==> *final(list_spawns) == *old(list_spawns),
        area@.len() > 0 ==> {
            &&& final(list_spawns)@.len() == old(list_spawns)@.len() + 1
            &&& final(list_spawns)@.drop_last() == old(list_spawns)@
            &&& area@.contains(final(list_spawns)@.last().0)
            &&& can_roll(table, final(list_spawns)@.last().1)
        },
{
    if area.len() == 0 {
        return ;
    }
    let array_index = if area.len() == 1 {
        0usize
    } else {
        (roll_dice(rng, 1, area.len() as i32) - 1) as usize
    };
    let map_idx = area[array_index];
    let name = table.roll(rng);
    list_spawns.push((map_idx, name));
    assert(list_spawns@.drop_last() =~= old(list_spawns)@);
    assert(area@[array_index as int] == map_idx);
}

/// Whether a room has a floor cell inside.
pub open spec fn has_target(map: &Grid, room: &Rect) -> bool {
    exists|idx: int| room_target(map, room, idx)
}

/// Asks for one thing, drawn from the table, on a floor cell inside the
/// room, drawn at random: where the room has floor inside, exactly one
/// request is added. Nothing is asked for where the room has no floor
/// inside.
#[verifier::rlimit(50)]
pub fn spawn_room(
    map: &Grid,
    rng: &mut rltk::RandomNumberGenerator,
    room: &Rect,
    table: &RandomTable,
    list_spawns: &mut Vec<(usize, String)>,
)
    requires
        map.wf(),
        table.wf(),
        room.fits(map.width as int, map.height as int),
    ensures
        !has_target(map, room) ==> *final(list_spawns) == *old(list_spawns),
        has_target(map, room) ==> {
            &&& final(list_spawns)@.len() == old(list_spawns)@.len() + 1
            &&& final(list_spawns)@.drop_last() == old(list_spawns)@
            &&& room_target(map, room, final(list_spawns)@.last().0 as int)
            &&& can_roll(table, final(list_spawns)@.last().1)
        },
{
    let possible_targets = room_targets(map, room);
    proof {
        if possible_targets@.len() > 0 {
            assert(room_target(map, room, possible_targets@[0] as int));
        }
        if has_target(map, room) {
            let idx = choose|idx: int| room_target(map, room, idx);
            let (x, y) = choose|x: int, y: int|
                {
                    &&& room.x1 < x < room.x2
                    &&& room.y1 < y < room.y2
                    &&& idx == #[trigger] map.index_of(x, y)
                    &&& map.tile_at(x, y) == TileType::Floor
                };
            assert(possible_targets@.contains(map.index_of(x, y) as usize));
        }
    }
    spawn_region(rng, &possible_targets, table, list_spawns);
    proof {
        if possible_targets@.len() > 0 {
            let idx = list_spawns@.last().0;
            let k = choose|k: int| 0 <= k < possible_targets@.len() && possible_targets@[k] == idx;
            assert(room_target(map, room, possible_targets@[k] as int));
        }
    }
}

/// Picks a name by the roll of a die.
pub fn select_by_roll(roll: i32) -> (name: String)
    ensures
        name@ == roll_name(roll as int),
{
    if roll == 1 {
        String::from_str("Human")
    } else {
        String::from_str("Cop")
    }
}

/// Picks the name of an item by the roll of a die.
pub fn select_item_by_roll(roll: i32) -> (name: String)
    ensures
        name@ == roll_item_name(roll as int),
{
    if roll == 1 {
        String::from_str("Medkit")
    } else if roll == 2 {
        String::from_str("Grenade")
    } else if roll == 3 {
        String::from_str("Concussion Grenade")
    } else {
        String::from_str("Pistol")
    }
}

/// Draws one of two names, each as likely as the other.
pub fn random_select_roll(rng: &mut rltk::RandomNumberGenerator) -> (name: String)
    ensures
        name@ == "Human"@ || name@ == "Cop"@,
{
    let roll = roll_dice(rng, 1, 2);
    select_by_roll(roll)
}

/// Draws the name of one of four items, each as likely as the others.
pub fn random_select_item_roll(rng: &mut rltk::RandomNumberGenerator) -> (name: String)
    ensures
        name@ == "Medkit"@ || name@ == "Grenade"@ || name@ == "Concussion Grenade"@ || name@
            == "Pistol"@,
{
    let roll = roll_dice(rng, 1, 4);
    select_item_by_roll(roll)
}

} // verus!
