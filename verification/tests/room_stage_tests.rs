use mapgen::map::TileType;
use mapgen::map_builders::bsp_dungeon::BspDungeonBuilder;
use mapgen::map_builders::bsp_town::placeable;
use mapgen::map_builders::common::fill_box;
use mapgen::map_builders::room_corner_rounding::RoomCornerRounder;
use mapgen::map_builders::room_draw::RoomDrawer;
use mapgen::map_builders::room_eroder::RoomEroder;
use mapgen::map_builders::rooms_corridors_bsp::BSPCorridors;
use mapgen::map_builders::{BuilderChain, BuilderMap};
use mapgen::rect::Rect;
use rltk::RandomNumberGenerator;

fn floors(bd: &BuilderMap) -> usize {
    bd.map.tiles.iter().filter(|t| **t == TileType::Floor).count()
}

#[test]
fn dungeon_rooms_stand_apart_on_rock() {
    let mut rng = RandomNumberGenerator::seeded(31);
    let mut bd = BuilderMap::new(80, 50);
    let mut stage = BspDungeonBuilder::new();
    stage.build(&mut rng, &mut bd);
    let rooms = bd.rooms.clone().unwrap();
    assert!(!rooms.is_empty() && rooms.len() <= 240);
    for (i, r) in rooms.iter().enumerate() {
        assert!(r.x1 >= 3 && r.x2 <= 76 && r.y1 >= 3 && r.y2 <= 46);
        assert!(r.x2 - r.x1 >= 4 && r.x2 - r.x1 <= 10);
        assert!(r.y2 - r.y1 >= 4 && r.y2 - r.y1 <= 10);
        for other in rooms[..i].iter() {
            assert!(!r.intersect(other));
        }
    }
    assert_eq!(floors(&bd), 0);
    assert_eq!(BspDungeonBuilder::side_for(1), 4);
    assert_eq!(BspDungeonBuilder::side_for(4), 4);
    assert_eq!(BspDungeonBuilder::side_for(5), 5);
    assert_eq!(BspDungeonBuilder::side_for(10), 10);
    let mut lots = BspDungeonBuilder::new();
    lots.add_subrects(Rect::new(2, 2, 10, 6));
    assert_eq!(lots.rects.len(), 4);
    assert_eq!(lots.rects[3], Rect { x1: 7, y1: 5, x2: 12, y2: 8 });
}

#[test]
fn placing_depends_on_the_ground() {
    let mut bd = BuilderMap::new(20, 20);
    let none: Vec<Rect> = Vec::new();
    assert!(placeable(Rect::new(5, 5, 4, 4), &bd.map, &none, TileType::Wall));
    assert!(!placeable(Rect::new(5, 5, 4, 4), &bd.map, &none, TileType::Floor));
    assert!(!placeable(Rect::new(2, 5, 4, 4), &bd.map, &none, TileType::Wall));
    bd.map.set_tile(11, 11, TileType::Floor);
    assert!(!placeable(Rect::new(5, 5, 4, 4), &bd.map, &none, TileType::Wall));
    assert!(placeable(Rect::new(5, 5, 4, 3), &bd.map, &none, TileType::Wall));
    assert!(!placeable(Rect::new(5, 5, 4, 3), &bd.map, &vec![Rect::new(9, 8, 2, 2)], TileType::Wall));
}

#[test]
fn rooms_are_drawn_as_rectangles_or_circles() {
    let room = Rect::new(4, 4, 8, 8);
    let mut boxed = BuilderMap::new(20, 20);
    let mut drawer = RoomDrawer::new();
    drawer.rectangle(&mut boxed, &room);
    assert_eq!(floors(&boxed), 64);
    assert_eq!(boxed.map.tile(5, 5), TileType::Floor);
    assert_eq!(boxed.map.tile(12, 12), TileType::Floor);
    assert_eq!(boxed.map.tile(4, 5), TileType::Wall);
    let mut round = BuilderMap::new(20, 20);
    drawer.circle(&mut round, &room);
    for y in 0..20 {
        for x in 0..20 {
            let inside = x >= 4 && x <= 12 && y >= 4 && y <= 12 && (x - 8) * (x - 8) + (y - 8) * (y - 8) <= 16;
            assert_eq!(round.map.tile(x, y) == TileType::Floor, inside);
        }
    }
    assert_eq!(round.map.tile(8, 4), TileType::Floor);
    assert_eq!(round.map.tile(4, 4), TileType::Wall);
    let mut rng = RandomNumberGenerator::seeded(2);
    let mut bd = BuilderMap::new(40, 30);
    bd.rooms = Some(vec![Rect::new(2, 2, 6, 6), Rect::new(12, 2, 6, 6), Rect::new(22, 2, 6, 6), Rect::new(2, 12, 6, 6)]);
    drawer.build(&mut rng, &mut bd);
    assert_eq!(bd.history.len(), 4);
    for r in bd.rooms.clone().unwrap().iter() {
        let c = r.center();
        assert_eq!(bd.map.tile(c.0, c.1), TileType::Floor);
    }
    assert!(floors(&bd) > 0);
}

#[test]
fn corners_with_two_walls_are_filled_in() {
    let mut bd = BuilderMap::new(12, 12);
    let room = Rect::new(2, 2, 5, 5);
    fill_box(&mut bd.map, 3, 8, 3, 8, false, false, TileType::Floor);
    bd.rooms = Some(vec![room]);
    let mut stage = RoomCornerRounder::new();
    stage.build(&mut bd);
    assert_eq!(bd.map.tile(3, 3), TileType::Wall);
    assert_eq!(bd.map.tile(7, 3), TileType::Wall);
    assert_eq!(bd.map.tile(3, 7), TileType::Wall);
    assert_eq!(bd.map.tile(7, 7), TileType::Wall);
    assert_eq!(bd.map.tile(4, 3), TileType::Floor);
    assert_eq!(floors(&bd), 21);
    assert_eq!(bd.history.len(), 1);
    let mut open = BuilderMap::new(12, 12);
    fill_box(&mut open.map, 1, 11, 1, 11, false, false, TileType::Floor);
    stage.fill_if_corner(5, 5, &mut open);
    assert_eq!(open.map.tile(5, 5), TileType::Floor);
    stage.fill_if_corner(1, 1, &mut open);
    assert_eq!(open.map.tile(1, 1), TileType::Wall);
    stage.fill_if_corner(10, 10, &mut open);
    assert_eq!(open.map.tile(10, 10), TileType::Floor);
    stage.round(40, 3, &mut open);
    stage.round(-1, -1, &mut open);
    assert_eq!(floors(&open), 99);
}

#[test]
fn erosion_only_adds_floor() {
    let mut rng = RandomNumberGenerator::seeded(77);
    let mut bd = BuilderMap::new(40, 30);
    let rooms = vec![Rect::new(5, 5, 6, 6), Rect::new(20, 10, 6, 6)];
    for r in rooms.iter() {
        fill_box(&mut bd.map, r.x1 as i64 + 1, r.x2 as i64 + 1, r.y1 as i64 + 1, r.y2 as i64 + 1, false, false, TileType::Floor);
    }
    bd.map.set_tile(0, 0, TileType::Tree);
    bd.rooms = Some(rooms.clone());
    let before = bd.map.tiles.clone();
    let mut stage = RoomEroder::new();
    stage.build(&mut rng, &mut bd);
    for (i, t) in bd.map.tiles.iter().enumerate() {
        assert!(*t == before[i] || *t == TileType::Floor);
    }
    assert!(bd.map.tiles.iter().all(|t| *t != TileType::DownStairs));
    assert_eq!(bd.rooms, Some(rooms));
    assert_eq!(RoomEroder::walkers_for(20), 15);
    assert_eq!(RoomEroder::walkers_for(6), 1);
    assert_eq!(RoomEroder::walkers_for(5), 0);
    assert_eq!(RoomEroder::walkers_for(1), 0);
}

#[test]
fn a_dungeon_of_drawn_rooms_and_corridors() {
    let mut rng = RandomNumberGenerator::seeded(8);
    let mut chain = BuilderChain::new(80, 50);
    chain.start_with(BspDungeonBuilder::new());
    chain.with(RoomDrawer::new());
    chain.with(BSPCorridors::new());
    chain.with(RoomCornerRounder::new());
    chain.with(RoomEroder::new());
    assert!(chain.is_composed());
    chain.build_map(&mut rng);
    let bd = &chain.build_data;
    assert!(floors(bd) > 0);
    assert_eq!(bd.corridors.as_ref().unwrap().len(), bd.rooms.as_ref().unwrap().len() - 1);
    for x in 0..80 {
        assert_eq!(bd.map.tile(x, 0), TileType::Wall);
        assert_eq!(bd.map.tile(x, 49), TileType::Wall);
    }
}

#[test]
fn walkers_stay_near_the_middle_of_their_room() {
    for seed in 1..20u64 {
        let mut rng = RandomNumberGenerator::seeded(seed);
        let mut bd = BuilderMap::new(60, 60);
        let rooms = vec![Rect::new(28, 28, 4, 4)];
        bd.rooms = Some(rooms);
        let snapshots = bd.history.len();
        let mut stage = RoomEroder::new();
        stage.build(&mut rng, &mut bd);
        let mut changed = 0;
        for y in 0..60i32 {
            for x in 0..60i32 {
                if bd.map.tile(x, y) != TileType::Wall {
                    assert_eq!(bd.map.tile(x, y), TileType::Floor);
                    assert!((x - 30).abs() + (y - 30).abs() <= 19);
                    changed += 1;
                }
            }
        }
        assert!(changed <= 15 * 20);
        assert!(bd.history.len() <= snapshots + 15);
        if changed > 0 {
            assert_eq!(bd.map.tile(30, 30), TileType::Floor);
        }
    }
}

fn open_ground_with_three_walls() -> BuilderMap {
    let mut bd = BuilderMap::new(12, 12);
    fill_box(&mut bd.map, 1, 11, 1, 11, false, false, TileType::Floor);
    bd.map.set_tile(2, 3, TileType::Wall);
    bd.map.set_tile(3, 2, TileType::Wall);
    bd.map.set_tile(4, 2, TileType::Wall);
    bd
}

#[test]
fn corners_are_looked_at_one_after_the_other() {
    let first = Rect::new(2, 2, 1, 1);
    let second = Rect::new(3, 2, 1, 1);
    let mut bd = open_ground_with_three_walls();
    let mut turned = open_ground_with_three_walls();
    bd.rooms = Some(vec![first, second]);
    let mut stage = RoomCornerRounder::new();
    stage.build(&mut bd);
    assert_eq!(bd.map.tile(3, 3), TileType::Wall);
    assert_eq!(bd.map.tile(4, 3), TileType::Wall);
    assert_eq!(bd.history.len(), 2);
    turned.rooms = Some(vec![second, first]);
    stage.build(&mut turned);
    assert_eq!(turned.map.tile(3, 3), TileType::Wall);
    assert_eq!(turned.map.tile(4, 3), TileType::Floor);
}

#[test]
fn walkers_sent_from_a_room_wear_its_middle_away() {
    let mut rng = RandomNumberGenerator::seeded(5);
    let mut bd = BuilderMap::new(60, 60);
    bd.rooms = Some(vec![Rect::new(2, 2, 4, 4), Rect::new(28, 28, 4, 4)]);
    let mut stage = RoomEroder::new();
    stage.send_walkers(&mut rng, &mut bd, 1, 0);
    stage.send_walkers(&mut rng, &mut bd, 1, -3);
    assert_eq!(floors(&bd), 0);
    assert_eq!(bd.history.len(), 0);
    stage.send_walkers(&mut rng, &mut bd, 1, 3);
    assert_eq!(bd.map.tile(30, 30), TileType::Floor);
    assert_eq!(bd.map.tile(4, 4), TileType::Wall);
    assert!(floors(&bd) >= 1 && floors(&bd) <= 60);
    assert!(bd.history.len() >= 1 && bd.history.len() <= 3);
    for y in 0..60i32 {
        for x in 0..60i32 {
            if bd.map.tile(x, y) != TileType::Wall {
                assert_eq!(bd.map.tile(x, y), TileType::Floor);
                assert!((x - 30).abs() + (y - 30).abs() <= 19);
            }
        }
    }
    stage.send_walkers(&mut rng, &mut bd, 0, 1);
    assert_eq!(bd.map.tile(4, 4), TileType::Floor);
}
