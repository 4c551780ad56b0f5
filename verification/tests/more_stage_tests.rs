use mapgen::map::{tile_walkable, Grid, TileType};
use mapgen::map_builders::area_starting_points::{AreaStartingPosition, XStart, YStart};
use mapgen::map_builders::cellular_automata::CellularAutomataBuilder;
use mapgen::map_builders::common::{apply_horizontal_tunnel, apply_room_to_map, apply_vertical_tunnel, draw_corridor};
use mapgen::map_builders::rectangle_builder::RectBuilder;
use mapgen::map_builders::room_based_starting::RoomBasedStartingPosition;
use mapgen::map_builders::room_corridor_spawner::CorridorSpawner;
use mapgen::map_builders::rooms_corridors_bsp::BSPCorridors;
use mapgen::map_builders::rooms_corridors_dogleg::DoglegCorridors;
use mapgen::map_builders::rooms_corridors_nearest::NearestCorridors;
use mapgen::map_builders::rooms_corridors_nearest_line::StraightLineCorridors;
use mapgen::map_builders::simple_map::SimpleMapBuilder;
use mapgen::map_builders::door_placement::DoorPlacement;
use mapgen::map_builders::voronoi_spawning::VoronoiSpawning;
use mapgen::map_builders::{random_builder, BuilderChain, BuilderMap, Position};
use mapgen::random_table::RandomTable;
use mapgen::rect::Rect;
use rltk::RandomNumberGenerator;

#[test]
fn tunnels_report_the_cells_they_carve() {
    let mut map = Grid::new(10, 10);
    map.set_tile(4, 2, TileType::Floor);
    let cells = apply_horizontal_tunnel(&mut map, 6, 3, 2);
    assert_eq!(cells, vec![23, 25, 26]);
    let down = apply_vertical_tunnel(&mut map, 1, 4, 5);
    assert_eq!(down, vec![15, 35, 45]);
    let none = apply_vertical_tunnel(&mut map, 1, 4, 12);
    assert!(none.is_empty());
    let clipped = apply_horizontal_tunnel(&mut map, -3, 1, 0);
    assert_eq!(clipped, vec![1]);
    let mut other = Grid::new(10, 10);
    other.set_tile(5, 2, TileType::Floor);
    let path = draw_corridor(&mut other, 3, 2, 6, 4);
    assert_eq!(path, vec![24, 26, 36, 46]);
    let again = draw_corridor(&mut other, 3, 2, 6, 4);
    assert!(again.is_empty());
}

#[test]
fn start_goes_to_the_nearest_walkable_cell() {
    let mut bd = BuilderMap::new(20, 20);
    bd.map.set_tile(3, 3, TileType::Floor);
    bd.map.set_tile(12, 10, TileType::FloorIndoor);
    bd.map.set_tile(8, 10, TileType::DownStairs);
    bd.map.set_tile(10, 9, TileType::Tree);
    let mut center = AreaStartingPosition::new(XStart::CENTER, YStart::CENTER);
    center.build(&mut bd);
    assert_eq!(bd.starting_position, Some(Position { x: 8, y: 10 }));
    let mut left = AreaStartingPosition::new(XStart::LEFT, YStart::TOP);
    left.build(&mut bd);
    assert_eq!(bd.starting_position, Some(Position { x: 3, y: 3 }));
    let mut right = AreaStartingPosition::new(XStart::RIGHT, YStart::BOTTOM);
    right.build(&mut bd);
    assert_eq!(bd.starting_position, Some(Position { x: 12, y: 10 }));
    let start = bd.starting_position.unwrap();
    assert!(tile_walkable(bd.map.tile(start.x, start.y)));
    assert_eq!(AreaStartingPosition::find_nearest(&bd.map, 10, 10), Some(208));
    assert_eq!(AreaStartingPosition::find_nearest(&Grid::new(5, 5), 2, 2), None);
}

#[test]
fn start_is_left_alone_without_floor() {
    let mut bd = BuilderMap::new(8, 8);
    bd.starting_position = Some(Position { x: 1, y: 1 });
    let mut stage = AreaStartingPosition::new(XStart::CENTER, YStart::CENTER);
    stage.build(&mut bd);
    assert_eq!(bd.starting_position, Some(Position { x: 1, y: 1 }));
}

#[test]
fn smoothing_counts_the_walls_around() {
    let stage = CellularAutomataBuilder::new();
    assert_eq!(stage.wall_percent, 55);
    assert_eq!(stage.passes, 15);
    assert_eq!(stage.wall_threshold, 5);
    assert_eq!(stage.seed_tile(56), TileType::Floor);
    assert_eq!(stage.seed_tile(55), TileType::Wall);
    assert_eq!(stage.seed_tile(1), TileType::Wall);
    let mut map = Grid::new(5, 5);
    for y in 1..4 {
        for x in 1..4 {
            map.set_tile(x, y, TileType::Floor);
        }
    }
    assert_eq!(CellularAutomataBuilder::count_walls(&map, 2, 2), 0);
    assert_eq!(CellularAutomataBuilder::count_walls(&map, 1, 1), 5);
    assert_eq!(CellularAutomataBuilder::count_walls(&map, 2, 1), 3);
    stage.smooth(&mut map);
    assert_eq!(map.tile(1, 1), TileType::Wall);
    assert_eq!(map.tile(3, 3), TileType::Wall);
    assert_eq!(map.tile(2, 1), TileType::Floor);
    assert_eq!(map.tile(2, 2), TileType::Floor);
    assert_eq!(map.tile(0, 0), TileType::Wall);
    assert_eq!(map.tiles.iter().filter(|t| **t == TileType::Floor).count(), 5);
}

#[test]
fn cave_has_walls_and_floor_inside_and_keeps_its_border() {
    let mut rng = RandomNumberGenerator::seeded(12);
    let mut bd = BuilderMap::new(40, 30);
    bd.map.set_tile(0, 5, TileType::Tree);
    bd.map.set_tile(5, 5, TileType::Tree);
    let mut stage = CellularAutomataBuilder::new();
    stage.build(&mut rng, &mut bd);
    assert_eq!(bd.history.len(), 16);
    assert_eq!(bd.map.tile(0, 5), TileType::Tree);
    for y in 0..30 {
        for x in 0..40 {
            let t = bd.map.tile(x, y);
            if x >= 1 && x < 39 && y >= 1 && y < 29 {
                assert!(t == TileType::Wall || t == TileType::Floor);
            } else if (x, y) != (0, 5) {
                assert_eq!(t, TileType::Wall);
            }
        }
    }
    assert!(bd.map.tiles.iter().any(|t| *t == TileType::Floor));
}

fn three_rooms() -> BuilderMap {
    let mut bd = BuilderMap::new(40, 30);
    let rooms = vec![Rect::new(2, 2, 5, 5), Rect::new(20, 3, 6, 6), Rect::new(10, 18, 6, 6)];
    for r in rooms.iter() {
        apply_room_to_map(&mut bd.map, r);
    }
    bd.rooms = Some(rooms);
    bd
}

fn all_floor(bd: &BuilderMap) -> bool {
    bd.corridors.as_ref().unwrap().iter().all(|c| c.iter().all(|i| bd.map.tiles[*i] == TileType::Floor))
}

#[test]
fn dogleg_corridors_join_each_room_to_the_one_before() {
    let mut rng = RandomNumberGenerator::seeded(3);
    let mut bd = three_rooms();
    let mut stage = DoglegCorridors::new();
    stage.corridors(&mut rng, &mut bd);
    let halls = bd.corridors.clone().unwrap();
    assert_eq!(halls.len(), 2);
    assert!(all_floor(&bd));
    assert!(!halls[0].is_empty() && !halls[1].is_empty());
    assert_eq!(bd.history.len(), 2);
    let a = Rect::new(2, 2, 5, 5).center();
    let b = Rect::new(20, 3, 6, 6).center();
    let bend_one = bd.map.tile(b.0, a.1) == TileType::Floor;
    let bend_two = bd.map.tile(a.0, b.1) == TileType::Floor;
    assert!(bend_one || bend_two);
}

#[test]
fn bsp_corridors_join_each_room_to_the_next() {
    let mut rng = RandomNumberGenerator::seeded(3);
    let mut bd = three_rooms();
    let mut stage = BSPCorridors::new();
    stage.corridors(&mut rng, &mut bd);
    assert_eq!(bd.corridors.as_ref().unwrap().len(), 2);
    assert!(all_floor(&bd));
    for _ in 0..50 {
        let p = BSPCorridors::point_in(&mut rng, 4, 9, 40);
        assert!(p >= 4 && p < 9);
    }
    assert_eq!(BSPCorridors::point_in(&mut rng, 7, 7, 40), 7);
    let mut alone = BuilderMap::new(20, 20);
    alone.rooms = Some(vec![Rect::new(2, 2, 5, 5)]);
    stage.corridors(&mut rng, &mut alone);
    assert!(alone.corridors.unwrap().is_empty());
    let mut empty = BuilderMap::new(20, 20);
    empty.rooms = Some(Vec::new());
    stage.corridors(&mut rng, &mut empty);
    assert!(empty.corridors.unwrap().is_empty());
}

#[test]
fn nearest_corridors_pick_the_nearest_unjoined_room() {
    let rooms = vec![Rect::new(2, 2, 5, 5), Rect::new(20, 3, 6, 6), Rect::new(10, 18, 6, 6)];
    assert_eq!(NearestCorridors::measure(&rooms[0], &rooms[1]), 19 * 19 + 2 * 2);
    assert_eq!(NearestCorridors::nearest_room(&rooms, &vec![false, false, false], 0), Some(1));
    assert_eq!(NearestCorridors::nearest_room(&rooms, &vec![false, true, false], 0), Some(2));
    assert_eq!(NearestCorridors::nearest_room(&rooms, &vec![true, true, true], 0), None);
    assert_eq!(NearestCorridors::nearest_room(&rooms, &vec![false, true, true], 0), None);
    let twins = vec![Rect::new(10, 10, 2, 2), Rect::new(5, 10, 2, 2), Rect::new(15, 10, 2, 2)];
    assert_eq!(NearestCorridors::nearest_room(&twins, &vec![false, false, false], 0), Some(1));
    let mut bd = three_rooms();
    let mut stage = NearestCorridors::new();
    stage.corridors(&mut bd);
    let halls = bd.corridors.clone().unwrap();
    assert_eq!(halls.len(), 2);
    assert!(all_floor(&bd));
}

#[test]
fn room_based_start_is_the_middle_of_the_first_room() {
    let mut bd = three_rooms();
    let mut stage = RoomBasedStartingPosition::new();
    stage.build(&mut bd);
    assert_eq!(bd.starting_position, Some(Position { x: 4, y: 4 }));
    assert_eq!(bd.map.tile(4, 4), TileType::Floor);
    let mut empty = BuilderMap::new(10, 10);
    empty.rooms = Some(Vec::new());
    stage.build(&mut empty);
    assert!(empty.starting_position.is_none());
}

#[test]
fn corridor_spawner_asks_once_per_corridor() {
    let mut rng = RandomNumberGenerator::seeded(5);
    let mut bd = BuilderMap::new(20, 20);
    bd.spawn_table = RandomTable::new().add("Rat", 1);
    bd.corridors = Some(vec![vec![21, 22, 23], vec![], vec![45]]);
    let mut stage = CorridorSpawner::new();
    stage.build(&mut rng, &mut bd);
    assert_eq!(bd.list_spawns.len(), 2);
    assert!([21usize, 22, 23].contains(&bd.list_spawns[0].0));
    assert_eq!(bd.list_spawns[1], (45, "Rat".to_string()));
}

#[test]
fn every_region_of_the_floor_gets_one_request() {
    let mut rng = RandomNumberGenerator::seeded(5);
    let mut bd = BuilderMap::new(8, 6);
    bd.spawn_table = RandomTable::new().add("Rat", 1).add("Bat", 1);
    let mut regions = vec![0; 48];
    for y in 0..6 {
        for x in 0..8 {
            regions[y * 8 + x] = if x < 3 { 7 } else if x < 6 { -2 } else { 30 };
        }
    }
    for (x, y) in [(1, 1), (2, 2), (4, 1), (4, 2), (5, 4), (7, 3), (0, 2)] {
        bd.map.set_tile(x, y, TileType::Floor);
    }
    let stage = VoronoiSpawning::with_regions(regions.clone());
    let groups = stage.group_by_region(&bd.map);
    assert_eq!(groups, vec![(-2, vec![12, 20, 37]), (7, vec![9, 18])]);
    let mut stage = stage;
    stage.build(&mut rng, &mut bd);
    assert_eq!(bd.list_spawns.len(), 2);
    assert!([12usize, 20, 37].contains(&bd.list_spawns[0].0));
    assert!([9usize, 18].contains(&bd.list_spawns[1].0));
    for (_, tag) in bd.list_spawns.iter() {
        assert!(tag == "Rat" || tag == "Bat");
    }
    assert_eq!(VoronoiSpawning::group_place(&groups, 7), 1);
    assert_eq!(VoronoiSpawning::group_place(&groups, 0), 1);
    assert_eq!(VoronoiSpawning::group_place(&groups, -5), 0);
    assert_eq!(VoronoiSpawning::group_place(&groups, 8), 2);
    assert!(VoronoiSpawning::new().regions.is_empty());
}

#[test]
fn the_middle_of_the_grid_is_set_aside() {
    let mut bd = BuilderMap::new(80, 50);
    let mut stage = RectBuilder::new();
    stage.build(&mut bd);
    assert_eq!(bd.submaps, Some(vec![Rect { x1: 20, y1: 12, x2: 60, y2: 37 }]));
    let mut small = BuilderMap::new(1, 1);
    stage.build(&mut small);
    assert_eq!(small.submaps, Some(vec![Rect { x1: 0, y1: 0, x2: 0, y2: 0 }]));
}

#[test]
fn the_factory_chain_builds_a_town_in_the_land() {
    let mut rng = RandomNumberGenerator::seeded(42);
    let mut negative = vec![false; 4000];
    let mut regions = vec![0; 4000];
    for i in 0..4000usize {
        negative[i] = (i / 7) % 3 != 0;
        regions[i] = ((i % 80) / 20 + 4 * ((i / 80) / 25)) as i32;
    }
    let mut chain = random_builder(&mut rng, 80, 50, negative.clone(), regions.clone());
    chain.build_data.spawn_table = RandomTable::new().add("Deer", 1);
    assert!(chain.is_started());
    assert_eq!(chain.builders.len(), 4);
    assert!(chain.is_composed());
    chain.build_map(&mut rng);
    let bd = &chain.build_data;
    assert_eq!(bd.submaps, Some(vec![Rect { x1: 20, y1: 12, x2: 60, y2: 37 }]));
    for y in 12..37 {
        for x in 20..60 {
            let t = bd.map.tile(x, y);
            assert!(t == TileType::Floor || t == TileType::Wall || t == TileType::FloorIndoor);
        }
    }
    assert!(bd.map.tiles.iter().any(|t| *t == TileType::Tree));
    let start = bd.starting_position.unwrap();
    assert_eq!(bd.map.tile(start.x, start.y), TileType::FloorIndoor);
    assert!(bd.list_spawns.iter().any(|s| s.1 == "Deer"));
    assert!(bd.list_spawns.iter().any(|s| s.1 == "Barkeep"));
    let mut again = RandomNumberGenerator::seeded(42);
    let mut second = random_builder(&mut again, 80, 50, negative, regions);
    second.build_data.spawn_table = RandomTable::new().add("Deer", 1);
    second.build_map(&mut again);
    assert_eq!(second.build_data.map.tiles, bd.map.tiles);
    assert_eq!(second.build_data.list_spawns, bd.list_spawns);
    assert_eq!(second.build_data.starting_position, bd.starting_position);
    let wrong = random_builder(&mut again, 80, 50, vec![true; 10], vec![0; 4000]);
    assert!(!wrong.is_composed());
}

#[test]
fn corridors_give_doors_their_places() {
    let mut rng = RandomNumberGenerator::seeded(19);
    let mut chain = BuilderChain::new(80, 50);
    chain.start_with(Box::new(SimpleMapBuilder::new()));
    chain.with(DoglegCorridors::new());
    chain.with(CorridorSpawner::new());
    chain.with(DoorPlacement::new());
    chain.with(RoomBasedStartingPosition::new());
    assert!(chain.is_composed());
    chain.build_data.spawn_table = RandomTable::new().add("Rat", 1);
    chain.build_map(&mut rng);
    let bd = &chain.build_data;
    let halls = bd.corridors.as_ref().unwrap();
    assert_eq!(halls.len(), bd.rooms.as_ref().unwrap().len() - 1);
    for (idx, tag) in bd.list_spawns.iter() {
        if tag == "Door" {
            assert!(halls.iter().any(|h| h.len() > 2 && h[0] == *idx));
        } else {
            assert_eq!(tag, "Rat");
            assert!(halls.iter().any(|h| h.contains(idx)));
        }
    }
    let start = bd.starting_position.unwrap();
    assert_eq!(bd.map.tile(start.x, start.y), TileType::Floor);
    let mut no_halls = BuilderChain::new(80, 50);
    no_halls.start_with(Box::new(SimpleMapBuilder::new()));
    no_halls.with(CorridorSpawner::new());
    assert!(!no_halls.is_composed());
}

#[test]
fn straight_corridors_run_between_the_middles() {
    let mut bd = BuilderMap::new(40, 30);
    let rooms = vec![Rect::new(2, 2, 4, 4), Rect::new(20, 12, 4, 4)];
    bd.rooms = Some(rooms.clone());
    let mut stage = StraightLineCorridors::new();
    stage.corridors(&mut bd);
    let halls = bd.corridors.clone().unwrap();
    assert_eq!(halls.len(), 1);
    let first = &halls[0];
    assert_eq!(first[0], bd.map.xy_idx(4, 4));
    assert_eq!(*first.last().unwrap(), bd.map.xy_idx(22, 14));
    assert_eq!(first.len(), 19);
    for pair in first.windows(2) {
        let (ax, ay) = bd.map.idx_xy(pair[0]);
        let (bx, by) = bd.map.idx_xy(pair[1]);
        assert!((bx - ax).abs() <= 1 && (by - ay).abs() <= 1 && (ax, ay) != (bx, by));
    }
    assert_eq!(bd.map.tiles.iter().filter(|t| **t == TileType::Floor).count(), 19);
    let mut map = Grid::new(6, 6);
    map.set_tile(2, 2, TileType::Floor);
    let line = vec![(1, 1), (2, 2), (9, 9), (3, 3), (1, 1), (-1, 0)];
    let carved = StraightLineCorridors::carve_line(&mut map, &line);
    assert_eq!(carved, vec![7, 21]);
    assert_eq!(map.tile(3, 3), TileType::Floor);
    assert_eq!(map.tiles.iter().filter(|t| **t == TileType::Floor).count(), 3);
}

#[test]
fn a_roll_gives_its_point() {
    assert_eq!(BSPCorridors::point_at(4, 40, 1), 4);
    assert_eq!(BSPCorridors::point_at(4, 40, 5), 8);
    assert_eq!(BSPCorridors::point_at(38, 40, 2), 39);
    assert_eq!(BSPCorridors::point_at(38, 40, 9), 39);
    let mut rng = RandomNumberGenerator::seeded(12);
    for _ in 0..50 {
        let p = BSPCorridors::point_in(&mut rng, 9, 4, 40);
        assert!(p >= 9 && p < 14);
        let q = BSPCorridors::point_in(&mut rng, 38, 30, 40);
        assert!(q >= 38 && q < 40);
    }
}

#[test]
fn corridors_without_cells_get_nothing() {
    let mut rng = RandomNumberGenerator::seeded(21);
    let mut bd = BuilderMap::new(20, 20);
    bd.spawn_table = RandomTable::new().add("Rat", 3);
    bd.list_spawns.push((5, String::from("Door")));
    bd.corridors = Some(vec![vec![41, 42], vec![], vec![77], vec![]]);
    let mut stage = CorridorSpawner::new();
    stage.build(&mut rng, &mut bd);
    assert_eq!(bd.list_spawns.len(), 3);
    assert_eq!(bd.list_spawns[0], (5, String::from("Door")));
    assert!(bd.list_spawns[1].0 == 41 || bd.list_spawns[1].0 == 42);
    assert_eq!(bd.list_spawns[2], (77, String::from("Rat")));
}
