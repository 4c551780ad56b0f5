use mapgen::map::{tile_walkable, Grid, TileType};
use mapgen::map_builders::bsp_interior::BSPInteriorBuilder;
use mapgen::map_builders::bsp_town::{pub_item, BSPTownBuilder, BuildingTag};
use mapgen::map_builders::common::{
    apply_horizontal_tunnel, apply_paint, apply_room_to_map, apply_vertical_tunnel, draw_corridor,
    fill_box, paint, Symmetry,
};
use mapgen::map_builders::door_placement::DoorPlacement;
use mapgen::map_builders::drunkard_walk::{DrunkSpawnMode, DrunkardSettings, DrunkardsWalkBuilder};
use mapgen::map_builders::perlin_noise::NoiseMapBuilder;
use mapgen::map_builders::room_based_spawner::RoomBasedSpawner;
use mapgen::map_builders::room_sorter::RoomSorter;
use mapgen::map_builders::simple_map::SimpleMapBuilder;
use mapgen::map_builders::voronoi::{DistanceAlgorithm, VoronoiBuilder};
use mapgen::map_builders::{BuilderChain, BuilderMap, Position};
use mapgen::random_table::RandomTable;
use mapgen::rect::Rect;
use rltk::RandomNumberGenerator;

fn count(map: &Grid, kind: TileType) -> usize {
    map.tiles.iter().filter(|t| **t == kind).count()
}

#[test]
fn fill_box_clips_and_spares_the_corners() {
    let mut map = Grid::new(4, 3);
    fill_box(&mut map, -5, 50, -5, 50, true, true, TileType::Floor);
    assert_eq!(map.tiles[0], TileType::Wall);
    assert_eq!(map.tiles[11], TileType::Wall);
    assert_eq!(count(&map, TileType::Floor), 10);
    let mut other = Grid::new(4, 3);
    fill_box(&mut other, 1, 3, 1, 2, false, false, TileType::Tree);
    assert_eq!(count(&other, TileType::Tree), 2);
    assert_eq!(other.tile(1, 1), TileType::Tree);
    assert_eq!(other.tile(2, 1), TileType::Tree);
    fill_box(&mut other, 3, 1, 0, 3, false, false, TileType::Floor);
    assert_eq!(count(&other, TileType::Floor), 0);
}

#[test]
fn room_carving_leaves_top_row_and_left_column() {
    let mut map = Grid::new(12, 12);
    apply_room_to_map(&mut map, &Rect::new(2, 3, 4, 3));
    assert_eq!(count(&map, TileType::Floor), 12);
    for y in 4..=6 {
        for x in 3..=6 {
            assert_eq!(map.tile(x, y), TileType::Floor);
        }
    }
    assert_eq!(map.tile(2, 4), TileType::Wall);
    assert_eq!(map.tile(3, 3), TileType::Wall);
}

#[test]
fn tunnels_run_between_their_ends_in_either_direction() {
    let mut map = Grid::new(10, 10);
    apply_horizontal_tunnel(&mut map, 7, 3, 2);
    for x in 3..=7 {
        assert_eq!(map.tile(x, 2), TileType::Floor);
    }
    assert_eq!(count(&map, TileType::Floor), 5);
    apply_vertical_tunnel(&mut map, 4, 8, 5);
    for y in 4..=8 {
        assert_eq!(map.tile(5, y), TileType::Floor);
    }
    assert_eq!(count(&map, TileType::Floor), 10);
    let mut corner = Grid::new(5, 5);
    apply_horizontal_tunnel(&mut corner, 0, 2, 0);
    assert_eq!(corner.tile(0, 0), TileType::Wall);
    assert_eq!(corner.tile(1, 0), TileType::Floor);
    assert_eq!(corner.tile(2, 0), TileType::Floor);
}

#[test]
fn corridor_steps_along_the_row_first() {
    let mut map = Grid::new(10, 10);
    draw_corridor(&mut map, 2, 2, 5, 4);
    assert_eq!(map.tile(2, 2), TileType::Wall);
    assert_eq!(map.tile(3, 2), TileType::Floor);
    assert_eq!(map.tile(4, 2), TileType::Floor);
    assert_eq!(map.tile(5, 2), TileType::Floor);
    assert_eq!(map.tile(5, 3), TileType::Floor);
    assert_eq!(map.tile(5, 4), TileType::Floor);
    assert_eq!(count(&map, TileType::Floor), 5);
    let mut back = Grid::new(10, 10);
    draw_corridor(&mut back, 5, 4, 2, 2);
    assert_eq!(count(&back, TileType::Floor), 5);
    assert_eq!(back.tile(2, 4), TileType::Floor);
    assert_eq!(back.tile(2, 2), TileType::Floor);
    assert_eq!(back.tile(5, 4), TileType::Wall);
    let mut still = Grid::new(10, 10);
    draw_corridor(&mut still, 3, 3, 3, 3);
    assert_eq!(count(&still, TileType::Floor), 0);
}

#[test]
fn brushes_paint_squares_off_the_border() {
    let mut map = Grid::new(10, 10);
    apply_paint(&mut map, 1, 0, 0, TileType::Tree);
    assert_eq!(map.tile(0, 0), TileType::Tree);
    apply_paint(&mut map, 2, 5, 5, TileType::Floor);
    assert_eq!(count(&map, TileType::Floor), 4);
    for (x, y) in [(4, 4), (5, 4), (4, 5), (5, 5)] {
        assert_eq!(map.tile(x, y), TileType::Floor);
    }
    let mut edge = Grid::new(10, 10);
    apply_paint(&mut edge, 2, 2, 2, TileType::Floor);
    assert_eq!(count(&edge, TileType::Floor), 1);
    assert_eq!(edge.tile(2, 2), TileType::Floor);
    let mut none = Grid::new(10, 10);
    apply_paint(&mut none, 0, 5, 5, TileType::Floor);
    apply_paint(&mut none, -4, 5, 5, TileType::Floor);
    assert_eq!(count(&none, TileType::Floor), 0);
    let mut wide = Grid::new(10, 10);
    apply_paint(&mut wide, 4, 5, 5, TileType::Floor);
    assert_eq!(count(&wide, TileType::Floor), 16);
}

#[test]
fn symmetric_strokes_mirror_across_the_middle() {
    let mut map = Grid::new(10, 8);
    paint(&mut map, Symmetry::Off, 1, 3, 2);
    assert_eq!(count(&map, TileType::Floor), 1);
    let mut h = Grid::new(10, 8);
    paint(&mut h, Symmetry::Horizontal, 1, 3, 2);
    assert_eq!(h.tile(3, 2), TileType::Floor);
    assert_eq!(h.tile(7, 2), TileType::Floor);
    assert_eq!(count(&h, TileType::Floor), 2);
    let mut v = Grid::new(10, 8);
    paint(&mut v, Symmetry::Vertical, 1, 3, 2);
    assert_eq!(v.tile(3, 2), TileType::Floor);
    assert_eq!(v.tile(3, 6), TileType::Floor);
    assert_eq!(count(&v, TileType::Floor), 2);
    let mut b = Grid::new(10, 8);
    paint(&mut b, Symmetry::Both, 1, 3, 2);
    assert_eq!(b.tile(3, 2), TileType::Floor);
    assert_eq!(b.tile(7, 2), TileType::Floor);
    assert_eq!(b.tile(3, 6), TileType::Floor);
    assert_eq!(count(&b, TileType::Floor), 3);
    let mut c = Grid::new(10, 8);
    paint(&mut c, Symmetry::Both, 1, 5, 4);
    assert_eq!(count(&c, TileType::Floor), 1);
}

fn door_grid() -> BuilderMap {
    let mut bd = BuilderMap::new(10, 10);
    bd.map.set_tile(4, 5, TileType::Floor);
    bd.map.set_tile(5, 5, TileType::Floor);
    bd.map.set_tile(6, 5, TileType::Floor);
    bd
}

#[test]
fn door_goes_where_floor_passes_through_a_wall() {
    let mut bd = door_grid();
    let door = DoorPlacement::new();
    assert!(door.door_possible(&bd, 55));
    assert!(!door.door_possible(&bd, 54));
    assert!(!door.door_possible(&bd, 56));
    assert!(!door.door_possible(&bd, 45));
    let mut stage = DoorPlacement::new();
    let before = bd.map.tiles.clone();
    stage.doors(&mut bd);
    assert_eq!(bd.list_spawns, vec![(55, "Door".to_string())]);
    assert_eq!(bd.map.tiles, before);
}

#[test]
fn door_candidates_have_wall_on_one_axis_and_floor_on_the_other() {
    let mut rng = RandomNumberGenerator::seeded(5);
    let mut chain = BuilderChain::new(40, 30);
    chain.start_with(Box::new(BSPInteriorBuilder::new()));
    chain.with(DoorPlacement::new());
    assert!(chain.is_composed());
    chain.build_map(&mut rng);
    let map = &chain.build_data.map;
    let floorish = |t: TileType| t == TileType::Floor || t == TileType::FloorIndoor;
    for (idx, tag) in chain.build_data.list_spawns.iter() {
        assert_eq!(tag, "Door");
        assert_eq!(map.tiles[*idx], TileType::Floor);
        let (n, s, w, e) = (map.tiles[idx - 40], map.tiles[idx + 40], map.tiles[idx - 1], map.tiles[idx + 1]);
        let across = n == TileType::Wall && s == TileType::Wall && floorish(w) && floorish(e);
        let along = w == TileType::Wall && e == TileType::Wall && floorish(n) && floorish(s);
        assert!(across || along);
    }
}

#[test]
fn doors_follow_recorded_corridors() {
    let mut bd = door_grid();
    bd.corridors = Some(vec![vec![55, 56, 57], vec![54, 55, 56], vec![55, 56], vec![]]);
    let mut stage = DoorPlacement::new();
    stage.doors(&mut bd);
    assert_eq!(bd.list_spawns, vec![(55, "Door".to_string())]);
}

#[test]
fn door_at_the_edge_is_not_possible() {
    let mut bd = BuilderMap::new(6, 6);
    bd.map.set_tile(0, 1, TileType::Floor);
    bd.map.set_tile(1, 1, TileType::Floor);
    bd.map.set_tile(2, 1, TileType::Floor);
    let door = DoorPlacement::new();
    assert!(!door.door_possible(&bd, 7));
    bd.map.set_tile(1, 2, TileType::Floor);
    bd.map.set_tile(2, 2, TileType::Floor);
    bd.map.set_tile(3, 2, TileType::Floor);
    assert!(!door.door_possible(&bd, 14));
    assert!(door.is_floor(TileType::FloorIndoor));
    assert!(!door.is_floor(TileType::DownStairs));
}

#[test]
fn voronoi_distances() {
    let p = VoronoiBuilder::pythagoras();
    let m = VoronoiBuilder::manhattan();
    let c = VoronoiBuilder::chebyshev();
    assert_eq!(p.measure(1, 2, 4, 6), 25);
    assert_eq!(m.measure(1, 2, 4, 6), 7);
    assert_eq!(c.measure(1, 2, 4, 6), 4);
    assert_eq!(p.measure(4, 6, 1, 2), 25);
    assert_eq!(p.measure(0, 0, 46340, 46340), 2 * 46340i64 * 46340i64);
    assert_eq!(VoronoiBuilder::new().n_seeds, 64);
    assert!(VoronoiBuilder::new().distance_algorithm == DistanceAlgorithm::Pythagoras);
    assert!(m.distance_algorithm == DistanceAlgorithm::Manhattan);
}

#[test]
fn every_cell_belongs_to_its_nearest_seed() {
    let builder = VoronoiBuilder::manhattan();
    let map = Grid::new(8, 6);
    let seeds = vec![Position { x: 1, y: 1 }, Position { x: 6, y: 4 }, Position { x: 6, y: 1 }];
    let regions = builder.membership(&seeds, &map);
    assert_eq!(regions.len(), 48);
    for (i, r) in regions.iter().enumerate() {
        assert!(*r >= 0 && (*r as usize) < seeds.len());
        let (x, y) = map.idx_xy(i);
        let mine = builder.measure(x, y, seeds[*r as usize].x, seeds[*r as usize].y);
        for (k, s) in seeds.iter().enumerate() {
            let d = builder.measure(x, y, s.x, s.y);
            assert!(mine <= d);
            if k < *r as usize {
                assert!(mine < d);
            }
        }
    }
    assert_eq!(regions[0], 0);
    assert_eq!(regions[7], 2);
    assert_eq!(regions[47], 1);
    assert_eq!(regions[map.xy_idx(6, 2)], 2);
    assert_eq!(regions[map.xy_idx(6, 3)], 1);
}

#[test]
fn voronoi_carves_the_inside_of_regions() {
    let builder = VoronoiBuilder::manhattan();
    let mut bd = BuilderMap::new(8, 6);
    let seeds = vec![Position { x: 1, y: 1 }, Position { x: 6, y: 4 }];
    let regions = builder.membership(&seeds, &bd.map);
    builder.carve(&regions, &mut bd);
    assert_eq!(bd.history.len(), 4);
    for y in 0..6 {
        for x in 0..8 {
            let tile = bd.map.tile(x, y);
            if x == 0 || y == 0 || x == 7 || y == 5 {
                assert_eq!(tile, TileType::Wall);
            } else {
                let mine = regions[bd.map.xy_idx(x, y)];
                let mut other = 0;
                for (dx, dy) in [(-1, 0), (1, 0), (0, -1), (0, 1)] {
                    if regions[bd.map.xy_idx(x + dx, y + dy)] != mine {
                        other += 1;
                    }
                }
                assert_eq!(tile == TileType::Floor, other < 2);
            }
        }
    }
    assert_eq!(bd.map.tile(1, 1), TileType::Floor);
}

#[test]
fn voronoi_seeds_are_different_cells() {
    let mut rng = RandomNumberGenerator::seeded(8);
    let builder = VoronoiBuilder::new();
    let seeds = builder.pick_seeds(&mut rng, 80, 50);
    assert_eq!(seeds.len(), 64);
    for (i, s) in seeds.iter().enumerate() {
        assert!(s.x >= 1 && s.x < 80 && s.y >= 1 && s.y < 50);
        for t in seeds[..i].iter() {
            assert!(s != t);
        }
    }
    assert!(VoronoiBuilder::seed_taken(&seeds, seeds[3].x, seeds[3].y));
    assert!(!VoronoiBuilder::seed_taken(&seeds, 0, 0));
    let mut small = VoronoiBuilder::new();
    small.n_seeds = 3;
    let few = small.pick_seeds(&mut rng, 2, 4);
    assert_eq!(few.len(), 3);
}

#[test]
fn open_area_floor_stays_off_the_edges() {
    let mut rng = RandomNumberGenerator::seeded(42);
    let mut bd = BuilderMap::new(80, 50);
    let mut builder = DrunkardsWalkBuilder::open_area();
    let (sent, active) = builder.build(&mut rng, &mut bd);
    assert!(sent >= 1 && active >= 1 && active <= sent);
    let mut floor = 0;
    for y in 0..50 {
        for x in 0..80 {
            let t = bd.map.tile(x, y);
            assert!(t == TileType::Wall || t == TileType::Floor);
            if t == TileType::Floor {
                floor += 1;
                assert!(x >= 2 && x <= 78 && y >= 2 && y <= 48);
            }
        }
    }
    assert!(floor >= 2000);
    assert!(floor <= 1 + sent as usize * 400);
    assert_eq!(bd.map.tile(40, 25), TileType::Floor);
}

#[test]
fn voronoi_build_leaves_the_border_and_the_records() {
    let mut rng = RandomNumberGenerator::seeded(21);
    let mut bd = BuilderMap::new(40, 30);
    let mut builder = VoronoiBuilder::pythagoras();
    builder.build(&mut rng, &mut bd);
    assert!(count(&bd.map, TileType::Floor) > 0);
    for x in 0..40 {
        assert_eq!(bd.map.tile(x, 0), TileType::Wall);
        assert_eq!(bd.map.tile(x, 29), TileType::Wall);
    }
    assert!(bd.list_spawns.is_empty());
    assert!(bd.starting_position.is_none());
    assert_eq!(bd.history.len(), 28);
    assert_eq!(count(&bd.map, TileType::Floor) + count(&bd.map, TileType::Wall), 1200);
}

#[test]
fn drunkard_open_area_reaches_half_floor() {
    let mut rng = RandomNumberGenerator::seeded(42);
    let mut bd = BuilderMap::new(80, 50);
    let mut builder = DrunkardsWalkBuilder::open_area();
    assert!(builder.settings.spawn_mode == DrunkSpawnMode::StartingPoint);
    assert_eq!(builder.settings.floor_percent, 50);
    assert_eq!(builder.settings.brush_size, 1);
    assert!(builder.settings.symmetry == Symmetry::Off);
    let (walkers, active) = builder.build(&mut rng, &mut bd);
    assert!(walkers > 0 && walkers < i32::MAX);
    assert!(active > 0 && active <= walkers);
    assert!(count(&bd.map, TileType::Floor) >= 2000);
    assert_eq!(count(&bd.map, TileType::DownStairs), 0);
    let start = bd.starting_position.unwrap();
    assert_eq!(start, Position { x: 40, y: 25 });
    assert_eq!(bd.map.tile(start.x, start.y), TileType::Floor);
    assert_eq!(bd.history.len() as i32, active + 1);
}

#[test]
fn drunkard_presets() {
    let halls = DrunkardsWalkBuilder::open_halls();
    assert!(halls.settings.spawn_mode == DrunkSpawnMode::Random);
    assert_eq!(halls.settings.drunken_lifetime, 400);
    assert_eq!(halls.settings.floor_percent, 50);
    let winding = DrunkardsWalkBuilder::winding_passages();
    assert_eq!(winding.settings.drunken_lifetime, 100);
    assert_eq!(winding.settings.floor_percent, 40);
    assert_eq!(winding.settings.brush_size, 1);
    let fat = DrunkardsWalkBuilder::fat_passages();
    assert_eq!(fat.settings.brush_size, 2);
    let fearful = DrunkardsWalkBuilder::fearful_symmetry();
    assert!(fearful.settings.symmetry == Symmetry::Both);
    assert_eq!(DrunkardsWalkBuilder::desired_floor_tiles(50, 4000), 2000);
    assert_eq!(DrunkardsWalkBuilder::desired_floor_tiles(40, 4001), 1600);
    assert_eq!(DrunkardsWalkBuilder::desired_floor_tiles(0, 4000), 0);
    let custom = DrunkardsWalkBuilder::new(DrunkardSettings {
        spawn_mode: DrunkSpawnMode::Random,
        drunken_lifetime: 5,
        floor_percent: 10,
        brush_size: 3,
        symmetry: Symmetry::Vertical,
    });
    assert_eq!(custom.settings.drunken_lifetime, 5);
}

#[test]
fn stagger_keeps_two_cells_off_the_edges() {
    assert_eq!(DrunkardsWalkBuilder::stagger(10, 10, 1, 80, 50), (9, 10));
    assert_eq!(DrunkardsWalkBuilder::stagger(10, 10, 2, 80, 50), (11, 10));
    assert_eq!(DrunkardsWalkBuilder::stagger(10, 10, 3, 80, 50), (10, 9));
    assert_eq!(DrunkardsWalkBuilder::stagger(10, 10, 4, 80, 50), (10, 11));
    assert_eq!(DrunkardsWalkBuilder::stagger(2, 2, 1, 80, 50), (2, 2));
    assert_eq!(DrunkardsWalkBuilder::stagger(2, 2, 3, 80, 50), (2, 2));
    assert_eq!(DrunkardsWalkBuilder::stagger(78, 48, 2, 80, 50), (78, 48));
    assert_eq!(DrunkardsWalkBuilder::stagger(78, 48, 4, 80, 50), (78, 48));
    assert_eq!(DrunkardsWalkBuilder::stagger(77, 47, 2, 80, 50), (78, 47));
}

#[test]
fn drunkard_symmetric_walk_on_a_small_grid() {
    let mut rng = RandomNumberGenerator::seeded(4);
    let mut bd = BuilderMap::new(20, 16);
    let mut builder = DrunkardsWalkBuilder::fearful_symmetry();
    let (walkers, _) = builder.build(&mut rng, &mut bd);
    assert!(walkers < i32::MAX);
    assert!(count(&bd.map, TileType::Floor) >= 128);
    assert_eq!(bd.map.tile(10, 8), TileType::Floor);
    let mut settled = Grid::new(3, 3);
    settled.set_tile(1, 1, TileType::DownStairs);
    settled.set_tile(2, 1, TileType::Tree);
    DrunkardsWalkBuilder::settle(&mut settled);
    assert_eq!(settled.tile(1, 1), TileType::Floor);
    assert_eq!(settled.tile(2, 1), TileType::Tree);
    assert_eq!(settled.tile(0, 0), TileType::Wall);
}

#[test]
fn simple_map_rooms_do_not_touch_and_start_is_floor() {
    let mut rng = RandomNumberGenerator::seeded(17);
    let mut bd = BuilderMap::new(80, 50);
    let mut builder = SimpleMapBuilder::new();
    builder.rooms_and_corridors(&mut rng, &mut bd);
    let rooms = bd.rooms.clone().unwrap();
    assert!(!rooms.is_empty() && rooms.len() <= 30);
    for (i, r) in rooms.iter().enumerate() {
        assert!(r.x1 >= 0 && r.x2 <= 78 && r.y1 >= 0 && r.y2 <= 48);
        assert!(r.x2 - r.x1 >= 6 && r.x2 - r.x1 < 10);
        assert!(r.y2 - r.y1 >= 6 && r.y2 - r.y1 < 10);
        for other in rooms[..i].iter() {
            assert!(!r.intersect(other));
        }
        for y in r.y1 + 1..=r.y2 {
            for x in r.x1 + 1..=r.x2 {
                assert_eq!(bd.map.tile(x, y), TileType::Floor);
            }
        }
    }
    let start = bd.starting_position.unwrap();
    assert_eq!((start.x, start.y), rooms[0].center());
    assert_eq!(bd.map.tile(start.x, start.y), TileType::Floor);
    assert_eq!(count(&bd.map, TileType::Floor) + count(&bd.map, TileType::Wall), 4000);
    assert!(SimpleMapBuilder::touches(&rooms, &rooms[0]));
    assert!(!SimpleMapBuilder::touches(&Vec::new(), &rooms[0]));
}

#[test]
fn connect_bends_at_the_right_corner() {
    let a = Rect::new(0, 0, 4, 4);
    let b = Rect::new(10, 6, 4, 4);
    let mut first = Grid::new(20, 20);
    SimpleMapBuilder::connect(&mut first, &a, &b, true);
    assert_eq!(first.tile(12, 2), TileType::Floor);
    assert_eq!(first.tile(2, 8), TileType::Wall);
    assert_eq!(count(&first, TileType::Floor), 11 + 6);
    let mut second = Grid::new(20, 20);
    SimpleMapBuilder::connect(&mut second, &a, &b, false);
    assert_eq!(second.tile(2, 8), TileType::Floor);
    assert_eq!(second.tile(12, 2), TileType::Wall);
    assert_eq!(count(&second, TileType::Floor), 11 + 6);
}

#[test]
fn bsp_split_halves_fill_the_rectangle() {
    let rect = Rect::new(1, 1, 20, 11);
    let (left, right) = BSPInteriorBuilder::split(rect, true);
    assert_eq!(left, Rect { x1: 1, y1: 1, x2: 11, y2: 12 });
    assert_eq!(right, Rect { x1: 11, y1: 1, x2: 21, y2: 12 });
    assert_eq!((left.x2 - left.x1) + (right.x2 - right.x1), 20);
    let (upper, lower) = BSPInteriorBuilder::split(rect, false);
    assert_eq!(upper, Rect { x1: 1, y1: 1, x2: 21, y2: 6 });
    assert_eq!(lower, Rect { x1: 1, y1: 6, x2: 21, y2: 12 });
    assert_eq!((upper.y2 - upper.y1) + (lower.y2 - lower.y1), 11);
    assert_eq!(BSPInteriorBuilder::room_of(left), Rect { x1: 1, y1: 1, x2: 10, y2: 11 });
    assert_eq!(BSPInteriorBuilder::room_of(lower), Rect { x1: 1, y1: 6, x2: 20, y2: 11 });
}

#[test]
fn bsp_interior_rooms_lie_on_the_grid_and_are_floor() {
    let mut rng = RandomNumberGenerator::seeded(23);
    let mut bd = BuilderMap::new(80, 50);
    let mut builder = BSPInteriorBuilder::new();
    builder.build(&mut rng, &mut bd);
    let rooms = bd.rooms.clone().unwrap();
    assert!(rooms.len() >= 2);
    for r in rooms.iter() {
        assert!(r.x1 >= 1 && r.x1 < r.x2 && r.x2 <= 79);
        assert!(r.y1 >= 1 && r.y1 < r.y2 && r.y2 <= 49);
        for y in r.y1..r.y2 {
            for x in r.x1..r.x2 {
                assert_eq!(bd.map.tile(x, y), TileType::Floor);
            }
        }
    }
    let start = bd.starting_position.unwrap();
    assert_eq!((start.x, start.y), rooms[0].center());
    assert_eq!(bd.map.tile(start.x, start.y), TileType::Floor);
    assert_eq!(bd.history.len(), 2 * rooms.len() - 1);
    assert_eq!(builder.rects.len(), rooms.len());
    let mut cells = 0;
    for (piece, room) in builder.rects.iter().zip(rooms.iter()) {
        assert_eq!(*room, BSPInteriorBuilder::room_of(*piece));
        cells += (piece.x2 - piece.x1) * (piece.y2 - piece.y1);
    }
    assert_eq!(cells, 78 * 48);
    for (i, a) in rooms.iter().enumerate() {
        for b in rooms[i + 1..].iter() {
            assert!(!a.intersect(b));
        }
    }
}

#[test]
fn bsp_interior_on_the_smallest_grid() {
    let mut rng = RandomNumberGenerator::seeded(2);
    let mut bd = BuilderMap::new(6, 6);
    let mut builder = BSPInteriorBuilder::new();
    builder.build(&mut rng, &mut bd);
    assert_eq!(bd.rooms.as_ref().unwrap().len(), 2);
    let start = bd.starting_position.unwrap();
    assert_eq!(bd.map.tile(start.x, start.y), TileType::Floor);
}

#[test]
fn town_quarters_and_sub_rectangles() {
    let mut town = BSPTownBuilder::new();
    town.add_subrects(Rect::new(1, 1, 20, 10));
    assert_eq!(
        town.rects,
        vec![
            Rect { x1: 1, y1: 1, x2: 11, y2: 6 },
            Rect { x1: 1, y1: 6, x2: 11, y2: 11 },
            Rect { x1: 11, y1: 1, x2: 21, y2: 6 },
            Rect { x1: 11, y1: 6, x2: 21, y2: 11 },
        ]
    );
    let mut tiny = BSPTownBuilder::new();
    tiny.add_subrects(Rect::new(4, 4, 1, 0));
    assert_eq!(tiny.rects[3], Rect { x1: 5, y1: 5, x2: 6, y2: 6 });
    assert_eq!(BSPTownBuilder::sub_rect(Rect::new(10, 20, 30, 30), 7, 9, 2, 8), Rect { x1: 12, y1: 28, x2: 19, y2: 37 });
    assert_eq!(pub_item(0), "Barkeep");
    assert_eq!(pub_item(1), "Shady Salesman");
    assert_eq!(pub_item(2), "Patron");
    assert_eq!(pub_item(3), "Patron");
    assert_eq!(pub_item(4), "Table");
    assert_eq!(pub_item(5), "Chair");
    assert_eq!(pub_item(6), "Table");
    assert_eq!(pub_item(7), "Chair");
}

#[test]
fn town_building_needs_floor_and_room_around_it() {
    let town = BSPTownBuilder::new();
    let mut bd = BuilderMap::new(30, 30);
    fill_box(&mut bd.map, 1, 29, 1, 29, false, false, TileType::Floor);
    let rooms: Vec<Rect> = vec![Rect::new(3, 3, 6, 6)];
    assert!(town.is_possible(Rect::new(12, 12, 6, 6), &bd, &rooms));
    assert!(!town.is_possible(Rect::new(9, 9, 6, 6), &bd, &rooms));
    assert!(town.is_possible(Rect::new(10, 10, 6, 6), &bd, &rooms));
    assert!(!town.is_possible(Rect::new(2, 12, 6, 6), &bd, &rooms));
    assert!(!town.is_possible(Rect::new(21, 12, 6, 6), &bd, &rooms));
    assert!(town.is_possible(Rect::new(20, 20, 6, 6), &bd, &rooms));
    bd.map.set_tile(27, 27, TileType::Tree);
    assert!(town.is_possible(Rect::new(20, 20, 4, 4), &bd, &rooms));
    assert!(town.is_possible(Rect::new(20, 20, 5, 4), &bd, &rooms));
    assert!(!town.is_possible(Rect::new(20, 20, 5, 5), &bd, &rooms));
}

#[test]
fn town_building_has_walls_floor_and_a_door() {
    let mut bd = BuilderMap::new(20, 20);
    fill_box(&mut bd.map, 1, 19, 1, 19, false, false, TileType::Floor);
    let room = Rect::new(4, 5, 7, 6);
    BSPTownBuilder::carve_building(&mut bd, room, 3);
    for y in 5..11 {
        for x in 4..11 {
            let inside = x > 4 && x < 10 && y > 5 && y < 10;
            let expected = if (x, y) == (4, 8) {
                TileType::Floor
            } else if inside {
                TileType::FloorIndoor
            } else {
                TileType::Wall
            };
            assert_eq!(bd.map.tile(x, y), expected);
        }
    }
    assert_eq!(bd.map.tile(11, 8), TileType::Floor);
    assert_eq!(bd.history.len(), 2);
    let mut north = BuilderMap::new(20, 20);
    BSPTownBuilder::carve_building(&mut north, room, 1);
    assert_eq!(north.map.tile(7, 5), TileType::Floor);
    let mut south = BuilderMap::new(20, 20);
    BSPTownBuilder::carve_building(&mut south, room, 2);
    assert_eq!(south.map.tile(7, 10), TileType::Floor);
    let mut east = BuilderMap::new(20, 20);
    BSPTownBuilder::carve_building(&mut east, room, 4);
    assert_eq!(east.map.tile(10, 8), TileType::Floor);
}

#[test]
fn buildings_are_ranked_by_area_largest_first() {
    let mut town = BSPTownBuilder::new();
    let buildings = vec![
        Rect::new(0, 0, 6, 6),
        Rect::new(0, 0, 12, 6),
        Rect::new(0, 0, 6, 6),
        Rect::new(0, 0, 12, 12),
        Rect::new(0, 0, 6, 12),
    ];
    let ranking = town.sort_buildings(&buildings);
    assert_eq!(
        ranking,
        vec![
            (3, 144, BuildingTag::Pub),
            (1, 72, BuildingTag::Hovel),
            (4, 72, BuildingTag::Hovel),
            (0, 36, BuildingTag::Hovel),
            (2, 36, BuildingTag::Hovel),
        ]
    );
    assert!(town.sort_buildings(&Vec::new()).is_empty());
}

#[test]
fn town_starts_in_the_first_building() {
    let mut rng = RandomNumberGenerator::seeded(9);
    let mut bd = BuilderMap::new(80, 50);
    let mut town = BSPTownBuilder::new();
    town.build(&mut rng, &mut bd);
    let start = bd.starting_position.unwrap();
    assert_eq!(bd.map.tile(start.x, start.y), TileType::FloorIndoor);
    assert!(tile_walkable(bd.map.tile(start.x, start.y)));
    assert!(bd.list_spawns.len() <= 8);
    for (k, (idx, tag)) in bd.list_spawns.iter().enumerate() {
        assert_eq!(tag, pub_item(k));
        assert_eq!(bd.map.tiles[*idx], TileType::FloorIndoor);
        assert!(*idx != bd.map.xy_idx(start.x, start.y));
    }
    for y in 1..49 {
        for x in 1..79 {
            let t = bd.map.tile(x, y);
            assert!(t == TileType::Floor || t == TileType::Wall || t == TileType::FloorIndoor);
        }
    }
    for x in 0..80 {
        assert_eq!(bd.map.tile(x, 0), TileType::Wall);
    }
    assert!(count(&bd.map, TileType::FloorIndoor) > 0);
    assert!(bd.rooms.is_none());
}

#[test]
fn town_keeps_to_its_sub_region() {
    let mut rng = RandomNumberGenerator::seeded(9);
    let mut bd = BuilderMap::new(80, 50);
    bd.submaps = Some(vec![Rect { x1: 10, y1: 10, x2: 50, y2: 40 }]);
    let mut town = BSPTownBuilder::new();
    town.build(&mut rng, &mut bd);
    for y in 0..50 {
        for x in 0..80 {
            let t = bd.map.tile(x, y);
            if x >= 10 && x < 50 && y >= 10 && y < 40 {
                assert!(t == TileType::Floor || t == TileType::Wall || t == TileType::FloorIndoor);
            } else {
                assert_eq!(t, TileType::Wall);
            }
        }
    }
    if let Some(start) = bd.starting_position {
        assert_eq!(bd.map.tile(start.x, start.y), TileType::FloorIndoor);
    }
}

#[test]
fn town_on_a_grid_too_small_for_buildings() {
    let mut rng = RandomNumberGenerator::seeded(9);
    let mut bd = BuilderMap::new(8, 8);
    let mut town = BSPTownBuilder::new();
    town.build(&mut rng, &mut bd);
    assert!(bd.starting_position.is_none());
    assert!(bd.list_spawns.is_empty());
    assert_eq!(count(&bd.map, TileType::Floor), 36);
}

#[test]
fn noise_stage_paints_by_the_sample_right_below() {
    let mut bd = BuilderMap::new(6, 6);
    let mut negative = vec![false; 36];
    negative[3 * 6 + 3] = true;
    negative[4 * 6 + 4] = true;
    let mut stage = NoiseMapBuilder::with_samples(negative);
    stage.build(&mut bd);
    for y in 0..6 {
        for x in 0..6 {
            let t = bd.map.tile(x, y);
            if x < 2 || x > 4 || y < 2 || y > 4 {
                assert_eq!(t, TileType::Wall);
            } else if (x, y) == (2, 2) || x >= 3 && y >= 3 {
                assert_eq!(t, TileType::Floor);
            } else {
                assert_eq!(t, TileType::Tree);
            }
        }
    }
    assert_eq!(bd.history.len(), 1);
    let mut rng = RandomNumberGenerator::seeded(77);
    for _ in 0..50 {
        let seed = NoiseMapBuilder::draw_seed(&mut rng);
        assert!(seed >= 1 && seed <= 65536);
    }
    assert!(NoiseMapBuilder::new().negative.is_empty());
}

#[test]
fn rooms_are_sorted_from_left_to_right() {
    let mut bd = BuilderMap::new(40, 40);
    let rooms = vec![
        Rect::new(20, 1, 3, 3),
        Rect::new(5, 2, 3, 3),
        Rect::new(20, 9, 3, 3),
        Rect::new(1, 3, 3, 3),
        Rect::new(5, 8, 3, 3),
    ];
    bd.rooms = Some(rooms.clone());
    let mut sorter = RoomSorter::new();
    sorter.sorter(&mut bd);
    assert_eq!(bd.rooms, Some(vec![rooms[3], rooms[1], rooms[4], rooms[0], rooms[2]]));
    assert_eq!(RoomSorter::room_order(&rooms), vec![3, 1, 4, 0, 2]);
    assert!(RoomSorter::room_order(&Vec::new()).is_empty());
}

#[test]
fn room_spawner_skips_the_first_room() {
    let mut rng = RandomNumberGenerator::seeded(30);
    let mut bd = BuilderMap::new(30, 30);
    let rooms = vec![Rect::new(1, 1, 5, 5), Rect::new(10, 10, 5, 5), Rect::new(20, 20, 5, 5), Rect::new(1, 20, 5, 5)];
    for r in rooms.iter().take(3) {
        apply_room_to_map(&mut bd.map, r);
    }
    bd.rooms = Some(rooms.clone());
    bd.spawn_table = RandomTable::new().add("Rat", 3).add("Bat", 1);
    let mut stage = RoomBasedSpawner::new();
    stage.build(&mut rng, &mut bd);
    assert_eq!(bd.list_spawns.len(), 2);
    for (k, (idx, tag)) in bd.list_spawns.iter().enumerate() {
        let room = rooms[k + 1];
        let (x, y) = bd.map.idx_xy(*idx);
        assert!(x > room.x1 && x < room.x2 && y > room.y1 && y < room.y2);
        assert_eq!(bd.map.tiles[*idx], TileType::Floor);
        assert!(tag == "Rat" || tag == "Bat");
    }
}

#[test]
fn bsp_pieces_are_cut_up_only_while_their_half_is_long() {
    for seed in 0..10u64 {
        let mut rng = RandomNumberGenerator::seeded(seed);
        let mut small = BSPInteriorBuilder::new();
        small.add_subrects(Rect::new(1, 1, 16, 16), &mut rng);
        assert_eq!(small.rects.len(), 2);
        let mut odd = BSPInteriorBuilder::new();
        odd.add_subrects(Rect::new(1, 1, 17, 17), &mut rng);
        assert_eq!(odd.rects.len(), 2);
        let (a, b) = (odd.rects[0], odd.rects[1]);
        let along_x = (a.x2 - a.x1) + (b.x2 - b.x1);
        let along_y = (a.y2 - a.y1) + (b.y2 - b.y1);
        assert!(along_x == 17 || along_y == 17);
        let mut cut = BSPInteriorBuilder::new();
        cut.add_subrects(Rect::new(1, 1, 18, 18), &mut rng);
        assert!(cut.rects.len() >= 4 && cut.rects.len() <= 8);
        let mut large = BSPInteriorBuilder::new();
        large.rects.push(Rect::new(0, 0, 1, 1));
        large.rects.push(Rect::new(1, 1, 40, 40));
        large.add_subrects(Rect::new(1, 1, 40, 40), &mut rng);
        assert!(large.rects.len() >= 5);
        assert_eq!(large.rects[0], Rect::new(0, 0, 1, 1));
        for r in large.rects[1..].iter() {
            assert!(r.x1 >= 1 && r.x1 < r.x2 && r.x2 <= 41);
            assert!(r.y1 >= 1 && r.y1 < r.y2 && r.y2 <= 41);
            assert!(r.x2 - r.x1 >= 8 || r.y2 - r.y1 >= 8);
        }
    }
}
