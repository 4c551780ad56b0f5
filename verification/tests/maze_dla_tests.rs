use mapgen::map::{Grid, TileType};
use mapgen::map_builders::dla::{DLAAlgorithm, DLABuilder};
use mapgen::map_builders::common::Symmetry;
use mapgen::map_builders::maze::{Cell, MazeBuilder, MazeGrid};
use mapgen::map_builders::{BuilderChain, BuilderMap};
use rltk::RandomNumberGenerator;

fn floors(map: &Grid) -> usize {
    map.tiles.iter().filter(|t| **t == TileType::Floor).count()
}

#[test]
fn maze_rooms_lie_on_every_other_cell() {
    for seed in [1u64, 7, 99] {
        let mut rng = RandomNumberGenerator::seeded(seed);
        let mut bd = BuilderMap::new(20, 14);
        bd.map.set_tile(0, 0, TileType::Tree);
        let mut stage = MazeBuilder::new();
        stage.build(&mut rng, &mut bd);
        for y in 0..14 {
            for x in 0..20 {
                let t = bd.map.tile(x, y);
                assert!(t == TileType::Wall || t == TileType::Floor);
                let room = x % 2 == 0 && y % 2 == 0 && x >= 2 && x <= 16 && y >= 2 && y <= 10;
                if room {
                    assert_eq!(t, TileType::Floor);
                }
                if x % 2 == 1 && y % 2 == 1 {
                    assert_eq!(t, TileType::Wall);
                }
                if x < 2 || x > 16 || y < 2 || y > 10 {
                    assert_eq!(t, TileType::Wall);
                }
            }
        }
        assert_eq!(floors(&bd.map), 40 + 39);
        assert!(!bd.history.is_empty());
        assert_eq!(bd.history.last().unwrap().tiles, bd.map.tiles);
    }
}

#[test]
fn maze_grid_knows_its_rooms() {
    let mut rng = RandomNumberGenerator::seeded(4);
    let mut maze = MazeGrid::new(4, 3);
    assert_eq!(maze.cells.len(), 12);
    assert_eq!(maze.cells[5], Cell::new(1, 1));
    assert_eq!(maze.calculate_index(1, 1), 5);
    assert_eq!(maze.calculate_index(2, 3), 11);
    assert_eq!(maze.calculate_index(-1, 0), -1);
    assert_eq!(maze.calculate_index(0, 4), -1);
    assert_eq!(maze.calculate_index(3, 0), -1);
    assert_eq!(maze.get_available_neighbors(), vec![1, 4]);
    maze.current = 5;
    assert_eq!(maze.get_available_neighbors(), vec![1, 6, 9, 4]);
    maze.cells[6].visited = true;
    assert_eq!(maze.get_available_neighbors(), vec![1, 9, 4]);
    let next = maze.find_next_cell(&mut rng).unwrap();
    assert!(next == 1 || next == 9 || next == 4);
    maze.remove_walls(9);
    assert!(!maze.cells[5].bottom && !maze.cells[9].top);
    assert!(maze.cells[5].top && maze.cells[5].left && maze.cells[5].right);
    maze.remove_walls(4);
    assert!(!maze.cells[5].left && !maze.cells[4].right);
    let mut map = Grid::new(12, 10);
    maze.copy_to_map(&mut map);
    assert_eq!(floors(&map), 12 + 2);
    assert_eq!(map.tile(4, 5), TileType::Floor);
    assert_eq!(map.tile(3, 4), TileType::Floor);
    assert_eq!(map.tile(5, 4), TileType::Wall);
}

#[test]
fn particles_stick_until_enough_is_floor() {
    for (k, mut stage) in [
        DLABuilder::walk_inwards(),
        DLABuilder::walk_outwards(),
        DLABuilder::central_attractor(),
        DLABuilder::insectoid(),
        DLABuilder::heavy_erosion(),
        DLABuilder::new(),
    ]
    .into_iter()
    .enumerate()
    {
        let mut rng = RandomNumberGenerator::seeded(10 + k as u64);
        let mut bd = BuilderMap::new(40, 30);
        let sent = stage.build(&mut rng, &mut bd);
        assert!(sent > 0 && sent < u32::MAX);
        let wanted = 1200 * stage.floor_percent as usize / 100;
        assert!(floors(&bd.map) >= wanted);
        for (x, y) in [(20, 15), (19, 15), (21, 15), (20, 14), (20, 16)] {
            assert_eq!(bd.map.tile(x, y), TileType::Floor);
        }
        assert_eq!(floors(&bd.map) + bd.map.tiles.iter().filter(|t| **t == TileType::Wall).count(), 1200);
        assert_eq!(bd.history.len() as u32, sent + 1);
        for x in 0..40 {
            assert_eq!(bd.map.tile(x, 0), TileType::Wall);
            assert_eq!(bd.map.tile(x, 29), TileType::Wall);
        }
    }
    let insect = DLABuilder::insectoid();
    assert!(insect.algorithm == DLAAlgorithm::CentralAttractor);
    assert!(insect.symmetry == Symmetry::Horizontal);
    assert_eq!(DLABuilder::heavy_erosion().floor_percent, 35);
    assert_eq!(DLABuilder::walk_inwards().brush_size, 1);
}

#[test]
fn maze_and_particles_in_a_chain() {
    let mut rng = RandomNumberGenerator::seeded(3);
    let mut maze = BuilderChain::new(30, 20);
    maze.start_with(MazeBuilder::new());
    assert!(maze.is_composed());
    maze.build_map(&mut rng);
    assert_eq!(floors(&maze.build_data.map), 13 * 8 + 13 * 8 - 1);
    let mut small = BuilderChain::new(5, 20);
    small.start_with(MazeBuilder::new());
    assert!(!small.is_composed());
    let mut dla = BuilderChain::new(3, 20);
    dla.start_with(DLABuilder::new());
    assert!(!dla.is_composed());
}

#[test]
fn the_digger_gets_to_every_room() {
    for seed in 0..8u64 {
        let mut rng = RandomNumberGenerator::seeded(seed);
        let mut bd = BuilderMap::new(30, 20);
        let mut maze = MazeGrid::new(13, 8);
        maze.generate_maze(&mut rng, &mut bd);
        assert!(maze.backtrace.is_empty());
        assert_eq!(maze.cells.len(), 13 * 8);
        let mut walls_down = 0;
        for cell in maze.cells.iter() {
            assert!(cell.visited);
            let open = [cell.top, cell.right, cell.bottom, cell.left].iter().filter(|w| !**w).count();
            assert!(open >= 1);
            walls_down += open;
        }
        assert_eq!(walls_down, 2 * (13 * 8 - 1));
        assert_eq!(bd.map.tile(2, 2), TileType::Floor);
        assert_eq!(bd.map.tile(0, 0), TileType::Wall);
    }
}

#[test]
fn a_particle_sticks_before_the_cell_where_it_stops() {
    let mut map = Grid::new(10, 10);
    map.set_tile(5, 5, TileType::Floor);
    let line = vec![(2, 5), (3, 5), (4, 5), (5, 5)];
    assert_eq!(DLABuilder::fly_along(&map, (2, 5), &line), (4, 5));
    map.set_tile(4, 5, TileType::Floor);
    assert_eq!(DLABuilder::fly_along(&map, (2, 5), &line), (3, 5));
    let off = vec![(2, 5), (3, 5), (12, 5), (4, 5)];
    assert_eq!(DLABuilder::fly_along(&map, (2, 5), &off), (2, 5));
    assert_eq!(DLABuilder::fly_along(&map, (4, 5), &line), (4, 5));
    assert_eq!(DLABuilder::fly_along(&map, (2, 2), &Vec::new()), (2, 2));
    let mut rng = RandomNumberGenerator::seeded(3);
    for _ in 0..20 {
        let at = DLABuilder::drift_outwards(&mut rng, &map);
        assert_ne!(map.tile(at.0, at.1), TileType::Floor);
        assert!((at.0 - 5).abs() + (at.1 - 5).abs() <= 2);
        let stuck = DLABuilder::drift_inwards(&mut rng, &map);
        assert!(stuck.0 >= 2 && stuck.0 <= 8 && stuck.1 >= 2 && stuck.1 <= 8);
    }
}
