use mapgen::map::TileType;
use mapgen::map_builders::bsp_interior::BSPInteriorBuilder;
use mapgen::map_builders::bsp_town::BSPTownBuilder;
use mapgen::map_builders::door_placement::DoorPlacement;
use mapgen::map_builders::drunkard_walk::DrunkardsWalkBuilder;
use mapgen::map_builders::perlin_noise::NoiseMapBuilder;
use mapgen::map_builders::room_based_spawner::RoomBasedSpawner;
use mapgen::map_builders::room_sorter::RoomSorter;
use mapgen::map_builders::simple_map::SimpleMapBuilder;
use mapgen::map_builders::voronoi::VoronoiBuilder;
use mapgen::map_builders::{
    BuilderChain, BuilderMap, Fields, InitialStage, MetaMapBuilder, MetaStage,
};
use mapgen::random_table::RandomTable;
use mapgen::rect::Rect;
use rltk::RandomNumberGenerator;

#[test]
fn new_context_is_empty() {
    let bd = BuilderMap::new(80, 50);
    assert_eq!(bd.width, 80);
    assert_eq!(bd.height, 50);
    assert!(bd.list_spawns.is_empty());
    assert!(bd.history.is_empty());
    assert!(bd.starting_position.is_none());
    assert!(bd.rooms.is_none() && bd.corridors.is_none() && bd.submaps.is_none());
    assert!(bd.map.tiles.iter().all(|t| *t == TileType::Wall));
    assert!(bd.map.revealed_tiles.iter().all(|r| !*r));
    assert!(bd.map.visible_tiles.iter().all(|v| !*v));
    assert!(bd.map.blocked.iter().all(|b| !*b));
    assert_eq!(bd.spawn_table.total_weight, 0);
}

#[test]
fn new_chain_is_all_wall_and_hidden() {
    let chain = BuilderChain::new(12, 7);
    assert!(!chain.is_started());
    assert!(chain.builders.is_empty());
    assert_eq!(chain.build_data.map.tiles.len(), 84);
    assert_eq!(chain.build_data.map.revealed_tiles.len(), 84);
    assert_eq!(chain.build_data.map.blocked.len(), 84);
    assert!(chain.build_data.map.tiles.iter().all(|t| *t == TileType::Wall));
    assert!(chain.build_data.map.revealed_tiles.iter().all(|r| !*r));
    assert!(chain.build_data.map.blocked.iter().all(|b| !*b));
}

#[test]
fn stages_keep_the_order_in_which_they_were_added() {
    let mut rng = RandomNumberGenerator::seeded(6);
    let mut chain = BuilderChain::new(40, 30);
    chain.start_with_stage(InitialStage { stage: Box::new(SimpleMapBuilder::new()) });
    assert!(chain.is_started());
    assert_eq!(chain.builders.len(), 0);
    chain.with_stage(MetaStage { stage: RoomSorter::new() });
    chain.with(RoomBasedSpawner::new());
    chain.with_stage(MetaStage { stage: DoorPlacement::new() });
    assert_eq!(chain.builders.len(), 3);
    assert!(chain.builders[0].stage.needed().rooms);
    assert!(chain.builders[1].stage.needed().rooms);
    assert!(!chain.builders[2].stage.needed().rooms);
    assert!(chain.is_composed());
    chain.build_map(&mut rng);
    let rooms = chain.build_data.rooms.as_ref().unwrap();
    for pair in rooms.windows(2) {
        assert!(pair[0].x1 <= pair[1].x1);
    }
}

#[test]
fn snapshots_are_appended_and_revealed() {
    let mut bd = BuilderMap::new(4, 4);
    bd.take_snapshot();
    bd.map.set_tile(1, 1, TileType::Floor);
    bd.take_snapshot();
    assert_eq!(bd.history.len(), 2);
    assert_eq!(bd.history[0].tiles[5], TileType::Wall);
    assert_eq!(bd.history[1].tiles[5], TileType::Floor);
    assert!(bd.history[1].revealed_tiles.iter().all(|r| *r));
    assert!(bd.map.revealed_tiles.iter().all(|r| !*r));
}

#[test]
fn spawn_requests_are_appended_in_order() {
    let mut bd = BuilderMap::new(4, 4);
    bd.request_spawn(3, "Rat");
    bd.request_spawn(3, "Bat");
    bd.request_spawn(0, "Rat");
    assert_eq!(
        bd.list_spawns,
        vec![(3, "Rat".to_string()), (3, "Bat".to_string()), (0, "Rat".to_string())]
    );
}

#[test]
fn fields_union_and_containment() {
    let rooms = Fields { rooms: true, corridors: false, submaps: false };
    let halls = Fields { rooms: false, corridors: true, submaps: false };
    let both = rooms.union(&halls);
    assert!(both.rooms && both.corridors && !both.submaps);
    assert!(both.contains(&rooms));
    assert!(!rooms.contains(&both));
    assert!(rooms.contains(&Fields { rooms: false, corridors: false, submaps: false }));
}

#[test]
fn chain_needs_a_starter() {
    let mut chain = BuilderChain::new(40, 30);
    assert!(!chain.is_started());
    assert!(!chain.is_composed());
    chain.with(DoorPlacement::new());
    assert!(!chain.is_composed());
    chain.start_with(VoronoiBuilder::new());
    assert!(chain.is_started());
    assert!(chain.is_composed());
    assert_eq!(chain.builders.len(), 1);
}

#[test]
fn chain_checks_what_stages_need() {
    let mut no_rooms = BuilderChain::new(40, 30);
    no_rooms.start_with(VoronoiBuilder::new());
    no_rooms.with(RoomBasedSpawner::new());
    assert!(!no_rooms.is_composed());
    let mut with_rooms = BuilderChain::new(40, 30);
    with_rooms.start_with(Box::new(SimpleMapBuilder::new()));
    with_rooms.with(RoomSorter::new());
    with_rooms.with(RoomBasedSpawner::new());
    with_rooms.with(DoorPlacement::new());
    assert!(with_rooms.is_composed());
    let mut town_without_region = BuilderChain::new(40, 30);
    town_without_region.start_with(VoronoiBuilder::new());
    town_without_region.with(BSPTownBuilder::new());
    assert!(!town_without_region.is_composed());
    let mut town_with_region = BuilderChain::new(40, 30);
    town_with_region.build_data.submaps = Some(vec![Rect { x1: 5, y1: 5, x2: 35, y2: 25 }]);
    town_with_region.start_with(VoronoiBuilder::new());
    town_with_region.with(BSPTownBuilder::new());
    assert!(town_with_region.is_composed());
}

#[test]
fn chain_checks_the_size_of_the_grid() {
    let mut small = BuilderChain::new(10, 10);
    small.start_with(Box::new(SimpleMapBuilder::new()));
    assert!(!small.is_composed());
    let mut fits = BuilderChain::new(11, 11);
    fits.start_with(Box::new(SimpleMapBuilder::new()));
    assert!(fits.is_composed());
    let mut tiny = BuilderChain::new(3, 3);
    tiny.start_with(Box::new(DrunkardsWalkBuilder::open_halls()));
    assert!(!tiny.is_composed());
    let mut tiny_ok = BuilderChain::new(3, 3);
    tiny_ok.start_with(Box::new(DrunkardsWalkBuilder::open_area()));
    assert!(tiny_ok.is_composed());
    let mut noise = BuilderChain::new(5, 4);
    noise.start_with(NoiseMapBuilder::new());
    assert!(!noise.is_composed());
    let mut noise_ok = BuilderChain::new(5, 4);
    noise_ok.start_with(NoiseMapBuilder::with_samples(vec![true; 20]));
    assert!(noise_ok.is_composed());
    let mut interior = BuilderChain::new(5, 6);
    interior.start_with(Box::new(BSPInteriorBuilder::new()));
    assert!(!interior.is_composed());
}

fn run(seed: u64) -> BuilderChain {
    let mut rng = RandomNumberGenerator::seeded(seed);
    let mut chain = BuilderChain::new(80, 50);
    chain.build_data.spawn_table = RandomTable::new().add("Rat", 5).add("Bat", 2).add("Cat", 1);
    chain.start_with(Box::new(SimpleMapBuilder::new()));
    chain.with(RoomSorter::new());
    chain.with(RoomBasedSpawner::new());
    chain.with(DoorPlacement::new());
    assert!(chain.is_composed());
    chain.build_map(&mut rng);
    chain
}

#[test]
fn same_seed_same_level() {
    let a = run(42);
    let b = run(42);
    assert_eq!(a.build_data.map.tiles, b.build_data.map.tiles);
    assert_eq!(a.build_data.starting_position, b.build_data.starting_position);
    assert_eq!(a.build_data.list_spawns, b.build_data.list_spawns);
    assert_eq!(a.build_data.rooms, b.build_data.rooms);
    let c = run(43);
    assert!(a.build_data.map.tiles != c.build_data.map.tiles);
}

#[test]
fn same_seed_same_level_for_every_initial_stage() {
    for seed in [1u64, 42, 1000] {
        let mut tiles = Vec::new();
        let mut spawns = Vec::new();
        let mut starts = Vec::new();
        for _ in 0..2 {
            let mut rng = RandomNumberGenerator::seeded(seed);
            let mut town = BuilderChain::new(60, 40);
            town.start_with(BSPTownBuilder::new());
            town.with(DoorPlacement::new());
            town.build_map(&mut rng);
            let mut drunk = BuilderChain::new(60, 40);
            drunk.start_with(Box::new(DrunkardsWalkBuilder::winding_passages()));
            drunk.build_map(&mut rng);
            let mut cells = BuilderChain::new(60, 40);
            cells.start_with(VoronoiBuilder::manhattan());
            cells.build_map(&mut rng);
            let mut bsp = BuilderChain::new(60, 40);
            bsp.start_with(Box::new(BSPInteriorBuilder::new()));
            bsp.build_map(&mut rng);
            tiles.push(vec![
                town.build_data.map.tiles.clone(),
                drunk.build_data.map.tiles.clone(),
                cells.build_data.map.tiles.clone(),
                bsp.build_data.map.tiles.clone(),
            ]);
            spawns.push(town.build_data.list_spawns.clone());
            starts.push(vec![
                town.build_data.starting_position,
                drunk.build_data.starting_position,
                cells.build_data.starting_position,
                bsp.build_data.starting_position,
            ]);
        }
        assert_eq!(tiles[0], tiles[1]);
        assert_eq!(spawns[0], spawns[1]);
        assert_eq!(starts[0], starts[1]);
    }
}

#[test]
fn stages_run_in_the_order_of_registration() {
    let mut rng = RandomNumberGenerator::seeded(6);
    let mut chain = BuilderChain::new(80, 50);
    chain.build_data.spawn_table = RandomTable::new().add("Rat", 1);
    chain.start_with(Box::new(BSPInteriorBuilder::new()));
    chain.with(RoomBasedSpawner::new());
    chain.with(DoorPlacement::new());
    chain.build_map(&mut rng);
    let spawns = &chain.build_data.list_spawns;
    let first_door = spawns.iter().position(|s| s.1 == "Door").unwrap_or(spawns.len());
    assert!(spawns[..first_door].iter().all(|s| s.1 == "Rat"));
    assert!(spawns[first_door..].iter().all(|s| s.1 == "Door"));
    assert!(first_door > 0);
    let start = chain.build_data.starting_position.unwrap();
    assert_eq!(chain.build_data.map.tile(start.x, start.y), TileType::Floor);
}

#[test]
fn spawn_requests_carry_column_and_row() {
    let mut chain = BuilderChain::new(10, 6);
    chain.build_data.request_spawn(0, "A");
    chain.build_data.request_spawn(23, "B");
    chain.build_data.request_spawn(59, "C");
    chain.build_data.request_spawn(23, "D");
    let requests = chain.spawn_entities();
    assert_eq!(requests.len(), 4);
    assert_eq!((requests[0].x, requests[0].y, requests[0].tag.as_str()), (0, 0, "A"));
    assert_eq!((requests[1].x, requests[1].y, requests[1].tag.as_str()), (3, 2, "B"));
    assert_eq!((requests[2].x, requests[2].y, requests[2].tag.as_str()), (9, 5, "C"));
    assert_eq!((requests[3].x, requests[3].y, requests[3].tag.as_str()), (3, 2, "D"));
    assert_eq!(chain.build_data.list_spawns.len(), 4);
}
