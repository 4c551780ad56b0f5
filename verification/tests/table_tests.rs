use mapgen::random_table::RandomTable;
use mapgen::raws::rawmaster::get_spawn_table;
use mapgen::raws::spawn_table_structs::SpawnTableEntry;
use mapgen::map_builders::perlin_noise::NoiseMapBuilder;
use mapgen::map_builders::simple_map::SimpleMapBuilder;
use mapgen::map_builders::BuilderMap;
use mapgen::spawner::{
    random_select_item_roll, random_select_roll, room_targets, select_by_roll, select_item_by_roll,
    spawn_region, spawn_room,
};
use mapgen::map::{Grid, TileType};
use mapgen::rect::Rect;
use rltk::RandomNumberGenerator;

fn sample_table() -> RandomTable {
    RandomTable::new().add("Goblin", 10).add("Orc", 1).add("Nothing", 0).add("Rat", 5).add("Ghost", -3)
}

#[test]
fn add_keeps_positive_weights_only() {
    let t = sample_table();
    assert_eq!(t.entries.len(), 3);
    assert_eq!(t.total_weight, 16);
    assert_eq!(t.entries[0].name, "Goblin");
    assert_eq!(t.entries[0].weight, 10);
    assert_eq!(t.entries[1].name, "Orc");
    assert_eq!(t.entries[2].name, "Rat");
    assert_eq!(t.entries[2].weight, 5);
}

#[test]
fn index_for_lays_shares_end_to_end() {
    let t = sample_table();
    for r in 0..10 {
        assert_eq!(t.index_for(r), 0);
    }
    assert_eq!(t.index_for(10), 1);
    for r in 11..16 {
        assert_eq!(t.index_for(r), 2);
    }
}

#[test]
fn every_entry_is_selected_by_as_many_draws_as_its_weight() {
    let t = sample_table();
    let mut counts = vec![0; t.entries.len()];
    for r in 0..t.total_weight {
        counts[t.index_for(r)] += 1;
    }
    for (i, c) in counts.iter().enumerate() {
        assert_eq!(*c, t.entries[i].weight);
    }
}

#[test]
fn empty_table_rolls_none() {
    let mut rng = RandomNumberGenerator::seeded(1);
    let t = RandomTable::new();
    assert_eq!(t.roll(&mut rng), "None");
    let t2 = RandomTable::new().add("Ghost", 0);
    assert_eq!(t2.roll(&mut rng), "None");
}

#[test]
fn roll_names_an_entry() {
    let mut rng = RandomNumberGenerator::seeded(7);
    let t = sample_table();
    let mut seen_goblin = false;
    for _ in 0..200 {
        let name = t.roll(&mut rng);
        assert!(name == "Goblin" || name == "Orc" || name == "Rat");
        if name == "Goblin" {
            seen_goblin = true;
        }
    }
    assert!(seen_goblin);
    let single = RandomTable::new().add("Only", 3);
    for _ in 0..20 {
        assert_eq!(single.roll(&mut rng), "Only");
    }
}

#[test]
fn dice_stay_in_range_and_vary() {
    let mut rng = RandomNumberGenerator::seeded(42);
    let mut seen = [false; 4];
    for _ in 0..200 {
        let item = random_select_item_roll(&mut rng);
        let k = ["Medkit", "Grenade", "Concussion Grenade", "Pistol"]
            .iter()
            .position(|n| *n == item)
            .unwrap();
        seen[k] = true;
    }
    assert!(seen.iter().all(|s| *s));
    let mut seeds = Vec::new();
    for _ in 0..100 {
        let seed = NoiseMapBuilder::draw_seed(&mut rng);
        assert!(seed >= 1 && seed <= 65536);
        seeds.push(seed);
    }
    seeds.sort();
    seeds.dedup();
    assert!(seeds.len() > 50);
    let single = RandomTable::new().add("Only", 1);
    assert_eq!(single.roll(&mut rng), "Only");
}

#[test]
fn dice_repeat_for_a_seed() {
    let mut a = RandomNumberGenerator::seeded(99);
    let mut b = RandomNumberGenerator::seeded(99);
    for _ in 0..100 {
        assert_eq!(NoiseMapBuilder::draw_seed(&mut a), NoiseMapBuilder::draw_seed(&mut b));
    }
}

#[test]
fn room_sizes_come_from_a_range_without_its_upper_end() {
    let mut widths = Vec::new();
    for seed in 0..20u64 {
        let mut rng = RandomNumberGenerator::seeded(seed);
        let mut bd = BuilderMap::new(80, 50);
        let mut builder = SimpleMapBuilder::new();
        builder.rooms_and_corridors(&mut rng, &mut bd);
        for r in bd.rooms.unwrap().iter() {
            assert!(r.x2 - r.x1 >= 6 && r.x2 - r.x1 < 10);
            assert!(r.y2 - r.y1 >= 6 && r.y2 - r.y1 < 10);
            widths.push(r.x2 - r.x1);
            widths.push(r.y2 - r.y1);
        }
    }
    for w in 6..10 {
        assert!(widths.contains(&w));
    }
}

#[test]
fn spawn_table_follows_the_rows() {
    let rows = vec![
        SpawnTableEntry { name: "Rat".to_string(), weight: 15 },
        SpawnTableEntry { name: "Void".to_string(), weight: 0 },
        SpawnTableEntry { name: "Medkit".to_string(), weight: 7 },
    ];
    let t = get_spawn_table(&rows);
    assert_eq!(t.total_weight, 22);
    assert_eq!(t.entries.len(), 2);
    assert_eq!(t.entries[0].name, "Rat");
    assert_eq!(t.entries[0].weight, 15);
    assert_eq!(t.entries[1].name, "Medkit");
    assert_eq!(t.entries[1].weight, 7);
    let empty = get_spawn_table(&Vec::new());
    assert_eq!(empty.total_weight, 0);
    assert!(empty.entries.is_empty());
}

#[test]
fn names_by_roll() {
    assert_eq!(select_by_roll(1), "Human");
    assert_eq!(select_by_roll(2), "Cop");
    assert_eq!(select_item_by_roll(1), "Medkit");
    assert_eq!(select_item_by_roll(2), "Grenade");
    assert_eq!(select_item_by_roll(3), "Concussion Grenade");
    assert_eq!(select_item_by_roll(4), "Pistol");
    let mut rng = RandomNumberGenerator::seeded(5);
    let mut humans = 0;
    let mut cops = 0;
    for _ in 0..100 {
        let n = random_select_roll(&mut rng);
        if n == "Human" {
            humans += 1;
        } else {
            assert_eq!(n, "Cop");
            cops += 1;
        }
        let item = random_select_item_roll(&mut rng);
        assert!(item == "Medkit" || item == "Grenade" || item == "Concussion Grenade" || item == "Pistol");
    }
    assert!(humans > 0 && cops > 0);
}

#[test]
fn room_targets_are_the_floor_cells_inside() {
    let mut map = Grid::new(10, 10);
    let room = Rect::new(2, 2, 4, 4);
    map.set_tile(3, 3, TileType::Floor);
    map.set_tile(5, 5, TileType::Floor);
    map.set_tile(2, 3, TileType::Floor);
    map.set_tile(6, 3, TileType::Floor);
    map.set_tile(4, 4, TileType::FloorIndoor);
    let targets = room_targets(&map, &room);
    assert_eq!(targets, vec![33, 55]);
}

#[test]
fn spawn_region_asks_for_one_thing_in_the_area() {
    let mut rng = RandomNumberGenerator::seeded(11);
    let table = RandomTable::new().add("Rat", 1);
    let mut list: Vec<(usize, String)> = vec![(3, "Old".to_string())];
    spawn_region(&mut rng, &vec![], &table, &mut list);
    assert_eq!(list.len(), 1);
    spawn_region(&mut rng, &vec![44], &table, &mut list);
    assert_eq!(list.len(), 2);
    assert_eq!(list[1], (44, "Rat".to_string()));
    let area = vec![5, 6, 7, 8];
    spawn_region(&mut rng, &area, &table, &mut list);
    assert_eq!(list.len(), 3);
    assert!(area.contains(&list[2].0));
    assert_eq!(list[2].1, "Rat");
    assert_eq!(list[0], (3, "Old".to_string()));
}

#[test]
fn spawn_room_needs_floor_inside() {
    let mut rng = RandomNumberGenerator::seeded(11);
    let table = RandomTable::new().add("Rat", 1);
    let mut map = Grid::new(10, 10);
    let room = Rect::new(2, 2, 4, 4);
    let mut list: Vec<(usize, String)> = Vec::new();
    spawn_room(&map, &mut rng, &room, &table, &mut list);
    assert!(list.is_empty());
    map.set_tile(4, 3, TileType::Floor);
    spawn_room(&map, &mut rng, &room, &table, &mut list);
    assert_eq!(list, vec![(34, "Rat".to_string())]);
}
