use mapgen::map::{tile_opaque, tile_walkable, Grid, TileType};
use mapgen::rect::{side_of, Rect};

#[test]
fn new_grid_is_all_walls() {
    let map = Grid::new(80, 50);
    assert_eq!(map.width, 80);
    assert_eq!(map.height, 50);
    assert_eq!(map.tiles.len(), 4000);
    assert_eq!(map.revealed_tiles.len(), 4000);
    assert_eq!(map.visible_tiles.len(), 4000);
    assert_eq!(map.blocked.len(), 4000);
    assert_eq!(map.tile_content.len(), 4000);
    assert!(map.tiles.iter().all(|t| *t == TileType::Wall));
    assert!(map.revealed_tiles.iter().all(|r| !*r));
    assert!(map.blocked.iter().all(|b| !*b));
    assert!(map.view_blocked.is_empty());
}

#[test]
fn index_is_row_times_width_plus_column() {
    let map = Grid::new(80, 50);
    assert_eq!(map.xy_idx(0, 0), 0);
    assert_eq!(map.xy_idx(79, 0), 79);
    assert_eq!(map.xy_idx(0, 1), 80);
    assert_eq!(map.xy_idx(40, 25), 2040);
    assert_eq!(map.xy_idx(79, 49), 3999);
}

#[test]
fn index_and_coordinates_round_trip() {
    let map = Grid::new(7, 5);
    for idx in 0..35usize {
        let (x, y) = map.idx_xy(idx);
        assert!(x >= 0 && x < 7 && y >= 0 && y < 5);
        assert_eq!(map.xy_idx(x, y), idx);
    }
    assert_eq!(map.idx_xy(9), (2, 1));
}

#[test]
fn walkable_and_opaque_by_kind() {
    assert!(tile_walkable(TileType::Floor));
    assert!(tile_walkable(TileType::FloorIndoor));
    assert!(tile_walkable(TileType::DownStairs));
    assert!(!tile_walkable(TileType::Wall));
    assert!(!tile_walkable(TileType::Tree));
    assert!(tile_opaque(TileType::Wall));
    assert!(tile_opaque(TileType::Tree));
    assert!(!tile_opaque(TileType::Floor));
    assert!(!tile_opaque(TileType::FloorIndoor));
    assert!(!tile_opaque(TileType::DownStairs));
}

#[test]
fn populate_blocked_follows_tiles() {
    let mut map = Grid::new(4, 3);
    map.set_tile(1, 1, TileType::Floor);
    map.set_tile(2, 1, TileType::Tree);
    map.set_tile(3, 2, TileType::DownStairs);
    map.populate_blocked();
    for i in 0..12usize {
        assert_eq!(map.blocked[i], !tile_walkable(map.tiles[i]));
    }
    assert!(!map.blocked[5]);
    assert!(map.blocked[6]);
    assert!(!map.blocked[11]);
    assert!(map.blocked[0]);
}

#[test]
fn set_tile_changes_one_cell() {
    let mut map = Grid::new(5, 4);
    map.set_tile(3, 2, TileType::Floor);
    assert_eq!(map.tile(3, 2), TileType::Floor);
    let floors = map.tiles.iter().filter(|t| **t == TileType::Floor).count();
    assert_eq!(floors, 1);
    assert_eq!(map.tiles[2 * 5 + 3], TileType::Floor);
    assert_eq!(map.count_tiles(TileType::Floor), 1);
    assert_eq!(map.count_tiles(TileType::Wall), 19);
}

#[test]
fn exits_need_unblocked_cells_off_the_border() {
    let mut map = Grid::new(5, 5);
    map.set_tile(2, 2, TileType::Floor);
    map.populate_blocked();
    assert!(map.is_exit_valid(2, 2));
    assert!(!map.is_exit_valid(1, 1));
    assert!(!map.is_exit_valid(0, 2));
    assert!(!map.is_exit_valid(2, 5));
    assert!(!map.is_exit_valid(-1, 2));
}

#[test]
fn opaque_by_tile_or_by_mark() {
    let mut map = Grid::new(5, 5);
    map.set_tile(2, 2, TileType::Floor);
    map.set_tile(3, 2, TileType::Floor);
    assert!(map.is_opaque(0));
    assert!(map.is_opaque(-3));
    assert!(map.is_opaque(1));
    assert!(!map.is_opaque(12));
    map.view_blocked.insert(13);
    assert!(map.is_opaque(13));
    assert!(!map.is_opaque(12));
}

#[test]
fn snapshot_reveals_everything_and_is_a_copy() {
    let mut map = Grid::new(6, 4);
    map.set_tile(2, 2, TileType::Floor);
    map.view_blocked.insert(7);
    let snap = map.snapshot();
    assert_eq!(snap.width, 6);
    assert_eq!(snap.height, 4);
    assert_eq!(snap.tiles, map.tiles);
    assert!(snap.revealed_tiles.iter().all(|r| *r));
    assert!(map.revealed_tiles.iter().all(|r| !*r));
    assert!(snap.view_blocked.contains(&7));
    assert_eq!(snap.view_blocked.len(), 1);
    map.view_blocked.insert(9);
    map.set_tile(3, 2, TileType::Floor);
    assert!(!snap.view_blocked.contains(&9));
    assert_eq!(snap.tiles[2 * 6 + 3], TileType::Wall);
}

#[test]
fn clear_content_index_empties_every_cell() {
    let mut map = Grid::new(3, 3);
    map.tile_content[4].push(17);
    map.tile_content[8].push(3);
    map.clear_content_index();
    assert_eq!(map.tile_content.len(), 9);
    assert!(map.tile_content.iter().all(|c| c.is_empty()));
}

#[test]
fn rect_new_adds_the_size_to_the_corner() {
    let r = Rect::new(3, 4, 10, 6);
    assert_eq!(r.x1, 3);
    assert_eq!(r.y1, 4);
    assert_eq!(r.x2, 13);
    assert_eq!(r.y2, 10);
}

#[test]
fn rect_center_rounds_toward_zero() {
    assert_eq!(Rect::new(3, 4, 10, 6).center(), (8, 7));
    assert_eq!(Rect::new(0, 0, 5, 5).center(), (2, 2));
    assert_eq!(Rect::new(-5, -5, 2, 2).center(), (-4, -4));
    assert_eq!(Rect { x1: i32::MAX, x2: i32::MAX, y1: i32::MIN, y2: i32::MIN }.center(), (i32::MAX, i32::MIN));
}

#[test]
fn rect_intersect_counts_shared_edges() {
    let a = Rect::new(0, 0, 5, 5);
    assert!(a.intersect(&Rect::new(5, 5, 3, 3)));
    assert!(a.intersect(&Rect::new(2, 2, 1, 1)));
    assert!(!a.intersect(&Rect::new(6, 0, 3, 3)));
    assert!(!a.intersect(&Rect::new(0, 6, 3, 3)));
    let b = Rect::new(4, 1, 9, 2);
    assert_eq!(a.intersect(&b), b.intersect(&a));
}

#[test]
fn side_is_the_absolute_difference() {
    assert_eq!(side_of(3, 10), 7);
    assert_eq!(side_of(10, 3), 7);
    assert_eq!(side_of(-4, 4), 8);
    assert_eq!(side_of(5, 5), 0);
}
