use mapgen::map::TileType;
use mapgen::map_builders::prefab_builders::prefab_levels::PrefabLevel;
use mapgen::map_builders::prefab_builders::prefab_sections::{
    horizontal_anchor, vertical_anchor, HorizontalPlacement, PrefabSection, VerticalPlacement,
};
use mapgen::map_builders::prefab_builders::{AsciiGrid, GlyphSource, PrefabBuilder, PrefabMode, RexLayer};
use mapgen::map_builders::{BuilderChain, BuilderMap, InitialMapBuilder, MetaMapBuilder};
use rltk::RandomNumberGenerator;

const ELEVEN: &str = "###########\n###########\n###########\n####g######\n###########\n###### ####\n###########\n###########\n###########\n###########\n###########\n";

#[test]
fn eleven_by_eleven_level_asks_for_one_human() {
    let mut rng = RandomNumberGenerator::seeded(42);
    let level = PrefabLevel { template: ELEVEN, width: 11, height: 11 };
    let mut chain = BuilderChain::new(20, 20);
    chain.start_with(PrefabBuilder::constant(level));
    assert!(chain.is_composed());
    chain.build_map(&mut rng);
    let bd = &chain.build_data;
    assert_eq!(bd.list_spawns, vec![(3 * 20 + 4, "Human".to_string())]);
    for y in 0..20 {
        for x in 0..20 {
            let t = bd.map.tile(x, y);
            if (x, y) == (4, 3) || (x, y) == (6, 5) {
                assert_eq!(t, TileType::Floor);
            } else {
                assert_eq!(t, TileType::Wall);
            }
        }
    }
    assert_eq!(bd.history.len(), 1);
}

#[test]
fn reading_a_template_drops_line_breaks() {
    assert_eq!(PrefabBuilder::read_ascii_to_vec("ab\r\ncd\n"), vec!['a', 'b', 'c', 'd']);
    assert_eq!(PrefabBuilder::read_ascii_to_vec("a\u{a0}b\u{1a0}"), vec!['a', ' ', 'b', ' ']);
    assert_eq!(PrefabBuilder::read_ascii_to_vec(""), Vec::<char>::new());
    assert_eq!(PrefabBuilder::read_ascii_to_vec("# g"), vec!['#', ' ', 'g']);
}

#[test]
fn glyphs_stand_for_tiles_and_spawns() {
    let builder = PrefabBuilder::sectional(PrefabSection {
        template: "",
        width: 0,
        height: 0,
        placement: (HorizontalPlacement::Left, VerticalPlacement::Top),
    });
    let mut bd = BuilderMap::new(5, 5);
    bd.map.tiles[7] = TileType::Floor;
    builder.char_to_map('#', 7, &mut bd);
    assert_eq!(bd.map.tiles[7], TileType::Wall);
    builder.char_to_map(' ', 7, &mut bd);
    assert_eq!(bd.map.tiles[7], TileType::Floor);
    builder.char_to_map('#', 8, &mut bd);
    builder.char_to_map('?', 8, &mut bd);
    assert_eq!(bd.map.tiles[8], TileType::Floor);
    assert!(bd.list_spawns.is_empty());
    builder.char_to_map('g', 9, &mut bd);
    assert_eq!(bd.map.tiles[9], TileType::Floor);
    assert_eq!(bd.list_spawns, vec![(9, "Human".to_string())]);
}

#[test]
fn a_short_template_leaves_the_rest_alone() {
    let level = PrefabLevel { template: "  #g", width: 3, height: 3 };
    let mut bd = BuilderMap::new(5, 4);
    bd.map.tiles[6] = TileType::Tree;
    let mut builder = PrefabBuilder::constant(level);
    builder.build(&mut bd);
    assert_eq!(bd.map.tile(0, 0), TileType::Floor);
    assert_eq!(bd.map.tile(1, 0), TileType::Floor);
    assert_eq!(bd.map.tile(2, 0), TileType::Wall);
    assert_eq!(bd.map.tile(0, 1), TileType::Floor);
    assert_eq!(bd.map.tile(1, 1), TileType::Tree);
    assert_eq!(bd.map.tile(3, 0), TileType::Wall);
    assert_eq!(bd.list_spawns, vec![(5, "Human".to_string())]);
}

#[test]
fn anchors_by_placement() {
    assert_eq!(horizontal_anchor(HorizontalPlacement::Left, 80, 20), 0);
    assert_eq!(horizontal_anchor(HorizontalPlacement::Center, 80, 20), 30);
    assert_eq!(horizontal_anchor(HorizontalPlacement::Right, 80, 20), 59);
    assert_eq!(horizontal_anchor(HorizontalPlacement::Center, 81, 21), 30);
    assert_eq!(horizontal_anchor(HorizontalPlacement::Right, 80, 79), 0);
    assert_eq!(horizontal_anchor(HorizontalPlacement::Right, 80, 80), 0);
    assert_eq!(vertical_anchor(VerticalPlacement::Top, 50, 10), 0);
    assert_eq!(vertical_anchor(VerticalPlacement::Center, 50, 10), 20);
    assert_eq!(vertical_anchor(VerticalPlacement::Bottom, 50, 10), 39);
    assert_eq!(vertical_anchor(VerticalPlacement::Center, 50, 50), 0);
    assert_eq!(vertical_anchor(VerticalPlacement::Bottom, 50, 49), 0);
    assert_eq!(vertical_anchor(VerticalPlacement::Bottom, 50, 50), 0);
}

#[test]
fn anchors_keep_sections_on_the_grid() {
    for extent in 1..40 {
        for size in 0..=extent {
            for p in [HorizontalPlacement::Left, HorizontalPlacement::Center, HorizontalPlacement::Right] {
                let a = horizontal_anchor(p, extent, size);
                assert!(a >= 0 && a <= extent - size);
            }
            for p in [VerticalPlacement::Top, VerticalPlacement::Center, VerticalPlacement::Bottom] {
                let a = vertical_anchor(p, extent, size);
                assert!(a >= 0 && a <= extent - size);
            }
        }
    }
}

#[test]
fn section_is_laid_where_its_placement_says() {
    let section = PrefabSection {
        template: "#g#\n# #\n",
        width: 3,
        height: 2,
        placement: (HorizontalPlacement::Right, VerticalPlacement::Bottom),
    };
    let mut bd = BuilderMap::new(10, 8);
    for t in bd.map.tiles.iter_mut() {
        *t = TileType::Tree;
    }
    bd.list_spawns.push((0, "Far".to_string()));
    bd.list_spawns.push((5 * 10 + 7, "Near".to_string()));
    bd.list_spawns.push((7 * 10 + 9, "Edge".to_string()));
    let builder = PrefabBuilder::sectional(section);
    builder.apply_sectional(&section, &mut bd);
    assert_eq!(bd.map.tile(6, 5), TileType::Wall);
    assert_eq!(bd.map.tile(7, 5), TileType::Floor);
    assert_eq!(bd.map.tile(8, 5), TileType::Wall);
    assert_eq!(bd.map.tile(6, 6), TileType::Wall);
    assert_eq!(bd.map.tile(7, 6), TileType::Floor);
    assert_eq!(bd.map.tile(8, 6), TileType::Wall);
    assert_eq!(bd.map.tile(9, 5), TileType::Tree);
    assert_eq!(bd.map.tile(6, 7), TileType::Tree);
    assert_eq!(bd.map.tiles.iter().filter(|t| **t == TileType::Tree).count(), 74);
    assert_eq!(
        bd.list_spawns,
        vec![
            (0, "Far".to_string()),
            (57, "Near".to_string()),
            (79, "Edge".to_string()),
            (57, "Human".to_string()),
        ]
    );
    assert_eq!(bd.history.len(), 2);
}

#[test]
fn section_as_wide_as_the_grid_fills_it() {
    let section = PrefabSection {
        template: "g  #",
        width: 4,
        height: 1,
        placement: (HorizontalPlacement::Right, VerticalPlacement::Top),
    };
    let mut bd = BuilderMap::new(4, 3);
    let mut builder = PrefabBuilder::sectional(section);
    assert!(InitialMapBuilder::grid_ok(&*builder, 4, 3));
    assert!(!MetaMapBuilder::grid_ok(&*builder, 3, 3));
    builder.build(&mut bd);
    assert_eq!(bd.list_spawns, vec![(0, "Human".to_string())]);
    assert_eq!(bd.map.tile(0, 0), TileType::Floor);
    assert_eq!(bd.map.tile(1, 0), TileType::Floor);
    assert_eq!(bd.map.tile(2, 0), TileType::Floor);
    assert_eq!(bd.map.tile(3, 0), TileType::Wall);
    assert_eq!(bd.map.tile(0, 1), TileType::Wall);
}

#[test]
fn section_as_high_as_the_grid_fills_it() {
    let section = PrefabSection {
        template: "g\n \n#\n",
        width: 1,
        height: 3,
        placement: (HorizontalPlacement::Left, VerticalPlacement::Bottom),
    };
    let mut bd = BuilderMap::new(4, 3);
    bd.list_spawns.push((11, "Rat".to_string()));
    let builder = PrefabBuilder::sectional(section);
    builder.apply_sectional(&section, &mut bd);
    assert_eq!(bd.list_spawns, vec![(11, "Rat".to_string()), (0, "Human".to_string())]);
    assert_eq!(bd.map.tile(0, 0), TileType::Floor);
    assert_eq!(bd.map.tile(0, 1), TileType::Floor);
    assert_eq!(bd.map.tile(0, 2), TileType::Wall);
    assert_eq!(bd.history.len(), 2);
}

#[test]
fn glyphs_with_and_without_a_meaning() {
    assert!(PrefabBuilder::glyph_known(' '));
    assert!(PrefabBuilder::glyph_known('#'));
    assert!(PrefabBuilder::glyph_known('g'));
    assert!(!PrefabBuilder::glyph_known('@'));
    assert!(!PrefabBuilder::glyph_known('G'));
    let mut bd = BuilderMap::new(4, 3);
    let builder = PrefabBuilder::rex_level(Vec::new());
    builder.char_to_map('@', 5, &mut bd);
    assert_eq!(bd.map.tiles[5], TileType::Floor);
    assert!(bd.list_spawns.is_empty());
}

#[test]
fn layers_are_stored_by_columns() {
    let layer = RexLayer { width: 2, height: 3, cells: vec![35, 32, 103, 0x123, 46, 35] };
    assert_eq!(layer.width(), 2);
    assert_eq!(layer.height(), 3);
    assert_eq!(layer.glyph(0, 0), Some('#'));
    assert_eq!(layer.glyph(0, 2), Some('g'));
    assert_eq!(layer.glyph(1, 0), Some('#'));
    assert_eq!(layer.glyph(1, 1), Some('.'));
    let short = RexLayer { width: 2, height: 3, cells: vec![35, 32] };
    assert_eq!(short.glyph(0, 1), Some(' '));
    assert_eq!(short.glyph(1, 0), None);
    let text = AsciiGrid { chars: vec!['a', 'b', 'c'], width: 2, height: 2 };
    assert_eq!(text.glyph(1, 0), Some('b'));
    assert_eq!(text.glyph(0, 1), Some('c'));
    assert_eq!(text.glyph(1, 1), None);
}

#[test]
fn picture_layers_are_laid_one_after_the_other() {
    let lower = RexLayer { width: 2, height: 2, cells: vec![35, 35, 103, 32] };
    let upper = RexLayer { width: 1, height: 1, cells: vec![32] };
    let mut bd = BuilderMap::new(3, 3);
    for t in bd.map.tiles.iter_mut() {
        *t = TileType::Tree;
    }
    let mut builder = PrefabBuilder::rex_level(vec![lower, upper]);
    assert!(matches!(builder.mode, PrefabMode::RexLevel { .. }));
    builder.build(&mut bd);
    assert_eq!(bd.map.tile(0, 0), TileType::Floor);
    assert_eq!(bd.map.tile(0, 1), TileType::Wall);
    assert_eq!(bd.map.tile(1, 0), TileType::Floor);
    assert_eq!(bd.map.tile(1, 1), TileType::Floor);
    assert_eq!(bd.map.tile(2, 2), TileType::Tree);
    assert_eq!(bd.list_spawns, vec![(1, "Human".to_string())]);
    let mut wide = BuilderMap::new(2, 1);
    let big = RexLayer { width: 3, height: 2, cells: vec![32, 35, 32, 35, 103, 35] };
    let mut clipped = PrefabBuilder::rex_level(vec![big]);
    clipped.build(&mut wide);
    assert_eq!(wide.map.tiles, vec![TileType::Floor, TileType::Floor]);
    assert!(wide.list_spawns.is_empty());
}
