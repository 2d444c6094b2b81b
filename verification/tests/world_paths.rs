use bangladesh::world::{
    decimal_string, join_path, map_assets_path, map_index_path, map_tile_path, region_map_path,
    tile_file_name, EntityCounts, TerrainKind, MAP_ASSETS_DIR, TILE_FORMAT_VERSION,
};

#[test]
fn tile_file_name_formats_the_id() {
    assert_eq!(tile_file_name(0), "tile_0.rkyv");
    assert_eq!(tile_file_name(7), "tile_7.rkyv");
    assert_eq!(tile_file_name(1234), "tile_1234.rkyv");
    assert_eq!(tile_file_name(u32::MAX), "tile_4294967295.rkyv");
}

#[test]
fn distinct_tiles_get_distinct_file_names() {
    let names: Vec<String> = (0..200u32).map(tile_file_name).collect();
    for i in 0..names.len() {
        for j in (i + 1)..names.len() {
            assert_ne!(names[i], names[j]);
        }
    }
}

#[test]
fn decimal_string_has_no_leading_zeros() {
    assert_eq!(decimal_string(0), "0");
    assert_eq!(decimal_string(10), "10");
    assert_eq!(decimal_string(90817), "90817");
}

#[test]
fn region_paths_live_under_the_assets_directory() {
    assert_eq!(MAP_ASSETS_DIR, "assets/map");
    assert_eq!(map_assets_path(), "assets/map");
    assert_eq!(region_map_path("dhaka"), "assets/map/dhaka");
    assert_eq!(map_index_path("dhaka"), "assets/map/dhaka/map_index.json");
    assert_eq!(map_tile_path("bangladesh", 42), "assets/map/bangladesh/tile_42.rkyv");
}

#[test]
fn join_path_behaves_like_pushing_a_component() {
    assert_eq!(join_path("a/b", "c"), "a/b/c");
    assert_eq!(join_path("a/b/", "c"), "a/b/c");
    assert_eq!(join_path("", "c"), "c");
    assert_eq!(join_path("a/b", "/abs/x"), "/abs/x");
    assert_eq!(region_map_path("/tmp/out"), "/tmp/out");
}

#[test]
fn terrain_codes_match_the_stored_discriminants() {
    let kinds = [
        (TerrainKind::Unknown, 0u8),
        (TerrainKind::Water, 1),
        (TerrainKind::Grass, 2),
        (TerrainKind::Forest, 3),
        (TerrainKind::Urban, 4),
        (TerrainKind::Farmland, 5),
        (TerrainKind::Sand, 6),
        (TerrainKind::Road, 7),
    ];
    for (kind, code) in kinds {
        assert_eq!(kind.code(), code);
        assert_eq!(TerrainKind::from_code(code), kind);
    }
    assert_eq!(TerrainKind::from_code(8), TerrainKind::Unknown);
    assert_eq!(TerrainKind::from_code(255), TerrainKind::Unknown);
}

#[test]
fn terrain_priorities_rank_roads_then_water_highest() {
    assert_eq!(TerrainKind::Unknown.priority(), 0);
    assert_eq!(TerrainKind::Grass.priority(), 1);
    assert_eq!(TerrainKind::Farmland.priority(), 2);
    assert_eq!(TerrainKind::Forest.priority(), 3);
    assert_eq!(TerrainKind::Sand.priority(), 4);
    assert_eq!(TerrainKind::Urban.priority(), 5);
    assert_eq!(TerrainKind::Water.priority(), 6);
    assert_eq!(TerrainKind::Road.priority(), 7);
}

#[test]
fn entity_counts_default_to_zero() {
    let c = EntityCounts::default();
    assert_eq!(c, EntityCounts { roads: 0, buildings: 0, areas: 0, pois: 0 });
    assert_eq!(TILE_FORMAT_VERSION, 1);
}
