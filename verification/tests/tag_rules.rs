use bangladesh::tags::{
    best_terrain_match, classify_highway, classify_poi_tags, classify_relation_area,
    classify_relation_terrain, classify_road, classify_road_width_m, classify_tag_pair,
    classify_terrain_tags, classify_way, classify_way_terrain, has_tag, has_tag_pair, is_area_hint_key, is_closed_outline,
    keeps_way, last_tag_value, road_class_width_dm,
    poi_visible_at_lod, road_class_visible, WayKind,
};
use bangladesh::world::{RoadClass, TerrainKind};

#[test]
fn tag_pairs_map_to_terrain_classes() {
    assert_eq!(classify_tag_pair("natural", "water"), Some(TerrainKind::Water));
    assert_eq!(classify_tag_pair("leisure", "swimming_area"), Some(TerrainKind::Water));
    assert_eq!(classify_tag_pair("natural", "scrub"), Some(TerrainKind::Forest));
    assert_eq!(classify_tag_pair("building", "yes"), Some(TerrainKind::Urban));
    assert_eq!(classify_tag_pair("amenity", "anything"), Some(TerrainKind::Urban));
    assert_eq!(classify_tag_pair("office", "ngo"), Some(TerrainKind::Urban));
    assert_eq!(classify_tag_pair("landuse", "Dhaka Woasa"), Some(TerrainKind::Urban));
    assert_eq!(classify_tag_pair("landuse", "plantation"), Some(TerrainKind::Farmland));
    assert_eq!(classify_tag_pair("natural", "beach"), Some(TerrainKind::Sand));
    assert_eq!(classify_tag_pair("leisure", "Open space"), Some(TerrainKind::Grass));
    assert_eq!(classify_tag_pair("natural", "yes"), Some(TerrainKind::Grass));
    assert_eq!(classify_tag_pair("highway", "primary"), None);
    assert_eq!(classify_tag_pair("landuse", "Forest"), None);
}

#[test]
fn best_match_keeps_the_highest_priority() {
    assert_eq!(
        best_terrain_match(&[("landuse", "grass"), ("natural", "water"), ("landuse", "forest")]),
        Some(TerrainKind::Water)
    );
    assert_eq!(best_terrain_match(&[("landuse", "meadow"), ("landuse", "village_green")]), Some(TerrainKind::Grass));
    assert_eq!(best_terrain_match(&[("name", "x")]), None);
    assert_eq!(best_terrain_match(&[]), None);
}

#[test]
fn area_hint_keys() {
    for key in ["landuse", "natural", "leisure", "building", "amenity", "office"] {
        assert!(is_area_hint_key(key));
    }
    assert!(!is_area_hint_key("highway"));
    assert!(!is_area_hint_key("Landuse"));
}

#[test]
fn tag_lookups() {
    let tags = [("name", "a"), ("highway", "track"), ("name", "b")];
    assert!(has_tag(&tags, "highway"));
    assert!(!has_tag(&tags, "area"));
    assert!(has_tag_pair(&tags, "highway", "track"));
    assert!(!has_tag_pair(&tags, "highway", "primary"));
    assert_eq!(last_tag_value(&tags, "name"), Some("b"));
    assert_eq!(last_tag_value(&tags, "ref"), None);
}

#[test]
fn highway_values_map_to_road_classes() {
    assert_eq!(classify_highway("trunk_link"), Some(RoadClass::Motorway));
    assert_eq!(classify_highway("primary_link"), Some(RoadClass::Primary));
    assert_eq!(classify_highway("tertiary"), Some(RoadClass::Secondary));
    assert_eq!(classify_highway("busway"), Some(RoadClass::Local));
    assert_eq!(classify_highway("service"), Some(RoadClass::Service));
    assert_eq!(classify_highway("track"), Some(RoadClass::Track));
    assert_eq!(classify_highway("footway"), None);
}

#[test]
fn roads_need_a_highway_tag_and_no_area() {
    assert_eq!(classify_road(&[("highway", "motorway")]), Some(RoadClass::Motorway));
    assert_eq!(classify_road(&[("highway", "primary"), ("area", "yes")]), None);
    assert_eq!(classify_road(&[("area", "no"), ("highway", "residential")]), Some(RoadClass::Local));
    assert_eq!(classify_road(&[("highway", "service"), ("highway", "track")]), Some(RoadClass::Track));
    assert_eq!(classify_road(&[("name", "x")]), None);
}

#[test]
fn road_widths_by_highway_value() {
    assert_eq!(classify_road_width_m(&[("highway", "trunk")]), Some(14));
    assert_eq!(classify_road_width_m(&[("highway", "motorway_link")]), Some(12));
    assert_eq!(classify_road_width_m(&[("highway", "primary")]), Some(11));
    assert_eq!(classify_road_width_m(&[("highway", "primary_link")]), Some(9));
    assert_eq!(classify_road_width_m(&[("highway", "secondary")]), Some(9));
    assert_eq!(classify_road_width_m(&[("highway", "secondary_link")]), Some(8));
    assert_eq!(classify_road_width_m(&[("highway", "tertiary")]), Some(8));
    assert_eq!(classify_road_width_m(&[("highway", "tertiary_link")]), Some(7));
    assert_eq!(classify_road_width_m(&[("highway", "living_street")]), Some(7));
    assert_eq!(classify_road_width_m(&[("highway", "service")]), Some(6));
    assert_eq!(classify_road_width_m(&[("highway", "track")]), Some(5));
    assert_eq!(classify_road_width_m(&[("highway", "path")]), None);
    assert_eq!(classify_road_width_m(&[("highway", "track"), ("area", "yes")]), None);
}

#[test]
fn relations_must_be_multipolygons() {
    let water = [("type", "multipolygon"), ("natural", "water")];
    assert_eq!(classify_relation_area(&water), Some(TerrainKind::Water));
    assert_eq!(classify_relation_terrain(&water), Some(TerrainKind::Water));
    let bare = [("type", "multipolygon"), ("name", "x")];
    assert_eq!(classify_relation_area(&bare), None);
    assert_eq!(classify_relation_terrain(&bare), Some(TerrainKind::Grass));
    let route = [("type", "route"), ("natural", "water")];
    assert_eq!(classify_relation_area(&route), None);
    assert_eq!(classify_relation_terrain(&route), None);
}

#[test]
fn terrain_tags_fall_back_to_grass() {
    assert_eq!(classify_terrain_tags(&[("landuse", "garages")]), Some(TerrainKind::Urban));
    assert_eq!(classify_terrain_tags(&[("landuse", "unknown_value")]), Some(TerrainKind::Grass));
    assert_eq!(classify_terrain_tags(&[]), Some(TerrainKind::Grass));
}

#[test]
fn ways_are_buildings_then_roads_then_areas() {
    assert_eq!(classify_way(&[("highway", "primary"), ("building", "yes")]), Some(WayKind::Building));
    assert_eq!(classify_way(&[("highway", "service"), ("landuse", "forest")]), Some(WayKind::Road(RoadClass::Service)));
    assert_eq!(classify_way(&[("highway", "service"), ("area", "yes"), ("landuse", "forest")]), Some(WayKind::Area(TerrainKind::Forest)));
    assert_eq!(classify_way(&[("name", "x")]), None);
}

#[test]
fn poi_kind_is_the_first_candidate_and_name_the_last() {
    let p = classify_poi_tags(&[("name", "Old"), ("tourism", "museum"), ("amenity", "cafe"), ("name", "New")]).unwrap();
    assert_eq!(p.kind, "tourism:museum");
    assert_eq!(p.name, Some("New".to_string()));
    let city = classify_poi_tags(&[("place", "city")]).unwrap();
    assert_eq!(city.kind, "place:city");
    assert_eq!(city.name, None);
    assert!(classify_poi_tags(&[("place", "hamlet"), ("railway", "halt")]).is_none());
    assert_eq!(classify_poi_tags(&[("aeroway", "aerodrome")]).unwrap().kind, "aeroway:aerodrome");
    assert_eq!(classify_poi_tags(&[("railway", "station")]).unwrap().kind, "railway:station");
}

#[test]
fn coarse_levels_keep_only_places_and_stations() {
    assert!(poi_visible_at_lod("amenity:school", 3));
    assert!(!poi_visible_at_lod("amenity:school", 4));
    assert!(poi_visible_at_lod("place:town", 6));
    assert!(poi_visible_at_lod("railway:station", 5));
    assert!(!poi_visible_at_lod("railway:halt", 5));
}

#[test]
fn road_classes_fade_out_with_level() {
    assert!(road_class_visible(RoadClass::Motorway, 255));
    assert!(road_class_visible(RoadClass::Primary, 9));
    assert!(road_class_visible(RoadClass::Secondary, 5));
    assert!(!road_class_visible(RoadClass::Secondary, 6));
    assert!(road_class_visible(RoadClass::Local, 3));
    assert!(!road_class_visible(RoadClass::Local, 4));
    assert!(road_class_visible(RoadClass::Service, 2));
    assert!(!road_class_visible(RoadClass::Service, 3));
    assert!(road_class_visible(RoadClass::Track, 1));
    assert!(!road_class_visible(RoadClass::Track, 2));
}

#[test]
fn ways_need_enough_nodes_to_be_drawn() {
    assert!(is_closed_outline(&[1, 2, 3, 1]));
    assert!(!is_closed_outline(&[1, 2, 1]));
    assert!(!is_closed_outline(&[1, 2, 3, 4]));
    assert!(keeps_way(WayKind::Building, &[1, 2, 3, 1]));
    assert!(!keeps_way(WayKind::Area(TerrainKind::Water), &[1, 2, 3]));
    assert!(keeps_way(WayKind::Road(RoadClass::Local), &[1, 2]));
    assert!(!keeps_way(WayKind::Road(RoadClass::Local), &[1]));
}

#[test]
fn road_class_widths_in_decimetres() {
    assert_eq!(road_class_width_dm(RoadClass::Motorway), 140);
    assert_eq!(road_class_width_dm(RoadClass::Primary), 110);
    assert_eq!(road_class_width_dm(RoadClass::Secondary), 85);
    assert_eq!(road_class_width_dm(RoadClass::Local), 70);
    assert_eq!(road_class_width_dm(RoadClass::Service), 60);
    assert_eq!(road_class_width_dm(RoadClass::Track), 50);
}

#[test]
fn compact_raster_table() {
    assert_eq!(classify_way_terrain(&[("natural", "coastline")]), Some(TerrainKind::Water));
    assert_eq!(classify_way_terrain(&[("landuse", "wood"), ("landuse", "retail")]), Some(TerrainKind::Urban));
    assert_eq!(classify_way_terrain(&[("natural", "grassland"), ("natural", "beach")]), Some(TerrainKind::Sand));
    assert_eq!(classify_way_terrain(&[("landuse", "plant_nursery")]), Some(TerrainKind::Farmland));
    assert_eq!(classify_way_terrain(&[("landuse", "cemetery")]), None);
    assert_eq!(classify_way_terrain(&[("building", "yes")]), None);
    assert_eq!(classify_way_terrain(&[]), None);
}
