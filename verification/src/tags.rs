//! Classification of OpenStreetMap tags: terrain classes of area tags, road
//! classes and widths of `highway` values, and point-of-interest kinds.
use vstd::prelude::*;
use crate::text::{str_eq, str_starts_with};
use crate::world::{terrain_priority, RoadClass, TerrainKind};
use vstd::string::StringExecFns;

verus! {

/// Keys whose presence marks a closed way as an area.
pub open spec fn area_hint_key(key: Seq<char>) -> bool {
    key == "landuse"@ || key == "natural"@ || key == "leisure"@ || key == "building"@ || key
        == "amenity"@ || key == "office"@
}

pub open spec fn water_pair(k: Seq<char>, v: Seq<char>) -> bool {
    ||| k == "natural"@ && (v == "water"@ || v == "wetland"@ || v == "bay"@ || v == "coastline"@)
    ||| k == "waterway"@ && v == "riverbank"@
    ||| k == "landuse"@ && v == "reservoir"@
    ||| k == "leisure"@ && v == "swimming_area"@
}

pub open spec fn forest_pair(k: Seq<char>, v: Seq<char>) -> bool {
    ||| k == "landuse"@ && (v == "forest"@ || v == "wood"@)
    ||| k == "natural"@ && (v == "wood"@ || v == "heath"@ || v == "scrub"@ || v == "tree_row"@)
}

pub open spec fn urban_landuse(v: Seq<char>) -> bool {
    v == "residential"@ || v == "commercial"@ || v == "industrial"@ || v == "retail"@ || v
        == "construction"@ || v == "brownfield"@ || v == "depot"@ || v == "Dhaka Woasa"@ || v
        == "education"@ || v == "garages"@ || v == "landfill"@ || v == "military"@ || v
        == "religious"@ || v == "slam"@ || v == "slum"@ || v == "yes"@
}

pub open spec fn urban_leisure(v: Seq<char>) -> bool {
    v == "bleachers"@ || v == "fitness_station"@ || v == "outdoor_seating"@ || v == "resort"@ || v
        == "slipway"@ || v == "sports_centre"@ || v == "stadium"@ || v == "swimming_pool"@
}

pub open spec fn urban_pair(k: Seq<char>, v: Seq<char>) -> bool {
    ||| k == "landuse"@ && urban_landuse(v)
    ||| k == "building"@ || k == "amenity"@ || k == "office"@
    ||| k == "leisure"@ && urban_leisure(v)
}

pub open spec fn farmland_pair(k: Seq<char>, v: Seq<char>) -> bool {
    k == "landuse"@ && (v == "farmland"@ || v == "allotments"@ || v == "farmyard"@ || v
        == "orchard"@ || v == "vineyard"@ || v == "greenhouse_horticulture"@ || v
        == "plant_nursery"@ || v == "plantation"@)
}

pub open spec fn sand_pair(k: Seq<char>, v: Seq<char>) -> bool {
    k == "natural"@ && (v == "sand"@ || v == "beach"@)
}

pub open spec fn grass_landuse(v: Seq<char>) -> bool {
    v == "grass"@ || v == "meadow"@ || v == "village_green"@ || v == "recreation_ground"@ || v
        == "cemetery"@ || v == "churchyard"@ || v == "common"@ || v == "flowerbed"@ || v
        == "greenfield"@ || v == "open space"@ || v == "open_space"@ || v == "playground"@
}

pub open spec fn grass_leisure(v: Seq<char>) -> bool {
    v == "common"@ || v == "garden"@ || v == "golf_course"@ || v == "open space"@ || v
        == "Open space"@ || v == "park"@ || v == "pitch"@ || v == "playground"@ || v
        == "practice_pitch"@ || v == "track"@
}

pub open spec fn grass_pair(k: Seq<char>, v: Seq<char>) -> bool {
    ||| k == "landuse"@ && grass_landuse(v)
    ||| k == "leisure"@ && grass_leisure(v)
    ||| k == "natural"@ && (v == "grassland"@ || v == "yes"@)
}

/// Terrain class of one tag.
pub open spec fn tag_terrain(k: Seq<char>, v: Seq<char>) -> Option<TerrainKind> {
    if water_pair(k, v) {
        Some(TerrainKind::Water)
    } else if forest_pair(k, v) {
        Some(TerrainKind::Forest)
    } else if urban_pair(k, v) {
        Some(TerrainKind::Urban)
    } else if farmland_pair(k, v) {
        Some(TerrainKind::Farmland)
    } else if sand_pair(k, v) {
        Some(TerrainKind::Sand)
    } else if grass_pair(k, v) {
        Some(TerrainKind::Grass)
    } else {
        None
    }
}

/// Best terrain class among the first `n` tags: a later tag replaces the
/// current best only when its priority is strictly higher.
pub open spec fn best_terrain(tags: Seq<(Seq<char>, Seq<char>)>, n: nat) -> Option<TerrainKind>
    decreases n,
{
    if n == 0 {
        None
    } else {
        let prev = best_terrain(tags, (n - 1) as nat);
        match tag_terrain(tags[n - 1].0, tags[n - 1].1) {
            None => prev,
            Some(c) => match prev {
                Some(e) => if terrain_priority(e) >= terrain_priority(c) {
                    Some(e)
                } else {
                    Some(c)
                },
                None => Some(c),
            },
        }
    }
}

pub open spec fn tag_views(tags: Seq<(&str, &str)>) -> Seq<(Seq<char>, Seq<char>)> {
    tags.map_values(|t: (&str, &str)| (t.0@, t.1@))
}

/// The key marks a closed way as an area.
pub fn is_area_hint_key(key: &str) -> (b: bool)
    ensures
        b == area_hint_key(key@),
{
    str_eq(key, "landuse") || str_eq(key, "natural") || str_eq(key, "leisure") || str_eq(
        key,
        "building",
    ) || str_eq(key, "amenity") || str_eq(key, "office")
}

/// Terrain class of the tag `key=value`, if it names one.
pub fn classify_tag_pair(key: &str, value: &str) -> (t: Option<TerrainKind>)
    ensures
        t == tag_terrain(key@, value@),
{
    let natural = str_eq(key, "natural");
    let landuse = str_eq(key, "landuse");
    let leisure = str_eq(key, "leisure");
    let waterway = str_eq(key, "waterway");
    let water = (natural && (str_eq(value, "water") || str_eq(value, "wetland") || str_eq(
        value,
        "bay",
    ) || str_eq(value, "coastline"))) || (waterway && str_eq(value, "riverbank")) || (landuse
        && str_eq(value, "reservoir")) || (leisure && str_eq(value, "swimming_area"));
    if water {
        return Some(TerrainKind::Water);
    }
    let forest = (landuse && (str_eq(value, "forest") || str_eq(value, "wood"))) || (natural && (
    str_eq(value, "wood") || str_eq(value, "heath") || str_eq(value, "scrub") || str_eq(
        value,
        "tree_row",
    )));
    if forest {
        return Some(TerrainKind::Forest);
    }
    let urban_landuse = str_eq(value, "residential") || str_eq(value, "commercial") || str_eq(
        value,
        "industrial",
    ) || str_eq(value, "retail") || str_eq(value, "construction") || str_eq(value, "brownfield")
        || str_eq(value, "depot") || str_eq(value, "Dhaka Woasa") || str_eq(value, "education")
        || str_eq(value, "garages") || str_eq(value, "landfill") || str_eq(value, "military")
        || str_eq(value, "religious") || str_eq(value, "slam") || str_eq(value, "slum")
        || str_eq(value, "yes");
    let urban_leisure = str_eq(value, "bleachers") || str_eq(value, "fitness_station") || str_eq(
        value,
        "outdoor_seating",
    ) || str_eq(value, "resort") || str_eq(value, "slipway") || str_eq(value, "sports_centre")
        || str_eq(value, "stadium") || str_eq(value, "swimming_pool");
    let urban = (landuse && urban_landuse) || str_eq(key, "building") || str_eq(key, "amenity")
        || str_eq(key, "office") || (leisure && urban_leisure);
    if urban {
        return Some(TerrainKind::Urban);
    }
    let farmland = landuse && (str_eq(value, "farmland") || str_eq(value, "allotments") || str_eq(
        value,
        "farmyard",
    ) || str_eq(value, "orchard") || str_eq(value, "vineyard") || str_eq(
        value,
        "greenhouse_horticulture",
    ) || str_eq(value, "plant_nursery") || str_eq(value, "plantation"));
    if farmland {
        return Some(TerrainKind::Farmland);
    }
    if natural && (str_eq(value, "sand") || str_eq(value, "beach")) {
        return Some(TerrainKind::Sand);
    }
    let grass_landuse = str_eq(value, "grass") || str_eq(value, "meadow") || str_eq(
        value,
        "village_green",
    ) || str_eq(value, "recreation_ground") || str_eq(value, "cemetery") || str_eq(
        value,
        "churchyard",
    ) || str_eq(value, "common") || str_eq(value, "flowerbed") || str_eq(value, "greenfield")
        || str_eq(value, "open space") || str_eq(value, "open_space") || str_eq(
        value,
        "playground",
    );
    let grass_leisure = str_eq(value, "common") || str_eq(value, "garden") || str_eq(
        value,
        "golf_course",
    ) || str_eq(value, "open space") || str_eq(value, "Open space") || str_eq(value, "park")
        || str_eq(value, "pitch") || str_eq(value, "playground") || str_eq(value, "practice_pitch")
        || str_eq(value, "track");
    let grass = (landuse && grass_landuse) || (leisure && grass_leisure) || (natural && (str_eq(
        value,
        "grassland",
    ) || str_eq(value, "yes")));
    if grass {
        return Some(TerrainKind::Grass);
    }
    None
}

/// The highest-priority terrain class among the tags; among equal priorities
/// the earliest tag wins.
pub fn best_terrain_match(tags: &[(&str, &str)]) -> (t: Option<TerrainKind>)
    ensures
        t == best_terrain(tag_views(tags@), tags@.len()),
{
    let mut best_match: Option<TerrainKind> = None;
    let mut i: usize = 0;
    while i < tags.len()
        invariant
            0 <= i <= tags@.len(),
            best_match == best_terrain(tag_views(tags@), i as nat),
        decreases tags@.len() - i,
    {
        let (key, value) = tags[i];
        let candidate = classify_tag_pair(key, value);
        match candidate {
            None => {},
            Some(c) => {
                best_match = match best_match {
                    Some(existing) => if existing.priority() >= c.priority() {
                        Some(existing)
                    } else {
                        Some(c)
                    },
                    None => Some(c),
                };
            },
        }
        i = i + 1;
    }
    best_match
}


/// Terrain class of one tag in the compact raster table: water bodies,
/// woods, built-up and farmed land use, sand and grassland.
pub open spec fn raster_pair_terrain(k: Seq<char>, v: Seq<char>) -> Option<TerrainKind> {
    if (k == "natural"@ && (v == "water"@ || v == "wetland"@ || v == "bay"@ || v == "coastline"@)) || (k
        == "waterway"@ && v == "riverbank"@) {
        Some(TerrainKind::Water)
    } else if (k == "landuse"@ && (v == "forest"@ || v == "wood"@)) || (k == "natural"@ && v == "wood"@) {
        Some(TerrainKind::Forest)
    } else if k == "landuse"@ && (v == "residential"@ || v == "commercial"@ || v == "industrial"@ || v
        == "retail"@ || v == "construction"@) {
        Some(TerrainKind::Urban)
    } else if k == "landuse"@ && (v == "farmland"@ || v == "orchard"@ || v == "vineyard"@ || v
        == "greenhouse_horticulture"@ || v == "plant_nursery"@ || v == "plantation"@) {
        Some(TerrainKind::Farmland)
    } else if k == "natural"@ && (v == "sand"@ || v == "beach"@) {
        Some(TerrainKind::Sand)
    } else if (k == "landuse"@ && (v == "grass"@ || v == "meadow"@ || v == "village_green"@ || v
        == "recreation_ground"@)) || (k == "natural"@ && v == "grassland"@) {
        Some(TerrainKind::Grass)
    } else {
        None
    }
}

/// Highest-priority class of the first `n` tags in the compact raster table,
/// the earliest one on ties.
pub open spec fn best_raster_terrain(tags: Seq<(Seq<char>, Seq<char>)>, n: nat) -> Option<TerrainKind>
    decreases n,
{
    if n == 0 {
        None
    } else {
        let prev = best_raster_terrain(tags, (n - 1) as nat);
        match raster_pair_terrain(tags[n - 1].0, tags[n - 1].1) {
            None => prev,
            Some(c) => match prev {
                Some(e) => if terrain_priority(e) >= terrain_priority(c) {
                    Some(e)
                } else {
                    Some(c)
                },
                None => Some(c),
            },
        }
    }
}

fn raster_tag_terrain(key: &str, value: &str) -> (t: Option<TerrainKind>)
    ensures
        t == raster_pair_terrain(key@, value@),
{
    if (str_eq(key, "natural") && (str_eq(value, "water") || str_eq(value, "wetland") || str_eq(value, "bay")
        || str_eq(value, "coastline"))) || (str_eq(key, "waterway") && str_eq(value, "riverbank")) {
        Some(TerrainKind::Water)
    } else if (str_eq(key, "landuse") && (str_eq(value, "forest") || str_eq(value, "wood"))) || (str_eq(
        key,
        "natural",
    ) && str_eq(value, "wood")) {
        Some(TerrainKind::Forest)
    } else if str_eq(key, "landuse") && (str_eq(value, "residential") || str_eq(value, "commercial")
        || str_eq(value, "industrial") || str_eq(value, "retail") || str_eq(value, "construction")) {
        Some(TerrainKind::Urban)
    } else if str_eq(key, "landuse") && (str_eq(value, "farmland") || str_eq(value, "orchard") || str_eq(
        value,
        "vineyard",
    ) || str_eq(value, "greenhouse_horticulture") || str_eq(value, "plant_nursery") || str_eq(
        value,
        "plantation",
    )) {
        Some(TerrainKind::Farmland)
    } else if str_eq(key, "natural") && (str_eq(value, "sand") || str_eq(value, "beach")) {
        Some(TerrainKind::Sand)
    } else if (str_eq(key, "landuse") && (str_eq(value, "grass") || str_eq(value, "meadow") || str_eq(
        value,
        "village_green",
    ) || str_eq(value, "recreation_ground"))) || (str_eq(key, "natural") && str_eq(value, "grassland")) {
        Some(TerrainKind::Grass)
    } else {
        None
    }
}

/// Terrain class of a way in the compact raster table (see
/// `best_raster_terrain`); none when no tag is in the table.
pub fn classify_way_terrain(tags: &[(&str, &str)]) -> (t: Option<TerrainKind>)
    ensures
        t == best_raster_terrain(tag_views(tags@), tags@.len()),
{
    let mut best_match: Option<TerrainKind> = None;
    let mut i: usize = 0;
    while i < tags.len()
        invariant
            0 <= i <= tags@.len(),
            best_match == best_raster_terrain(tag_views(tags@), i as nat),
        decreases tags@.len() - i,
    {
        let (key, value) = tags[i];
        match raster_tag_terrain(key, value) {
            None => {},
            Some(c) => {
                best_match = match best_match {
                    Some(existing) => if existing.priority() >= c.priority() {
                        Some(existing)
                    } else {
                        Some(c)
                    },
                    None => Some(c),
                };
            },
        }
        i = i + 1;
    }
    best_match
}

/// Some tag has key `key`.
pub open spec fn has_key(tags: Seq<(Seq<char>, Seq<char>)>, key: Seq<char>) -> bool {
    exists|i: int| 0 <= i < tags.len() && tags[i].0 == key
}

/// Some tag is exactly `key=value`.
pub open spec fn has_pair(tags: Seq<(Seq<char>, Seq<char>)>, key: Seq<char>, value: Seq<char>) -> bool {
    exists|i: int| 0 <= i < tags.len() && tags[i].0 == key && tags[i].1 == value
}

/// Value of the last of the first `n` tags with key `key`.
pub open spec fn last_value(tags: Seq<(Seq<char>, Seq<char>)>, key: Seq<char>, n: nat) -> Option<Seq<char>>
    decreases n,
{
    if n == 0 {
        None
    } else if tags[n - 1].0 == key {
        Some(tags[n - 1].1)
    } else {
        last_value(tags, key, (n - 1) as nat)
    }
}

/// Road class of a `highway` value.
pub open spec fn highway_class(v: Seq<char>) -> Option<RoadClass> {
    if v == "motorway"@ || v == "trunk"@ || v == "motorway_link"@ || v == "trunk_link"@ {
        Some(RoadClass::Motorway)
    } else if v == "primary"@ || v == "primary_link"@ {
        Some(RoadClass::Primary)
    } else if v == "secondary"@ || v == "secondary_link"@ || v == "tertiary"@ || v == "tertiary_link"@ {
        Some(RoadClass::Secondary)
    } else if v == "residential"@ || v == "unclassified"@ || v == "living_street"@ || v == "road"@
        || v == "busway"@ {
        Some(RoadClass::Local)
    } else if v == "service"@ {
        Some(RoadClass::Service)
    } else if v == "track"@ {
        Some(RoadClass::Track)
    } else {
        None
    }
}

/// Width in metres of a road with the given `highway` value.
pub open spec fn highway_width_m(v: Seq<char>) -> Option<u32> {
    if v == "motorway"@ || v == "trunk"@ {
        Some(14)
    } else if v == "motorway_link"@ || v == "trunk_link"@ {
        Some(12)
    } else if v == "primary"@ {
        Some(11)
    } else if v == "primary_link"@ || v == "secondary"@ {
        Some(9)
    } else if v == "secondary_link"@ || v == "tertiary"@ {
        Some(8)
    } else if v == "tertiary_link"@ || v == "residential"@ || v == "unclassified"@ || v
        == "living_street"@ || v == "road"@ || v == "busway"@ {
        Some(7)
    } else if v == "service"@ {
        Some(6)
    } else if v == "track"@ {
        Some(5)
    } else {
        None
    }
}

/// A line road: not tagged `area=yes`, classified by its last `highway` tag.
pub open spec fn road_class_of_tags(tags: Seq<(Seq<char>, Seq<char>)>) -> Option<RoadClass> {
    if has_pair(tags, "area"@, "yes"@) {
        None
    } else {
        match last_value(tags, "highway"@, tags.len()) {
            None => None,
            Some(v) => highway_class(v),
        }
    }
}

pub open spec fn road_width_of_tags(tags: Seq<(Seq<char>, Seq<char>)>) -> Option<u32> {
    if has_pair(tags, "area"@, "yes"@) {
        None
    } else {
        match last_value(tags, "highway"@, tags.len()) {
            None => None,
            Some(v) => highway_width_m(v),
        }
    }
}

/// Value of the last tag with key `key`.
pub fn last_tag_value<'a>(tags: &[(&'a str, &'a str)], key: &str) -> (r: Option<&'a str>)
    ensures
        match r {
            Some(v) => last_value(tag_views(tags@), key@, tags@.len()) == Some(v@),
            None => last_value(tag_views(tags@), key@, tags@.len()) is None,
        },
{
    let mut found: Option<&'a str> = None;
    let mut i: usize = 0;
    while i < tags.len()
        invariant
            0 <= i <= tags@.len(),
            match found {
                Some(v) => last_value(tag_views(tags@), key@, i as nat) == Some(v@),
                None => last_value(tag_views(tags@), key@, i as nat) is None,
            },
        decreases tags@.len() - i,
    {
        let (k, v) = tags[i];
        if str_eq(k, key) {
            found = Some(v);
        }
        i = i + 1;
    }
    found
}

/// Some tag is exactly `key=value`.
pub fn has_tag_pair(tags: &[(&str, &str)], key: &str, value: &str) -> (b: bool)
    ensures
        b == has_pair(tag_views(tags@), key@, value@),
{
    let mut i: usize = 0;
    while i < tags.len()
        invariant
            0 <= i <= tags@.len(),
            forall|j: int| 0 <= j < i ==> !(tag_views(tags@)[j].0 == key@ && tag_views(tags@)[j].1 == value@),
        decreases tags@.len() - i,
    {
        let (k, v) = tags[i];
        if str_eq(k, key) && str_eq(v, value) {
            assert(tag_views(tags@)[i as int].0 == key@ && tag_views(tags@)[i as int].1 == value@);
            return true;
        }
        i = i + 1;
    }
    false
}

/// Some tag has key `key_to_find`.
pub fn has_tag(tags: &[(&str, &str)], key_to_find: &str) -> (b: bool)
    ensures
        b == has_key(tag_views(tags@), key_to_find@),
{
    let mut i: usize = 0;
    while i < tags.len()
        invariant
            0 <= i <= tags@.len(),
            forall|j: int| 0 <= j < i ==> tag_views(tags@)[j].0 != key_to_find@,
        decreases tags@.len() - i,
    {
        let (k, _v) = tags[i];
        if str_eq(k, key_to_find) {
            assert(tag_views(tags@)[i as int].0 == key_to_find@);
            return true;
        }
        i = i + 1;
    }
    false
}

/// Road class of a `highway` value.
pub fn classify_highway(value: &str) -> (c: Option<RoadClass>)
    ensures
        c == highway_class(value@),
{
    if str_eq(value, "motorway") || str_eq(value, "trunk") || str_eq(value, "motorway_link")
        || str_eq(value, "trunk_link") {
        Some(RoadClass::Motorway)
    } else if str_eq(value, "primary") || str_eq(value, "primary_link") {
        Some(RoadClass::Primary)
    } else if str_eq(value, "secondary") || str_eq(value, "secondary_link") || str_eq(
        value,
        "tertiary",
    ) || str_eq(value, "tertiary_link") {
        Some(RoadClass::Secondary)
    } else if str_eq(value, "residential") || str_eq(value, "unclassified") || str_eq(
        value,
        "living_street",
    ) || str_eq(value, "road") || str_eq(value, "busway") {
        Some(RoadClass::Local)
    } else if str_eq(value, "service") {
        Some(RoadClass::Service)
    } else if str_eq(value, "track") {
        Some(RoadClass::Track)
    } else {
        None
    }
}

/// Class of a line road (a way with a known `highway` value and without
/// `area=yes`).
pub fn classify_road(tags: &[(&str, &str)]) -> (c: Option<RoadClass>)
    ensures
        c == road_class_of_tags(tag_views(tags@)),
{
    if has_tag_pair(tags, "area", "yes") {
        return None;
    }
    match last_tag_value(tags, "highway") {
        None => None,
        Some(v) => classify_highway(v),
    }
}

/// Width in metres of a line road (a way with a known `highway` value and
/// without `area=yes`).
pub fn classify_road_width_m(tags: &[(&str, &str)]) -> (w: Option<u32>)
    ensures
        w == road_width_of_tags(tag_views(tags@)),
{
    if has_tag_pair(tags, "area", "yes") {
        return None;
    }
    match last_tag_value(tags, "highway") {
        None => None,
        Some(v) => {
            if str_eq(v, "motorway") || str_eq(v, "trunk") {
                Some(14)
            } else if str_eq(v, "motorway_link") || str_eq(v, "trunk_link") {
                Some(12)
            } else if str_eq(v, "primary") {
                Some(11)
            } else if str_eq(v, "primary_link") || str_eq(v, "secondary") {
                Some(9)
            } else if str_eq(v, "secondary_link") || str_eq(v, "tertiary") {
                Some(8)
            } else if str_eq(v, "tertiary_link") || str_eq(v, "residential") || str_eq(
                v,
                "unclassified",
            ) || str_eq(v, "living_street") || str_eq(v, "road") || str_eq(v, "busway") {
                Some(7)
            } else if str_eq(v, "service") {
                Some(6)
            } else if str_eq(v, "track") {
                Some(5)
            } else {
                None
            }
        },
    }
}

/// Terrain class of a multipolygon relation: none unless it is tagged
/// `type=multipolygon`, then the best terrain class of its tags.
pub fn classify_relation_area(tags: &[(&str, &str)]) -> (t: Option<TerrainKind>)
    ensures
        t == (if has_pair(tag_views(tags@), "type"@, "multipolygon"@) {
            best_terrain(tag_views(tags@), tags@.len())
        } else {
            None
        }),
{
    if !has_tag_pair(tags, "type", "multipolygon") {
        return None;
    }
    best_terrain_match(tags)
}

/// Terrain class of a closed way for rasterizing: the best class of its tags,
/// grass when no tag names one.
pub fn classify_terrain_tags(tags: &[(&str, &str)]) -> (t: Option<TerrainKind>)
    ensures
        t == Some(
            match best_terrain(tag_views(tags@), tags@.len()) {
                Some(b) => b,
                None => TerrainKind::Grass,
            },
        ),
{
    match best_terrain_match(tags) {
        Some(b) => Some(b),
        None => Some(TerrainKind::Grass),
    }
}

/// Terrain class of a multipolygon relation for rasterizing: none unless it
/// is tagged `type=multipolygon`, then the class of its tags, grass when no
/// tag names one.
pub fn classify_relation_terrain(tags: &[(&str, &str)]) -> (t: Option<TerrainKind>)
    ensures
        t == (if has_pair(tag_views(tags@), "type"@, "multipolygon"@) {
            Some(
                match best_terrain(tag_views(tags@), tags@.len()) {
                    Some(b) => b,
                    None => TerrainKind::Grass,
                },
            )
        } else {
            None
        }),
{
    if !has_tag_pair(tags, "type", "multipolygon") {
        return None;
    }
    classify_terrain_tags(tags)
}

/// What a way becomes in the parsed map.
#[derive(Debug, Clone, Copy, PartialEq, Eq, Structural)]
pub enum WayKind {
    Area(TerrainKind),
    Building,
    Road(RoadClass),
}

pub open spec fn way_kind_of_tags(tags: Seq<(Seq<char>, Seq<char>)>) -> Option<WayKind> {
    if has_key(tags, "building"@) {
        Some(WayKind::Building)
    } else {
        match road_class_of_tags(tags) {
            Some(c) => Some(WayKind::Road(c)),
            None => match best_terrain(tags, tags.len()) {
                Some(t) => Some(WayKind::Area(t)),
                None => None,
            },
        }
    }
}

/// A way tagged `building` is a building; otherwise a line road if it is one;
/// otherwise an area of its best terrain class, if any.
pub fn classify_way(tags: &[(&str, &str)]) -> (k: Option<WayKind>)
    ensures
        k == way_kind_of_tags(tag_views(tags@)),
{
    if has_tag(tags, "building") {
        return Some(WayKind::Building);
    }
    if let Some(class) = classify_road(tags) {
        return Some(WayKind::Road(class));
    }
    match best_terrain_match(tags) {
        Some(t) => Some(WayKind::Area(t)),
        None => None,
    }
}


/// A way outline is closed: at least four nodes, the last one the first.
pub open spec fn closed_outline(refs: Seq<i64>) -> bool {
    refs.len() >= 4 && refs[0] == refs.last()
}

/// The outline's node list is closed (see `closed_outline`).
pub fn is_closed_outline(refs: &[i64]) -> (b: bool)
    ensures
        b == closed_outline(refs@),
{
    let n = refs.len();
    n >= 4 && refs[0] == refs[n - 1]
}

/// A classified way is kept when its nodes can draw it: areas and buildings
/// need a closed outline, roads at least two nodes.
pub fn keeps_way(kind: WayKind, refs: &[i64]) -> (b: bool)
    ensures
        b == match kind {
            WayKind::Area(_) | WayKind::Building => closed_outline(refs@),
            WayKind::Road(_) => refs@.len() >= 2,
        },
{
    match kind {
        WayKind::Area(_) | WayKind::Building => is_closed_outline(refs),
        WayKind::Road(_) => refs.len() >= 2,
    }
}

/// Kind of a point of interest named by one tag.
pub open spec fn poi_candidate(k: Seq<char>, v: Seq<char>) -> Option<Seq<char>> {
    if k == "amenity"@ {
        Some("amenity:"@ + v)
    } else if k == "tourism"@ {
        Some("tourism:"@ + v)
    } else if k == "railway"@ && v == "station"@ {
        Some("railway:station"@)
    } else if k == "aeroway"@ && v == "aerodrome"@ {
        Some("aeroway:aerodrome"@)
    } else if k == "place"@ && (v == "city"@ || v == "town"@ || v == "village"@) {
        Some("place:"@ + v)
    } else {
        None
    }
}

/// Kind named by the earliest of the first `n` tags that names one.
pub open spec fn poi_kind(tags: Seq<(Seq<char>, Seq<char>)>, n: nat) -> Option<Seq<char>>
    decreases n,
{
    if n == 0 {
        None
    } else {
        match poi_kind(tags, (n - 1) as nat) {
            Some(k) => Some(k),
            None => poi_candidate(tags[n - 1].0, tags[n - 1].1),
        }
    }
}

/// Kind and name of a point of interest read from its tags.
#[derive(Debug)]
pub struct PoiTags {
    pub kind: String,
    pub name: Option<String>,
}

/// Kind and name of a node that is a point of interest: the kind comes from
/// the first tag that names one, the name from the last `name` tag.
pub fn classify_poi_tags(tags: &[(&str, &str)]) -> (p: Option<PoiTags>)
    ensures
        match p {
            None => poi_kind(tag_views(tags@), tags@.len()) is None,
            Some(p) => {
                &&& poi_kind(tag_views(tags@), tags@.len()) == Some(p.kind@)
                &&& match p.name {
                    Some(n) => last_value(tag_views(tags@), "name"@, tags@.len()) == Some(n@),
                    None => last_value(tag_views(tags@), "name"@, tags@.len()) is None,
                }
            },
        },
{
    let mut kind: Option<String> = None;
    let mut i: usize = 0;
    while i < tags.len()
        invariant
            0 <= i <= tags@.len(),
            match kind {
                Some(k) => poi_kind(tag_views(tags@), i as nat) == Some(k@),
                None => poi_kind(tag_views(tags@), i as nat) is None,
            },
        decreases tags@.len() - i,
    {
        let (key, value) = tags[i];
        if kind.is_none() {
            let candidate: Option<String> = if str_eq(key, "amenity") {
                Some(String::from_str("amenity:").concat(value))
            } else if str_eq(key, "tourism") {
                Some(String::from_str("tourism:").concat(value))
            } else if str_eq(key, "railway") && str_eq(value, "station") {
                Some(String::from_str("railway:station"))
            } else if str_eq(key, "aeroway") && str_eq(value, "aerodrome") {
                Some(String::from_str("aeroway:aerodrome"))
            } else if str_eq(key, "place") && (str_eq(value, "city") || str_eq(value, "town")
                || str_eq(value, "village")) {
                Some(String::from_str("place:").concat(value))
            } else {
                None
            };
            kind = candidate;
        }
        i = i + 1;
    }
    match kind {
        None => None,
        Some(k) => {
            let name = match last_tag_value(tags, "name") {
                Some(n) => Some(String::from_str(n)),
                None => None,
            };
            Some(PoiTags { kind: k, name })
        },
    }
}

/// A point of interest is drawn at every level below 4; from level 4 on only
/// places and railway stations are.
pub open spec fn poi_visible(kind: Seq<char>, lod_level: u8) -> bool {
    !(lod_level >= 4 && !((6 <= kind.len() && kind.take(6) == "place:"@) || kind == "railway:station"@))
}

/// The point of interest is kept at level `lod_level`.
pub fn poi_visible_at_lod(kind: &str, lod_level: u8) -> (b: bool)
    ensures
        b == poi_visible(kind@, lod_level),
{
    let place = str_starts_with(kind, "place:");
    proof {
        reveal_strlit("place:");
    }
    !(lod_level >= 4 && !(place || str_eq(kind, "railway:station")))
}

/// Nominal width of a road class, in decimetres.
pub open spec fn class_width_dm(class: RoadClass) -> u32 {
    match class {
        RoadClass::Motorway => 140,
        RoadClass::Primary => 110,
        RoadClass::Secondary => 85,
        RoadClass::Local => 70,
        RoadClass::Service => 60,
        RoadClass::Track => 50,
    }
}

/// Nominal width of a road class, in decimetres (see `class_width_dm`).
pub fn road_class_width_dm(class: RoadClass) -> (w: u32)
    ensures
        w == class_width_dm(class),
{
    match class {
        RoadClass::Motorway => 140,
        RoadClass::Primary => 110,
        RoadClass::Secondary => 85,
        RoadClass::Local => 70,
        RoadClass::Service => 60,
        RoadClass::Track => 50,
    }
}

/// Levels at which roads of a class are drawn.
pub open spec fn road_visible(class: RoadClass, lod_level: u8) -> bool {
    match class {
        RoadClass::Motorway | RoadClass::Primary => true,
        RoadClass::Secondary => lod_level <= 5,
        RoadClass::Local => lod_level <= 3,
        RoadClass::Service => lod_level <= 2,
        RoadClass::Track => lod_level <= 1,
    }
}

/// Roads of `class` are kept at level `lod_level`.
pub fn road_class_visible(class: RoadClass, lod_level: u8) -> (b: bool)
    ensures
        b == road_visible(class, lod_level),
{
    match class {
        RoadClass::Motorway | RoadClass::Primary => true,
        RoadClass::Secondary => lod_level <= 5,
        RoadClass::Local => lod_level <= 3,
        RoadClass::Service => lod_level <= 2,
        RoadClass::Track => lod_level <= 1,
    }
}

/// The best terrain class is the class of one of the tags, no tag names a
/// class of higher priority, and there is none exactly when no tag names a
/// class.
pub proof fn lemma_best_terrain_is_maximal(tags: Seq<(Seq<char>, Seq<char>)>, n: nat)
    requires
        n <= tags.len(),
    ensures
        best_terrain(tags, n) is None <==> (forall|i: int| 0 <= i < n ==> (#[trigger] tag_terrain(tags[i].0, tags[i].1)) is None),
        best_terrain(tags, n) matches Some(b) ==> (exists|i: int| 0 <= i < n && #[trigger] tag_terrain(tags[i].0, tags[i].1) == Some(b)),
        best_terrain(tags, n) matches Some(b) ==> (forall|i: int| 0 <= i < n ==> (#[trigger] tag_terrain(tags[i].0, tags[i].1) matches Some(c) ==> terrain_priority(c) <= terrain_priority(b))),
    decreases n,
{
    if n > 0 {
        lemma_best_terrain_is_maximal(tags, (n - 1) as nat);
        let prev = best_terrain(tags, (n - 1) as nat);
        let last = tag_terrain(tags[n - 1].0, tags[n - 1].1);
        if prev is None && last is None {
            assert forall|i: int| 0 <= i < n implies tag_terrain(tags[i].0, tags[i].1) is None by {
                if i < n - 1 {
                } else {
                }
            }
        }
        if let Some(b) = best_terrain(tags, n) {
            if best_terrain(tags, n) == prev {
                let j = choose|i: int| 0 <= i < n - 1 && tag_terrain(tags[i].0, tags[i].1) == Some(b);
                assert(0 <= j < n && tag_terrain(tags[j].0, tags[j].1) == Some(b));
            } else {
                assert(tag_terrain(tags[n - 1].0, tags[n - 1].1) == Some(b));
            }
        }
    }
}

} // verus!
