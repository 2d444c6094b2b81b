//! The tag tables of the map generator, written out pair by pair, and the
//! laws that tie the classifiers to them.
use vstd::prelude::*;
use crate::tags::{area_hint_key, highway_class, highway_width_m, tag_terrain};
use crate::world::{RoadClass, TerrainKind};

verus! {

/// The values of `natural` that name water.
pub open spec fn water_natural_values(v: Seq<char>) -> bool {
    v == "water"@ || v == "wetland"@ || v == "bay"@ || v == "coastline"@
}

/// The values of `waterway` that name water.
pub open spec fn water_waterway_values(v: Seq<char>) -> bool {
    v == "riverbank"@
}

/// The values of `landuse` that name water.
pub open spec fn water_landuse_values(v: Seq<char>) -> bool {
    v == "reservoir"@
}

/// The values of `leisure` that name water.
pub open spec fn water_leisure_values(v: Seq<char>) -> bool {
    v == "swimming_area"@
}

/// The values of `natural` that name forest.
pub open spec fn forest_natural_values(v: Seq<char>) -> bool {
    v == "wood"@ || v == "heath"@ || v == "scrub"@ || v == "tree_row"@
}

/// The values of `landuse` that name forest.
pub open spec fn forest_landuse_values(v: Seq<char>) -> bool {
    v == "forest"@ || v == "wood"@
}

/// The values of `landuse` that name urban.
pub open spec fn urban_landuse_values(v: Seq<char>) -> bool {
    v == "residential"@ || v == "commercial"@ || v == "industrial"@ || v == "retail"@ || v == "construction"@ || v == "brownfield"@ || v == "depot"@ || v == "Dhaka Woasa"@ || v == "education"@ || v == "garages"@ || v == "landfill"@ || v == "military"@ || v == "religious"@ || v == "slam"@ || v == "slum"@ || v == "yes"@
}

/// The values of `leisure` that name urban.
pub open spec fn urban_leisure_values(v: Seq<char>) -> bool {
    v == "bleachers"@ || v == "fitness_station"@ || v == "outdoor_seating"@ || v == "resort"@ || v == "slipway"@ || v == "sports_centre"@ || v == "stadium"@ || v == "swimming_pool"@
}

/// The values of `landuse` that name farmland.
pub open spec fn farmland_landuse_values(v: Seq<char>) -> bool {
    v == "farmland"@ || v == "allotments"@ || v == "farmyard"@ || v == "orchard"@ || v == "vineyard"@ || v == "greenhouse_horticulture"@ || v == "plant_nursery"@ || v == "plantation"@
}

/// The values of `natural` that name sand.
pub open spec fn sand_natural_values(v: Seq<char>) -> bool {
    v == "sand"@ || v == "beach"@
}

/// The values of `natural` that name grass.
pub open spec fn grass_natural_values(v: Seq<char>) -> bool {
    v == "grassland"@ || v == "yes"@
}

/// The values of `landuse` that name grass.
pub open spec fn grass_landuse_values(v: Seq<char>) -> bool {
    v == "grass"@ || v == "meadow"@ || v == "village_green"@ || v == "recreation_ground"@ || v == "cemetery"@ || v == "churchyard"@ || v == "common"@ || v == "flowerbed"@ || v == "greenfield"@ || v == "open space"@ || v == "open_space"@ || v == "playground"@
}

/// The values of `leisure` that name grass.
pub open spec fn grass_leisure_values(v: Seq<char>) -> bool {
    v == "common"@ || v == "garden"@ || v == "golf_course"@ || v == "open space"@ || v == "Open space"@ || v == "park"@ || v == "pitch"@ || v == "playground"@ || v == "practice_pitch"@ || v == "track"@
}

/// The area tags with a fixed value, and the terrain class each names.
pub open spec fn terrain_table(k: Seq<char>, v: Seq<char>, c: TerrainKind) -> bool {
    ||| c == TerrainKind::Water && k == "natural"@ && water_natural_values(v)
    ||| c == TerrainKind::Water && k == "waterway"@ && water_waterway_values(v)
    ||| c == TerrainKind::Water && k == "landuse"@ && water_landuse_values(v)
    ||| c == TerrainKind::Water && k == "leisure"@ && water_leisure_values(v)
    ||| c == TerrainKind::Forest && k == "natural"@ && forest_natural_values(v)
    ||| c == TerrainKind::Forest && k == "landuse"@ && forest_landuse_values(v)
    ||| c == TerrainKind::Urban && k == "landuse"@ && urban_landuse_values(v)
    ||| c == TerrainKind::Urban && k == "leisure"@ && urban_leisure_values(v)
    ||| c == TerrainKind::Farmland && k == "landuse"@ && farmland_landuse_values(v)
    ||| c == TerrainKind::Sand && k == "natural"@ && sand_natural_values(v)
    ||| c == TerrainKind::Grass && k == "natural"@ && grass_natural_values(v)
    ||| c == TerrainKind::Grass && k == "landuse"@ && grass_landuse_values(v)
    ||| c == TerrainKind::Grass && k == "leisure"@ && grass_leisure_values(v)
}

proof fn lemma_keys_distinct()
    ensures
        "natural"@ != "waterway"@,
        "natural"@ != "landuse"@,
        "natural"@ != "leisure"@,
        "natural"@ != "building"@,
        "natural"@ != "amenity"@,
        "natural"@ != "office"@,
        "waterway"@ != "landuse"@,
        "waterway"@ != "leisure"@,
        "waterway"@ != "building"@,
        "waterway"@ != "amenity"@,
        "waterway"@ != "office"@,
        "landuse"@ != "leisure"@,
        "landuse"@ != "building"@,
        "landuse"@ != "amenity"@,
        "landuse"@ != "office"@,
        "leisure"@ != "building"@,
        "leisure"@ != "amenity"@,
        "leisure"@ != "office"@,
        "building"@ != "amenity"@,
        "building"@ != "office"@,
        "amenity"@ != "office"@,
{
    reveal_strlit("natural");
    reveal_strlit("waterway");
    reveal_strlit("landuse");
    reveal_strlit("leisure");
    reveal_strlit("building");
    reveal_strlit("amenity");
    reveal_strlit("office");
    assert("natural"@.len() != "waterway"@.len());
    assert("natural"@[0] != "landuse"@[0]);
    assert("natural"@[0] != "leisure"@[0]);
    assert("natural"@.len() != "building"@.len());
    assert("natural"@[0] != "amenity"@[0]);
    assert("natural"@.len() != "office"@.len());
    assert("waterway"@.len() != "landuse"@.len());
    assert("waterway"@.len() != "leisure"@.len());
    assert("waterway"@[0] != "building"@[0]);
    assert("waterway"@.len() != "amenity"@.len());
    assert("waterway"@.len() != "office"@.len());
    assert("landuse"@[1] != "leisure"@[1]);
    assert("landuse"@.len() != "building"@.len());
    assert("landuse"@[0] != "amenity"@[0]);
    assert("landuse"@.len() != "office"@.len());
    assert("leisure"@.len() != "building"@.len());
    assert("leisure"@[0] != "amenity"@[0]);
    assert("leisure"@.len() != "office"@.len());
    assert("building"@.len() != "amenity"@.len());
    assert("building"@.len() != "office"@.len());
    assert("amenity"@.len() != "office"@.len());
}

proof fn lemma_water_natural(v: Seq<char>)
    requires
        water_natural_values(v),
    ensures
        tag_terrain("natural"@, v) == Some(TerrainKind::Water),
{
    lemma_keys_distinct();
    reveal_strlit("bay");
    reveal_strlit("coastline");
    reveal_strlit("water");
    reveal_strlit("wetland");

}

proof fn lemma_water_waterway(v: Seq<char>)
    requires
        water_waterway_values(v),
    ensures
        tag_terrain("waterway"@, v) == Some(TerrainKind::Water),
{
    lemma_keys_distinct();
    reveal_strlit("riverbank");

}

proof fn lemma_water_landuse(v: Seq<char>)
    requires
        water_landuse_values(v),
    ensures
        tag_terrain("landuse"@, v) == Some(TerrainKind::Water),
{
    lemma_keys_distinct();
    reveal_strlit("reservoir");

}

proof fn lemma_water_leisure(v: Seq<char>)
    requires
        water_leisure_values(v),
    ensures
        tag_terrain("leisure"@, v) == Some(TerrainKind::Water),
{
    lemma_keys_distinct();
    reveal_strlit("swimming_area");

}

proof fn lemma_forest_natural(v: Seq<char>)
    requires
        forest_natural_values(v),
    ensures
        tag_terrain("natural"@, v) == Some(TerrainKind::Forest),
{
    lemma_keys_distinct();
    reveal_strlit("bay");
    reveal_strlit("coastline");
    reveal_strlit("heath");
    reveal_strlit("scrub");
    reveal_strlit("tree_row");
    reveal_strlit("water");
    reveal_strlit("wetland");
    reveal_strlit("wood");
    assert("wood"@.len() != "water"@.len());
    assert("wood"@ != "water"@);
    assert("wood"@.len() != "wetland"@.len());
    assert("wood"@ != "wetland"@);
    assert("wood"@.len() != "bay"@.len());
    assert("wood"@ != "bay"@);
    assert("wood"@.len() != "coastline"@.len());
    assert("wood"@ != "coastline"@);
    assert("heath"@[0] != "water"@[0]);
    assert("heath"@ != "water"@);
    assert("heath"@.len() != "wetland"@.len());
    assert("heath"@ != "wetland"@);
    assert("heath"@.len() != "bay"@.len());
    assert("heath"@ != "bay"@);
    assert("heath"@.len() != "coastline"@.len());
    assert("heath"@ != "coastline"@);
    assert("scrub"@[0] != "water"@[0]);
    assert("scrub"@ != "water"@);
    assert("scrub"@.len() != "wetland"@.len());
    assert("scrub"@ != "wetland"@);
    assert("scrub"@.len() != "bay"@.len());
    assert("scrub"@ != "bay"@);
    assert("scrub"@.len() != "coastline"@.len());
    assert("scrub"@ != "coastline"@);
    assert("tree_row"@.len() != "water"@.len());
    assert("tree_row"@ != "water"@);
    assert("tree_row"@.len() != "wetland"@.len());
    assert("tree_row"@ != "wetland"@);
    assert("tree_row"@.len() != "bay"@.len());
    assert("tree_row"@ != "bay"@);
    assert("tree_row"@.len() != "coastline"@.len());
    assert("tree_row"@ != "coastline"@);
}

proof fn lemma_forest_landuse(v: Seq<char>)
    requires
        forest_landuse_values(v),
    ensures
        tag_terrain("landuse"@, v) == Some(TerrainKind::Forest),
{
    lemma_keys_distinct();
    reveal_strlit("forest");
    reveal_strlit("reservoir");
    reveal_strlit("wood");
    assert("forest"@.len() != "reservoir"@.len());
    assert("forest"@ != "reservoir"@);
    assert("wood"@.len() != "reservoir"@.len());
    assert("wood"@ != "reservoir"@);
}

proof fn lemma_urban_landuse(v: Seq<char>)
    requires
        urban_landuse_values(v),
    ensures
        tag_terrain("landuse"@, v) == Some(TerrainKind::Urban),
{
    lemma_keys_distinct();
    reveal_strlit("Dhaka Woasa");
    reveal_strlit("brownfield");
    reveal_strlit("commercial");
    reveal_strlit("construction");
    reveal_strlit("depot");
    reveal_strlit("education");
    reveal_strlit("forest");
    reveal_strlit("garages");
    reveal_strlit("industrial");
    reveal_strlit("landfill");
    reveal_strlit("military");
    reveal_strlit("religious");
    reveal_strlit("reservoir");
    reveal_strlit("residential");
    reveal_strlit("retail");
    reveal_strlit("slam");
    reveal_strlit("slum");
    reveal_strlit("wood");
    reveal_strlit("yes");
    assert("residential"@.len() != "reservoir"@.len());
    assert("residential"@ != "reservoir"@);
    assert("residential"@.len() != "forest"@.len());
    assert("residential"@ != "forest"@);
    assert("residential"@.len() != "wood"@.len());
    assert("residential"@ != "wood"@);
    assert("commercial"@.len() != "reservoir"@.len());
    assert("commercial"@ != "reservoir"@);
    assert("commercial"@.len() != "forest"@.len());
    assert("commercial"@ != "forest"@);
    assert("commercial"@.len() != "wood"@.len());
    assert("commercial"@ != "wood"@);
    assert("industrial"@.len() != "reservoir"@.len());
    assert("industrial"@ != "reservoir"@);
    assert("industrial"@.len() != "forest"@.len());
    assert("industrial"@ != "forest"@);
    assert("industrial"@.len() != "wood"@.len());
    assert("industrial"@ != "wood"@);
    assert("retail"@.len() != "reservoir"@.len());
    assert("retail"@ != "reservoir"@);
    assert("retail"@[0] != "forest"@[0]);
    assert("retail"@ != "forest"@);
    assert("retail"@.len() != "wood"@.len());
    assert("retail"@ != "wood"@);
    assert("construction"@.len() != "reservoir"@.len());
    assert("construction"@ != "reservoir"@);
    assert("construction"@.len() != "forest"@.len());
    assert("construction"@ != "forest"@);
    assert("construction"@.len() != "wood"@.len());
    assert("construction"@ != "wood"@);
    assert("brownfield"@.len() != "reservoir"@.len());
    assert("brownfield"@ != "reservoir"@);
    assert("brownfield"@.len() != "forest"@.len());
    assert("brownfield"@ != "forest"@);
    assert("brownfield"@.len() != "wood"@.len());
    assert("brownfield"@ != "wood"@);
    assert("depot"@.len() != "reservoir"@.len());
    assert("depot"@ != "reservoir"@);
    assert("depot"@.len() != "forest"@.len());
    assert("depot"@ != "forest"@);
    assert("depot"@.len() != "wood"@.len());
    assert("depot"@ != "wood"@);
    assert("Dhaka Woasa"@.len() != "reservoir"@.len());
    assert("Dhaka Woasa"@ != "reservoir"@);
    assert("Dhaka Woasa"@.len() != "forest"@.len());
    assert("Dhaka Woasa"@ != "forest"@);
    assert("Dhaka Woasa"@.len() != "wood"@.len());
    assert("Dhaka Woasa"@ != "wood"@);
    assert("education"@[0] != "reservoir"@[0]);
    assert("education"@ != "reservoir"@);
    assert("education"@.len() != "forest"@.len());
    assert("education"@ != "forest"@);
    assert("education"@.len() != "wood"@.len());
    assert("education"@ != "wood"@);
    assert("garages"@.len() != "reservoir"@.len());
    assert("garages"@ != "reservoir"@);
    assert("garages"@.len() != "forest"@.len());
    assert("garages"@ != "forest"@);
    assert("garages"@.len() != "wood"@.len());
    assert("garages"@ != "wood"@);
    assert("landfill"@.len() != "reservoir"@.len());
    assert("landfill"@ != "reservoir"@);
    assert("landfill"@.len() != "forest"@.len());
    assert("landfill"@ != "forest"@);
    assert("landfill"@.len() != "wood"@.len());
    assert("landfill"@ != "wood"@);
    assert("military"@.len() != "reservoir"@.len());
    assert("military"@ != "reservoir"@);
    assert("military"@.len() != "forest"@.len());
    assert("military"@ != "forest"@);
    assert("military"@.len() != "wood"@.len());
    assert("military"@ != "wood"@);
    assert("religious"@[2] != "reservoir"@[2]);
    assert("religious"@ != "reservoir"@);
    assert("religious"@.len() != "forest"@.len());
    assert("religious"@ != "forest"@);
    assert("religious"@.len() != "wood"@.len());
    assert("religious"@ != "wood"@);
    assert("slam"@.len() != "reservoir"@.len());
    assert("slam"@ != "reservoir"@);
    assert("slam"@.len() != "forest"@.len());
    assert("slam"@ != "forest"@);
    assert("slam"@[0] != "wood"@[0]);
    assert("slam"@ != "wood"@);
    assert("slum"@.len() != "reservoir"@.len());
    assert("slum"@ != "reservoir"@);
    assert("slum"@.len() != "forest"@.len());
    assert("slum"@ != "forest"@);
    assert("slum"@[0] != "wood"@[0]);
    assert("slum"@ != "wood"@);
    assert("yes"@.len() != "reservoir"@.len());
    assert("yes"@ != "reservoir"@);
    assert("yes"@.len() != "forest"@.len());
    assert("yes"@ != "forest"@);
    assert("yes"@.len() != "wood"@.len());
    assert("yes"@ != "wood"@);
}

proof fn lemma_urban_leisure(v: Seq<char>)
    requires
        urban_leisure_values(v),
    ensures
        tag_terrain("leisure"@, v) == Some(TerrainKind::Urban),
{
    lemma_keys_distinct();
    reveal_strlit("bleachers");
    reveal_strlit("fitness_station");
    reveal_strlit("outdoor_seating");
    reveal_strlit("resort");
    reveal_strlit("slipway");
    reveal_strlit("sports_centre");
    reveal_strlit("stadium");
    reveal_strlit("swimming_area");
    reveal_strlit("swimming_pool");
    assert("bleachers"@.len() != "swimming_area"@.len());
    assert("bleachers"@ != "swimming_area"@);
    assert("fitness_station"@.len() != "swimming_area"@.len());
    assert("fitness_station"@ != "swimming_area"@);
    assert("outdoor_seating"@.len() != "swimming_area"@.len());
    assert("outdoor_seating"@ != "swimming_area"@);
    assert("resort"@.len() != "swimming_area"@.len());
    assert("resort"@ != "swimming_area"@);
    assert("slipway"@.len() != "swimming_area"@.len());
    assert("slipway"@ != "swimming_area"@);
    assert("sports_centre"@[1] != "swimming_area"@[1]);
    assert("sports_centre"@ != "swimming_area"@);
    assert("stadium"@.len() != "swimming_area"@.len());
    assert("stadium"@ != "swimming_area"@);
    assert("swimming_pool"@[9] != "swimming_area"@[9]);
    assert("swimming_pool"@ != "swimming_area"@);
}

proof fn lemma_farmland_landuse(v: Seq<char>)
    requires
        farmland_landuse_values(v),
    ensures
        tag_terrain("landuse"@, v) == Some(TerrainKind::Farmland),
{
    lemma_keys_distinct();
    reveal_strlit("Dhaka Woasa");
    reveal_strlit("allotments");
    reveal_strlit("brownfield");
    reveal_strlit("commercial");
    reveal_strlit("construction");
    reveal_strlit("depot");
    reveal_strlit("education");
    reveal_strlit("farmland");
    reveal_strlit("farmyard");
    reveal_strlit("forest");
    reveal_strlit("garages");
    reveal_strlit("greenhouse_horticulture");
    reveal_strlit("industrial");
    reveal_strlit("landfill");
    reveal_strlit("military");
    reveal_strlit("orchard");
    reveal_strlit("plant_nursery");
    reveal_strlit("plantation");
    reveal_strlit("religious");
    reveal_strlit("reservoir");
    reveal_strlit("residential");
    reveal_strlit("retail");
    reveal_strlit("slam");
    reveal_strlit("slum");
    reveal_strlit("vineyard");
    reveal_strlit("wood");
    reveal_strlit("yes");
    assert("farmland"@.len() != "reservoir"@.len());
    assert("farmland"@ != "reservoir"@);
    assert("farmland"@.len() != "forest"@.len());
    assert("farmland"@ != "forest"@);
    assert("farmland"@.len() != "wood"@.len());
    assert("farmland"@ != "wood"@);
    assert("farmland"@.len() != "residential"@.len());
    assert("farmland"@ != "residential"@);
    assert("farmland"@.len() != "commercial"@.len());
    assert("farmland"@ != "commercial"@);
    assert("farmland"@.len() != "industrial"@.len());
    assert("farmland"@ != "industrial"@);
    assert("farmland"@.len() != "retail"@.len());
    assert("farmland"@ != "retail"@);
    assert("farmland"@.len() != "construction"@.len());
    assert("farmland"@ != "construction"@);
    assert("farmland"@.len() != "brownfield"@.len());
    assert("farmland"@ != "brownfield"@);
    assert("farmland"@.len() != "depot"@.len());
    assert("farmland"@ != "depot"@);
    assert("farmland"@.len() != "Dhaka Woasa"@.len());
    assert("farmland"@ != "Dhaka Woasa"@);
    assert("farmland"@.len() != "education"@.len());
    assert("farmland"@ != "education"@);
    assert("farmland"@.len() != "garages"@.len());
    assert("farmland"@ != "garages"@);
    assert("farmland"@[0] != "landfill"@[0]);
    assert("farmland"@ != "landfill"@);
    assert("farmland"@[0] != "military"@[0]);
    assert("farmland"@ != "military"@);
    assert("farmland"@.len() != "religious"@.len());
    assert("farmland"@ != "religious"@);
    assert("farmland"@.len() != "slam"@.len());
    assert("farmland"@ != "slam"@);
    assert("farmland"@.len() != "slum"@.len());
    assert("farmland"@ != "slum"@);
    assert("farmland"@.len() != "yes"@.len());
    assert("farmland"@ != "yes"@);
    assert("allotments"@.len() != "reservoir"@.len());
    assert("allotments"@ != "reservoir"@);
    assert("allotments"@.len() != "forest"@.len());
    assert("allotments"@ != "forest"@);
    assert("allotments"@.len() != "wood"@.len());
    assert("allotments"@ != "wood"@);
    assert("allotments"@.len() != "residential"@.len());
    assert("allotments"@ != "residential"@);
    assert("allotments"@[0] != "commercial"@[0]);
    assert("allotments"@ != "commercial"@);
    assert("allotments"@[0] != "industrial"@[0]);
    assert("allotments"@ != "industrial"@);
    assert("allotments"@.len() != "retail"@.len());
    assert("allotments"@ != "retail"@);
    assert("allotments"@.len() != "construction"@.len());
    assert("allotments"@ != "construction"@);
    assert("allotments"@[0] != "brownfield"@[0]);
    assert("allotments"@ != "brownfield"@);
    assert("allotments"@.len() != "depot"@.len());
    assert("allotments"@ != "depot"@);
    assert("allotments"@.len() != "Dhaka Woasa"@.len());
    assert("allotments"@ != "Dhaka Woasa"@);
    assert("allotments"@.len() != "education"@.len());
    assert("allotments"@ != "education"@);
    assert("allotments"@.len() != "garages"@.len());
    assert("allotments"@ != "garages"@);
    assert("allotments"@.len() != "landfill"@.len());
    assert("allotments"@ != "landfill"@);
    assert("allotments"@.len() != "military"@.len());
    assert("allotments"@ != "military"@);
    assert("allotments"@.len() != "religious"@.len());
    assert("allotments"@ != "religious"@);
    assert("allotments"@.len() != "slam"@.len());
    assert("allotments"@ != "slam"@);
    assert("allotments"@.len() != "slum"@.len());
    assert("allotments"@ != "slum"@);
    assert("allotments"@.len() != "yes"@.len());
    assert("allotments"@ != "yes"@);
    assert("farmyard"@.len() != "reservoir"@.len());
    assert("farmyard"@ != "reservoir"@);
    assert("farmyard"@.len() != "forest"@.len());
    assert("farmyard"@ != "forest"@);
    assert("farmyard"@.len() != "wood"@.len());
    assert("farmyard"@ != "wood"@);
    assert("farmyard"@.len() != "residential"@.len());
    assert("farmyard"@ != "residential"@);
    assert("farmyard"@.len() != "commercial"@.len());
    assert("farmyard"@ != "commercial"@);
    assert("farmyard"@.len() != "industrial"@.len());
    assert("farmyard"@ != "industrial"@);
    assert("farmyard"@.len() != "retail"@.len());
    assert("farmyard"@ != "retail"@);
    assert("farmyard"@.len() != "construction"@.len());
    assert("farmyard"@ != "construction"@);
    assert("farmyard"@.len() != "brownfield"@.len());
    assert("farmyard"@ != "brownfield"@);
    assert("farmyard"@.len() != "depot"@.len());
    assert("farmyard"@ != "depot"@);
    assert("farmyard"@.len() != "Dhaka Woasa"@.len());
    assert("farmyard"@ != "Dhaka Woasa"@);
    assert("farmyard"@.len() != "education"@.len());
    assert("farmyard"@ != "education"@);
    assert("farmyard"@.len() != "garages"@.len());
    assert("farmyard"@ != "garages"@);
    assert("farmyard"@[0] != "landfill"@[0]);
    assert("farmyard"@ != "landfill"@);
    assert("farmyard"@[0] != "military"@[0]);
    assert("farmyard"@ != "military"@);
    assert("farmyard"@.len() != "religious"@.len());
    assert("farmyard"@ != "religious"@);
    assert("farmyard"@.len() != "slam"@.len());
    assert("farmyard"@ != "slam"@);
    assert("farmyard"@.len() != "slum"@.len());
    assert("farmyard"@ != "slum"@);
    assert("farmyard"@.len() != "yes"@.len());
    assert("farmyard"@ != "yes"@);
    assert("orchard"@.len() != "reservoir"@.len());
    assert("orchard"@ != "reservoir"@);
    assert("orchard"@.len() != "forest"@.len());
    assert("orchard"@ != "forest"@);
    assert("orchard"@.len() != "wood"@.len());
    assert("orchard"@ != "wood"@);
    assert("orchard"@.len() != "residential"@.len());
    assert("orchard"@ != "residential"@);
    assert("orchard"@.len() != "commercial"@.len());
    assert("orchard"@ != "commercial"@);
    assert("orchard"@.len() != "industrial"@.len());
    assert("orchard"@ != "industrial"@);
    assert("orchard"@.len() != "retail"@.len());
    assert("orchard"@ != "retail"@);
    assert("orchard"@.len() != "construction"@.len());
    assert("orchard"@ != "construction"@);
    assert("orchard"@.len() != "brownfield"@.len());
    assert("orchard"@ != "brownfield"@);
    assert("orchard"@.len() != "depot"@.len());
    assert("orchard"@ != "depot"@);
    assert("orchard"@.len() != "Dhaka Woasa"@.len());
    assert("orchard"@ != "Dhaka Woasa"@);
    assert("orchard"@.len() != "education"@.len());
    assert("orchard"@ != "education"@);
    assert("orchard"@[0] != "garages"@[0]);
    assert("orchard"@ != "garages"@);
    assert("orchard"@.len() != "landfill"@.len());
    assert("orchard"@ != "landfill"@);
    assert("orchard"@.len() != "military"@.len());
    assert("orchard"@ != "military"@);
    assert("orchard"@.len() != "religious"@.len());
    assert("orchard"@ != "religious"@);
    assert("orchard"@.len() != "slam"@.len());
    assert("orchard"@ != "slam"@);
    assert("orchard"@.len() != "slum"@.len());
    assert("orchard"@ != "slum"@);
    assert("orchard"@.len() != "yes"@.len());
    assert("orchard"@ != "yes"@);
    assert("vineyard"@.len() != "reservoir"@.len());
    assert("vineyard"@ != "reservoir"@);
    assert("vineyard"@.len() != "forest"@.len());
    assert("vineyard"@ != "forest"@);
    assert("vineyard"@.len() != "wood"@.len());
    assert("vineyard"@ != "wood"@);
    assert("vineyard"@.len() != "residential"@.len());
    assert("vineyard"@ != "residential"@);
    assert("vineyard"@.len() != "commercial"@.len());
    assert("vineyard"@ != "commercial"@);
    assert("vineyard"@.len() != "industrial"@.len());
    assert("vineyard"@ != "industrial"@);
    assert("vineyard"@.len() != "retail"@.len());
    assert("vineyard"@ != "retail"@);
    assert("vineyard"@.len() != "construction"@.len());
    assert("vineyard"@ != "construction"@);
    assert("vineyard"@.len() != "brownfield"@.len());
    assert("vineyard"@ != "brownfield"@);
    assert("vineyard"@.len() != "depot"@.len());
    assert("vineyard"@ != "depot"@);
    assert("vineyard"@.len() != "Dhaka Woasa"@.len());
    assert("vineyard"@ != "Dhaka Woasa"@);
    assert("vineyard"@.len() != "education"@.len());
    assert("vineyard"@ != "education"@);
    assert("vineyard"@.len() != "garages"@.len());
    assert("vineyard"@ != "garages"@);
    assert("vineyard"@[0] != "landfill"@[0]);
    assert("vineyard"@ != "landfill"@);
    assert("vineyard"@[0] != "military"@[0]);
    assert("vineyard"@ != "military"@);
    assert("vineyard"@.len() != "religious"@.len());
    assert("vineyard"@ != "religious"@);
    assert("vineyard"@.len() != "slam"@.len());
    assert("vineyard"@ != "slam"@);
    assert("vineyard"@.len() != "slum"@.len());
    assert("vineyard"@ != "slum"@);
    assert("vineyard"@.len() != "yes"@.len());
    assert("vineyard"@ != "yes"@);
    assert("greenhouse_horticulture"@.len() != "reservoir"@.len());
    assert("greenhouse_horticulture"@ != "reservoir"@);
    assert("greenhouse_horticulture"@.len() != "forest"@.len());
    assert("greenhouse_horticulture"@ != "forest"@);
    assert("greenhouse_horticulture"@.len() != "wood"@.len());
    assert("greenhouse_horticulture"@ != "wood"@);
    assert("greenhouse_horticulture"@.len() != "residential"@.len());
    assert("greenhouse_horticulture"@ != "residential"@);
    assert("greenhouse_horticulture"@.len() != "commercial"@.len());
    assert("greenhouse_horticulture"@ != "commercial"@);
    assert("greenhouse_horticulture"@.len() != "industrial"@.len());
    assert("greenhouse_horticulture"@ != "industrial"@);
    assert("greenhouse_horticulture"@.len() != "retail"@.len());
    assert("greenhouse_horticulture"@ != "retail"@);
    assert("greenhouse_horticulture"@.len() != "construction"@.len());
    assert("greenhouse_horticulture"@ != "construction"@);
    assert("greenhouse_horticulture"@.len() != "brownfield"@.len());
    assert("greenhouse_horticulture"@ != "brownfield"@);
    assert("greenhouse_horticulture"@.len() != "depot"@.len());
    assert("greenhouse_horticulture"@ != "depot"@);
    assert("greenhouse_horticulture"@.len() != "Dhaka Woasa"@.len());
    assert("greenhouse_horticulture"@ != "Dhaka Woasa"@);
    assert("greenhouse_horticulture"@.len() != "education"@.len());
    assert("greenhouse_horticulture"@ != "education"@);
    assert("greenhouse_horticulture"@.len() != "garages"@.len());
    assert("greenhouse_horticulture"@ != "garages"@);
    assert("greenhouse_horticulture"@.len() != "landfill"@.len());
    assert("greenhouse_horticulture"@ != "landfill"@);
    assert("greenhouse_horticulture"@.len() != "military"@.len());
    assert("greenhouse_horticulture"@ != "military"@);
    assert("greenhouse_horticulture"@.len() != "religious"@.len());
    assert("greenhouse_horticulture"@ != "religious"@);
    assert("greenhouse_horticulture"@.len() != "slam"@.len());
    assert("greenhouse_horticulture"@ != "slam"@);
    assert("greenhouse_horticulture"@.len() != "slum"@.len());
    assert("greenhouse_horticulture"@ != "slum"@);
    assert("greenhouse_horticulture"@.len() != "yes"@.len());
    assert("greenhouse_horticulture"@ != "yes"@);
    assert("plant_nursery"@.len() != "reservoir"@.len());
    assert("plant_nursery"@ != "reservoir"@);
    assert("plant_nursery"@.len() != "forest"@.len());
    assert("plant_nursery"@ != "forest"@);
    assert("plant_nursery"@.len() != "wood"@.len());
    assert("plant_nursery"@ != "wood"@);
    assert("plant_nursery"@.len() != "residential"@.len());
    assert("plant_nursery"@ != "residential"@);
    assert("plant_nursery"@.len() != "commercial"@.len());
    assert("plant_nursery"@ != "commercial"@);
    assert("plant_nursery"@.len() != "industrial"@.len());
    assert("plant_nursery"@ != "industrial"@);
    assert("plant_nursery"@.len() != "retail"@.len());
    assert("plant_nursery"@ != "retail"@);
    assert("plant_nursery"@.len() != "construction"@.len());
    assert("plant_nursery"@ != "construction"@);
    assert("plant_nursery"@.len() != "brownfield"@.len());
    assert("plant_nursery"@ != "brownfield"@);
    assert("plant_nursery"@.len() != "depot"@.len());
    assert("plant_nursery"@ != "depot"@);
    assert("plant_nursery"@.len() != "Dhaka Woasa"@.len());
    assert("plant_nursery"@ != "Dhaka Woasa"@);
    assert("plant_nursery"@.len() != "education"@.len());
    assert("plant_nursery"@ != "education"@);
    assert("plant_nursery"@.len() != "garages"@.len());
    assert("plant_nursery"@ != "garages"@);
    assert("plant_nursery"@.len() != "landfill"@.len());
    assert("plant_nursery"@ != "landfill"@);
    assert("plant_nursery"@.len() != "military"@.len());
    assert("plant_nursery"@ != "military"@);
    assert("plant_nursery"@.len() != "religious"@.len());
    assert("plant_nursery"@ != "religious"@);
    assert("plant_nursery"@.len() != "slam"@.len());
    assert("plant_nursery"@ != "slam"@);
    assert("plant_nursery"@.len() != "slum"@.len());
    assert("plant_nursery"@ != "slum"@);
    assert("plant_nursery"@.len() != "yes"@.len());
    assert("plant_nursery"@ != "yes"@);
    assert("plantation"@.len() != "reservoir"@.len());
    assert("plantation"@ != "reservoir"@);
    assert("plantation"@.len() != "forest"@.len());
    assert("plantation"@ != "forest"@);
    assert("plantation"@.len() != "wood"@.len());
    assert("plantation"@ != "wood"@);
    assert("plantation"@.len() != "residential"@.len());
    assert("plantation"@ != "residential"@);
    assert("plantation"@[0] != "commercial"@[0]);
    assert("plantation"@ != "commercial"@);
    assert("plantation"@[0] != "industrial"@[0]);
    assert("plantation"@ != "industrial"@);
    assert("plantation"@.len() != "retail"@.len());
    assert("plantation"@ != "retail"@);
    assert("plantation"@.len() != "construction"@.len());
    assert("plantation"@ != "construction"@);
    assert("plantation"@[0] != "brownfield"@[0]);
    assert("plantation"@ != "brownfield"@);
    assert("plantation"@.len() != "depot"@.len());
    assert("plantation"@ != "depot"@);
    assert("plantation"@.len() != "Dhaka Woasa"@.len());
    assert("plantation"@ != "Dhaka Woasa"@);
    assert("plantation"@.len() != "education"@.len());
    assert("plantation"@ != "education"@);
    assert("plantation"@.len() != "garages"@.len());
    assert("plantation"@ != "garages"@);
    assert("plantation"@.len() != "landfill"@.len());
    assert("plantation"@ != "landfill"@);
    assert("plantation"@.len() != "military"@.len());
    assert("plantation"@ != "military"@);
    assert("plantation"@.len() != "religious"@.len());
    assert("plantation"@ != "religious"@);
    assert("plantation"@.len() != "slam"@.len());
    assert("plantation"@ != "slam"@);
    assert("plantation"@.len() != "slum"@.len());
    assert("plantation"@ != "slum"@);
    assert("plantation"@.len() != "yes"@.len());
    assert("plantation"@ != "yes"@);
}

proof fn lemma_sand_natural(v: Seq<char>)
    requires
        sand_natural_values(v),
    ensures
        tag_terrain("natural"@, v) == Some(TerrainKind::Sand),
{
    lemma_keys_distinct();
    reveal_strlit("bay");
    reveal_strlit("beach");
    reveal_strlit("coastline");
    reveal_strlit("heath");
    reveal_strlit("sand");
    reveal_strlit("scrub");
    reveal_strlit("tree_row");
    reveal_strlit("water");
    reveal_strlit("wetland");
    reveal_strlit("wood");
    assert("sand"@.len() != "water"@.len());
    assert("sand"@ != "water"@);
    assert("sand"@.len() != "wetland"@.len());
    assert("sand"@ != "wetland"@);
    assert("sand"@.len() != "bay"@.len());
    assert("sand"@ != "bay"@);
    assert("sand"@.len() != "coastline"@.len());
    assert("sand"@ != "coastline"@);
    assert("sand"@[0] != "wood"@[0]);
    assert("sand"@ != "wood"@);
    assert("sand"@.len() != "heath"@.len());
    assert("sand"@ != "heath"@);
    assert("sand"@.len() != "scrub"@.len());
    assert("sand"@ != "scrub"@);
    assert("sand"@.len() != "tree_row"@.len());
    assert("sand"@ != "tree_row"@);
    assert("beach"@[0] != "water"@[0]);
    assert("beach"@ != "water"@);
    assert("beach"@.len() != "wetland"@.len());
    assert("beach"@ != "wetland"@);
    assert("beach"@.len() != "bay"@.len());
    assert("beach"@ != "bay"@);
    assert("beach"@.len() != "coastline"@.len());
    assert("beach"@ != "coastline"@);
    assert("beach"@.len() != "wood"@.len());
    assert("beach"@ != "wood"@);
    assert("beach"@[0] != "heath"@[0]);
    assert("beach"@ != "heath"@);
    assert("beach"@[0] != "scrub"@[0]);
    assert("beach"@ != "scrub"@);
    assert("beach"@.len() != "tree_row"@.len());
    assert("beach"@ != "tree_row"@);
}

proof fn lemma_grass_natural(v: Seq<char>)
    requires
        grass_natural_values(v),
    ensures
        tag_terrain("natural"@, v) == Some(TerrainKind::Grass),
{
    lemma_keys_distinct();
    reveal_strlit("bay");
    reveal_strlit("beach");
    reveal_strlit("coastline");
    reveal_strlit("grassland");
    reveal_strlit("heath");
    reveal_strlit("sand");
    reveal_strlit("scrub");
    reveal_strlit("tree_row");
    reveal_strlit("water");
    reveal_strlit("wetland");
    reveal_strlit("wood");
    reveal_strlit("yes");
    assert("grassland"@.len() != "water"@.len());
    assert("grassland"@ != "water"@);
    assert("grassland"@.len() != "wetland"@.len());
    assert("grassland"@ != "wetland"@);
    assert("grassland"@.len() != "bay"@.len());
    assert("grassland"@ != "bay"@);
    assert("grassland"@[0] != "coastline"@[0]);
    assert("grassland"@ != "coastline"@);
    assert("grassland"@.len() != "wood"@.len());
    assert("grassland"@ != "wood"@);
    assert("grassland"@.len() != "heath"@.len());
    assert("grassland"@ != "heath"@);
    assert("grassland"@.len() != "scrub"@.len());
    assert("grassland"@ != "scrub"@);
    assert("grassland"@.len() != "tree_row"@.len());
    assert("grassland"@ != "tree_row"@);
    assert("grassland"@.len() != "sand"@.len());
    assert("grassland"@ != "sand"@);
    assert("grassland"@.len() != "beach"@.len());
    assert("grassland"@ != "beach"@);
    assert("yes"@.len() != "water"@.len());
    assert("yes"@ != "water"@);
    assert("yes"@.len() != "wetland"@.len());
    assert("yes"@ != "wetland"@);
    assert("yes"@[0] != "bay"@[0]);
    assert("yes"@ != "bay"@);
    assert("yes"@.len() != "coastline"@.len());
    assert("yes"@ != "coastline"@);
    assert("yes"@.len() != "wood"@.len());
    assert("yes"@ != "wood"@);
    assert("yes"@.len() != "heath"@.len());
    assert("yes"@ != "heath"@);
    assert("yes"@.len() != "scrub"@.len());
    assert("yes"@ != "scrub"@);
    assert("yes"@.len() != "tree_row"@.len());
    assert("yes"@ != "tree_row"@);
    assert("yes"@.len() != "sand"@.len());
    assert("yes"@ != "sand"@);
    assert("yes"@.len() != "beach"@.len());
    assert("yes"@ != "beach"@);
}

proof fn lemma_grass_landuse(v: Seq<char>)
    requires
        grass_landuse_values(v),
    ensures
        tag_terrain("landuse"@, v) == Some(TerrainKind::Grass),
{
    lemma_keys_distinct();
    reveal_strlit("Dhaka Woasa");
    reveal_strlit("allotments");
    reveal_strlit("brownfield");
    reveal_strlit("cemetery");
    reveal_strlit("churchyard");
    reveal_strlit("commercial");
    reveal_strlit("common");
    reveal_strlit("construction");
    reveal_strlit("depot");
    reveal_strlit("education");
    reveal_strlit("farmland");
    reveal_strlit("farmyard");
    reveal_strlit("flowerbed");
    reveal_strlit("forest");
    reveal_strlit("garages");
    reveal_strlit("grass");
    reveal_strlit("greenfield");
    reveal_strlit("greenhouse_horticulture");
    reveal_strlit("industrial");
    reveal_strlit("landfill");
    reveal_strlit("meadow");
    reveal_strlit("military");
    reveal_strlit("open space");
    reveal_strlit("open_space");
    reveal_strlit("orchard");
    reveal_strlit("plant_nursery");
    reveal_strlit("plantation");
    reveal_strlit("playground");
    reveal_strlit("recreation_ground");
    reveal_strlit("religious");
    reveal_strlit("reservoir");
    reveal_strlit("residential");
    reveal_strlit("retail");
    reveal_strlit("slam");
    reveal_strlit("slum");
    reveal_strlit("village_green");
    reveal_strlit("vineyard");
    reveal_strlit("wood");
    reveal_strlit("yes");
    assert("grass"@.len() != "reservoir"@.len());
    assert("grass"@ != "reservoir"@);
    assert("grass"@.len() != "forest"@.len());
    assert("grass"@ != "forest"@);
    assert("grass"@.len() != "wood"@.len());
    assert("grass"@ != "wood"@);
    assert("grass"@.len() != "residential"@.len());
    assert("grass"@ != "residential"@);
    assert("grass"@.len() != "commercial"@.len());
    assert("grass"@ != "commercial"@);
    assert("grass"@.len() != "industrial"@.len());
    assert("grass"@ != "industrial"@);
    assert("grass"@.len() != "retail"@.len());
    assert("grass"@ != "retail"@);
    assert("grass"@.len() != "construction"@.len());
    assert("grass"@ != "construction"@);
    assert("grass"@.len() != "brownfield"@.len());
    assert("grass"@ != "brownfield"@);
    assert("grass"@[0] != "depot"@[0]);
    assert("grass"@ != "depot"@);
    assert("grass"@.len() != "Dhaka Woasa"@.len());
    assert("grass"@ != "Dhaka Woasa"@);
    assert("grass"@.len() != "education"@.len());
    assert("grass"@ != "education"@);
    assert("grass"@.len() != "garages"@.len());
    assert("grass"@ != "garages"@);
    assert("grass"@.len() != "landfill"@.len());
    assert("grass"@ != "landfill"@);
    assert("grass"@.len() != "military"@.len());
    assert("grass"@ != "military"@);
    assert("grass"@.len() != "religious"@.len());
    assert("grass"@ != "religious"@);
    assert("grass"@.len() != "slam"@.len());
    assert("grass"@ != "slam"@);
    assert("grass"@.len() != "slum"@.len());
    assert("grass"@ != "slum"@);
    assert("grass"@.len() != "yes"@.len());
    assert("grass"@ != "yes"@);
    assert("grass"@.len() != "farmland"@.len());
    assert("grass"@ != "farmland"@);
    assert("grass"@.len() != "allotments"@.len());
    assert("grass"@ != "allotments"@);
    assert("grass"@.len() != "farmyard"@.len());
    assert("grass"@ != "farmyard"@);
    assert("grass"@.len() != "orchard"@.len());
    assert("grass"@ != "orchard"@);
    assert("grass"@.len() != "vineyard"@.len());
    assert("grass"@ != "vineyard"@);
    assert("grass"@.len() != "greenhouse_horticulture"@.len());
    assert("grass"@ != "greenhouse_horticulture"@);
    assert("grass"@.len() != "plant_nursery"@.len());
    assert("grass"@ != "plant_nursery"@);
    assert("grass"@.len() != "plantation"@.len());
    assert("grass"@ != "plantation"@);
    assert("meadow"@.len() != "reservoir"@.len());
    assert("meadow"@ != "reservoir"@);
    assert("meadow"@[0] != "forest"@[0]);
    assert("meadow"@ != "forest"@);
    assert("meadow"@.len() != "wood"@.len());
    assert("meadow"@ != "wood"@);
    assert("meadow"@.len() != "residential"@.len());
    assert("meadow"@ != "residential"@);
    assert("meadow"@.len() != "commercial"@.len());
    assert("meadow"@ != "commercial"@);
    assert("meadow"@.len() != "industrial"@.len());
    assert("meadow"@ != "industrial"@);
    assert("meadow"@[0] != "retail"@[0]);
    assert("meadow"@ != "retail"@);
    assert("meadow"@.len() != "construction"@.len());
    assert("meadow"@ != "construction"@);
    assert("meadow"@.len() != "brownfield"@.len());
    assert("meadow"@ != "brownfield"@);
    assert("meadow"@.len() != "depot"@.len());
    assert("meadow"@ != "depot"@);
    assert("meadow"@.len() != "Dhaka Woasa"@.len());
    assert("meadow"@ != "Dhaka Woasa"@);
    assert("meadow"@.len() != "education"@.len());
    assert("meadow"@ != "education"@);
    assert("meadow"@.len() != "garages"@.len());
    assert("meadow"@ != "garages"@);
    assert("meadow"@.len() != "landfill"@.len());
    assert("meadow"@ != "landfill"@);
    assert("meadow"@.len() != "military"@.len());
    assert("meadow"@ != "military"@);
    assert("meadow"@.len() != "religious"@.len());
    assert("meadow"@ != "religious"@);
    assert("meadow"@.len() != "slam"@.len());
    assert("meadow"@ != "slam"@);
    assert("meadow"@.len() != "slum"@.len());
    assert("meadow"@ != "slum"@);
    assert("meadow"@.len() != "yes"@.len());
    assert("meadow"@ != "yes"@);
    assert("meadow"@.len() != "farmland"@.len());
    assert("meadow"@ != "farmland"@);
    assert("meadow"@.len() != "allotments"@.len());
    assert("meadow"@ != "allotments"@);
    assert("meadow"@.len() != "farmyard"@.len());
    assert("meadow"@ != "farmyard"@);
    assert("meadow"@.len() != "orchard"@.len());
    assert("meadow"@ != "orchard"@);
    assert("meadow"@.len() != "vineyard"@.len());
    assert("meadow"@ != "vineyard"@);
    assert("meadow"@.len() != "greenhouse_horticulture"@.len());
    assert("meadow"@ != "greenhouse_horticulture"@);
    assert("meadow"@.len() != "plant_nursery"@.len());
    assert("meadow"@ != "plant_nursery"@);
    assert("meadow"@.len() != "plantation"@.len());
    assert("meadow"@ != "plantation"@);
    assert("village_green"@.len() != "reservoir"@.len());
    assert("village_green"@ != "reservoir"@);
    assert("village_green"@.len() != "forest"@.len());
    assert("village_green"@ != "forest"@);
    assert("village_green"@.len() != "wood"@.len());
    assert("village_green"@ != "wood"@);
    assert("village_green"@.len() != "residential"@.len());
    assert("village_green"@ != "residential"@);
    assert("village_green"@.len() != "commercial"@.len());
    assert("village_green"@ != "commercial"@);
    assert("village_green"@.len() != "industrial"@.len());
    assert("village_green"@ != "industrial"@);
    assert("village_green"@.len() != "retail"@.len());
    assert("village_green"@ != "retail"@);
    assert("village_green"@.len() != "construction"@.len());
    assert("village_green"@ != "construction"@);
    assert("village_green"@.len() != "brownfield"@.len());
    assert("village_green"@ != "brownfield"@);
    assert("village_green"@.len() != "depot"@.len());
    assert("village_green"@ != "depot"@);
    assert("village_green"@.len() != "Dhaka Woasa"@.len());
    assert("village_green"@ != "Dhaka Woasa"@);
    assert("village_green"@.len() != "education"@.len());
    assert("village_green"@ != "education"@);
    assert("village_green"@.len() != "garages"@.len());
    assert("village_green"@ != "garages"@);
    assert("village_green"@.len() != "landfill"@.len());
    assert("village_green"@ != "landfill"@);
    assert("village_green"@.len() != "military"@.len());
    assert("village_green"@ != "military"@);
    assert("village_green"@.len() != "religious"@.len());
    assert("village_green"@ != "religious"@);
    assert("village_green"@.len() != "slam"@.len());
    assert("village_green"@ != "slam"@);
    assert("village_green"@.len() != "slum"@.len());
    assert("village_green"@ != "slum"@);
    assert("village_green"@.len() != "yes"@.len());
    assert("village_green"@ != "yes"@);
    assert("village_green"@.len() != "farmland"@.len());
    assert("village_green"@ != "farmland"@);
    assert("village_green"@.len() != "allotments"@.len());
    assert("village_green"@ != "allotments"@);
    assert("village_green"@.len() != "farmyard"@.len());
    assert("village_green"@ != "farmyard"@);
    assert("village_green"@.len() != "orchard"@.len());
    assert("village_green"@ != "orchard"@);
    assert("village_green"@.len() != "vineyard"@.len());
    assert("village_green"@ != "vineyard"@);
    assert("village_green"@.len() != "greenhouse_horticulture"@.len());
    assert("village_green"@ != "greenhouse_horticulture"@);
    assert("village_green"@[0] != "plant_nursery"@[0]);
    assert("village_green"@ != "plant_nursery"@);
    assert("village_green"@.len() != "plantation"@.len());
    assert("village_green"@ != "plantation"@);
    assert("recreation_ground"@.len() != "reservoir"@.len());
    assert("recreation_ground"@ != "reservoir"@);
    assert("recreation_ground"@.len() != "forest"@.len());
    assert("recreation_ground"@ != "forest"@);
    assert("recreation_ground"@.len() != "wood"@.len());
    assert("recreation_ground"@ != "wood"@);
    assert("recreation_ground"@.len() != "residential"@.len());
    assert("recreation_ground"@ != "residential"@);
    assert("recreation_ground"@.len() != "commercial"@.len());
    assert("recreation_ground"@ != "commercial"@);
    assert("recreation_ground"@.len() != "industrial"@.len());
    assert("recreation_ground"@ != "industrial"@);
    assert("recreation_ground"@.len() != "retail"@.len());
    assert("recreation_ground"@ != "retail"@);
    assert("recreation_ground"@.len() != "construction"@.len());
    assert("recreation_ground"@ != "construction"@);
    assert("recreation_ground"@.len() != "brownfield"@.len());
    assert("recreation_ground"@ != "brownfield"@);
    assert("recreation_ground"@.len() != "depot"@.len());
    assert("recreation_ground"@ != "depot"@);
    assert("recreation_ground"@.len() != "Dhaka Woasa"@.len());
    assert("recreation_ground"@ != "Dhaka Woasa"@);
    assert("recreation_ground"@.len() != "education"@.len());
    assert("recreation_ground"@ != "education"@);
    assert("recreation_ground"@.len() != "garages"@.len());
    assert("recreation_ground"@ != "garages"@);
    assert("recreation_ground"@.len() != "landfill"@.len());
    assert("recreation_ground"@ != "landfill"@);
    assert("recreation_ground"@.len() != "military"@.len());
    assert("recreation_ground"@ != "military"@);
    assert("recreation_ground"@.len() != "religious"@.len());
    assert("recreation_ground"@ != "religious"@);
    assert("recreation_ground"@.len() != "slam"@.len());
    assert("recreation_ground"@ != "slam"@);
    assert("recreation_ground"@.len() != "slum"@.len());
    assert("recreation_ground"@ != "slum"@);
    assert("recreation_ground"@.len() != "yes"@.len());
    assert("recreation_ground"@ != "yes"@);
    assert("recreation_ground"@.len() != "farmland"@.len());
    assert("recreation_ground"@ != "farmland"@);
    assert("recreation_ground"@.len() != "allotments"@.len());
    assert("recreation_ground"@ != "allotments"@);
    assert("recreation_ground"@.len() != "farmyard"@.len());
    assert("recreation_ground"@ != "farmyard"@);
    assert("recreation_ground"@.len() != "orchard"@.len());
    assert("recreation_ground"@ != "orchard"@);
    assert("recreation_ground"@.len() != "vineyard"@.len());
    assert("recreation_ground"@ != "vineyard"@);
    assert("recreation_ground"@.len() != "greenhouse_horticulture"@.len());
    assert("recreation_ground"@ != "greenhouse_horticulture"@);
    assert("recreation_ground"@.len() != "plant_nursery"@.len());
    assert("recreation_ground"@ != "plant_nursery"@);
    assert("recreation_ground"@.len() != "plantation"@.len());
    assert("recreation_ground"@ != "plantation"@);
    assert("cemetery"@.len() != "reservoir"@.len());
    assert("cemetery"@ != "reservoir"@);
    assert("cemetery"@.len() != "forest"@.len());
    assert("cemetery"@ != "forest"@);
    assert("cemetery"@.len() != "wood"@.len());
    assert("cemetery"@ != "wood"@);
    assert("cemetery"@.len() != "residential"@.len());
    assert("cemetery"@ != "residential"@);
    assert("cemetery"@.len() != "commercial"@.len());
    assert("cemetery"@ != "commercial"@);
    assert("cemetery"@.len() != "industrial"@.len());
    assert("cemetery"@ != "industrial"@);
    assert("cemetery"@.len() != "retail"@.len());
    assert("cemetery"@ != "retail"@);
    assert("cemetery"@.len() != "construction"@.len());
    assert("cemetery"@ != "construction"@);
    assert("cemetery"@.len() != "brownfield"@.len());
    assert("cemetery"@ != "brownfield"@);
    assert("cemetery"@.len() != "depot"@.len());
    assert("cemetery"@ != "depot"@);
    assert("cemetery"@.len() != "Dhaka Woasa"@.len());
    assert("cemetery"@ != "Dhaka Woasa"@);
    assert("cemetery"@.len() != "education"@.len());
    assert("cemetery"@ != "education"@);
    assert("cemetery"@.len() != "garages"@.len());
    assert("cemetery"@ != "garages"@);
    assert("cemetery"@[0] != "landfill"@[0]);
    assert("cemetery"@ != "landfill"@);
    assert("cemetery"@[0] != "military"@[0]);
    assert("cemetery"@ != "military"@);
    assert("cemetery"@.len() != "religious"@.len());
    assert("cemetery"@ != "religious"@);
    assert("cemetery"@.len() != "slam"@.len());
    assert("cemetery"@ != "slam"@);
    assert("cemetery"@.len() != "slum"@.len());
    assert("cemetery"@ != "slum"@);
    assert("cemetery"@.len() != "yes"@.len());
    assert("cemetery"@ != "yes"@);
    assert("cemetery"@[0] != "farmland"@[0]);
    assert("cemetery"@ != "farmland"@);
    assert("cemetery"@.len() != "allotments"@.len());
    assert("cemetery"@ != "allotments"@);
    assert("cemetery"@[0] != "farmyard"@[0]);
    assert("cemetery"@ != "farmyard"@);
    assert("cemetery"@.len() != "orchard"@.len());
    assert("cemetery"@ != "orchard"@);
    assert("cemetery"@[0] != "vineyard"@[0]);
    assert("cemetery"@ != "vineyard"@);
    assert("cemetery"@.len() != "greenhouse_horticulture"@.len());
    assert("cemetery"@ != "greenhouse_horticulture"@);
    assert("cemetery"@.len() != "plant_nursery"@.len());
    assert("cemetery"@ != "plant_nursery"@);
    assert("cemetery"@.len() != "plantation"@.len());
    assert("cemetery"@ != "plantation"@);
    assert("churchyard"@.len() != "reservoir"@.len());
    assert("churchyard"@ != "reservoir"@);
    assert("churchyard"@.len() != "forest"@.len());
    assert("churchyard"@ != "forest"@);
    assert("churchyard"@.len() != "wood"@.len());
    assert("churchyard"@ != "wood"@);
    assert("churchyard"@.len() != "residential"@.len());
    assert("churchyard"@ != "residential"@);
    assert("churchyard"@[1] != "commercial"@[1]);
    assert("churchyard"@ != "commercial"@);
    assert("churchyard"@[0] != "industrial"@[0]);
    assert("churchyard"@ != "industrial"@);
    assert("churchyard"@.len() != "retail"@.len());
    assert("churchyard"@ != "retail"@);
    assert("churchyard"@.len() != "construction"@.len());
    assert("churchyard"@ != "construction"@);
    assert("churchyard"@[0] != "brownfield"@[0]);
    assert("churchyard"@ != "brownfield"@);
    assert("churchyard"@.len() != "depot"@.len());
    assert("churchyard"@ != "depot"@);
    assert("churchyard"@.len() != "Dhaka Woasa"@.len());
    assert("churchyard"@ != "Dhaka Woasa"@);
    assert("churchyard"@.len() != "education"@.len());
    assert("churchyard"@ != "education"@);
    assert("churchyard"@.len() != "garages"@.len());
    assert("churchyard"@ != "garages"@);
    assert("churchyard"@.len() != "landfill"@.len());
    assert("churchyard"@ != "landfill"@);
    assert("churchyard"@.len() != "military"@.len());
    assert("churchyard"@ != "military"@);
    assert("churchyard"@.len() != "religious"@.len());
    assert("churchyard"@ != "religious"@);
    assert("churchyard"@.len() != "slam"@.len());
    assert("churchyard"@ != "slam"@);
    assert("churchyard"@.len() != "slum"@.len());
    assert("churchyard"@ != "slum"@);
    assert("churchyard"@.len() != "yes"@.len());
    assert("churchyard"@ != "yes"@);
    assert("churchyard"@.len() != "farmland"@.len());
    assert("churchyard"@ != "farmland"@);
    assert("churchyard"@[0] != "allotments"@[0]);
    assert("churchyard"@ != "allotments"@);
    assert("churchyard"@.len() != "farmyard"@.len());
    assert("churchyard"@ != "farmyard"@);
    assert("churchyard"@.len() != "orchard"@.len());
    assert("churchyard"@ != "orchard"@);
    assert("churchyard"@.len() != "vineyard"@.len());
    assert("churchyard"@ != "vineyard"@);
    assert("churchyard"@.len() != "greenhouse_horticulture"@.len());
    assert("churchyard"@ != "greenhouse_horticulture"@);
    assert("churchyard"@.len() != "plant_nursery"@.len());
    assert("churchyard"@ != "plant_nursery"@);
    assert("churchyard"@[0] != "plantation"@[0]);
    assert("churchyard"@ != "plantation"@);
    assert("common"@.len() != "reservoir"@.len());
    assert("common"@ != "reservoir"@);
    assert("common"@[0] != "forest"@[0]);
    assert("common"@ != "forest"@);
    assert("common"@.len() != "wood"@.len());
    assert("common"@ != "wood"@);
    assert("common"@.len() != "residential"@.len());
    assert("common"@ != "residential"@);
    assert("common"@.len() != "commercial"@.len());
    assert("common"@ != "commercial"@);
    assert("common"@.len() != "industrial"@.len());
    assert("common"@ != "industrial"@);
    assert("common"@[0] != "retail"@[0]);
    assert("common"@ != "retail"@);
    assert("common"@.len() != "construction"@.len());
    assert("common"@ != "construction"@);
    assert("common"@.len() != "brownfield"@.len());
    assert("common"@ != "brownfield"@);
    assert("common"@.len() != "depot"@.len());
    assert("common"@ != "depot"@);
    assert("common"@.len() != "Dhaka Woasa"@.len());
    assert("common"@ != "Dhaka Woasa"@);
    assert("common"@.len() != "education"@.len());
    assert("common"@ != "education"@);
    assert("common"@.len() != "garages"@.len());
    assert("common"@ != "garages"@);
    assert("common"@.len() != "landfill"@.len());
    assert("common"@ != "landfill"@);
    assert("common"@.len() != "military"@.len());
    assert("common"@ != "military"@);
    assert("common"@.len() != "religious"@.len());
    assert("common"@ != "religious"@);
    assert("common"@.len() != "slam"@.len());
    assert("common"@ != "slam"@);
    assert("common"@.len() != "slum"@.len());
    assert("common"@ != "slum"@);
    assert("common"@.len() != "yes"@.len());
    assert("common"@ != "yes"@);
    assert("common"@.len() != "farmland"@.len());
    assert("common"@ != "farmland"@);
    assert("common"@.len() != "allotments"@.len());
    assert("common"@ != "allotments"@);
    assert("common"@.len() != "farmyard"@.len());
    assert("common"@ != "farmyard"@);
    assert("common"@.len() != "orchard"@.len());
    assert("common"@ != "orchard"@);
    assert("common"@.len() != "vineyard"@.len());
    assert("common"@ != "vineyard"@);
    assert("common"@.len() != "greenhouse_horticulture"@.len());
    assert("common"@ != "greenhouse_horticulture"@);
    assert("common"@.len() != "plant_nursery"@.len());
    assert("common"@ != "plant_nursery"@);
    assert("common"@.len() != "plantation"@.len());
    assert("common"@ != "plantation"@);
    assert("flowerbed"@[0] != "reservoir"@[0]);
    assert("flowerbed"@ != "reservoir"@);
    assert("flowerbed"@.len() != "forest"@.len());
    assert("flowerbed"@ != "forest"@);
    assert("flowerbed"@.len() != "wood"@.len());
    assert("flowerbed"@ != "wood"@);
    assert("flowerbed"@.len() != "residential"@.len());
    assert("flowerbed"@ != "residential"@);
    assert("flowerbed"@.len() != "commercial"@.len());
    assert("flowerbed"@ != "commercial"@);
    assert("flowerbed"@.len() != "industrial"@.len());
    assert("flowerbed"@ != "industrial"@);
    assert("flowerbed"@.len() != "retail"@.len());
    assert("flowerbed"@ != "retail"@);
    assert("flowerbed"@.len() != "construction"@.len());
    assert("flowerbed"@ != "construction"@);
    assert("flowerbed"@.len() != "brownfield"@.len());
    assert("flowerbed"@ != "brownfield"@);
    assert("flowerbed"@.len() != "depot"@.len());
    assert("flowerbed"@ != "depot"@);
    assert("flowerbed"@.len() != "Dhaka Woasa"@.len());
    assert("flowerbed"@ != "Dhaka Woasa"@);
    assert("flowerbed"@[0] != "education"@[0]);
    assert("flowerbed"@ != "education"@);
    assert("flowerbed"@.len() != "garages"@.len());
    assert("flowerbed"@ != "garages"@);
    assert("flowerbed"@.len() != "landfill"@.len());
    assert("flowerbed"@ != "landfill"@);
    assert("flowerbed"@.len() != "military"@.len());
    assert("flowerbed"@ != "military"@);
    assert("flowerbed"@[0] != "religious"@[0]);
    assert("flowerbed"@ != "religious"@);
    assert("flowerbed"@.len() != "slam"@.len());
    assert("flowerbed"@ != "slam"@);
    assert("flowerbed"@.len() != "slum"@.len());
    assert("flowerbed"@ != "slum"@);
    assert("flowerbed"@.len() != "yes"@.len());
    assert("flowerbed"@ != "yes"@);
    assert("flowerbed"@.len() != "farmland"@.len());
    assert("flowerbed"@ != "farmland"@);
    assert("flowerbed"@.len() != "allotments"@.len());
    assert("flowerbed"@ != "allotments"@);
    assert("flowerbed"@.len() != "farmyard"@.len());
    assert("flowerbed"@ != "farmyard"@);
    assert("flowerbed"@.len() != "orchard"@.len());
    assert("flowerbed"@ != "orchard"@);
    assert("flowerbed"@.len() != "vineyard"@.len());
    assert("flowerbed"@ != "vineyard"@);
    assert("flowerbed"@.len() != "greenhouse_horticulture"@.len());
    assert("flowerbed"@ != "greenhouse_horticulture"@);
    assert("flowerbed"@.len() != "plant_nursery"@.len());
    assert("flowerbed"@ != "plant_nursery"@);
    assert("flowerbed"@.len() != "plantation"@.len());
    assert("flowerbed"@ != "plantation"@);
    assert("greenfield"@.len() != "reservoir"@.len());
    assert("greenfield"@ != "reservoir"@);
    assert("greenfield"@.len() != "forest"@.len());
    assert("greenfield"@ != "forest"@);
    assert("greenfield"@.len() != "wood"@.len());
    assert("greenfield"@ != "wood"@);
    assert("greenfield"@.len() != "residential"@.len());
    assert("greenfield"@ != "residential"@);
    assert("greenfield"@[0] != "commercial"@[0]);
    assert("greenfield"@ != "commercial"@);
    assert("greenfield"@[0] != "industrial"@[0]);
    assert("greenfield"@ != "industrial"@);
    assert("greenfield"@.len() != "retail"@.len());
    assert("greenfield"@ != "retail"@);
    assert("greenfield"@.len() != "construction"@.len());
    assert("greenfield"@ != "construction"@);
    assert("greenfield"@[0] != "brownfield"@[0]);
    assert("greenfield"@ != "brownfield"@);
    assert("greenfield"@.len() != "depot"@.len());
    assert("greenfield"@ != "depot"@);
    assert("greenfield"@.len() != "Dhaka Woasa"@.len());
    assert("greenfield"@ != "Dhaka Woasa"@);
    assert("greenfield"@.len() != "education"@.len());
    assert("greenfield"@ != "education"@);
    assert("greenfield"@.len() != "garages"@.len());
    assert("greenfield"@ != "garages"@);
    assert("greenfield"@.len() != "landfill"@.len());
    assert("greenfield"@ != "landfill"@);
    assert("greenfield"@.len() != "military"@.len());
    assert("greenfield"@ != "military"@);
    assert("greenfield"@.len() != "religious"@.len());
    assert("greenfield"@ != "religious"@);
    assert("greenfield"@.len() != "slam"@.len());
    assert("greenfield"@ != "slam"@);
    assert("greenfield"@.len() != "slum"@.len());
    assert("greenfield"@ != "slum"@);
    assert("greenfield"@.len() != "yes"@.len());
    assert("greenfield"@ != "yes"@);
    assert("greenfield"@.len() != "farmland"@.len());
    assert("greenfield"@ != "farmland"@);
    assert("greenfield"@[0] != "allotments"@[0]);
    assert("greenfield"@ != "allotments"@);
    assert("greenfield"@.len() != "farmyard"@.len());
    assert("greenfield"@ != "farmyard"@);
    assert("greenfield"@.len() != "orchard"@.len());
    assert("greenfield"@ != "orchard"@);
    assert("greenfield"@.len() != "vineyard"@.len());
    assert("greenfield"@ != "vineyard"@);
    assert("greenfield"@.len() != "greenhouse_horticulture"@.len());
    assert("greenfield"@ != "greenhouse_horticulture"@);
    assert("greenfield"@.len() != "plant_nursery"@.len());
    assert("greenfield"@ != "plant_nursery"@);
    assert("greenfield"@[0] != "plantation"@[0]);
    assert("greenfield"@ != "plantation"@);
    assert("open space"@.len() != "reservoir"@.len());
    assert("open space"@ != "reservoir"@);
    assert("open space"@.len() != "forest"@.len());
    assert("open space"@ != "forest"@);
    assert("open space"@.len() != "wood"@.len());
    assert("open space"@ != "wood"@);
    assert("open space"@.len() != "residential"@.len());
    assert("open space"@ != "residential"@);
    assert("open space"@[0] != "commercial"@[0]);
    assert("open space"@ != "commercial"@);
    assert("open space"@[0] != "industrial"@[0]);
    assert("open space"@ != "industrial"@);
    assert("open space"@.len() != "retail"@.len());
    assert("open space"@ != "retail"@);
    assert("open space"@.len() != "construction"@.len());
    assert("open space"@ != "construction"@);
    assert("open space"@[0] != "brownfield"@[0]);
    assert("open space"@ != "brownfield"@);
    assert("open space"@.len() != "depot"@.len());
    assert("open space"@ != "depot"@);
    assert("open space"@.len() != "Dhaka Woasa"@.len());
    assert("open space"@ != "Dhaka Woasa"@);
    assert("open space"@.len() != "education"@.len());
    assert("open space"@ != "education"@);
    assert("open space"@.len() != "garages"@.len());
    assert("open space"@ != "garages"@);
    assert("open space"@.len() != "landfill"@.len());
    assert("open space"@ != "landfill"@);
    assert("open space"@.len() != "military"@.len());
    assert("open space"@ != "military"@);
    assert("open space"@.len() != "religious"@.len());
    assert("open space"@ != "religious"@);
    assert("open space"@.len() != "slam"@.len());
    assert("open space"@ != "slam"@);
    assert("open space"@.len() != "slum"@.len());
    assert("open space"@ != "slum"@);
    assert("open space"@.len() != "yes"@.len());
    assert("open space"@ != "yes"@);
    assert("open space"@.len() != "farmland"@.len());
    assert("open space"@ != "farmland"@);
    assert("open space"@[0] != "allotments"@[0]);
    assert("open space"@ != "allotments"@);
    assert("open space"@.len() != "farmyard"@.len());
    assert("open space"@ != "farmyard"@);
    assert("open space"@.len() != "orchard"@.len());
    assert("open space"@ != "orchard"@);
    assert("open space"@.len() != "vineyard"@.len());
    assert("open space"@ != "vineyard"@);
    assert("open space"@.len() != "greenhouse_horticulture"@.len());
    assert("open space"@ != "greenhouse_horticulture"@);
    assert("open space"@.len() != "plant_nursery"@.len());
    assert("open space"@ != "plant_nursery"@);
    assert("open space"@[0] != "plantation"@[0]);
    assert("open space"@ != "plantation"@);
    assert("open_space"@.len() != "reservoir"@.len());
    assert("open_space"@ != "reservoir"@);
    assert("open_space"@.len() != "forest"@.len());
    assert("open_space"@ != "forest"@);
    assert("open_space"@.len() != "wood"@.len());
    assert("open_space"@ != "wood"@);
    assert("open_space"@.len() != "residential"@.len());
    assert("open_space"@ != "residential"@);
    assert("open_space"@[0] != "commercial"@[0]);
    assert("open_space"@ != "commercial"@);
    assert("open_space"@[0] != "industrial"@[0]);
    assert("open_space"@ != "industrial"@);
    assert("open_space"@.len() != "retail"@.len());
    assert("open_space"@ != "retail"@);
    assert("open_space"@.len() != "construction"@.len());
    assert("open_space"@ != "construction"@);
    assert("open_space"@[0] != "brownfield"@[0]);
    assert("open_space"@ != "brownfield"@);
    assert("open_space"@.len() != "depot"@.len());
    assert("open_space"@ != "depot"@);
    assert("open_space"@.len() != "Dhaka Woasa"@.len());
    assert("open_space"@ != "Dhaka Woasa"@);
    assert("open_space"@.len() != "education"@.len());
    assert("open_space"@ != "education"@);
    assert("open_space"@.len() != "garages"@.len());
    assert("open_space"@ != "garages"@);
    assert("open_space"@.len() != "landfill"@.len());
    assert("open_space"@ != "landfill"@);
    assert("open_space"@.len() != "military"@.len());
    assert("open_space"@ != "military"@);
    assert("open_space"@.len() != "religious"@.len());
    assert("open_space"@ != "religious"@);
    assert("open_space"@.len() != "slam"@.len());
    assert("open_space"@ != "slam"@);
    assert("open_space"@.len() != "slum"@.len());
    assert("open_space"@ != "slum"@);
    assert("open_space"@.len() != "yes"@.len());
    assert("open_space"@ != "yes"@);
    assert("open_space"@.len() != "farmland"@.len());
    assert("open_space"@ != "farmland"@);
    assert("open_space"@[0] != "allotments"@[0]);
    assert("open_space"@ != "allotments"@);
    assert("open_space"@.len() != "farmyard"@.len());
    assert("open_space"@ != "farmyard"@);
    assert("open_space"@.len() != "orchard"@.len());
    assert("open_space"@ != "orchard"@);
    assert("open_space"@.len() != "vineyard"@.len());
    assert("open_space"@ != "vineyard"@);
    assert("open_space"@.len() != "greenhouse_horticulture"@.len());
    assert("open_space"@ != "greenhouse_horticulture"@);
    assert("open_space"@.len() != "plant_nursery"@.len());
    assert("open_space"@ != "plant_nursery"@);
    assert("open_space"@[0] != "plantation"@[0]);
    assert("open_space"@ != "plantation"@);
    assert("playground"@.len() != "reservoir"@.len());
    assert("playground"@ != "reservoir"@);
    assert("playground"@.len() != "forest"@.len());
    assert("playground"@ != "forest"@);
    assert("playground"@.len() != "wood"@.len());
    assert("playground"@ != "wood"@);
    assert("playground"@.len() != "residential"@.len());
    assert("playground"@ != "residential"@);
    assert("playground"@[0] != "commercial"@[0]);
    assert("playground"@ != "commercial"@);
    assert("playground"@[0] != "industrial"@[0]);
    assert("playground"@ != "industrial"@);
    assert("playground"@.len() != "retail"@.len());
    assert("playground"@ != "retail"@);
    assert("playground"@.len() != "construction"@.len());
    assert("playground"@ != "construction"@);
    assert("playground"@[0] != "brownfield"@[0]);
    assert("playground"@ != "brownfield"@);
    assert("playground"@.len() != "depot"@.len());
    assert("playground"@ != "depot"@);
    assert("playground"@.len() != "Dhaka Woasa"@.len());
    assert("playground"@ != "Dhaka Woasa"@);
    assert("playground"@.len() != "education"@.len());
    assert("playground"@ != "education"@);
    assert("playground"@.len() != "garages"@.len());
    assert("playground"@ != "garages"@);
    assert("playground"@.len() != "landfill"@.len());
    assert("playground"@ != "landfill"@);
    assert("playground"@.len() != "military"@.len());
    assert("playground"@ != "military"@);
    assert("playground"@.len() != "religious"@.len());
    assert("playground"@ != "religious"@);
    assert("playground"@.len() != "slam"@.len());
    assert("playground"@ != "slam"@);
    assert("playground"@.len() != "slum"@.len());
    assert("playground"@ != "slum"@);
    assert("playground"@.len() != "yes"@.len());
    assert("playground"@ != "yes"@);
    assert("playground"@.len() != "farmland"@.len());
    assert("playground"@ != "farmland"@);
    assert("playground"@[0] != "allotments"@[0]);
    assert("playground"@ != "allotments"@);
    assert("playground"@.len() != "farmyard"@.len());
    assert("playground"@ != "farmyard"@);
    assert("playground"@.len() != "orchard"@.len());
    assert("playground"@ != "orchard"@);
    assert("playground"@.len() != "vineyard"@.len());
    assert("playground"@ != "vineyard"@);
    assert("playground"@.len() != "greenhouse_horticulture"@.len());
    assert("playground"@ != "greenhouse_horticulture"@);
    assert("playground"@.len() != "plant_nursery"@.len());
    assert("playground"@ != "plant_nursery"@);
    assert("playground"@[3] != "plantation"@[3]);
    assert("playground"@ != "plantation"@);
}

proof fn lemma_grass_leisure(v: Seq<char>)
    requires
        grass_leisure_values(v),
    ensures
        tag_terrain("leisure"@, v) == Some(TerrainKind::Grass),
{
    lemma_keys_distinct();
    reveal_strlit("Open space");
    reveal_strlit("bleachers");
    reveal_strlit("common");
    reveal_strlit("fitness_station");
    reveal_strlit("garden");
    reveal_strlit("golf_course");
    reveal_strlit("open space");
    reveal_strlit("outdoor_seating");
    reveal_strlit("park");
    reveal_strlit("pitch");
    reveal_strlit("playground");
    reveal_strlit("practice_pitch");
    reveal_strlit("resort");
    reveal_strlit("slipway");
    reveal_strlit("sports_centre");
    reveal_strlit("stadium");
    reveal_strlit("swimming_area");
    reveal_strlit("swimming_pool");
    reveal_strlit("track");
    assert("common"@.len() != "swimming_area"@.len());
    assert("common"@ != "swimming_area"@);
    assert("common"@.len() != "bleachers"@.len());
    assert("common"@ != "bleachers"@);
    assert("common"@.len() != "fitness_station"@.len());
    assert("common"@ != "fitness_station"@);
    assert("common"@.len() != "outdoor_seating"@.len());
    assert("common"@ != "outdoor_seating"@);
    assert("common"@[0] != "resort"@[0]);
    assert("common"@ != "resort"@);
    assert("common"@.len() != "slipway"@.len());
    assert("common"@ != "slipway"@);
    assert("common"@.len() != "sports_centre"@.len());
    assert("common"@ != "sports_centre"@);
    assert("common"@.len() != "stadium"@.len());
    assert("common"@ != "stadium"@);
    assert("common"@.len() != "swimming_pool"@.len());
    assert("common"@ != "swimming_pool"@);
    assert("garden"@.len() != "swimming_area"@.len());
    assert("garden"@ != "swimming_area"@);
    assert("garden"@.len() != "bleachers"@.len());
    assert("garden"@ != "bleachers"@);
    assert("garden"@.len() != "fitness_station"@.len());
    assert("garden"@ != "fitness_station"@);
    assert("garden"@.len() != "outdoor_seating"@.len());
    assert("garden"@ != "outdoor_seating"@);
    assert("garden"@[0] != "resort"@[0]);
    assert("garden"@ != "resort"@);
    assert("garden"@.len() != "slipway"@.len());
    assert("garden"@ != "slipway"@);
    assert("garden"@.len() != "sports_centre"@.len());
    assert("garden"@ != "sports_centre"@);
    assert("garden"@.len() != "stadium"@.len());
    assert("garden"@ != "stadium"@);
    assert("garden"@.len() != "swimming_pool"@.len());
    assert("garden"@ != "swimming_pool"@);
    assert("golf_course"@.len() != "swimming_area"@.len());
    assert("golf_course"@ != "swimming_area"@);
    assert("golf_course"@.len() != "bleachers"@.len());
    assert("golf_course"@ != "bleachers"@);
    assert("golf_course"@.len() != "fitness_station"@.len());
    assert("golf_course"@ != "fitness_station"@);
    assert("golf_course"@.len() != "outdoor_seating"@.len());
    assert("golf_course"@ != "outdoor_seating"@);
    assert("golf_course"@.len() != "resort"@.len());
    assert("golf_course"@ != "resort"@);
    assert("golf_course"@.len() != "slipway"@.len());
    assert("golf_course"@ != "slipway"@);
    assert("golf_course"@.len() != "sports_centre"@.len());
    assert("golf_course"@ != "sports_centre"@);
    assert("golf_course"@.len() != "stadium"@.len());
    assert("golf_course"@ != "stadium"@);
    assert("golf_course"@.len() != "swimming_pool"@.len());
    assert("golf_course"@ != "swimming_pool"@);
    assert("open space"@.len() != "swimming_area"@.len());
    assert("open space"@ != "swimming_area"@);
    assert("open space"@.len() != "bleachers"@.len());
    assert("open space"@ != "bleachers"@);
    assert("open space"@.len() != "fitness_station"@.len());
    assert("open space"@ != "fitness_station"@);
    assert("open space"@.len() != "outdoor_seating"@.len());
    assert("open space"@ != "outdoor_seating"@);
    assert("open space"@.len() != "resort"@.len());
    assert("open space"@ != "resort"@);
    assert("open space"@.len() != "slipway"@.len());
    assert("open space"@ != "slipway"@);
    assert("open space"@.len() != "sports_centre"@.len());
    assert("open space"@ != "sports_centre"@);
    assert("open space"@.len() != "stadium"@.len());
    assert("open space"@ != "stadium"@);
    assert("open space"@.len() != "swimming_pool"@.len());
    assert("open space"@ != "swimming_pool"@);
    assert("Open space"@.len() != "swimming_area"@.len());
    assert("Open space"@ != "swimming_area"@);
    assert("Open space"@.len() != "bleachers"@.len());
    assert("Open space"@ != "bleachers"@);
    assert("Open space"@.len() != "fitness_station"@.len());
    assert("Open space"@ != "fitness_station"@);
    assert("Open space"@.len() != "outdoor_seating"@.len());
    assert("Open space"@ != "outdoor_seating"@);
    assert("Open space"@.len() != "resort"@.len());
    assert("Open space"@ != "resort"@);
    assert("Open space"@.len() != "slipway"@.len());
    assert("Open space"@ != "slipway"@);
    assert("Open space"@.len() != "sports_centre"@.len());
    assert("Open space"@ != "sports_centre"@);
    assert("Open space"@.len() != "stadium"@.len());
    assert("Open space"@ != "stadium"@);
    assert("Open space"@.len() != "swimming_pool"@.len());
    assert("Open space"@ != "swimming_pool"@);
    assert("park"@.len() != "swimming_area"@.len());
    assert("park"@ != "swimming_area"@);
    assert("park"@.len() != "bleachers"@.len());
    assert("park"@ != "bleachers"@);
    assert("park"@.len() != "fitness_station"@.len());
    assert("park"@ != "fitness_station"@);
    assert("park"@.len() != "outdoor_seating"@.len());
    assert("park"@ != "outdoor_seating"@);
    assert("park"@.len() != "resort"@.len());
    assert("park"@ != "resort"@);
    assert("park"@.len() != "slipway"@.len());
    assert("park"@ != "slipway"@);
    assert("park"@.len() != "sports_centre"@.len());
    assert("park"@ != "sports_centre"@);
    assert("park"@.len() != "stadium"@.len());
    assert("park"@ != "stadium"@);
    assert("park"@.len() != "swimming_pool"@.len());
    assert("park"@ != "swimming_pool"@);
    assert("pitch"@.len() != "swimming_area"@.len());
    assert("pitch"@ != "swimming_area"@);
    assert("pitch"@.len() != "bleachers"@.len());
    assert("pitch"@ != "bleachers"@);
    assert("pitch"@.len() != "fitness_station"@.len());
    assert("pitch"@ != "fitness_station"@);
    assert("pitch"@.len() != "outdoor_seating"@.len());
    assert("pitch"@ != "outdoor_seating"@);
    assert("pitch"@.len() != "resort"@.len());
    assert("pitch"@ != "resort"@);
    assert("pitch"@.len() != "slipway"@.len());
    assert("pitch"@ != "slipway"@);
    assert("pitch"@.len() != "sports_centre"@.len());
    assert("pitch"@ != "sports_centre"@);
    assert("pitch"@.len() != "stadium"@.len());
    assert("pitch"@ != "stadium"@);
    assert("pitch"@.len() != "swimming_pool"@.len());
    assert("pitch"@ != "swimming_pool"@);
    assert("playground"@.len() != "swimming_area"@.len());
    assert("playground"@ != "swimming_area"@);
    assert("playground"@.len() != "bleachers"@.len());
    assert("playground"@ != "bleachers"@);
    assert("playground"@.len() != "fitness_station"@.len());
    assert("playground"@ != "fitness_station"@);
    assert("playground"@.len() != "outdoor_seating"@.len());
    assert("playground"@ != "outdoor_seating"@);
    assert("playground"@.len() != "resort"@.len());
    assert("playground"@ != "resort"@);
    assert("playground"@.len() != "slipway"@.len());
    assert("playground"@ != "slipway"@);
    assert("playground"@.len() != "sports_centre"@.len());
    assert("playground"@ != "sports_centre"@);
    assert("playground"@.len() != "stadium"@.len());
    assert("playground"@ != "stadium"@);
    assert("playground"@.len() != "swimming_pool"@.len());
    assert("playground"@ != "swimming_pool"@);
    assert("practice_pitch"@.len() != "swimming_area"@.len());
    assert("practice_pitch"@ != "swimming_area"@);
    assert("practice_pitch"@.len() != "bleachers"@.len());
    assert("practice_pitch"@ != "bleachers"@);
    assert("practice_pitch"@.len() != "fitness_station"@.len());
    assert("practice_pitch"@ != "fitness_station"@);
    assert("practice_pitch"@.len() != "outdoor_seating"@.len());
    assert("practice_pitch"@ != "outdoor_seating"@);
    assert("practice_pitch"@.len() != "resort"@.len());
    assert("practice_pitch"@ != "resort"@);
    assert("practice_pitch"@.len() != "slipway"@.len());
    assert("practice_pitch"@ != "slipway"@);
    assert("practice_pitch"@.len() != "sports_centre"@.len());
    assert("practice_pitch"@ != "sports_centre"@);
    assert("practice_pitch"@.len() != "stadium"@.len());
    assert("practice_pitch"@ != "stadium"@);
    assert("practice_pitch"@.len() != "swimming_pool"@.len());
    assert("practice_pitch"@ != "swimming_pool"@);
    assert("track"@.len() != "swimming_area"@.len());
    assert("track"@ != "swimming_area"@);
    assert("track"@.len() != "bleachers"@.len());
    assert("track"@ != "bleachers"@);
    assert("track"@.len() != "fitness_station"@.len());
    assert("track"@ != "fitness_station"@);
    assert("track"@.len() != "outdoor_seating"@.len());
    assert("track"@ != "outdoor_seating"@);
    assert("track"@.len() != "resort"@.len());
    assert("track"@ != "resort"@);
    assert("track"@.len() != "slipway"@.len());
    assert("track"@ != "slipway"@);
    assert("track"@.len() != "sports_centre"@.len());
    assert("track"@ != "sports_centre"@);
    assert("track"@.len() != "stadium"@.len());
    assert("track"@ != "stadium"@);
    assert("track"@.len() != "swimming_pool"@.len());
    assert("track"@ != "swimming_pool"@);
}

/// Law: every pair of the area tag table is classified as the class the
/// table gives it.
pub proof fn lemma_terrain_table_pairs(k: Seq<char>, v: Seq<char>, c: TerrainKind)
    requires
        terrain_table(k, v, c),
    ensures
        tag_terrain(k, v) == Some(c),
{
    if c == TerrainKind::Water && k == "natural"@ && water_natural_values(v) {
        lemma_water_natural(v);
    }
    if c == TerrainKind::Water && k == "waterway"@ && water_waterway_values(v) {
        lemma_water_waterway(v);
    }
    if c == TerrainKind::Water && k == "landuse"@ && water_landuse_values(v) {
        lemma_water_landuse(v);
    }
    if c == TerrainKind::Water && k == "leisure"@ && water_leisure_values(v) {
        lemma_water_leisure(v);
    }
    if c == TerrainKind::Forest && k == "natural"@ && forest_natural_values(v) {
        lemma_forest_natural(v);
    }
    if c == TerrainKind::Forest && k == "landuse"@ && forest_landuse_values(v) {
        lemma_forest_landuse(v);
    }
    if c == TerrainKind::Urban && k == "landuse"@ && urban_landuse_values(v) {
        lemma_urban_landuse(v);
    }
    if c == TerrainKind::Urban && k == "leisure"@ && urban_leisure_values(v) {
        lemma_urban_leisure(v);
    }
    if c == TerrainKind::Farmland && k == "landuse"@ && farmland_landuse_values(v) {
        lemma_farmland_landuse(v);
    }
    if c == TerrainKind::Sand && k == "natural"@ && sand_natural_values(v) {
        lemma_sand_natural(v);
    }
    if c == TerrainKind::Grass && k == "natural"@ && grass_natural_values(v) {
        lemma_grass_natural(v);
    }
    if c == TerrainKind::Grass && k == "landuse"@ && grass_landuse_values(v) {
        lemma_grass_landuse(v);
    }
    if c == TerrainKind::Grass && k == "leisure"@ && grass_leisure_values(v) {
        lemma_grass_leisure(v);
    }
}

/// Law: a `building`, `amenity` or `office` tag marks urban ground, whatever
/// its value.
pub proof fn lemma_urban_keys(k: Seq<char>, v: Seq<char>)
    requires
        k == "building"@ || k == "amenity"@ || k == "office"@,
    ensures
        tag_terrain(k, v) == Some(TerrainKind::Urban),
{
    lemma_keys_distinct();
}

/// Law: only tags whose key marks an area, or `waterway`, have a terrain
/// class.
pub proof fn lemma_terrain_keys(k: Seq<char>, v: Seq<char>)
    requires
        tag_terrain(k, v) is Some,
    ensures
        area_hint_key(k) || k == "waterway"@,
{
}

/// The `highway` values that name a road, with the road class and the
/// width in metres of each.
pub open spec fn highway_table(v: Seq<char>, c: RoadClass, w: u32) -> bool {
    ||| v == "motorway"@ && c == RoadClass::Motorway && w == 14
    ||| v == "trunk"@ && c == RoadClass::Motorway && w == 14
    ||| v == "motorway_link"@ && c == RoadClass::Motorway && w == 12
    ||| v == "trunk_link"@ && c == RoadClass::Motorway && w == 12
    ||| v == "primary"@ && c == RoadClass::Primary && w == 11
    ||| v == "primary_link"@ && c == RoadClass::Primary && w == 9
    ||| v == "secondary"@ && c == RoadClass::Secondary && w == 9
    ||| v == "secondary_link"@ && c == RoadClass::Secondary && w == 8
    ||| v == "tertiary"@ && c == RoadClass::Secondary && w == 8
    ||| v == "tertiary_link"@ && c == RoadClass::Secondary && w == 7
    ||| v == "residential"@ && c == RoadClass::Local && w == 7
    ||| v == "unclassified"@ && c == RoadClass::Local && w == 7
    ||| v == "living_street"@ && c == RoadClass::Local && w == 7
    ||| v == "road"@ && c == RoadClass::Local && w == 7
    ||| v == "busway"@ && c == RoadClass::Local && w == 7
    ||| v == "service"@ && c == RoadClass::Service && w == 6
    ||| v == "track"@ && c == RoadClass::Track && w == 5
}

proof fn lemma_highway_motorway()
    ensures
        highway_class("motorway"@) == Some(RoadClass::Motorway),
        highway_width_m("motorway"@) == Some(14u32),
{
    reveal_strlit("motorway");
    reveal_strlit("trunk");
    reveal_strlit("motorway_link");
    reveal_strlit("trunk_link");
    reveal_strlit("primary");
    reveal_strlit("primary_link");
    reveal_strlit("secondary");
    reveal_strlit("secondary_link");
    reveal_strlit("tertiary");
    reveal_strlit("tertiary_link");
    reveal_strlit("residential");
    reveal_strlit("unclassified");
    reveal_strlit("living_street");
    reveal_strlit("road");
    reveal_strlit("busway");
    reveal_strlit("service");
    reveal_strlit("track");
    assert("motorway"@.len() != "trunk"@.len());
    assert("motorway"@ != "trunk"@);
    assert("motorway"@.len() != "motorway_link"@.len());
    assert("motorway"@ != "motorway_link"@);
    assert("motorway"@.len() != "trunk_link"@.len());
    assert("motorway"@ != "trunk_link"@);
    assert("motorway"@.len() != "primary"@.len());
    assert("motorway"@ != "primary"@);
    assert("motorway"@.len() != "primary_link"@.len());
    assert("motorway"@ != "primary_link"@);
    assert("motorway"@.len() != "secondary"@.len());
    assert("motorway"@ != "secondary"@);
    assert("motorway"@.len() != "secondary_link"@.len());
    assert("motorway"@ != "secondary_link"@);
    assert("motorway"@[0] != "tertiary"@[0]);
    assert("motorway"@ != "tertiary"@);
    assert("motorway"@.len() != "tertiary_link"@.len());
    assert("motorway"@ != "tertiary_link"@);
    assert("motorway"@.len() != "residential"@.len());
    assert("motorway"@ != "residential"@);
    assert("motorway"@.len() != "unclassified"@.len());
    assert("motorway"@ != "unclassified"@);
    assert("motorway"@.len() != "living_street"@.len());
    assert("motorway"@ != "living_street"@);
    assert("motorway"@.len() != "road"@.len());
    assert("motorway"@ != "road"@);
    assert("motorway"@.len() != "busway"@.len());
    assert("motorway"@ != "busway"@);
    assert("motorway"@.len() != "service"@.len());
    assert("motorway"@ != "service"@);
    assert("motorway"@.len() != "track"@.len());
    assert("motorway"@ != "track"@);
}

proof fn lemma_highway_trunk()
    ensures
        highway_class("trunk"@) == Some(RoadClass::Motorway),
        highway_width_m("trunk"@) == Some(14u32),
{
    reveal_strlit("motorway");
    reveal_strlit("trunk");
    reveal_strlit("motorway_link");
    reveal_strlit("trunk_link");
    reveal_strlit("primary");
    reveal_strlit("primary_link");
    reveal_strlit("secondary");
    reveal_strlit("secondary_link");
    reveal_strlit("tertiary");
    reveal_strlit("tertiary_link");
    reveal_strlit("residential");
    reveal_strlit("unclassified");
    reveal_strlit("living_street");
    reveal_strlit("road");
    reveal_strlit("busway");
    reveal_strlit("service");
    reveal_strlit("track");
    assert("trunk"@.len() != "motorway"@.len());
    assert("trunk"@ != "motorway"@);
    assert("trunk"@.len() != "motorway_link"@.len());
    assert("trunk"@ != "motorway_link"@);
    assert("trunk"@.len() != "trunk_link"@.len());
    assert("trunk"@ != "trunk_link"@);
    assert("trunk"@.len() != "primary"@.len());
    assert("trunk"@ != "primary"@);
    assert("trunk"@.len() != "primary_link"@.len());
    assert("trunk"@ != "primary_link"@);
    assert("trunk"@.len() != "secondary"@.len());
    assert("trunk"@ != "secondary"@);
    assert("trunk"@.len() != "secondary_link"@.len());
    assert("trunk"@ != "secondary_link"@);
    assert("trunk"@.len() != "tertiary"@.len());
    assert("trunk"@ != "tertiary"@);
    assert("trunk"@.len() != "tertiary_link"@.len());
    assert("trunk"@ != "tertiary_link"@);
    assert("trunk"@.len() != "residential"@.len());
    assert("trunk"@ != "residential"@);
    assert("trunk"@.len() != "unclassified"@.len());
    assert("trunk"@ != "unclassified"@);
    assert("trunk"@.len() != "living_street"@.len());
    assert("trunk"@ != "living_street"@);
    assert("trunk"@.len() != "road"@.len());
    assert("trunk"@ != "road"@);
    assert("trunk"@.len() != "busway"@.len());
    assert("trunk"@ != "busway"@);
    assert("trunk"@.len() != "service"@.len());
    assert("trunk"@ != "service"@);
    assert("trunk"@[2] != "track"@[2]);
    assert("trunk"@ != "track"@);
}

proof fn lemma_highway_motorway_link()
    ensures
        highway_class("motorway_link"@) == Some(RoadClass::Motorway),
        highway_width_m("motorway_link"@) == Some(12u32),
{
    reveal_strlit("motorway");
    reveal_strlit("trunk");
    reveal_strlit("motorway_link");
    reveal_strlit("trunk_link");
    reveal_strlit("primary");
    reveal_strlit("primary_link");
    reveal_strlit("secondary");
    reveal_strlit("secondary_link");
    reveal_strlit("tertiary");
    reveal_strlit("tertiary_link");
    reveal_strlit("residential");
    reveal_strlit("unclassified");
    reveal_strlit("living_street");
    reveal_strlit("road");
    reveal_strlit("busway");
    reveal_strlit("service");
    reveal_strlit("track");
    assert("motorway_link"@.len() != "motorway"@.len());
    assert("motorway_link"@ != "motorway"@);
    assert("motorway_link"@.len() != "trunk"@.len());
    assert("motorway_link"@ != "trunk"@);
    assert("motorway_link"@.len() != "trunk_link"@.len());
    assert("motorway_link"@ != "trunk_link"@);
    assert("motorway_link"@.len() != "primary"@.len());
    assert("motorway_link"@ != "primary"@);
    assert("motorway_link"@.len() != "primary_link"@.len());
    assert("motorway_link"@ != "primary_link"@);
    assert("motorway_link"@.len() != "secondary"@.len());
    assert("motorway_link"@ != "secondary"@);
    assert("motorway_link"@.len() != "secondary_link"@.len());
    assert("motorway_link"@ != "secondary_link"@);
    assert("motorway_link"@.len() != "tertiary"@.len());
    assert("motorway_link"@ != "tertiary"@);
    assert("motorway_link"@[0] != "tertiary_link"@[0]);
    assert("motorway_link"@ != "tertiary_link"@);
    assert("motorway_link"@.len() != "residential"@.len());
    assert("motorway_link"@ != "residential"@);
    assert("motorway_link"@.len() != "unclassified"@.len());
    assert("motorway_link"@ != "unclassified"@);
    assert("motorway_link"@[0] != "living_street"@[0]);
    assert("motorway_link"@ != "living_street"@);
    assert("motorway_link"@.len() != "road"@.len());
    assert("motorway_link"@ != "road"@);
    assert("motorway_link"@.len() != "busway"@.len());
    assert("motorway_link"@ != "busway"@);
    assert("motorway_link"@.len() != "service"@.len());
    assert("motorway_link"@ != "service"@);
    assert("motorway_link"@.len() != "track"@.len());
    assert("motorway_link"@ != "track"@);
}

proof fn lemma_highway_trunk_link()
    ensures
        highway_class("trunk_link"@) == Some(RoadClass::Motorway),
        highway_width_m("trunk_link"@) == Some(12u32),
{
    reveal_strlit("motorway");
    reveal_strlit("trunk");
    reveal_strlit("motorway_link");
    reveal_strlit("trunk_link");
    reveal_strlit("primary");
    reveal_strlit("primary_link");
    reveal_strlit("secondary");
    reveal_strlit("secondary_link");
    reveal_strlit("tertiary");
    reveal_strlit("tertiary_link");
    reveal_strlit("residential");
    reveal_strlit("unclassified");
    reveal_strlit("living_street");
    reveal_strlit("road");
    reveal_strlit("busway");
    reveal_strlit("service");
    reveal_strlit("track");
    assert("trunk_link"@.len() != "motorway"@.len());
    assert("trunk_link"@ != "motorway"@);
    assert("trunk_link"@.len() != "trunk"@.len());
    assert("trunk_link"@ != "trunk"@);
    assert("trunk_link"@.len() != "motorway_link"@.len());
    assert("trunk_link"@ != "motorway_link"@);
    assert("trunk_link"@.len() != "primary"@.len());
    assert("trunk_link"@ != "primary"@);
    assert("trunk_link"@.len() != "primary_link"@.len());
    assert("trunk_link"@ != "primary_link"@);
    assert("trunk_link"@.len() != "secondary"@.len());
    assert("trunk_link"@ != "secondary"@);
    assert("trunk_link"@.len() != "secondary_link"@.len());
    assert("trunk_link"@ != "secondary_link"@);
    assert("trunk_link"@.len() != "tertiary"@.len());
    assert("trunk_link"@ != "tertiary"@);
    assert("trunk_link"@.len() != "tertiary_link"@.len());
    assert("trunk_link"@ != "tertiary_link"@);
    assert("trunk_link"@.len() != "residential"@.len());
    assert("trunk_link"@ != "residential"@);
    assert("trunk_link"@.len() != "unclassified"@.len());
    assert("trunk_link"@ != "unclassified"@);
    assert("trunk_link"@.len() != "living_street"@.len());
    assert("trunk_link"@ != "living_street"@);
    assert("trunk_link"@.len() != "road"@.len());
    assert("trunk_link"@ != "road"@);
    assert("trunk_link"@.len() != "busway"@.len());
    assert("trunk_link"@ != "busway"@);
    assert("trunk_link"@.len() != "service"@.len());
    assert("trunk_link"@ != "service"@);
    assert("trunk_link"@.len() != "track"@.len());
    assert("trunk_link"@ != "track"@);
}

proof fn lemma_highway_primary()
    ensures
        highway_class("primary"@) == Some(RoadClass::Primary),
        highway_width_m("primary"@) == Some(11u32),
{
    reveal_strlit("motorway");
    reveal_strlit("trunk");
    reveal_strlit("motorway_link");
    reveal_strlit("trunk_link");
    reveal_strlit("primary");
    reveal_strlit("primary_link");
    reveal_strlit("secondary");
    reveal_strlit("secondary_link");
    reveal_strlit("tertiary");
    reveal_strlit("tertiary_link");
    reveal_strlit("residential");
    reveal_strlit("unclassified");
    reveal_strlit("living_street");
    reveal_strlit("road");
    reveal_strlit("busway");
    reveal_strlit("service");
    reveal_strlit("track");
    assert("primary"@.len() != "motorway"@.len());
    assert("primary"@ != "motorway"@);
    assert("primary"@.len() != "trunk"@.len());
    assert("primary"@ != "trunk"@);
    assert("primary"@.len() != "motorway_link"@.len());
    assert("primary"@ != "motorway_link"@);
    assert("primary"@.len() != "trunk_link"@.len());
    assert("primary"@ != "trunk_link"@);
    assert("primary"@.len() != "primary_link"@.len());
    assert("primary"@ != "primary_link"@);
    assert("primary"@.len() != "secondary"@.len());
    assert("primary"@ != "secondary"@);
    assert("primary"@.len() != "secondary_link"@.len());
    assert("primary"@ != "secondary_link"@);
    assert("primary"@.len() != "tertiary"@.len());
    assert("primary"@ != "tertiary"@);
    assert("primary"@.len() != "tertiary_link"@.len());
    assert("primary"@ != "tertiary_link"@);
    assert("primary"@.len() != "residential"@.len());
    assert("primary"@ != "residential"@);
    assert("primary"@.len() != "unclassified"@.len());
    assert("primary"@ != "unclassified"@);
    assert("primary"@.len() != "living_street"@.len());
    assert("primary"@ != "living_street"@);
    assert("primary"@.len() != "road"@.len());
    assert("primary"@ != "road"@);
    assert("primary"@.len() != "busway"@.len());
    assert("primary"@ != "busway"@);
    assert("primary"@[0] != "service"@[0]);
    assert("primary"@ != "service"@);
    assert("primary"@.len() != "track"@.len());
    assert("primary"@ != "track"@);
}

proof fn lemma_highway_primary_link()
    ensures
        highway_class("primary_link"@) == Some(RoadClass::Primary),
        highway_width_m("primary_link"@) == Some(9u32),
{
    reveal_strlit("motorway");
    reveal_strlit("trunk");
    reveal_strlit("motorway_link");
    reveal_strlit("trunk_link");
    reveal_strlit("primary");
    reveal_strlit("primary_link");
    reveal_strlit("secondary");
    reveal_strlit("secondary_link");
    reveal_strlit("tertiary");
    reveal_strlit("tertiary_link");
    reveal_strlit("residential");
    reveal_strlit("unclassified");
    reveal_strlit("living_street");
    reveal_strlit("road");
    reveal_strlit("busway");
    reveal_strlit("service");
    reveal_strlit("track");
    assert("primary_link"@.len() != "motorway"@.len());
    assert("primary_link"@ != "motorway"@);
    assert("primary_link"@.len() != "trunk"@.len());
    assert("primary_link"@ != "trunk"@);
    assert("primary_link"@.len() != "motorway_link"@.len());
    assert("primary_link"@ != "motorway_link"@);
    assert("primary_link"@.len() != "trunk_link"@.len());
    assert("primary_link"@ != "trunk_link"@);
    assert("primary_link"@.len() != "primary"@.len());
    assert("primary_link"@ != "primary"@);
    assert("primary_link"@.len() != "secondary"@.len());
    assert("primary_link"@ != "secondary"@);
    assert("primary_link"@.len() != "secondary_link"@.len());
    assert("primary_link"@ != "secondary_link"@);
    assert("primary_link"@.len() != "tertiary"@.len());
    assert("primary_link"@ != "tertiary"@);
    assert("primary_link"@.len() != "tertiary_link"@.len());
    assert("primary_link"@ != "tertiary_link"@);
    assert("primary_link"@.len() != "residential"@.len());
    assert("primary_link"@ != "residential"@);
    assert("primary_link"@[0] != "unclassified"@[0]);
    assert("primary_link"@ != "unclassified"@);
    assert("primary_link"@.len() != "living_street"@.len());
    assert("primary_link"@ != "living_street"@);
    assert("primary_link"@.len() != "road"@.len());
    assert("primary_link"@ != "road"@);
    assert("primary_link"@.len() != "busway"@.len());
    assert("primary_link"@ != "busway"@);
    assert("primary_link"@.len() != "service"@.len());
    assert("primary_link"@ != "service"@);
    assert("primary_link"@.len() != "track"@.len());
    assert("primary_link"@ != "track"@);
}

proof fn lemma_highway_secondary()
    ensures
        highway_class("secondary"@) == Some(RoadClass::Secondary),
        highway_width_m("secondary"@) == Some(9u32),
{
    reveal_strlit("motorway");
    reveal_strlit("trunk");
    reveal_strlit("motorway_link");
    reveal_strlit("trunk_link");
    reveal_strlit("primary");
    reveal_strlit("primary_link");
    reveal_strlit("secondary");
    reveal_strlit("secondary_link");
    reveal_strlit("tertiary");
    reveal_strlit("tertiary_link");
    reveal_strlit("residential");
    reveal_strlit("unclassified");
    reveal_strlit("living_street");
    reveal_strlit("road");
    reveal_strlit("busway");
    reveal_strlit("service");
    reveal_strlit("track");
    assert("secondary"@.len() != "motorway"@.len());
    assert("secondary"@ != "motorway"@);
    assert("secondary"@.len() != "trunk"@.len());
    assert("secondary"@ != "trunk"@);
    assert("secondary"@.len() != "motorway_link"@.len());
    assert("secondary"@ != "motorway_link"@);
    assert("secondary"@.len() != "trunk_link"@.len());
    assert("secondary"@ != "trunk_link"@);
    assert("secondary"@.len() != "primary"@.len());
    assert("secondary"@ != "primary"@);
    assert("secondary"@.len() != "primary_link"@.len());
    assert("secondary"@ != "primary_link"@);
    assert("secondary"@.len() != "secondary_link"@.len());
    assert("secondary"@ != "secondary_link"@);
    assert("secondary"@.len() != "tertiary"@.len());
    assert("secondary"@ != "tertiary"@);
    assert("secondary"@.len() != "tertiary_link"@.len());
    assert("secondary"@ != "tertiary_link"@);
    assert("secondary"@.len() != "residential"@.len());
    assert("secondary"@ != "residential"@);
    assert("secondary"@.len() != "unclassified"@.len());
    assert("secondary"@ != "unclassified"@);
    assert("secondary"@.len() != "living_street"@.len());
    assert("secondary"@ != "living_street"@);
    assert("secondary"@.len() != "road"@.len());
    assert("secondary"@ != "road"@);
    assert("secondary"@.len() != "busway"@.len());
    assert("secondary"@ != "busway"@);
    assert("secondary"@.len() != "service"@.len());
    assert("secondary"@ != "service"@);
    assert("secondary"@.len() != "track"@.len());
    assert("secondary"@ != "track"@);
}

proof fn lemma_highway_secondary_link()
    ensures
        highway_class("secondary_link"@) == Some(RoadClass::Secondary),
        highway_width_m("secondary_link"@) == Some(8u32),
{
    reveal_strlit("motorway");
    reveal_strlit("trunk");
    reveal_strlit("motorway_link");
    reveal_strlit("trunk_link");
    reveal_strlit("primary");
    reveal_strlit("primary_link");
    reveal_strlit("secondary");
    reveal_strlit("secondary_link");
    reveal_strlit("tertiary");
    reveal_strlit("tertiary_link");
    reveal_strlit("residential");
    reveal_strlit("unclassified");
    reveal_strlit("living_street");
    reveal_strlit("road");
    reveal_strlit("busway");
    reveal_strlit("service");
    reveal_strlit("track");
    assert("secondary_link"@.len() != "motorway"@.len());
    assert("secondary_link"@ != "motorway"@);
    assert("secondary_link"@.len() != "trunk"@.len());
    assert("secondary_link"@ != "trunk"@);
    assert("secondary_link"@.len() != "motorway_link"@.len());
    assert("secondary_link"@ != "motorway_link"@);
    assert("secondary_link"@.len() != "trunk_link"@.len());
    assert("secondary_link"@ != "trunk_link"@);
    assert("secondary_link"@.len() != "primary"@.len());
    assert("secondary_link"@ != "primary"@);
    assert("secondary_link"@.len() != "primary_link"@.len());
    assert("secondary_link"@ != "primary_link"@);
    assert("secondary_link"@.len() != "secondary"@.len());
    assert("secondary_link"@ != "secondary"@);
    assert("secondary_link"@.len() != "tertiary"@.len());
    assert("secondary_link"@ != "tertiary"@);
    assert("secondary_link"@.len() != "tertiary_link"@.len());
    assert("secondary_link"@ != "tertiary_link"@);
    assert("secondary_link"@.len() != "residential"@.len());
    assert("secondary_link"@ != "residential"@);
    assert("secondary_link"@.len() != "unclassified"@.len());
    assert("secondary_link"@ != "unclassified"@);
    assert("secondary_link"@.len() != "living_street"@.len());
    assert("secondary_link"@ != "living_street"@);
    assert("secondary_link"@.len() != "road"@.len());
    assert("secondary_link"@ != "road"@);
    assert("secondary_link"@.len() != "busway"@.len());
    assert("secondary_link"@ != "busway"@);
    assert("secondary_link"@.len() != "service"@.len());
    assert("secondary_link"@ != "service"@);
    assert("secondary_link"@.len() != "track"@.len());
    assert("secondary_link"@ != "track"@);
}

proof fn lemma_highway_tertiary()
    ensures
        highway_class("tertiary"@) == Some(RoadClass::Secondary),
        highway_width_m("tertiary"@) == Some(8u32),
{
    reveal_strlit("motorway");
    reveal_strlit("trunk");
    reveal_strlit("motorway_link");
    reveal_strlit("trunk_link");
    reveal_strlit("primary");
    reveal_strlit("primary_link");
    reveal_strlit("secondary");
    reveal_strlit("secondary_link");
    reveal_strlit("tertiary");
    reveal_strlit("tertiary_link");
    reveal_strlit("residential");
    reveal_strlit("unclassified");
    reveal_strlit("living_street");
    reveal_strlit("road");
    reveal_strlit("busway");
    reveal_strlit("service");
    reveal_strlit("track");
    assert("tertiary"@[0] != "motorway"@[0]);
    assert("tertiary"@ != "motorway"@);
    assert("tertiary"@.len() != "trunk"@.len());
    assert("tertiary"@ != "trunk"@);
    assert("tertiary"@.len() != "motorway_link"@.len());
    assert("tertiary"@ != "motorway_link"@);
    assert("tertiary"@.len() != "trunk_link"@.len());
    assert("tertiary"@ != "trunk_link"@);
    assert("tertiary"@.len() != "primary"@.len());
    assert("tertiary"@ != "primary"@);
    assert("tertiary"@.len() != "primary_link"@.len());
    assert("tertiary"@ != "primary_link"@);
    assert("tertiary"@.len() != "secondary"@.len());
    assert("tertiary"@ != "secondary"@);
    assert("tertiary"@.len() != "secondary_link"@.len());
    assert("tertiary"@ != "secondary_link"@);
    assert("tertiary"@.len() != "tertiary_link"@.len());
    assert("tertiary"@ != "tertiary_link"@);
    assert("tertiary"@.len() != "residential"@.len());
    assert("tertiary"@ != "residential"@);
    assert("tertiary"@.len() != "unclassified"@.len());
    assert("tertiary"@ != "unclassified"@);
    assert("tertiary"@.len() != "living_street"@.len());
    assert("tertiary"@ != "living_street"@);
    assert("tertiary"@.len() != "road"@.len());
    assert("tertiary"@ != "road"@);
    assert("tertiary"@.len() != "busway"@.len());
    assert("tertiary"@ != "busway"@);
    assert("tertiary"@.len() != "service"@.len());
    assert("tertiary"@ != "service"@);
    assert("tertiary"@.len() != "track"@.len());
    assert("tertiary"@ != "track"@);
}

proof fn lemma_highway_tertiary_link()
    ensures
        highway_class("tertiary_link"@) == Some(RoadClass::Secondary),
        highway_width_m("tertiary_link"@) == Some(7u32),
{
    reveal_strlit("motorway");
    reveal_strlit("trunk");
    reveal_strlit("motorway_link");
    reveal_strlit("trunk_link");
    reveal_strlit("primary");
    reveal_strlit("primary_link");
    reveal_strlit("secondary");
    reveal_strlit("secondary_link");
    reveal_strlit("tertiary");
    reveal_strlit("tertiary_link");
    reveal_strlit("residential");
    reveal_strlit("unclassified");
    reveal_strlit("living_street");
    reveal_strlit("road");
    reveal_strlit("busway");
    reveal_strlit("service");
    reveal_strlit("track");
    assert("tertiary_link"@.len() != "motorway"@.len());
    assert("tertiary_link"@ != "motorway"@);
    assert("tertiary_link"@.len() != "trunk"@.len());
    assert("tertiary_link"@ != "trunk"@);
    assert("tertiary_link"@[0] != "motorway_link"@[0]);
    assert("tertiary_link"@ != "motorway_link"@);
    assert("tertiary_link"@.len() != "trunk_link"@.len());
    assert("tertiary_link"@ != "trunk_link"@);
    assert("tertiary_link"@.len() != "primary"@.len());
    assert("tertiary_link"@ != "primary"@);
    assert("tertiary_link"@.len() != "primary_link"@.len());
    assert("tertiary_link"@ != "primary_link"@);
    assert("tertiary_link"@.len() != "secondary"@.len());
    assert("tertiary_link"@ != "secondary"@);
    assert("tertiary_link"@.len() != "secondary_link"@.len());
    assert("tertiary_link"@ != "secondary_link"@);
    assert("tertiary_link"@.len() != "tertiary"@.len());
    assert("tertiary_link"@ != "tertiary"@);
    assert("tertiary_link"@.len() != "residential"@.len());
    assert("tertiary_link"@ != "residential"@);
    assert("tertiary_link"@.len() != "unclassified"@.len());
    assert("tertiary_link"@ != "unclassified"@);
    assert("tertiary_link"@[0] != "living_street"@[0]);
    assert("tertiary_link"@ != "living_street"@);
    assert("tertiary_link"@.len() != "road"@.len());
    assert("tertiary_link"@ != "road"@);
    assert("tertiary_link"@.len() != "busway"@.len());
    assert("tertiary_link"@ != "busway"@);
    assert("tertiary_link"@.len() != "service"@.len());
    assert("tertiary_link"@ != "service"@);
    assert("tertiary_link"@.len() != "track"@.len());
    assert("tertiary_link"@ != "track"@);
}

proof fn lemma_highway_residential()
    ensures
        highway_class("residential"@) == Some(RoadClass::Local),
        highway_width_m("residential"@) == Some(7u32),
{
    reveal_strlit("motorway");
    reveal_strlit("trunk");
    reveal_strlit("motorway_link");
    reveal_strlit("trunk_link");
    reveal_strlit("primary");
    reveal_strlit("primary_link");
    reveal_strlit("secondary");
    reveal_strlit("secondary_link");
    reveal_strlit("tertiary");
    reveal_strlit("tertiary_link");
    reveal_strlit("residential");
    reveal_strlit("unclassified");
    reveal_strlit("living_street");
    reveal_strlit("road");
    reveal_strlit("busway");
    reveal_strlit("service");
    reveal_strlit("track");
    assert("residential"@.len() != "motorway"@.len());
    assert("residential"@ != "motorway"@);
    assert("residential"@.len() != "trunk"@.len());
    assert("residential"@ != "trunk"@);
    assert("residential"@.len() != "motorway_link"@.len());
    assert("residential"@ != "motorway_link"@);
    assert("residential"@.len() != "trunk_link"@.len());
    assert("residential"@ != "trunk_link"@);
    assert("residential"@.len() != "primary"@.len());
    assert("residential"@ != "primary"@);
    assert("residential"@.len() != "primary_link"@.len());
    assert("residential"@ != "primary_link"@);
    assert("residential"@.len() != "secondary"@.len());
    assert("residential"@ != "secondary"@);
    assert("residential"@.len() != "secondary_link"@.len());
    assert("residential"@ != "secondary_link"@);
    assert("residential"@.len() != "tertiary"@.len());
    assert("residential"@ != "tertiary"@);
    assert("residential"@.len() != "tertiary_link"@.len());
    assert("residential"@ != "tertiary_link"@);
    assert("residential"@.len() != "unclassified"@.len());
    assert("residential"@ != "unclassified"@);
    assert("residential"@.len() != "living_street"@.len());
    assert("residential"@ != "living_street"@);
    assert("residential"@.len() != "road"@.len());
    assert("residential"@ != "road"@);
    assert("residential"@.len() != "busway"@.len());
    assert("residential"@ != "busway"@);
    assert("residential"@.len() != "service"@.len());
    assert("residential"@ != "service"@);
    assert("residential"@.len() != "track"@.len());
    assert("residential"@ != "track"@);
}

proof fn lemma_highway_unclassified()
    ensures
        highway_class("unclassified"@) == Some(RoadClass::Local),
        highway_width_m("unclassified"@) == Some(7u32),
{
    reveal_strlit("motorway");
    reveal_strlit("trunk");
    reveal_strlit("motorway_link");
    reveal_strlit("trunk_link");
    reveal_strlit("primary");
    reveal_strlit("primary_link");
    reveal_strlit("secondary");
    reveal_strlit("secondary_link");
    reveal_strlit("tertiary");
    reveal_strlit("tertiary_link");
    reveal_strlit("residential");
    reveal_strlit("unclassified");
    reveal_strlit("living_street");
    reveal_strlit("road");
    reveal_strlit("busway");
    reveal_strlit("service");
    reveal_strlit("track");
    assert("unclassified"@.len() != "motorway"@.len());
    assert("unclassified"@ != "motorway"@);
    assert("unclassified"@.len() != "trunk"@.len());
    assert("unclassified"@ != "trunk"@);
    assert("unclassified"@.len() != "motorway_link"@.len());
    assert("unclassified"@ != "motorway_link"@);
    assert("unclassified"@.len() != "trunk_link"@.len());
    assert("unclassified"@ != "trunk_link"@);
    assert("unclassified"@.len() != "primary"@.len());
    assert("unclassified"@ != "primary"@);
    assert("unclassified"@[0] != "primary_link"@[0]);
    assert("unclassified"@ != "primary_link"@);
    assert("unclassified"@.len() != "secondary"@.len());
    assert("unclassified"@ != "secondary"@);
    assert("unclassified"@.len() != "secondary_link"@.len());
    assert("unclassified"@ != "secondary_link"@);
    assert("unclassified"@.len() != "tertiary"@.len());
    assert("unclassified"@ != "tertiary"@);
    assert("unclassified"@.len() != "tertiary_link"@.len());
    assert("unclassified"@ != "tertiary_link"@);
    assert("unclassified"@.len() != "residential"@.len());
    assert("unclassified"@ != "residential"@);
    assert("unclassified"@.len() != "living_street"@.len());
    assert("unclassified"@ != "living_street"@);
    assert("unclassified"@.len() != "road"@.len());
    assert("unclassified"@ != "road"@);
    assert("unclassified"@.len() != "busway"@.len());
    assert("unclassified"@ != "busway"@);
    assert("unclassified"@.len() != "service"@.len());
    assert("unclassified"@ != "service"@);
    assert("unclassified"@.len() != "track"@.len());
    assert("unclassified"@ != "track"@);
}

proof fn lemma_highway_living_street()
    ensures
        highway_class("living_street"@) == Some(RoadClass::Local),
        highway_width_m("living_street"@) == Some(7u32),
{
    reveal_strlit("motorway");
    reveal_strlit("trunk");
    reveal_strlit("motorway_link");
    reveal_strlit("trunk_link");
    reveal_strlit("primary");
    reveal_strlit("primary_link");
    reveal_strlit("secondary");
    reveal_strlit("secondary_link");
    reveal_strlit("tertiary");
    reveal_strlit("tertiary_link");
    reveal_strlit("residential");
    reveal_strlit("unclassified");
    reveal_strlit("living_street");
    reveal_strlit("road");
    reveal_strlit("busway");
    reveal_strlit("service");
    reveal_strlit("track");
    assert("living_street"@.len() != "motorway"@.len());
    assert("living_street"@ != "motorway"@);
    assert("living_street"@.len() != "trunk"@.len());
    assert("living_street"@ != "trunk"@);
    assert("living_street"@[0] != "motorway_link"@[0]);
    assert("living_street"@ != "motorway_link"@);
    assert("living_street"@.len() != "trunk_link"@.len());
    assert("living_street"@ != "trunk_link"@);
    assert("living_street"@.len() != "primary"@.len());
    assert("living_street"@ != "primary"@);
    assert("living_street"@.len() != "primary_link"@.len());
    assert("living_street"@ != "primary_link"@);
    assert("living_street"@.len() != "secondary"@.len());
    assert("living_street"@ != "secondary"@);
    assert("living_street"@.len() != "secondary_link"@.len());
    assert("living_street"@ != "secondary_link"@);
    assert("living_street"@.len() != "tertiary"@.len());
    assert("living_street"@ != "tertiary"@);
    assert("living_street"@[0] != "tertiary_link"@[0]);
    assert("living_street"@ != "tertiary_link"@);
    assert("living_street"@.len() != "residential"@.len());
    assert("living_street"@ != "residential"@);
    assert("living_street"@.len() != "unclassified"@.len());
    assert("living_street"@ != "unclassified"@);
    assert("living_street"@.len() != "road"@.len());
    assert("living_street"@ != "road"@);
    assert("living_street"@.len() != "busway"@.len());
    assert("living_street"@ != "busway"@);
    assert("living_street"@.len() != "service"@.len());
    assert("living_street"@ != "service"@);
    assert("living_street"@.len() != "track"@.len());
    assert("living_street"@ != "track"@);
}

proof fn lemma_highway_road()
    ensures
        highway_class("road"@) == Some(RoadClass::Local),
        highway_width_m("road"@) == Some(7u32),
{
    reveal_strlit("motorway");
    reveal_strlit("trunk");
    reveal_strlit("motorway_link");
    reveal_strlit("trunk_link");
    reveal_strlit("primary");
    reveal_strlit("primary_link");
    reveal_strlit("secondary");
    reveal_strlit("secondary_link");
    reveal_strlit("tertiary");
    reveal_strlit("tertiary_link");
    reveal_strlit("residential");
    reveal_strlit("unclassified");
    reveal_strlit("living_street");
    reveal_strlit("road");
    reveal_strlit("busway");
    reveal_strlit("service");
    reveal_strlit("track");
    assert("road"@.len() != "motorway"@.len());
    assert("road"@ != "motorway"@);
    assert("road"@.len() != "trunk"@.len());
    assert("road"@ != "trunk"@);
    assert("road"@.len() != "motorway_link"@.len());
    assert("road"@ != "motorway_link"@);
    assert("road"@.len() != "trunk_link"@.len());
    assert("road"@ != "trunk_link"@);
    assert("road"@.len() != "primary"@.len());
    assert("road"@ != "primary"@);
    assert("road"@.len() != "primary_link"@.len());
    assert("road"@ != "primary_link"@);
    assert("road"@.len() != "secondary"@.len());
    assert("road"@ != "secondary"@);
    assert("road"@.len() != "secondary_link"@.len());
    assert("road"@ != "secondary_link"@);
    assert("road"@.len() != "tertiary"@.len());
    assert("road"@ != "tertiary"@);
    assert("road"@.len() != "tertiary_link"@.len());
    assert("road"@ != "tertiary_link"@);
    assert("road"@.len() != "residential"@.len());
    assert("road"@ != "residential"@);
    assert("road"@.len() != "unclassified"@.len());
    assert("road"@ != "unclassified"@);
    assert("road"@.len() != "living_street"@.len());
    assert("road"@ != "living_street"@);
    assert("road"@.len() != "busway"@.len());
    assert("road"@ != "busway"@);
    assert("road"@.len() != "service"@.len());
    assert("road"@ != "service"@);
    assert("road"@.len() != "track"@.len());
    assert("road"@ != "track"@);
}

proof fn lemma_highway_busway()
    ensures
        highway_class("busway"@) == Some(RoadClass::Local),
        highway_width_m("busway"@) == Some(7u32),
{
    reveal_strlit("motorway");
    reveal_strlit("trunk");
    reveal_strlit("motorway_link");
    reveal_strlit("trunk_link");
    reveal_strlit("primary");
    reveal_strlit("primary_link");
    reveal_strlit("secondary");
    reveal_strlit("secondary_link");
    reveal_strlit("tertiary");
    reveal_strlit("tertiary_link");
    reveal_strlit("residential");
    reveal_strlit("unclassified");
    reveal_strlit("living_street");
    reveal_strlit("road");
    reveal_strlit("busway");
    reveal_strlit("service");
    reveal_strlit("track");
    assert("busway"@.len() != "motorway"@.len());
    assert("busway"@ != "motorway"@);
    assert("busway"@.len() != "trunk"@.len());
    assert("busway"@ != "trunk"@);
    assert("busway"@.len() != "motorway_link"@.len());
    assert("busway"@ != "motorway_link"@);
    assert("busway"@.len() != "trunk_link"@.len());
    assert("busway"@ != "trunk_link"@);
    assert("busway"@.len() != "primary"@.len());
    assert("busway"@ != "primary"@);
    assert("busway"@.len() != "primary_link"@.len());
    assert("busway"@ != "primary_link"@);
    assert("busway"@.len() != "secondary"@.len());
    assert("busway"@ != "secondary"@);
    assert("busway"@.len() != "secondary_link"@.len());
    assert("busway"@ != "secondary_link"@);
    assert("busway"@.len() != "tertiary"@.len());
    assert("busway"@ != "tertiary"@);
    assert("busway"@.len() != "tertiary_link"@.len());
    assert("busway"@ != "tertiary_link"@);
    assert("busway"@.len() != "residential"@.len());
    assert("busway"@ != "residential"@);
    assert("busway"@.len() != "unclassified"@.len());
    assert("busway"@ != "unclassified"@);
    assert("busway"@.len() != "living_street"@.len());
    assert("busway"@ != "living_street"@);
    assert("busway"@.len() != "road"@.len());
    assert("busway"@ != "road"@);
    assert("busway"@.len() != "service"@.len());
    assert("busway"@ != "service"@);
    assert("busway"@.len() != "track"@.len());
    assert("busway"@ != "track"@);
}

proof fn lemma_highway_service()
    ensures
        highway_class("service"@) == Some(RoadClass::Service),
        highway_width_m("service"@) == Some(6u32),
{
    reveal_strlit("motorway");
    reveal_strlit("trunk");
    reveal_strlit("motorway_link");
    reveal_strlit("trunk_link");
    reveal_strlit("primary");
    reveal_strlit("primary_link");
    reveal_strlit("secondary");
    reveal_strlit("secondary_link");
    reveal_strlit("tertiary");
    reveal_strlit("tertiary_link");
    reveal_strlit("residential");
    reveal_strlit("unclassified");
    reveal_strlit("living_street");
    reveal_strlit("road");
    reveal_strlit("busway");
    reveal_strlit("service");
    reveal_strlit("track");
    assert("service"@.len() != "motorway"@.len());
    assert("service"@ != "motorway"@);
    assert("service"@.len() != "trunk"@.len());
    assert("service"@ != "trunk"@);
    assert("service"@.len() != "motorway_link"@.len());
    assert("service"@ != "motorway_link"@);
    assert("service"@.len() != "trunk_link"@.len());
    assert("service"@ != "trunk_link"@);
    assert("service"@[0] != "primary"@[0]);
    assert("service"@ != "primary"@);
    assert("service"@.len() != "primary_link"@.len());
    assert("service"@ != "primary_link"@);
    assert("service"@.len() != "secondary"@.len());
    assert("service"@ != "secondary"@);
    assert("service"@.len() != "secondary_link"@.len());
    assert("service"@ != "secondary_link"@);
    assert("service"@.len() != "tertiary"@.len());
    assert("service"@ != "tertiary"@);
    assert("service"@.len() != "tertiary_link"@.len());
    assert("service"@ != "tertiary_link"@);
    assert("service"@.len() != "residential"@.len());
    assert("service"@ != "residential"@);
    assert("service"@.len() != "unclassified"@.len());
    assert("service"@ != "unclassified"@);
    assert("service"@.len() != "living_street"@.len());
    assert("service"@ != "living_street"@);
    assert("service"@.len() != "road"@.len());
    assert("service"@ != "road"@);
    assert("service"@.len() != "busway"@.len());
    assert("service"@ != "busway"@);
    assert("service"@.len() != "track"@.len());
    assert("service"@ != "track"@);
}

proof fn lemma_highway_track()
    ensures
        highway_class("track"@) == Some(RoadClass::Track),
        highway_width_m("track"@) == Some(5u32),
{
    reveal_strlit("motorway");
    reveal_strlit("trunk");
    reveal_strlit("motorway_link");
    reveal_strlit("trunk_link");
    reveal_strlit("primary");
    reveal_strlit("primary_link");
    reveal_strlit("secondary");
    reveal_strlit("secondary_link");
    reveal_strlit("tertiary");
    reveal_strlit("tertiary_link");
    reveal_strlit("residential");
    reveal_strlit("unclassified");
    reveal_strlit("living_street");
    reveal_strlit("road");
    reveal_strlit("busway");
    reveal_strlit("service");
    reveal_strlit("track");
    assert("track"@.len() != "motorway"@.len());
    assert("track"@ != "motorway"@);
    assert("track"@[2] != "trunk"@[2]);
    assert("track"@ != "trunk"@);
    assert("track"@.len() != "motorway_link"@.len());
    assert("track"@ != "motorway_link"@);
    assert("track"@.len() != "trunk_link"@.len());
    assert("track"@ != "trunk_link"@);
    assert("track"@.len() != "primary"@.len());
    assert("track"@ != "primary"@);
    assert("track"@.len() != "primary_link"@.len());
    assert("track"@ != "primary_link"@);
    assert("track"@.len() != "secondary"@.len());
    assert("track"@ != "secondary"@);
    assert("track"@.len() != "secondary_link"@.len());
    assert("track"@ != "secondary_link"@);
    assert("track"@.len() != "tertiary"@.len());
    assert("track"@ != "tertiary"@);
    assert("track"@.len() != "tertiary_link"@.len());
    assert("track"@ != "tertiary_link"@);
    assert("track"@.len() != "residential"@.len());
    assert("track"@ != "residential"@);
    assert("track"@.len() != "unclassified"@.len());
    assert("track"@ != "unclassified"@);
    assert("track"@.len() != "living_street"@.len());
    assert("track"@ != "living_street"@);
    assert("track"@.len() != "road"@.len());
    assert("track"@ != "road"@);
    assert("track"@.len() != "busway"@.len());
    assert("track"@ != "busway"@);
    assert("track"@.len() != "service"@.len());
    assert("track"@ != "service"@);
}

/// Law: every value of the `highway` table is a road of the class, and of
/// the width, the table gives it.
pub proof fn lemma_highway_table_values(v: Seq<char>, c: RoadClass, w: u32)
    requires
        highway_table(v, c, w),
    ensures
        highway_class(v) == Some(c),
        highway_width_m(v) == Some(w),
{
    if v == "motorway"@ {
        lemma_highway_motorway();
    }
    if v == "trunk"@ {
        lemma_highway_trunk();
    }
    if v == "motorway_link"@ {
        lemma_highway_motorway_link();
    }
    if v == "trunk_link"@ {
        lemma_highway_trunk_link();
    }
    if v == "primary"@ {
        lemma_highway_primary();
    }
    if v == "primary_link"@ {
        lemma_highway_primary_link();
    }
    if v == "secondary"@ {
        lemma_highway_secondary();
    }
    if v == "secondary_link"@ {
        lemma_highway_secondary_link();
    }
    if v == "tertiary"@ {
        lemma_highway_tertiary();
    }
    if v == "tertiary_link"@ {
        lemma_highway_tertiary_link();
    }
    if v == "residential"@ {
        lemma_highway_residential();
    }
    if v == "unclassified"@ {
        lemma_highway_unclassified();
    }
    if v == "living_street"@ {
        lemma_highway_living_street();
    }
    if v == "road"@ {
        lemma_highway_road();
    }
    if v == "busway"@ {
        lemma_highway_busway();
    }
    if v == "service"@ {
        lemma_highway_service();
    }
    if v == "track"@ {
        lemma_highway_track();
    }
}

/// Law: a `highway` value has a road class exactly when it has a road width.
pub proof fn lemma_highway_class_iff_width(v: Seq<char>)
    ensures
        highway_class(v) is Some <==> highway_width_m(v) is Some,
{
}

/// Law: a pair has a terrain class only as the area tag table gives it, or
/// through a `building`, `amenity` or `office` key.
pub proof fn lemma_terrain_table_complete(k: Seq<char>, v: Seq<char>, c: TerrainKind)
    requires
        tag_terrain(k, v) == Some(c),
    ensures
        terrain_table(k, v, c) || (c == TerrainKind::Urban && (k == "building"@ || k == "amenity"@ || k == "office"@)),
{
}

/// Law: a `highway` value has a road class only as the `highway` table gives
/// it, with the width the table gives.
pub proof fn lemma_highway_table_complete(v: Seq<char>)
    requires
        highway_class(v) is Some,
    ensures
        highway_width_m(v) is Some,
        highway_table(v, highway_class(v)->Some_0, highway_width_m(v)->Some_0),
{
    if v == "motorway"@ {
        lemma_highway_motorway();
    }
    if v == "trunk"@ {
        lemma_highway_trunk();
    }
    if v == "motorway_link"@ {
        lemma_highway_motorway_link();
    }
    if v == "trunk_link"@ {
        lemma_highway_trunk_link();
    }
    if v == "primary"@ {
        lemma_highway_primary();
    }
    if v == "primary_link"@ {
        lemma_highway_primary_link();
    }
    if v == "secondary"@ {
        lemma_highway_secondary();
    }
    if v == "secondary_link"@ {
        lemma_highway_secondary_link();
    }
    if v == "tertiary"@ {
        lemma_highway_tertiary();
    }
    if v == "tertiary_link"@ {
        lemma_highway_tertiary_link();
    }
    if v == "residential"@ {
        lemma_highway_residential();
    }
    if v == "unclassified"@ {
        lemma_highway_unclassified();
    }
    if v == "living_street"@ {
        lemma_highway_living_street();
    }
    if v == "road"@ {
        lemma_highway_road();
    }
    if v == "busway"@ {
        lemma_highway_busway();
    }
    if v == "service"@ {
        lemma_highway_service();
    }
    if v == "track"@ {
        lemma_highway_track();
    }
}

} // verus!
