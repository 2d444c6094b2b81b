//! Shared vocabulary of the map: terrain classes and their codes and
//! priorities, feature types, and the paths and file names of region bundles.
use vstd::prelude::*;
use vstd::string::StringExecFns;
use crate::text::chars_of;

verus! {

/// Directory, relative to the working directory, that holds the region bundles.
pub const MAP_ASSETS_DIR: &'static str = "assets/map";

/// Version written into every tile archive.
pub const TILE_FORMAT_VERSION: u32 = 1;

/// The terrain classes a raster cell or an area feature can carry.
#[derive(Debug, Clone, Copy, PartialEq, Eq, Structural, PartialOrd, Ord, Hash)]
pub enum TerrainKind {
    Unknown,
    Water,
    Grass,
    Forest,
    Urban,
    Farmland,
    Sand,
    Road,
}

/// The byte code of a terrain class, as stored in raster cells.
pub open spec fn terrain_code(kind: TerrainKind) -> u8 {
    match kind {
        TerrainKind::Unknown => 0,
        TerrainKind::Water => 1,
        TerrainKind::Grass => 2,
        TerrainKind::Forest => 3,
        TerrainKind::Urban => 4,
        TerrainKind::Farmland => 5,
        TerrainKind::Sand => 6,
        TerrainKind::Road => 7,
    }
}

/// The terrain class of a byte code; codes past the last class read as `Unknown`.
pub open spec fn terrain_of_code(code: u8) -> TerrainKind {
    if code == 1 {
        TerrainKind::Water
    } else if code == 2 {
        TerrainKind::Grass
    } else if code == 3 {
        TerrainKind::Forest
    } else if code == 4 {
        TerrainKind::Urban
    } else if code == 5 {
        TerrainKind::Farmland
    } else if code == 6 {
        TerrainKind::Sand
    } else if code == 7 {
        TerrainKind::Road
    } else {
        TerrainKind::Unknown
    }
}

/// Painting priority: a class overwrites any class of lower or equal priority.
pub open spec fn terrain_priority(kind: TerrainKind) -> u8 {
    match kind {
        TerrainKind::Unknown => 0,
        TerrainKind::Grass => 1,
        TerrainKind::Farmland => 2,
        TerrainKind::Forest => 3,
        TerrainKind::Sand => 4,
        TerrainKind::Urban => 5,
        TerrainKind::Water => 6,
        TerrainKind::Road => 7,
    }
}

impl TerrainKind {
    /// Painting priority of this class.
    pub fn priority(self) -> (p: u8)
        ensures
            p == terrain_priority(self),
    {
        match self {
            TerrainKind::Unknown => 0,
            TerrainKind::Grass => 1,
            TerrainKind::Farmland => 2,
            TerrainKind::Forest => 3,
            TerrainKind::Sand => 4,
            TerrainKind::Urban => 5,
            TerrainKind::Water => 6,
            TerrainKind::Road => 7,
        }
    }

    /// Byte code of this class.
    pub fn code(self) -> (c: u8)
        ensures
            c == terrain_code(self),
    {
        match self {
            TerrainKind::Unknown => 0,
            TerrainKind::Water => 1,
            TerrainKind::Grass => 2,
            TerrainKind::Forest => 3,
            TerrainKind::Urban => 4,
            TerrainKind::Farmland => 5,
            TerrainKind::Sand => 6,
            TerrainKind::Road => 7,
        }
    }

    /// Class of a byte code.
    pub fn from_code(code: u8) -> (k: TerrainKind)
        ensures
            k == terrain_of_code(code),
    {
        if code == 1 {
            TerrainKind::Water
        } else if code == 2 {
            TerrainKind::Grass
        } else if code == 3 {
            TerrainKind::Forest
        } else if code == 4 {
            TerrainKind::Urban
        } else if code == 5 {
            TerrainKind::Farmland
        } else if code == 6 {
            TerrainKind::Sand
        } else if code == 7 {
            TerrainKind::Road
        } else {
            TerrainKind::Unknown
        }
    }
}

/// Every class reads back from its own code, and codes stay below eight.
pub proof fn lemma_code_round_trip(kind: TerrainKind)
    ensures
        terrain_of_code(terrain_code(kind)) == kind,
        terrain_code(kind) < 8,
{
}

/// Distinct classes have distinct priorities.
pub proof fn lemma_priority_injective(a: TerrainKind, b: TerrainKind)
    requires
        terrain_priority(a) == terrain_priority(b),
    ensures
        a == b,
{
}


/// Road classes, from the widest to the narrowest.
#[derive(Debug, Clone, Copy, PartialEq, Eq, Structural, Hash)]
pub enum RoadClass {
    Motorway,
    Primary,
    Secondary,
    Local,
    Service,
    Track,
}

/// A point in tile-local quantized coordinates.
#[derive(Debug, Clone, Copy, PartialEq, Eq, Structural)]
pub struct QuantizedPoint {
    pub x: i32,
    pub y: i32,
}

/// An axis-aligned box in tile-local quantized coordinates.
#[derive(Debug, Clone, Copy, PartialEq, Eq, Structural)]
pub struct QuantizedBounds {
    pub min_x: i32,
    pub min_y: i32,
    pub max_x: i32,
    pub max_y: i32,
}

/// A terrain area of a tile: its class, bounding box and outline rings.
#[derive(Debug, Clone)]
pub struct AreaFeature {
    pub kind: TerrainKind,
    pub bounds: QuantizedBounds,
    pub rings: Vec<Vec<QuantizedPoint>>,
}

/// A building footprint of a tile and its bounding box.
#[derive(Debug, Clone)]
pub struct BuildingFeature {
    pub bounds: QuantizedBounds,
    pub footprint: Vec<QuantizedPoint>,
}

/// A point of interest of a tile: its kind (such as `amenity:school`), its
/// name if it has one, and where it stands.
#[derive(Debug, Clone)]
pub struct PoiFeature {
    pub kind: String,
    pub name: Option<String>,
    pub point: QuantizedPoint,
}

/// Feature counts of the most detailed level of a tile.
#[derive(Debug, Clone, Copy, PartialEq, Eq, Structural)]
pub struct EntityCounts {
    pub roads: usize,
    pub buildings: usize,
    pub areas: usize,
    pub pois: usize,
}

impl Default for EntityCounts {
    fn default() -> (c: Self)
        ensures
            c == (EntityCounts { roads: 0, buildings: 0, areas: 0, pois: 0 }),
    {
        EntityCounts { roads: 0, buildings: 0, areas: 0, pois: 0 }
    }
}


pub open spec fn digit_char(d: int) -> char {
    if d == 0 {
        '0'
    } else if d == 1 {
        '1'
    } else if d == 2 {
        '2'
    } else if d == 3 {
        '3'
    } else if d == 4 {
        '4'
    } else if d == 5 {
        '5'
    } else if d == 6 {
        '6'
    } else if d == 7 {
        '7'
    } else if d == 8 {
        '8'
    } else {
        '9'
    }
}

/// Decimal notation of `n`, without leading zeros.
pub open spec fn decimal(n: nat) -> Seq<char>
    decreases n,
{
    if n < 10 {
        seq![digit_char(n as int)]
    } else {
        decimal(n / 10).push(digit_char((n % 10) as int))
    }
}

/// `base` joined with `component` the way a Unix path buffer pushes a
/// component: an absolute component replaces the base; otherwise a `/` is
/// put between them unless the base is empty or already ends with one.
pub open spec fn path_join(base: Seq<char>, component: Seq<char>) -> Seq<char> {
    if component.len() > 0 && component[0] == '/' {
        component
    } else if base.len() == 0 {
        component
    } else if base.last() == '/' {
        base + component
    } else {
        base + seq!['/'] + component
    }
}

pub open spec fn tile_name(tile_id: u32) -> Seq<char> {
    "tile_"@ + decimal(tile_id as nat) + ".rkyv"@
}

fn digit_str(d: u32) -> (s: &'static str)
    requires
        d < 10,
    ensures
        s@ == seq![digit_char(d as int)],
{
    proof {
        reveal_strlit("0");
        reveal_strlit("1");
        reveal_strlit("2");
        reveal_strlit("3");
        reveal_strlit("4");
        reveal_strlit("5");
        reveal_strlit("6");
        reveal_strlit("7");
        reveal_strlit("8");
        reveal_strlit("9");
    }
    if d == 0 {
        "0"
    } else if d == 1 {
        "1"
    } else if d == 2 {
        "2"
    } else if d == 3 {
        "3"
    } else if d == 4 {
        "4"
    } else if d == 5 {
        "5"
    } else if d == 6 {
        "6"
    } else if d == 7 {
        "7"
    } else if d == 8 {
        "8"
    } else {
        "9"
    }
}

/// Decimal notation of `n`.
pub fn decimal_string(n: u32) -> (s: String)
    ensures
        s@ == decimal(n as nat),
    decreases n,
{
    if n < 10 {
        String::from_str(digit_str(n))
    } else {
        let prefix = decimal_string(n / 10);
        let s = prefix.concat(digit_str(n % 10));
        assert(s@ =~= decimal(n as nat));
        s
    }
}

/// Joins a path component onto a base path (see `path_join`).
pub fn join_path(base: &str, component: &str) -> (p: String)
    ensures
        p@ == path_join(base@, component@),
{
    let comp = chars_of(component);
    let b = chars_of(base);
    if comp.len() > 0 && comp[0] == '/' {
        return String::from_str(component);
    }
    if b.len() == 0 {
        return String::from_str(component);
    }
    if b[b.len() - 1] == '/' {
        return String::from_str(base).concat(component);
    }
    proof {
        reveal_strlit("/");
    }
    let p = String::from_str(base).concat("/").concat(component);
    assert(p@ =~= base@ + seq!['/'] + component@);
    p
}

/// Directory that holds the region bundles.
pub fn map_assets_path() -> (p: String)
    ensures
        p@ == MAP_ASSETS_DIR@,
{
    String::from_str(MAP_ASSETS_DIR)
}

/// Directory of the bundle of `region`.
pub fn region_map_path(region: &str) -> (p: String)
    ensures
        p@ == path_join(MAP_ASSETS_DIR@, region@),
{
    let base = map_assets_path();
    join_path(base.as_str(), region)
}

/// Index file of the bundle of `region`.
pub fn map_index_path(region: &str) -> (p: String)
    ensures
        p@ == path_join(path_join(MAP_ASSETS_DIR@, region@), "map_index.json"@),
{
    let dir = region_map_path(region);
    join_path(dir.as_str(), "map_index.json")
}

/// Archive file of tile `tile_id` in the bundle of `region`.
pub fn map_tile_path(region: &str, tile_id: u32) -> (p: String)
    ensures
        p@ == path_join(path_join(MAP_ASSETS_DIR@, region@), tile_name(tile_id)),
{
    let dir = region_map_path(region);
    let name = tile_file_name(tile_id);
    join_path(dir.as_str(), name.as_str())
}

/// File name of the archive of tile `tile_id`: `tile_<id>.rkyv`.
pub fn tile_file_name(tile_id: u32) -> (name: String)
    ensures
        name@ == tile_name(tile_id),
{
    let digits = decimal_string(tile_id);
    let name = String::from_str("tile_").concat(digits.as_str()).concat(".rkyv");
    name
}

pub proof fn lemma_decimal_nonempty(n: nat)
    ensures
        decimal(n).len() >= 1,
        n >= 10 ==> decimal(n).len() >= 2,
    decreases n,
{
    if n >= 10 {
        lemma_decimal_nonempty(n / 10);
    }
}

/// Distinct numbers have distinct decimal notations.
pub proof fn lemma_decimal_injective(a: nat, b: nat)
    requires
        decimal(a) == decimal(b),
    ensures
        a == b,
    decreases a,
{
    lemma_decimal_nonempty(a);
    lemma_decimal_nonempty(b);
    if a >= 10 && b >= 10 {
        assert(decimal(a).drop_last() =~= decimal(a / 10));
        assert(decimal(b).drop_last() =~= decimal(b / 10));
        lemma_decimal_injective(a / 10, b / 10);
        assert(decimal(a).last() == digit_char((a % 10) as int));
        assert(decimal(b).last() == digit_char((b % 10) as int));
    } else if a < 10 && b < 10 {
        assert(decimal(a)[0] == digit_char(a as int));
        assert(decimal(b)[0] == digit_char(b as int));
    }
}

/// Distinct tiles have distinct archive file names.
pub proof fn lemma_tile_name_injective(a: u32, b: u32)
    requires
        tile_name(a) == tile_name(b),
    ensures
        a == b,
{
    let pre = "tile_"@;
    let suf = ".rkyv"@;
    let da = decimal(a as nat);
    let db = decimal(b as nat);
    assert(tile_name(a).len() == pre.len() + da.len() + suf.len());
    assert(da.len() == db.len());
    assert(da =~= tile_name(a).subrange(pre.len() as int, (pre.len() + da.len()) as int));
    assert(db =~= tile_name(b).subrange(pre.len() as int, (pre.len() + db.len()) as int));
    lemma_decimal_injective(a as nat, b as nat);
}

} // verus!
