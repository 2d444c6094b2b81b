//! Which extract each known region is downloaded from, and where the
//! generator reads and writes the bundle of a region.
use vstd::prelude::*;
use crate::text::str_eq;
use crate::world::{path_join, region_map_path, join_path, MAP_ASSETS_DIR};

verus! {

/// Where the extract of a region is downloaded from, and the file it is
/// saved as.
#[derive(Debug)]
pub struct RegionConfig {
    pub url: String,
    pub filename: String,
}

/// Why no configuration was found.
#[derive(Debug)]
pub enum ConfigError {
    /// The region (as the caller wrote it) is not one of the known ones.
    UnknownRegion(String),
}

impl ConfigError {
    /// The message shown for the error.
    pub fn message(&self) -> (m: String)
        ensures
            match self {
                ConfigError::UnknownRegion(r) => m@ == "Unknown region: "@ + r@ + ". Add it to get_config()"@,
            },
    {
        match self {
            ConfigError::UnknownRegion(r) => String::from_str("Unknown region: ").concat(r.as_str()).concat(
                ". Add it to get_config()",
            ),
        }
    }
}

/// The lowercase form of a string, as `str::to_lowercase` gives it.
pub uninterp spec fn lowercase(s: Seq<char>) -> Seq<char>;

/// The character is ASCII.
pub open spec fn is_ascii_char(c: char) -> bool {
    (c as int) < 128
}

/// ASCII `A` to `Z` become `a` to `z`; every other character stays.
pub open spec fn ascii_lower(c: char) -> char {
    if 65 <= (c as int) && (c as int) <= 90 {
        ((c as int) + 32) as char
    } else {
        c
    }
}

/// Each character of `s` lowered as `ascii_lower` says.
pub open spec fn ascii_lowered(s: Seq<char>) -> Seq<char> {
    s.map_values(|c: char| ascii_lower(c))
}

/// Calls `str::to_lowercase`. The contract claims that the result is a
/// function of the argument (its Unicode lowercase mapping, which takes no
/// locale into account), and that on a string of ASCII characters it only
/// turns `A` to `Z` into `a` to `z`; of other characters it says nothing.
#[verifier::external_body]
fn to_lowercase(s: &str) -> (r: String)
    ensures
        r@ == lowercase(s@),
        (forall|i: int| 0 <= i < s@.len() ==> #[trigger] is_ascii_char(s@[i])) ==> r@ == ascii_lowered(s@),
{
    s.to_lowercase()
}

/// The URL and file name of the region whose lowercased name is `lowered`:
/// `bangladesh` and `dhaka` are known.
pub open spec fn known_region(lowered: Seq<char>) -> Option<(Seq<char>, Seq<char>)> {
    if lowered == "bangladesh"@ {
        Some(("https://download.geofabrik.de/asia/bangladesh-latest.osm.pbf"@, "bangladesh.pbf"@))
    } else if lowered == "dhaka"@ {
        Some(("https://download.bbbike.org/osm/bbbike/Dhaka/Dhaka.osm.pbf"@, "dhaka.pbf"@))
    } else {
        None
    }
}

/// What `region_config_for` gives: the configuration of a known region, or
/// the error naming `region` as it was written.
pub open spec fn config_outcome(r: Result<RegionConfig, ConfigError>, lowered: Seq<char>, region: Seq<char>) -> bool {
    match known_region(lowered) {
        Some(c) => r matches Ok(cfg) && cfg.url@ == c.0 && cfg.filename@ == c.1,
        None => r matches Err(ConfigError::UnknownRegion(name)) && name@ == region,
    }
}

/// The configuration of the region written `region`, whose lowercase form is
/// `lowered`.
pub fn region_config_for(lowered: &str, region: &str) -> (r: Result<RegionConfig, ConfigError>)
    ensures
        config_outcome(r, lowered@, region@),
{
    proof {
        reveal_strlit("bangladesh");
        reveal_strlit("dhaka");
    }
    if str_eq(lowered, "bangladesh") {
        Ok(
            RegionConfig {
                url: String::from_str("https://download.geofabrik.de/asia/bangladesh-latest.osm.pbf"),
                filename: String::from_str("bangladesh.pbf"),
            },
        )
    } else if str_eq(lowered, "dhaka") {
        Ok(
            RegionConfig {
                url: String::from_str("https://download.bbbike.org/osm/bbbike/Dhaka/Dhaka.osm.pbf"),
                filename: String::from_str("dhaka.pbf"),
            },
        )
    } else {
        Err(ConfigError::UnknownRegion(String::from_str(region)))
    }
}

/// The configuration of `region`, whose name is matched without regard to
/// case.
pub fn get_config(region: &str) -> (r: Result<RegionConfig, ConfigError>)
    ensures
        config_outcome(r, lowercase(region@), region@),
        (forall|i: int| 0 <= i < region@.len() ==> #[trigger] is_ascii_char(region@[i])) ==> config_outcome(r, ascii_lowered(region@), region@),
{
    let lowered = to_lowercase(region);
    region_config_for(lowered.as_str(), region)
}

/// The extract of `region` in its bundle: `<bundle>/<region>.pbf`.
pub fn pbf_path(region: &str) -> (p: String)
    ensures
        p@ == path_join(path_join(MAP_ASSETS_DIR@, region@), region@ + ".pbf"@),
{
    let dir = region_map_path(region);
    let file = String::from_str(region).concat(".pbf");
    join_path(dir.as_str(), file.as_str())
}

/// The directory the bundle of `region` is written to.
pub fn output_dir(region: &str) -> (p: String)
    ensures
        p@ == path_join(MAP_ASSETS_DIR@, region@),
{
    region_map_path(region)
}

/// Raster cells along each side of a chunk unless the caller asks otherwise.
pub const DEFAULT_CELLS_PER_SIDE: usize = 256;

/// Why a chunk resolution is refused.
#[derive(Debug, Clone, Copy, PartialEq, Eq, Structural)]
pub enum CellsPerSideError {
    /// Fewer than two cells per side.
    TooSmall,
    /// An odd number of cells per side, which halving cannot split.
    Odd,
    /// More cells per side than the tile metadata can record.
    TooLarge,
}

impl CellsPerSideError {
    /// The message shown for the error.
    pub fn message(&self) -> (m: &'static str)
        ensures
            m@ == match self {
                CellsPerSideError::TooSmall => "cells_per_side must be at least 2"@,
                CellsPerSideError::Odd => "cells_per_side must be even for 2x downsampling"@,
                CellsPerSideError::TooLarge => "cells_per_side must fit into u16 metadata"@,
            },
    {
        match self {
            CellsPerSideError::TooSmall => "cells_per_side must be at least 2",
            CellsPerSideError::Odd => "cells_per_side must be even for 2x downsampling",
            CellsPerSideError::TooLarge => "cells_per_side must fit into u16 metadata",
        }
    }
}

/// Accepts a chunk resolution that is at least 2, even, and fits in a
/// `u16`; the first rule broken, in that order, is the error.
pub fn check_cells_per_side(cells_per_side: usize) -> (r: Result<(), CellsPerSideError>)
    ensures
        r == (if cells_per_side < 2 {
            Err(CellsPerSideError::TooSmall)
        } else if cells_per_side % 2 != 0 {
            Err(CellsPerSideError::Odd)
        } else if cells_per_side > u16::MAX {
            Err(CellsPerSideError::TooLarge)
        } else {
            Ok(())
        }),
{
    if cells_per_side < 2 {
        Err(CellsPerSideError::TooSmall)
    } else if cells_per_side % 2 != 0 {
        Err(CellsPerSideError::Odd)
    } else if cells_per_side > 65535 {
        Err(CellsPerSideError::TooLarge)
    } else {
        Ok(())
    }
}

} // verus!
