//! Assembling the features of a tile level from points already quantized
//! into the tile's frame: their bounding boxes and which of them a level keeps.
use vstd::prelude::*;
use crate::tags::{poi_visible, poi_visible_at_lod};
use crate::tiles::{qbounds, quantized_bounds};
use crate::world::{AreaFeature, BuildingFeature, PoiFeature, QuantizedPoint, TerrainKind};

verus! {

/// The area of class `kind` outlined by `ring`, with the ring's bounding box;
/// none for an empty ring.
pub fn area_feature(kind: TerrainKind, ring: Vec<QuantizedPoint>) -> (a: Option<AreaFeature>)
    ensures
        ring@.len() == 0 <==> a is None,
        a matches Some(f) ==> {
            &&& f.kind == kind
            &&& f.bounds == qbounds(ring@, ring@.len())
            &&& f.rings@.len() == 1
            &&& f.rings@[0]@ == ring@
        },
{
    match quantized_bounds(ring.as_slice()) {
        None => None,
        Some(bounds) => {
            let mut rings: Vec<Vec<QuantizedPoint>> = Vec::new();
            rings.push(ring);
            Some(AreaFeature { kind, bounds, rings })
        },
    }
}

/// The building with outline `footprint` and its bounding box; none for an
/// empty footprint.
pub fn building_feature(footprint: Vec<QuantizedPoint>) -> (b: Option<BuildingFeature>)
    ensures
        footprint@.len() == 0 <==> b is None,
        b matches Some(f) ==> f.bounds == qbounds(footprint@, footprint@.len()) && f.footprint@ == footprint@,
{
    match quantized_bounds(footprint.as_slice()) {
        None => None,
        Some(bounds) => Some(BuildingFeature { bounds, footprint }),
    }
}

/// The point of interest as level `lod_level` draws it, or none where the
/// level leaves it out (see `poi_visible`).
pub fn poi_feature(kind: String, name: Option<String>, point: QuantizedPoint, lod_level: u8) -> (p: Option<PoiFeature>)
    ensures
        poi_visible(kind@, lod_level) <==> p is Some,
        p matches Some(f) ==> f.kind@ == kind@ && f.name == name && f.point == point,
{
    if poi_visible_at_lod(kind.as_str(), lod_level) {
        Some(PoiFeature { kind, name, point })
    } else {
        None
    }
}

} // verus!
