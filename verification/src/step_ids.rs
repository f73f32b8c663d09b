//! Step ids as text: how the record and the command line name a step.
use vstd::prelude::*;
use crate::steps::StepId;

verus! {

/// A step's id as the record and the command line spell it.
pub open spec fn id_text(s: StepId) -> Seq<char> {
    match s {
        StepId::DownloadOsm => "download_osm"@,
        StepId::ElevationTiles => "elevation_tiles"@,
        StepId::Basemap => "basemap"@,
        StepId::Routes => "routes"@,
        StepId::TerrainRgb => "terrain_rgb"@,
        StepId::Hillshade => "hillshade"@,
        StepId::ValhallaTiles => "valhalla_tiles"@,
        StepId::ValhallaPackage => "valhalla_package"@,
    }
}

impl StepId {
    /// The step's id, e.g. `basemap`, `valhalla_package`.
    pub fn id(self) -> (r: &'static str)
        ensures
            r@ == id_text(self),
    {
        match self {
            StepId::DownloadOsm => "download_osm",
            StepId::ElevationTiles => "elevation_tiles",
            StepId::Basemap => "basemap",
            StepId::Routes => "routes",
            StepId::TerrainRgb => "terrain_rgb",
            StepId::Hillshade => "hillshade",
            StepId::ValhallaTiles => "valhalla_tiles",
            StepId::ValhallaPackage => "valhalla_package",
        }
    }
}

/// The step whose id is `raw`, if any.
pub fn step_from_id(raw: &str) -> (r: Option<StepId>)
    ensures
        match r {
            Some(s) => id_text(s) == raw@,
            None => forall|s: StepId| id_text(s) != raw@,
        },
{
    if crate::text::same_text(raw, "download_osm") {
        return Some(StepId::DownloadOsm);
    }
    if crate::text::same_text(raw, "elevation_tiles") {
        return Some(StepId::ElevationTiles);
    }
    if crate::text::same_text(raw, "basemap") {
        return Some(StepId::Basemap);
    }
    if crate::text::same_text(raw, "routes") {
        return Some(StepId::Routes);
    }
    if crate::text::same_text(raw, "terrain_rgb") {
        return Some(StepId::TerrainRgb);
    }
    if crate::text::same_text(raw, "hillshade") {
        return Some(StepId::Hillshade);
    }
    if crate::text::same_text(raw, "valhalla_tiles") {
        return Some(StepId::ValhallaTiles);
    }
    if crate::text::same_text(raw, "valhalla_package") {
        return Some(StepId::ValhallaPackage);
    }
    proof {
        assert forall|s: StepId| id_text(s) != raw@ by {
            match s {
                StepId::DownloadOsm => {},
                StepId::ElevationTiles => {},
                StepId::Basemap => {},
                StepId::Routes => {},
                StepId::TerrainRgb => {},
                StepId::Hillshade => {},
                StepId::ValhallaTiles => {},
                StepId::ValhallaPackage => {},
            }
        }
    }
    None
}

/// No two steps share an id, so an id read back names the step it was written for.
pub proof fn ids_name_one_step(a: StepId, b: StepId)
    ensures
        id_text(a) == id_text(b) ==> a == b,
{
        reveal_strlit("download_osm");
        reveal_strlit("elevation_tiles");
        reveal_strlit("basemap");
        reveal_strlit("routes");
        reveal_strlit("terrain_rgb");
        reveal_strlit("hillshade");
        reveal_strlit("valhalla_tiles");
        reveal_strlit("valhalla_package");
    if id_text(a) == id_text(b) && a != b {
        match a {
            StepId::DownloadOsm => { assert(id_text(a).len() == 12); },
            StepId::ElevationTiles => { assert(id_text(a).len() == 15); },
            StepId::Basemap => { assert(id_text(a).len() == 7); },
            StepId::Routes => { assert(id_text(a).len() == 6); },
            StepId::TerrainRgb => { assert(id_text(a).len() == 11); },
            StepId::Hillshade => { assert(id_text(a).len() == 9); },
            StepId::ValhallaTiles => { assert(id_text(a).len() == 14); },
            StepId::ValhallaPackage => { assert(id_text(a).len() == 16); },
        }
    }
}

} // verus!
