//! What the command-line front ends share: their argument shapes, and how they print durations.
//!
//! The argument structs are the plain shapes of the subcommands' flags; the binaries parse into
//! them.
use vstd::prelude::*;
use crate::text::{decimal, push_decimal, string_of};

verus! {

/// `alpimaps state` subcommands.
#[derive(Debug, Clone, PartialEq)]
pub enum Command {
    /// Forget the options a step ran with. Its output stays, so it still counts as built.
    Forget {
        /// Step id, e.g. `basemap`. Omit for every step in the area.
        step: Option<String>,
    },
    /// Delete what a step produced, which is what actually makes it run again.
    Clear {
        /// Step id, e.g. `basemap`. Omit for every step in the area.
        step: Option<String>,
    },
}

/// Flags of the download step.
#[derive(Debug, Clone, PartialEq)]
pub struct DownloadArgs {
    pub area: String,
    pub force: bool,
    pub dry_run: bool,
}

/// Flags of the Valhalla tool steps.
#[derive(Debug, Clone, PartialEq)]
pub struct ToolArgs {
    pub area: String,
    pub config: Option<String>,
    pub force: bool,
    pub dry_run: bool,
}

/// Flags of the packaging step.
#[derive(Debug, Clone, PartialEq)]
pub struct PackageArgs {
    /// Package id, and the default name for the output.
    pub area: String,
    /// Valhalla tile directory. Defaults to <repo>/valhalla_tiles.
    pub tiles: Option<String>,
    /// Osmosis .poly to select tiles from.
    pub poly: Option<String>,
    /// Hierarchy levels to include.
    pub levels: Vec<u8>,
    /// Base64 quadtree tilemask.
    pub tilemask: Option<String>,
    /// Zoom to expand `tilemask` to.
    pub polymaxzoom: u8,
    /// Take the tile list from an existing package.
    pub like: Option<String>,
    /// `zopfli` or `zlib`.
    pub compression: String,
    /// Output .vtiles.
    pub output: Option<String>,
    /// List the tiles that would be packed, and stop.
    pub dry_run: bool,
    /// Skip the build when the output is already there.
    pub skip_existing: bool,
}

/// Arguments of `unpack`.
#[derive(Debug, Clone, PartialEq)]
pub struct UnpackArgs {
    /// The .vtiles package to expand.
    pub package: String,
    /// Directory to write the tile tree into.
    pub tile_dir: String,
}

/// Flags of `route`.
#[derive(Debug, Clone, PartialEq)]
pub struct RouteArgs {
    /// A .vtiles package or a Valhalla tile directory.
    pub tiles: String,
    /// valhalla.json to use as the config template.
    pub config: Option<String>,
    /// lon,lat waypoints in order.
    pub points: Vec<String>,
    pub costing: String,
    /// Print Valhalla's response as-is.
    pub json: bool,
}

/// How long a run took, in the coarsest two units that apply: `1h2m`, `3m4s`, `5s`.
pub open spec fn elapsed_text(secs: nat) -> Seq<char> {
    if secs >= 3600 {
        decimal(secs / 3600) + seq!['h'] + decimal((secs % 3600) / 60) + seq!['m']
    } else if secs >= 60 {
        decimal(secs / 60) + seq!['m'] + decimal(secs % 60) + seq!['s']
    } else {
        decimal(secs) + seq!['s']
    }
}

/// A duration of `secs` whole seconds, for a terminal.
pub fn human_elapsed(secs: u64) -> (s: String)
    ensures
        s@ == elapsed_text(secs as nat),
{
    let mut v: Vec<char> = Vec::new();
    if secs >= 3600 {
        push_decimal(&mut v, secs / 3600);
        v.push('h');
        push_decimal(&mut v, (secs % 3600) / 60);
        v.push('m');
    } else if secs >= 60 {
        push_decimal(&mut v, secs / 60);
        v.push('m');
        push_decimal(&mut v, secs % 60);
        v.push('s');
    } else {
        push_decimal(&mut v, secs);
        v.push('s');
    }
    assert(v@ =~= elapsed_text(secs as nat));
    string_of(v.as_slice())
}

} // verus!
