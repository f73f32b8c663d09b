//! Declarative option schema for the build steps.
//!
//! The GUI never hard-codes a form: it renders whatever these definitions say, and the same
//! definitions turn the collected values back into a command line. That keeps the form and the
//! argv in step, and makes the argv checkable without running anything.
//!
//! Planetiler's `Arguments` treats `-` and `_` in a flag name as equivalent, so
//! `--simplify-tolerance` and `--simplify_tolerance` reach the same setting.
//!
//! Defaults are deliberately absent. An option carries a `hint` describing what planetiler does
//! when the flag is omitted, but the schema never asserts that value: an unset option emits
//! nothing and planetiler's own default stands.
use vstd::prelude::*;
use crate::text::{all_digits, chars_of, digits_value, is_digit, push_all, run, run_end, same_text, string_of, string_of_range, Class};

verus! {

/// What kind of value an option takes. Bounds of a fractional option are whole numbers.
#[derive(Debug, Clone, PartialEq)]
pub enum OptionKind {
    Bool,
    Int { min: Option<i64>, max: Option<i64> },
    Float { min: Option<i64>, max: Option<i64> },
    Text,
    Choice { choices: Vec<String> },
}

#[derive(Debug, Clone, PartialEq)]
pub struct OptionDef {
    /// Stable key used in presets and in the values map.
    pub key: String,
    /// Flag as passed to planetiler, without the leading `--`.
    pub flag: String,
    pub label: String,
    pub help: String,
    pub group: String,
    pub kind: OptionKind,
    /// What happens when the option is left unset. Documentation only, never emitted.
    pub hint: String,
}

/// One value collected for an option, as the JSON value it arrives as. A number is held as JSON
/// renders it; anything that is not a scalar, as its JSON rendering.
#[derive(Debug, Clone, PartialEq)]
pub enum OptionValue {
    Null,
    Bool(bool),
    Number(String),
    Text(String),
    Other(String),
}

/// An option value with its texts as characters; the kind of value is kept.
pub enum ValueModel {
    Null,
    Bool(bool),
    Number(Seq<char>),
    Text(Seq<char>),
    Other(Seq<char>),
}

impl View for OptionValue {
    type V = ValueModel;

    open spec fn view(&self) -> ValueModel {
        match self {
            OptionValue::Null => ValueModel::Null,
            OptionValue::Bool(b) => ValueModel::Bool(*b),
            OptionValue::Number(t) => ValueModel::Number(t@),
            OptionValue::Text(t) => ValueModel::Text(t@),
            OptionValue::Other(t) => ValueModel::Other(t@),
        }
    }
}

/// The text an option value puts after `--flag=`, or `None` for a value that means unset.
/// An empty string is meaningful (`--languages=` drops all localised names), so it is kept.
pub open spec fn rendered(v: OptionValue) -> Option<Seq<char>> {
    match v {
        OptionValue::Null => None,
        OptionValue::Bool(b) => Some(if b { "true"@ } else { "false"@ }),
        OptionValue::Number(t) => Some(t@),
        OptionValue::Text(s) => Some(s@),
        OptionValue::Other(t) => Some(t@),
    }
}

/// The value collected for `key`: the first entry under that key.
pub open spec fn value_for(values: Seq<(String, OptionValue)>, key: Seq<char>) -> Option<OptionValue>
    decreases values.len(),
{
    if values.len() == 0 {
        None
    } else if values[0].0@ == key {
        Some(values[0].1)
    } else {
        value_for(values.drop_first(), key)
    }
}

/// The argument one definition contributes, if its value is set.
pub open spec fn arg_for(def: OptionDef, values: Seq<(String, OptionValue)>) -> Option<Seq<char>> {
    match value_for(values, def.key@) {
        Some(v) => match rendered(v) {
            Some(t) => Some("--"@ + def.flag@ + "="@ + t),
            None => None,
        },
        None => None,
    }
}

/// The arguments for `defs`, in definition order.
pub open spec fn args_of(defs: Seq<OptionDef>, values: Seq<(String, OptionValue)>) -> Seq<Seq<char>>
    decreases defs.len(),
{
    if defs.len() == 0 {
        seq![]
    } else {
        let rest = args_of(defs.drop_last(), values);
        match arg_for(defs.last(), values) {
            Some(a) => rest.push(a),
            None => rest,
        }
    }
}

/// The key and flag of each definition, in order.
pub open spec fn keys_and_flags(defs: Seq<OptionDef>) -> Seq<(Seq<char>, Seq<char>)> {
    defs.map_values(|d: OptionDef| (d.key@, d.flag@))
}

fn opt(key: &str, flag: &str, label: &str, group: &str, kind: OptionKind, help: &str, hint: &str) -> (d: OptionDef)
    ensures
        d.key@ == key@,
        d.flag@ == flag@,
        d.label@ == label@,
        d.group@ == group@,
        d.kind == kind,
        d.help@ == help@,
        d.hint@ == hint@,
{
    OptionDef {
        key: String::from_str(key),
        flag: String::from_str(flag),
        label: String::from_str(label),
        group: String::from_str(group),
        kind,
        help: String::from_str(help),
        hint: String::from_str(hint),
    }
}

fn float_from_zero() -> (k: OptionKind)
    ensures
        k == (OptionKind::Float { min: Some(0), max: None }),
{
    OptionKind::Float { min: Some(0), max: None }
}

fn choice(names: &[&str]) -> (k: OptionKind)
    ensures
        k matches OptionKind::Choice { choices } && choices@.len() == names@.len()
            && forall|i: int| 0 <= i < names@.len() ==> choices@[i]@ == names@[i]@,
{
    let mut choices: Vec<String> = Vec::new();
    let mut i: usize = 0;
    while i < names.len()
        invariant
            i <= names@.len(),
            choices@.len() == i,
            forall|j: int| 0 <= j < i ==> choices@[j]@ == names@[j]@,
        decreases names@.len() - i,
    {
        choices.push(String::from_str(names[i]));
        i = i + 1;
    }
    OptionKind::Choice { choices }
}

/// Keys and flags of the options every planetiler-driven step shares.
pub open spec fn common_keys() -> Seq<(Seq<char>, Seq<char>)> {
    seq![
        ("simplify_tolerance"@, "simplify-tolerance"@),
        ("simplify_tolerance_at_max_zoom"@, "simplify-tolerance-at-max-zoom"@),
        ("min_feature_size"@, "min-feature-size"@),
        ("min_feature_size_at_max_zoom"@, "min-feature-size-at-max-zoom"@),
        ("maxzoom"@, "maxzoom"@),
        ("minzoom"@, "minzoom"@),
        ("nodemap_type"@, "nodemap-type"@),
        ("parallel_tmp_io"@, "parallel-tmp-io"@),
        ("compact_db"@, "compact-db"@),
        ("skip_filled_tiles"@, "skip-filled-tiles"@),
        ("languages"@, "languages"@),
        ("polygon"@, "polygon"@),
        ("max_point_buffer"@, "max-point-buffer"@),
        ("mlt_shared_dict"@, "mlt-shared-dict"@),
    ]
}

/// Keys and flags the basemap adds to the shared options.
pub open spec fn basemap_extra_keys() -> Seq<(Seq<char>, Seq<char>)> {
    seq![
        ("exclude_layers"@, "exclude_layers"@),
        ("only_layers"@, "only_layers"@),
        ("transportation_name_limit_merge"@, "transportation-name-limit-merge"@),
        ("transportation_z13_paths"@, "transportation_z13_paths"@),
        ("landcover_tolerance_z11_13"@, "landcover_tolerance_z11_13"@),
        ("landcover_drop_redundant_subclass"@, "landcover_drop_redundant_subclass"@),
        ("landcover_merge_maxzoom"@, "landcover_merge_maxzoom"@),
        ("water_pool_tolerance"@, "water_pool_tolerance"@),
        ("drop_redundant_name_int"@, "drop_redundant_name_int"@),
        ("transportation_surface_detail"@, "transportation_surface_detail"@),
    ]
}

/// Keys and flags the routes step adds to the shared options.
pub open spec fn routes_extra_keys() -> Seq<(Seq<char>, Seq<char>)> {
    seq![
        ("only_layers"@, "only_layers"@),
        ("transportation_name_limit_merge"@, "transportation-name-limit-merge"@),
        ("route_road_tolerance"@, "route_road_tolerance"@),
        ("route_extent_digits"@, "route_extent_digits"@),
        ("route_symbol_id"@, "route_symbol_id"@),
        ("route_symbol_table"@, "route_symbol_table"@),
        ("route_slim_attrs"@, "route_slim_attrs"@),
        ("route_drop_extent"@, "route_drop_extent"@),
        ("route_min_length"@, "route_min_length"@),
    ]
}

/// Keys and flags of the terrain renderer's options.
pub open spec fn terrain_keys() -> Seq<(Seq<char>, Seq<char>)> {
    seq![
        ("minzoom"@, "minzoom"@),
        ("maxzoom"@, "maxzoom"@),
        ("encoding"@, "encoding"@),
        ("round_digits"@, "round-digits"@),
        ("max_round_digits"@, "max-round-digits"@),
        ("tile_size"@, "tile-size"@),
        ("format"@, "format"@),
        ("blur"@, "blur"@),
        ("nodata_elevation"@, "nodata-elevation"@),
        ("download_elevation"@, "no-elevation-download"@),
        ("poly_shape"@, "poly-shape"@),
        ("tile_buffer"@, "tile-buffer"@),
        ("bounds"@, "bounds"@),
    ]
}

/// Keys and flags of the routing package's options.
pub open spec fn package_keys() -> Seq<(Seq<char>, Seq<char>)> {
    seq![
        ("compression"@, "compression"@),
        ("poly"@, "poly"@),
        ("levels"@, "levels"@),
    ]
}

/// Options shared by every planetiler-driven step.
pub fn planetiler_common() -> (defs: Vec<OptionDef>)
    ensures
        keys_and_flags(defs@) == common_keys(),
{
    let mut defs: Vec<OptionDef> = Vec::new();
    defs.push(opt("simplify_tolerance", "simplify-tolerance", "Simplify tolerance", "Geometry", float_from_zero(),
        "Douglas-Peucker tolerance in tile pixels below max zoom. Removes vertices; never deletes a feature, so lowering detail here costs shape fidelity but not content.",
        "planetiler's own default applies"));
    defs.push(opt("simplify_tolerance_at_max_zoom", "simplify-tolerance-at-max-zoom", "Simplify tolerance (max zoom)", "Geometry", float_from_zero(),
        "Same, applied only at the maximum zoom.",
        "falls back to the value below max zoom"));
    defs.push(opt("min_feature_size", "min-feature-size", "Min feature size", "Geometry", float_from_zero(),
        "Deletion threshold in tile pixels below max zoom. SQUARED for polygons, so this is a minimum area - raising it drops small polygons entirely rather than simplifying them, which is why it reads as missing forest and grass rather than coarser forest.",
        "planetiler's own default applies"));
    defs.push(opt("min_feature_size_at_max_zoom", "min-feature-size-at-max-zoom", "Min feature size (max zoom)", "Geometry", float_from_zero(),
        "Same, applied only at the maximum zoom.",
        "falls back to the value below max zoom"));
    defs.push(opt("maxzoom", "maxzoom", "Max zoom", "Zooms", OptionKind::Int { min: Some(0), max: Some(15) },
        "Highest zoom rendered. The top zoom dominates output size - z14 is about 71% of a rhone-alpes basemap.",
        "14"));
    defs.push(opt("minzoom", "minzoom", "Min zoom", "Zooms", OptionKind::Int { min: Some(0), max: Some(15) },
        "Lowest zoom rendered.",
        "0"));
    defs.push(opt("nodemap_type", "nodemap-type", "Node map", "Performance", choice(&["sparsearray", "sortedtable", "array"]),
        "How OSM node locations are held. `sparsearray` is the low-memory choice and is what makes a 16 GB machine viable.",
        "planetiler picks based on input size"));
    defs.push(opt("parallel_tmp_io", "parallel-tmp-io", "Parallel temp IO", "Performance", OptionKind::Bool,
        "Read and write sort chunks in parallel.",
        "off"));
    defs.push(opt("compact_db", "compact-db", "Compact archive", "Output", OptionKind::Bool,
        "Store each distinct tile blob once behind a `tiles` view. Measured on the current rhone-alpes output this deduplicates only 0.3% of tiles, so the indirection is close to free but also close to pointless.",
        "off"));
    defs.push(opt("skip_filled_tiles", "skip-filled-tiles", "Skip filled tiles", "Output", OptionKind::Bool,
        "Omit tiles whose content is entirely covered by their parent.",
        "off"));
    defs.push(opt("languages", "languages", "Languages", "Output", OptionKind::Text,
        "Comma-separated name languages to keep. Empty drops all localised names.",
        "all languages"));
    defs.push(opt("polygon", "polygon", "Clip polygon", "Output", OptionKind::Text,
        "Path to a .poly clipping the build to a shape.",
        "the extract's own bbox"));
    defs.push(opt("max_point_buffer", "max-point-buffer", "Max point buffer", "Geometry", OptionKind::Int { min: Some(0), max: None },
        "Caps the buffer on point layers, in tile pixels. `place` declares 256px - nine times a tile's own area - so leaving it uncapped costs tens of MB.",
        "each layer's declared buffer"));
    defs.push(opt("mlt_shared_dict", "mlt-shared-dict", "Shared MLT dictionary", "Output", OptionKind::Bool,
        "Encode MapLibre tiles with one string dictionary shared by their layers.",
        "off"));
    assert(keys_and_flags(defs@) =~= common_keys());
    defs
}

/// Terrain-RGB options: the renderer's own knobs, with `flag` naming its command-line flag.
pub fn terrain_options() -> (defs: Vec<OptionDef>)
    ensures
        keys_and_flags(defs@) == terrain_keys(),
{
    let mut defs: Vec<OptionDef> = Vec::new();
    defs.push(opt("minzoom", "minzoom", "Min zoom", "Zooms", OptionKind::Int { min: Some(0), max: Some(15) },
        "Lowest zoom rendered.",
        "5"));
    defs.push(opt("maxzoom", "maxzoom", "Max zoom", "Zooms", OptionKind::Int { min: Some(0), max: Some(15) },
        "Highest zoom rendered, and the zoom the quantisation ramp is anchored to.",
        "13"));
    defs.push(opt("encoding", "encoding", "Encoding", "Packing", choice(&["terrarium", "mapbox"]),
        "How elevation is packed into RGB. terrarium is 1 m per step at round-digits 8;              mapbox is 0.1 m, which is what the older `_hillshade` archives use.",
        "terrarium"));
    defs.push(opt("round_digits", "round-digits", "Round digits", "Packing", OptionKind::Int { min: Some(0), max: Some(16) },
        "Quantisation exponent at the maximum zoom. The step is `interval * 2^round_digits`,              so raising it coarsens elevation and compresses far better.",
        "8"));
    defs.push(opt("max_round_digits", "max-round-digits", "Max round digits", "Packing", OptionKind::Int { min: Some(0), max: Some(16) },
        "Cap on the per-zoom ramp: lower zooms quantise more coarsely, up to this.",
        "15"));
    defs.push(opt("tile_size", "tile-size", "Tile size", "Output", OptionKind::Int { min: Some(256), max: Some(1024) },
        "Pixels per side.",
        "512"));
    defs.push(opt("format", "format", "Format", "Output", choice(&["webp", "png"]),
        "Lossless WebP is much smaller; PNG is for tools that will not read WebP.",
        "webp"));
    defs.push(opt("blur", "blur", "Source blend", "Sources", float_from_zero(),
        "Metres over which a higher-priority source fades in at its coverage boundary, so              the seam between IGN and tilezen data is a ramp rather than a step.",
        "1000"));
    defs.push(opt("nodata_elevation", "nodata-elevation", "No-data elevation", "Sources", OptionKind::Float { min: None, max: None },
        "Elevation written where no source covers a pixel. build_terrain_rgb.py used -10 so              uncovered pixels read as sea; every archive in this repository was built with 0.",
        "0"));
    defs.push(opt("download_elevation", "no-elevation-download", "Fetch missing tiles", "Sources", OptionKind::Bool,
        "Download any .hgt tile this render needs and does not have. A missing tile is otherwise silent: the renderer writes nothing there and the archive comes out with a hole.",
        "on"));
    defs.push(opt("poly_shape", "poly-shape", "Clip shape", "Sources", OptionKind::Text,
        "Path to an osmosis .poly. Only tiles touching the shape are written.",
        "the whole bounding box"));
    defs.push(opt("tile_buffer", "tile-buffer", "Tile buffer", "Sources", OptionKind::Int { min: Some(0), max: Some(8) },
        "Ring of extra tiles around the shape. 3D renderers backfill a DEM tile's 1px border              from its neighbours, so without a ring there is a seam where coverage stops.",
        "0"));
    defs.push(opt("bounds", "bounds", "Bounds", "Sources", OptionKind::Text,
        "west,south,east,north.",
        "the shape's bounds, else the area's basemap bounds"));
    assert(keys_and_flags(defs@) =~= terrain_keys());
    defs
}

/// Valhalla package options.
pub fn package_options() -> (defs: Vec<OptionDef>)
    ensures
        keys_and_flags(defs@) == package_keys(),
{
    let mut defs: Vec<OptionDef> = Vec::new();
    defs.push(opt("compression", "compression", "Compression", "Output", choice(&["zopfli", "zlib"]),
        "Both emit ordinary gzip. zopfli is about 3% smaller and much slower.",
        "zopfli"));
    defs.push(opt("poly", "poly", "Tile selection shape", "Tiles", OptionKind::Text,
        "Path to an osmosis .poly. Every graph tile the shape touches is packed.",
        "the tile list of the package already there"));
    defs.push(opt("levels", "levels", "Hierarchy levels", "Tiles", OptionKind::Text,
        "Comma-separated Valhalla levels to include.",
        "0,1,2"));
    assert(keys_and_flags(defs@) =~= package_keys());
    defs
}

/// Basemap options: the shared ones, then the layer and landcover work of the fork.
pub fn basemap_options() -> (defs: Vec<OptionDef>)
    ensures
        keys_and_flags(defs@) == common_keys() + basemap_extra_keys(),
{
    let mut defs = planetiler_common();
    let ghost shared = defs@;
    defs.push(opt("exclude_layers", "exclude_layers", "Exclude layers", "Layers", OptionKind::Text,
        "Comma-separated layers to leave out. The basemap excludes `route`.",
        "none"));
    defs.push(opt("only_layers", "only_layers", "Only layers", "Layers", OptionKind::Text,
        "Comma-separated allow-list.",
        "all layers"));
    defs.push(opt("transportation_name_limit_merge", "transportation-name-limit-merge", "Limit name merge", "Layers", OptionKind::Bool,
        "Restrict merging of transportation_name features.",
        "off"));
    defs.push(opt("transportation_z13_paths", "transportation_z13_paths", "Paths at z13", "Layers", OptionKind::Bool,
        "Keep paths down to z13.",
        "off"));
    defs.push(opt("landcover_tolerance_z11_13", "landcover_tolerance_z11_13", "Landcover tolerance z11-13", "Landcover", float_from_zero(),
        "Overrides landcover simplification for z11-13 only. Must exceed the global simplify-tolerance to have any effect - a smaller value simplifies LESS and makes the file bigger.",
        "the layer's own factor applies"));
    defs.push(opt("landcover_drop_redundant_subclass", "landcover_drop_redundant_subclass", "Drop redundant subclass", "Landcover", OptionKind::Bool,
        "Omit `subclass` where it equals `class`. Small win - gzip already collapses the repetition - and merging falls back to `class` so wood/grass still merge.",
        "off"));
    defs.push(opt("landcover_merge_maxzoom", "landcover_merge_maxzoom", "Merge landcover at max zoom", "Landcover", OptionKind::Bool,
        "Extend polygon merging to z14.",
        "merging stops at z13"));
    defs.push(opt("water_pool_tolerance", "water_pool_tolerance", "Pool tolerance", "Layers", float_from_zero(),
        "Simplification tolerance for swimming pools, which carry ~99 vertices each for a shape a pixel across.",
        "the layer's own tolerance"));
    defs.push(opt("drop_redundant_name_int", "drop_redundant_name_int", "Drop redundant name_int", "Layers", OptionKind::Bool,
        "Omit `name_int` where it duplicates `name`. -0.88%.",
        "off"));
    defs.push(opt("transportation_surface_detail", "transportation_surface_detail", "Surface detail", "Layers", OptionKind::Bool,
        "Road surface and tracktype on every class. +0.84%, and reaches 73% of tracks - the difference between riding and pushing.",
        "off"));
    assert(keys_and_flags(defs@) =~= common_keys() + basemap_extra_keys()) by {
        assert(defs@.subrange(0, shared.len() as int) =~= shared);
    }
    defs
}

/// Route-layer options of the fork, after the shared ones.
pub fn routes_options() -> (defs: Vec<OptionDef>)
    ensures
        keys_and_flags(defs@) == common_keys() + routes_extra_keys(),
{
    let mut defs = planetiler_common();
    let ghost shared = defs@;
    defs.push(opt("only_layers", "only_layers", "Only layers", "Layers", OptionKind::Text,
        "Set to `route` for a routes-only build.",
        "all layers"));
    defs.push(opt("transportation_name_limit_merge", "transportation-name-limit-merge", "Limit name merge", "Layers", OptionKind::Bool,
        "Restrict merging of transportation_name features.",
        "off"));
    defs.push(opt("route_road_tolerance", "route_road_tolerance", "Match road simplification", "Routes", OptionKind::Bool,
        "Simplify routes with the same tolerance the transportation layer uses (`tolerance * 0.5`), so a route and the track it follows stay aligned at every zoom.",
        "routes use the plain tolerance and drift from roads"));
    defs.push(opt("route_extent_digits", "route_extent_digits", "Extent decimals", "Routes", OptionKind::Int { min: Some(0), max: Some(9) },
        "Decimal places kept in the `extent` attribute. Extent is unique per relation, so unlike duplicated attributes it does not compress away - trimming it is the single biggest route-tile saving.",
        "3"));
    defs.push(opt("route_symbol_id", "route_symbol_id", "Symbols as ids", "Routes", OptionKind::Bool,
        "Emit `osmc:symbol` as an integer id and write the lookup table alongside.",
        "the full symbol string is stored on every feature"));
    defs.push(opt("route_symbol_table", "route_symbol_table", "Symbol table path", "Routes", OptionKind::Text,
        "Where the symbol id table is written.",
        "route_symbols.json"));
    defs.push(opt("route_slim_attrs", "route_slim_attrs", "Slim attributes", "Routes", OptionKind::Bool,
        "Keep only osmid/class/network on tile features.",
        "off"));
    defs.push(opt("route_drop_extent", "route_drop_extent", "Drop extent", "Routes", OptionKind::Bool,
        "Omit `extent` entirely.",
        "off"));
    defs.push(opt("route_min_length", "route_min_length", "Drop short routes", "Routes", OptionKind::Bool,
        "Filter routes below a minimum rendered length.",
        "off"));
    assert(keys_and_flags(defs@) =~= common_keys() + routes_extra_keys()) by {
        assert(defs@.subrange(0, shared.len() as int) =~= shared);
    }
    defs
}

pub(crate) fn value_of<'a>(values: &'a [(String, OptionValue)], key: &str) -> (r: Option<&'a OptionValue>)
    ensures
        match r {
            Some(v) => value_for(values@, key@) == Some(*v),
            None => value_for(values@, key@) is None,
        },
{
    let mut i: usize = 0;
    assert(values@.skip(0) =~= values@);
    while i < values.len()
        invariant
            i <= values@.len(),
            value_for(values@, key@) == value_for(values@.skip(i as int), key@),
        decreases values@.len() - i,
    {
        assert(values@.skip(i as int).drop_first() =~= values@.skip(i + 1));
        if same_text(values[i].0.as_str(), key) {
            return Some(&values[i].1);
        }
        i = i + 1;
    }
    assert(values@.skip(i as int).len() == 0);
    None
}

/// Appends what `v` puts after `--flag=`; says whether it put anything.
fn push_rendered(out: &mut Vec<char>, v: &OptionValue) -> (set: bool)
    ensures
        match rendered(*v) {
            Some(t) => set && final(out)@ == old(out)@ + t,
            None => !set && final(out)@ == old(out)@,
        },
{
    match v {
        OptionValue::Null => false,
        OptionValue::Bool(b) => {
            let t = if *b { chars_of("true") } else { chars_of("false") };
            push_all(out, t.as_slice());
            true
        },
        OptionValue::Number(t) | OptionValue::Other(t) | OptionValue::Text(t) => {
            let cs = chars_of(t.as_str());
            push_all(out, cs.as_slice());
            true
        },
    }
}

/// Render collected values into planetiler arguments, `--flag=value`, in definition order.
///
/// Only keys actually present are emitted, so an untouched form adds nothing and planetiler's
/// own defaults stand. A null value counts as unset. Unknown keys are ignored.
pub fn to_args(defs: &[OptionDef], values: &[(String, OptionValue)]) -> (args: Vec<String>)
    ensures
        crate::planetiler::texts(args@) == args_of(defs@, values@),
{
    let mut args: Vec<String> = Vec::new();
    let mut i: usize = 0;
    while i < defs.len()
        invariant
            i <= defs@.len(),
            crate::planetiler::texts(args@) == args_of(defs@.take(i as int), values@),
        decreases defs@.len() - i,
    {
        let ghost prefix = defs@.take(i + 1);
        assert(prefix.drop_last() =~= defs@.take(i as int));
        assert(prefix.last() == defs@[i as int]);
        let def = &defs[i];
        match value_of(values, def.key.as_str()) {
            Some(v) => {
                let mut a = chars_of("--");
                let f = chars_of(def.flag.as_str());
                push_all(&mut a, f.as_slice());
                let eq = chars_of("=");
                push_all(&mut a, eq.as_slice());
                let ghost head = a@;
                if push_rendered(&mut a, v) {
                    let ghost before = args@;
                    args.push(string_of(a.as_slice()));
                    assert(crate::planetiler::texts(args@) =~= crate::planetiler::texts(before).push(a@));
                    assert(a@ =~= "--"@ + def.flag@ + "="@ + rendered(*v).unwrap());
                }
            },
            None => {},
        }
        i = i + 1;
    }
    assert(defs@.take(defs@.len() as int) =~= defs@);
    args
}

/// Look a definition up by key: the first one with that key.
pub fn find<'a>(defs: &'a [OptionDef], key: &str) -> (r: Option<&'a OptionDef>)
    ensures
        match r {
            Some(d) => exists|i: int| 0 <= i < defs@.len() && defs@[i] == *d && defs@[i].key@ == key@
                && forall|j: int| 0 <= j < i ==> defs@[j].key@ != key@,
            None => forall|i: int| 0 <= i < defs@.len() ==> defs@[i].key@ != key@,
        },
{
    let mut i: usize = 0;
    while i < defs.len()
        invariant
            i <= defs@.len(),
            forall|j: int| 0 <= j < i ==> defs@[j].key@ != key@,
        decreases defs@.len() - i,
    {
        if same_text(defs[i].key.as_str(), key) {
            return Some(&defs[i]);
        }
        i = i + 1;
    }
    None
}

/// What `str::parse::<i64>` gives: an optional sign, then at least one ASCII digit and nothing
/// else, with a value that fits.
pub open spec fn parse_i64_text(s: Seq<char>) -> Option<int> {
    let signed = s.len() > 0 && (s[0] == '+' || s[0] == '-');
    let start: int = if signed { 1 } else { 0 };
    if start < s.len() && all_digits(s, start, s.len() as int) {
        let v = digits_value(s, start, s.len() as int);
        if s[0] == '-' {
            if v <= 0x8000_0000_0000_0000 { Some(-v) } else { None }
        } else {
            if v <= 0x7fff_ffff_ffff_ffff { Some(v as int) } else { None }
        }
    } else {
        None
    }
}

fn parse_i64(v: &Vec<char>) -> (r: Option<i64>)
    ensures
        match parse_i64_text(v@) {
            Some(n) => r == Some(n as i64),
            None => r is None,
        },
{
    let signed = v.len() > 0 && (v[0] == '+' || v[0] == '-');
    let start: usize = if signed { 1 } else { 0 };
    if start >= v.len() {
        return None;
    }
    let mut acc: u128 = 0;
    let mut j: usize = start;
    while j < v.len()
        invariant
            start <= j <= v@.len(),
            start == (if signed { 1int } else { 0int }),
            signed == (v@.len() > 0 && (v@[0] == '+' || v@[0] == '-')),
            all_digits(v@, start as int, j as int),
            acc == digits_value(v@, start as int, j as int),
            acc <= 0x8000_0000_0000_0000,
        decreases v@.len() - j,
    {
        let c = v[j];
        if !('0' <= c && c <= '9') {
            proof {
                assert(!is_digit(v@[j as int]));
            }
            return None;
        }
        assert(is_digit(v@[j as int]));
        acc = acc * 10 + (c as u32 - '0' as u32) as u128;
        j = j + 1;
        if acc > 0x8000_0000_0000_0000 {
            proof {
                crate::text::lemma_digits_value_grows(v@, start as int, j as int, v@.len() as int);
            }
            return None;
        }
    }
    if v[0] == '-' {
        Some((0 - acc as i128) as i64)
    } else if acc <= 0x7fff_ffff_ffff_ffff {
        Some(acc as i64)
    } else {
        None
    }
}

/// A `key=value` override as typed, parsed by the kind of its option. A fractional value is
/// checked to read as a number and kept as typed; turning it into one is the caller's part.
#[derive(Debug, Clone, PartialEq)]
pub enum Override {
    Bool(bool),
    Int(i64),
    Float(String),
    Text(String),
}

/// Why an override was refused.
#[derive(Debug, Clone, PartialEq)]
pub enum OverrideError {
    /// No `=` in the entry.
    NotKeyValue { entry: String },
    /// The key names no option of the step; planetiler would ignore it silently.
    UnknownKey { key: String },
    /// A boolean option got something other than `true` or `false`.
    NotBool { key: String },
    /// A whole-number option got something else.
    NotInt { key: String },
    /// A fractional option got something that does not read as a number.
    NotFloat { key: String },
}

/// The key and value of `key=value`: split at the first `=`.
pub open spec fn split_eq(s: Seq<char>) -> Option<(Seq<char>, Seq<char>)> {
    let k = run(s, 0, Class::NotEquals) as int;
    if k < s.len() {
        Some((s.subrange(0, k), s.subrange(k + 1, s.len() as int)))
    } else {
        None
    }
}

/// The first definition with this key.
pub open spec fn def_for(defs: Seq<OptionDef>, key: Seq<char>) -> Option<OptionDef>
    decreases defs.len(),
{
    if defs.len() == 0 {
        None
    } else if defs[0].key@ == key {
        Some(defs[0])
    } else {
        def_for(defs.drop_first(), key)
    }
}

fn def_of<'a>(defs: &'a [OptionDef], key: &str) -> (r: Option<&'a OptionDef>)
    ensures
        match r {
            Some(d) => def_for(defs@, key@) == Some(*d),
            None => def_for(defs@, key@) is None,
        },
{
    let mut i: usize = 0;
    assert(defs@.skip(0) =~= defs@);
    while i < defs.len()
        invariant
            i <= defs@.len(),
            def_for(defs@, key@) == def_for(defs@.skip(i as int), key@),
        decreases defs@.len() - i,
    {
        assert(defs@.skip(i as int).drop_first() =~= defs@.skip(i + 1));
        if same_text(defs[i].key.as_str(), key) {
            return Some(&defs[i]);
        }
        i = i + 1;
    }
    assert(defs@.skip(i as int).len() == 0);
    None
}

/// Whether `r` is what one `key=value` override reads as against a step's schema: the key
/// must name one of its options, and the value is read by that option's kind.
pub open spec fn parsed_override(defs: Seq<OptionDef>, entry: Seq<char>, r: Result<(String, Override), OverrideError>) -> bool {
    match split_eq(entry) {
        None => (r matches Err(OverrideError::NotKeyValue { entry: e }) && e@ == entry),
        Some((key, value)) => match def_for(defs, key) {
            None => (r matches Err(OverrideError::UnknownKey { key: k }) && k@ == key),
            Some(d) => match d.kind {
                OptionKind::Bool => if value == "true"@ {
                    (r matches Ok((k, Override::Bool(b))) && k@ == key && b)
                } else if value == "false"@ {
                    (r matches Ok((k, Override::Bool(b))) && k@ == key && !b)
                } else {
                    (r matches Err(OverrideError::NotBool { key: k }) && k@ == key)
                },
                OptionKind::Int { .. } => match parse_i64_text(value) {
                    Some(n) => (r matches Ok((k, Override::Int(m))) && k@ == key && m == n),
                    None => (r matches Err(OverrideError::NotInt { key: k }) && k@ == key),
                },
                OptionKind::Float { .. } => if crate::text::float_text(value) {
                    (r matches Ok((k, Override::Float(t))) && k@ == key && t@ == value)
                } else {
                    (r matches Err(OverrideError::NotFloat { key: k }) && k@ == key)
                },
                _ => (r matches Ok((k, Override::Text(t))) && k@ == key && t@ == value),
            },
        },
    }
}

/// Whether one `key=value` override is accepted against a step's schema.
pub open spec fn override_accepted(defs: Seq<OptionDef>, entry: Seq<char>) -> bool {
    match split_eq(entry) {
        None => false,
        Some((key, value)) => match def_for(defs, key) {
            None => false,
            Some(d) => match d.kind {
                OptionKind::Bool => value == "true"@ || value == "false"@,
                OptionKind::Int { .. } => parse_i64_text(value) is Some,
                OptionKind::Float { .. } => crate::text::float_text(value),
                _ => true,
            },
        },
    }
}

/// Parse one `key=value` override against a step's schema. The key must name one of its
/// options, so a typo is refused rather than passed on for planetiler to ignore; the value is
/// read by the option's kind.
pub fn parse_override(defs: &[OptionDef], entry: &str) -> (r: Result<(String, Override), OverrideError>)
    ensures
        parsed_override(defs@, entry@, r),
        r is Ok <==> override_accepted(defs@, entry@),
{
    let cs = chars_of(entry);
    let k = run_end(&cs, 0, Class::NotEquals);
    if k >= cs.len() {
        return Err(OverrideError::NotKeyValue { entry: String::from_str(entry) });
    }
    let key = string_of_range(&cs, 0, k);
    let value_chars = crate::text::slice_of(&cs, k + 1, cs.len());
    let def = match def_of(defs, key.as_str()) {
        Some(d) => d,
        None => return Err(OverrideError::UnknownKey { key }),
    };
    match &def.kind {
        OptionKind::Bool => {
            if crate::text::is_text(&value_chars, "true") {
                Ok((key, Override::Bool(true)))
            } else if crate::text::is_text(&value_chars, "false") {
                Ok((key, Override::Bool(false)))
            } else {
                Err(OverrideError::NotBool { key })
            }
        },
        OptionKind::Int { .. } => match parse_i64(&value_chars) {
            Some(n) => Ok((key, Override::Int(n))),
            None => Err(OverrideError::NotInt { key }),
        },
        OptionKind::Float { .. } => {
            let value = string_of(value_chars.as_slice());
            if crate::text::is_float_text(value.as_str()) {
                Ok((key, Override::Float(value)))
            } else {
                Err(OverrideError::NotFloat { key })
            }
        },
        _ => Ok((key, Override::Text(string_of(value_chars.as_slice())))),
    }
}

proof fn lemma_value_for_concat(a: Seq<(String, OptionValue)>, b: Seq<(String, OptionValue)>, key: Seq<char>)
    ensures
        value_for(a + b, key) == match value_for(a, key) {
            Some(v) => Some(v),
            None => value_for(b, key),
        },
    decreases a.len(),
{
    if a.len() > 0 {
        assert((a + b).drop_first() =~= a.drop_first() + b);
        assert((a + b)[0] == a[0]);
        lemma_value_for_concat(a.drop_first(), b, key);
    } else {
        assert(a + b =~= b);
    }
}

/// Whether a parsed override list has an entry for `key`.
pub open spec fn has_override(v: Seq<(String, Override)>, key: Seq<char>) -> bool
    decreases v.len(),
{
    if v.len() == 0 {
        false
    } else {
        v[0].0@ == key || has_override(v.drop_first(), key)
    }
}

/// The last entry for each key, in the order those last entries come.
pub open spec fn last_entries(v: Seq<(String, Override)>) -> Seq<(String, Override)>
    decreases v.len(),
{
    if v.len() == 0 {
        Seq::empty()
    } else {
        let rest = last_entries(v.drop_first());
        if has_override(rest, v[0].0@) {
            rest
        } else {
            seq![v[0]] + rest
        }
    }
}

/// No key has two entries.
pub open spec fn overrides_unique(v: Seq<(String, Override)>) -> bool {
    forall|i: int, j: int| 0 <= i < j < v.len() ==> #[trigger] v[i].0@ != #[trigger] v[j].0@
}

proof fn lemma_has_override(v: Seq<(String, Override)>, key: Seq<char>)
    ensures
        has_override(v, key) <==> exists|j: int| 0 <= j < v.len() && #[trigger] v[j].0@ == key,
    decreases v.len(),
{
    if v.len() > 0 {
        lemma_has_override(v.drop_first(), key);
        if has_override(v.drop_first(), key) {
            let j = choose|j: int| 0 <= j < v.drop_first().len() && #[trigger] v.drop_first()[j].0@ == key;
            assert(v[j + 1].0@ == key);
        }
        if exists|j: int| 0 <= j < v.len() && #[trigger] v[j].0@ == key {
            let j = choose|j: int| 0 <= j < v.len() && #[trigger] v[j].0@ == key;
            if j > 0 {
                assert(v.drop_first()[j - 1].0@ == key);
            }
        }
    }
}

proof fn lemma_last_entries_unique(v: Seq<(String, Override)>)
    ensures
        overrides_unique(last_entries(v)),
    decreases v.len(),
{
    if v.len() > 0 {
        lemma_last_entries_unique(v.drop_first());
        let rest = last_entries(v.drop_first());
        if !has_override(rest, v[0].0@) {
            lemma_has_override(rest, v[0].0@);
            let out = seq![v[0]] + rest;
            assert forall|i: int, j: int| 0 <= i < j < out.len() implies #[trigger] out[i].0@ != #[trigger] out[j].0@ by {
                if i == 0 {
                    assert(out[j] == rest[j - 1]);
                } else {
                    assert(out[i] == rest[i - 1] && out[j] == rest[j - 1]);
                }
            }
        }
    }
}

fn has_override_exec(v: &Vec<(String, Override)>, key: &str) -> (r: bool)
    ensures
        r == has_override(v@, key@),
{
    let mut i: usize = 0;
    assert(v@.skip(0) =~= v@);
    while i < v.len()
        invariant
            i <= v@.len(),
            has_override(v@, key@) == has_override(v@.skip(i as int), key@),
        decreases v@.len() - i,
    {
        assert(v@.skip(i as int).drop_first() =~= v@.skip(i + 1));
        if same_text(v[i].0.as_str(), key) {
            return true;
        }
        i = i + 1;
    }
    assert(v@.skip(i as int).len() == 0);
    false
}

/// Parse a list of `key=value` overrides into one value per key: a key given twice keeps its
/// last value, as a later `-o` wins. The first entry refused stops the parse and its reason is
/// the error.
pub fn parse_overrides(defs: &[OptionDef], raw: &[String]) -> (r: Result<Vec<(String, Override)>, OverrideError>)
    ensures
        r is Ok <==> forall|i: int| 0 <= i < raw@.len() ==> #[trigger] override_accepted(defs@, raw@[i]@),
        r matches Ok(v) ==> exists|all: Seq<(String, Override)>|
            #![trigger last_entries(all)]
            all.len() == raw@.len() && (forall|i: int|
                0 <= i < raw@.len() ==> parsed_override(defs@, raw@[i]@, Ok(#[trigger] all[i]))) && v@ == last_entries(all),
        r matches Ok(v) ==> overrides_unique(v@),
        r matches Err(e) ==> exists|k: int|
            0 <= k < raw@.len() && (forall|j: int| 0 <= j < k ==> #[trigger] override_accepted(defs@, raw@[j]@))
                && #[trigger] parsed_override(defs@, raw@[k]@, Err(e)),
{
    let mut parsed: Vec<(String, Override)> = Vec::new();
    let mut i: usize = 0;
    while i < raw.len()
        invariant
            i <= raw@.len(),
            parsed@.len() == i,
            forall|j: int| 0 <= j < i ==> #[trigger] override_accepted(defs@, raw@[j]@),
            forall|j: int| 0 <= j < i ==> parsed_override(defs@, raw@[j]@, Ok(#[trigger] parsed@[j])),
        decreases raw@.len() - i,
    {
        match parse_override(defs, raw[i].as_str()) {
            Ok(p) => {
                parsed.push(p);
            },
            Err(e) => {
                assert(parsed_override(defs@, raw@[i as int]@, Err(e)));
                assert(!override_accepted(defs@, raw@[i as int]@));
                return Err(e);
            },
        }
        i = i + 1;
    }
    let ghost all = parsed@;
    let mut out: Vec<(String, Override)> = Vec::new();
    assert(all.subrange(all.len() as int, all.len() as int) =~= Seq::<(String, Override)>::empty());
    while parsed.len() > 0
        invariant
            parsed@.len() <= all.len(),
            parsed@ =~= all.take(parsed@.len() as int),
            out@ == last_entries(all.subrange(parsed@.len() as int, all.len() as int)),
        decreases parsed@.len(),
    {
        let ghost n = parsed@.len() as int;
        let x = parsed.pop().unwrap();
        assert(x == all[n - 1]);
        assert(all.subrange(n - 1, all.len() as int).drop_first() =~= all.subrange(n, all.len() as int));
        assert(all.subrange(n - 1, all.len() as int)[0] == x);
        if !has_override_exec(&out, x.0.as_str()) {
            out.insert(0, x);
            assert(out@ =~= seq![x] + last_entries(all.subrange(n, all.len() as int)));
        }
    }
    assert(all.subrange(0, all.len() as int) =~= all);
    proof {
        lemma_last_entries_unique(all);
    }
    Ok(out)
}

/// The value of the last entry with this key, if any.
pub open spec fn last_value_for(values: Seq<(String, OptionValue)>, key: Seq<char>) -> Option<OptionValue>
    decreases values.len(),
{
    if values.len() == 0 {
        None
    } else {
        match last_value_for(values.drop_first(), key) {
            Some(v) => Some(v),
            None => if values[0].0@ == key {
                Some(values[0].1)
            } else {
                None
            },
        }
    }
}

/// No key has two entries: the list is a map.
pub open spec fn keys_unique(values: Seq<(String, OptionValue)>) -> bool {
    forall|i: int, j: int| 0 <= i < j < values.len() ==> #[trigger] values[i].0@ != #[trigger] values[j].0@
}

proof fn lemma_value_for_some(values: Seq<(String, OptionValue)>, key: Seq<char>)
    ensures
        (value_for(values, key) is Some) <==> exists|i: int| 0 <= i < values.len() && #[trigger] values[i].0@ == key,
    decreases values.len(),
{
    if values.len() > 0 {
        lemma_value_for_some(values.drop_first(), key);
        if value_for(values.drop_first(), key) is Some {
            let i = choose|i: int| 0 <= i < values.drop_first().len() && #[trigger] values.drop_first()[i].0@ == key;
            assert(values[i + 1].0@ == key);
        }
        if exists|i: int| 0 <= i < values.len() && #[trigger] values[i].0@ == key {
            let i = choose|i: int| 0 <= i < values.len() && #[trigger] values[i].0@ == key;
            if i > 0 {
                assert(values.drop_first()[i - 1].0@ == key);
            }
        }
    }
}

fn has_key(values: &Vec<(String, OptionValue)>, key: &str) -> (r: bool)
    ensures
        r == (value_for(values@, key@) is Some),
{
    let mut i: usize = 0;
    assert(values@.skip(0) =~= values@);
    while i < values.len()
        invariant
            i <= values@.len(),
            value_for(values@, key@) == value_for(values@.skip(i as int), key@),
        decreases values@.len() - i,
    {
        assert(values@.skip(i as int).drop_first() =~= values@.skip(i + 1));
        if same_text(values[i].0.as_str(), key) {
            return true;
        }
        i = i + 1;
    }
    assert(values@.skip(i as int).len() == 0);
    false
}

/// Add an entry unless its key already has one.
fn push_new(out: &mut Vec<(String, OptionValue)>, x: (String, OptionValue))
    ensures
        forall|key: Seq<char>| #[trigger] value_for(final(out)@, key) == match value_for(old(out)@, key) {
            Some(v) => Some(v),
            None => if x.0@ == key {
                Some(x.1)
            } else {
                None
            },
        },
        keys_unique(old(out)@) ==> keys_unique(final(out)@),
{
    if !has_key(out, x.0.as_str()) {
        let ghost before = out@;
        out.push(x);
        assert forall|key: Seq<char>| #[trigger] value_for(out@, key) == match value_for(before, key) {
            Some(v) => Some(v),
            None => if x.0@ == key {
                Some(x.1)
            } else {
                None
            },
        } by {
            assert(out@ =~= before + seq![x]);
            lemma_value_for_concat(before, seq![x], key);
            assert(seq![x].drop_first() =~= Seq::<(String, OptionValue)>::empty());
            assert(seq![x][0] == x);
            assert(value_for(Seq::<(String, OptionValue)>::empty(), key) is None);
        }
        proof {
            if keys_unique(before) {
                lemma_value_for_some(before, x.0@);
                assert forall|i: int, j: int| 0 <= i < j < out@.len() implies #[trigger] out@[i].0@ != #[trigger] out@[j].0@ by {
                    if j == out@.len() - 1 {
                        assert(out@[i] == before[i]);
                    } else {
                        assert(out@[i] == before[i] && out@[j] == before[j]);
                    }
                }
            }
        }
    }
}

/// Lay overrides over a base set of values (a preset's): an overridden key takes the value of
/// its last override, every other key keeps what the base gives it (its first entry there).
/// The result holds each key once.
pub fn with_overrides(base: Vec<(String, OptionValue)>, overrides: Vec<(String, OptionValue)>) -> (out: Vec<(String, OptionValue)>)
    ensures
        forall|key: Seq<char>| #[trigger] value_for(out@, key) == match last_value_for(overrides@, key) {
            Some(v) => Some(v),
            None => value_for(base@, key),
        },
        keys_unique(out@),
{
    let ghost o = overrides@;
    let mut rest = overrides;
    let mut out: Vec<(String, OptionValue)> = Vec::new();
    assert(o.subrange(o.len() as int, o.len() as int) =~= Seq::<(String, OptionValue)>::empty());
    while rest.len() > 0
        invariant
            rest@.len() <= o.len(),
            rest@ =~= o.take(rest@.len() as int),
            forall|key: Seq<char>| #[trigger] value_for(out@, key) == last_value_for(o.subrange(rest@.len() as int, o.len() as int), key),
            keys_unique(out@),
        decreases rest@.len(),
    {
        let ghost before = out@;
        let ghost n = rest@.len() as int;
        let x = rest.pop().unwrap();
        assert(x == o[n - 1]);
        push_new(&mut out, x);
        assert(o.subrange(n - 1, o.len() as int).drop_first() =~= o.subrange(n, o.len() as int));
        assert(o.subrange(n - 1, o.len() as int)[0] == x);
        assert forall|key: Seq<char>| #[trigger] value_for(out@, key) == last_value_for(o.subrange(n - 1, o.len() as int), key) by {
            assert(value_for(before, key) == last_value_for(o.subrange(n, o.len() as int), key));
        }
    }
    assert(o.subrange(0, o.len() as int) =~= o);
    let ghost b = base@;
    let mut base = base;
    let mut k: usize = 0;
    let n0: usize = base.len();
    assert(b.take(0) =~= Seq::<(String, OptionValue)>::empty());
    while base.len() > 0
        invariant
            n0 == b.len(),
            k + base@.len() == b.len(),
            base@ =~= b.subrange(k as int, b.len() as int),
            forall|key: Seq<char>| #[trigger] value_for(out@, key) == match last_value_for(o, key) {
                Some(v) => Some(v),
                None => value_for(b.take(k as int), key),
            },
            keys_unique(out@),
        decreases base@.len(),
    {
        let ghost before = out@;
        let x = base.remove(0);
        assert(x == b[k as int]);
        push_new(&mut out, x);
        assert forall|key: Seq<char>| #[trigger] value_for(out@, key) == match last_value_for(o, key) {
            Some(v) => Some(v),
            None => value_for(b.take(k + 1), key),
        } by {
            assert(b.take(k + 1) =~= b.take(k as int) + seq![x]);
            lemma_value_for_concat(b.take(k as int), seq![x], key);
            assert(seq![x].drop_first() =~= Seq::<(String, OptionValue)>::empty());
            assert(seq![x][0] == x);
            assert(value_for(Seq::<(String, OptionValue)>::empty(), key) is None);
            assert(value_for(before, key) == match last_value_for(o, key) {
                Some(v) => Some(v),
                None => value_for(b.take(k as int), key),
            });
        }
        k = k + 1;
    }
    assert(b.take(k as int) =~= b);
    out
}

/// An untouched form adds nothing to the command line, so planetiler's own defaults stand.
pub proof fn no_values_no_arguments(defs: Seq<OptionDef>)
    ensures
        args_of(defs, Seq::empty()) == Seq::<Seq<char>>::empty(),
    decreases defs.len(),
{
    if defs.len() > 0 {
        no_values_no_arguments(defs.drop_last());
    }
}

/// A value under a key no option has, or a later value under a key already set, changes no
/// argument: unknown keys are ignored rather than guessed at.
pub proof fn unknown_keys_add_nothing(defs: Seq<OptionDef>, values: Seq<(String, OptionValue)>, extra: (String, OptionValue))
    requires
        forall|i: int| 0 <= i < defs.len() ==> #[trigger] defs[i].key@ != extra.0@,
    ensures
        args_of(defs, values.push(extra)) == args_of(defs, values),
    decreases defs.len(),
{
    if defs.len() > 0 {
        assert forall|i: int| 0 <= i < defs.drop_last().len() implies #[trigger] defs.drop_last()[i].key@ != extra.0@ by {
            assert(defs.drop_last()[i] == defs[i]);
        }
        unknown_keys_add_nothing(defs.drop_last(), values, extra);
        assert(defs.last() == defs[defs.len() - 1]);
        lemma_value_for_concat(values, seq![extra], defs.last().key@);
        assert(values.push(extra) =~= values + seq![extra]);
        assert(value_for(seq![extra], defs.last().key@) is None) by {
            assert(defs[defs.len() - 1].key@ != extra.0@);
            assert(seq![extra][0] == extra);
            assert(seq![extra].drop_first() =~= Seq::<(String, OptionValue)>::empty());
            assert(value_for(Seq::<(String, OptionValue)>::empty(), defs.last().key@) is None);
            assert(defs.last().key@ != seq![extra][0].0@);
        }
    }
}

/// A null value is the same as no value: it emits nothing.
pub proof fn null_is_unset(def: OptionDef, values: Seq<(String, OptionValue)>)
    requires
        value_for(values, def.key@) == Some(OptionValue::Null),
    ensures
        arg_for(def, values) is None,
{
}


/// The options a step's form shows: the planetiler schemas for basemap and routes, the
/// renderer's for terrain, the packer's for the routing package; the download and the two
/// Valhalla tools take paths and bounds, which are settings rather than per-run choices.
pub fn step_options(step: crate::steps::StepId) -> (defs: Vec<OptionDef>)
    ensures
        step == crate::steps::StepId::Routes ==> keys_and_flags(defs@) == common_keys() + routes_extra_keys(),
        step == crate::steps::StepId::Basemap ==> keys_and_flags(defs@) == common_keys() + basemap_extra_keys(),
        (step == crate::steps::StepId::TerrainRgb || step == crate::steps::StepId::Hillshade) ==> keys_and_flags(defs@) == terrain_keys(),
        step == crate::steps::StepId::ValhallaPackage ==> keys_and_flags(defs@) == package_keys(),
        (step == crate::steps::StepId::DownloadOsm || step == crate::steps::StepId::ElevationTiles
            || step == crate::steps::StepId::ValhallaTiles) ==> defs@.len() == 0,
{
    match step {
        crate::steps::StepId::Routes => routes_options(),
        crate::steps::StepId::Basemap => basemap_options(),
        crate::steps::StepId::TerrainRgb | crate::steps::StepId::Hillshade => terrain_options(),
        crate::steps::StepId::ValhallaPackage => package_options(),
        _ => Vec::new(),
    }
}

} // verus!
