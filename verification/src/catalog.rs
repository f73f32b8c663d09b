//! Classifying and comparing generated output.
//!
//! An area is a subdirectory of the output root; artifacts are the files inside it, named
//! `<area>[_<suffix>].<ext>[.<trailing>]`:
//!
//! ```text
//! rhone-alpes.mbtiles                basemap
//! rhone-alpes_routes.mbtiles         routes
//! rhone-alpes_terrain.mbtiles        terrain RGB
//! rhone-alpes.vtiles                 valhalla package
//! rhone-alpes_mlt.mbtiles            basemap, MLT-encoded
//! rhone-alpes.vtiles.base            an older valhalla package kept for comparison
//! ```
//!
//! Unrecognised variants are kept, not hidden - they are exactly the files a comparison wants.
//! Classification leans on the archive's `metadata` table rather than the file name, because
//! `format` and `encoding` say what a file is whatever it is called. A metadata table is held
//! as its `(name, value)` rows in key order, as a `BTreeMap` iterates them.
use vstd::prelude::*;
use crate::text::{
    chars_of, is_text, lower_trimmed, lowercase, run, run_end, same_text, slice_of, string_of,
    trim, Class,
};

verus! {

#[derive(Debug, Clone, PartialEq, Eq)]
pub enum TileFormat {
    /// Mapbox Vector Tile, `format=pbf`.
    Mvt,
    /// MapLibre Tile, `format=application/vnd.maplibre-vector-tile`.
    Mlt,
    Webp,
    Png,
    Jpeg,
    /// Valhalla routing tiles, `format=gph3`.
    Gph3,
    Other(String),
    Unknown,
}

/// A [`TileFormat`] with its text as characters.
pub enum FormatModel {
    Mvt,
    Mlt,
    Webp,
    Png,
    Jpeg,
    Gph3,
    Other(Seq<char>),
    Unknown,
}

impl View for TileFormat {
    type V = FormatModel;

    open spec fn view(&self) -> FormatModel {
        match self {
            TileFormat::Mvt => FormatModel::Mvt,
            TileFormat::Mlt => FormatModel::Mlt,
            TileFormat::Webp => FormatModel::Webp,
            TileFormat::Png => FormatModel::Png,
            TileFormat::Jpeg => FormatModel::Jpeg,
            TileFormat::Gph3 => FormatModel::Gph3,
            TileFormat::Other(s) => FormatModel::Other(s@),
            TileFormat::Unknown => FormatModel::Unknown,
        }
    }
}

/// What a raw `format` value means, ignoring case and surrounding white space.
pub open spec fn format_named(raw: Seq<char>) -> FormatModel {
    let key = lowercase(trim(raw));
    if key == "pbf"@ || key == "mvt"@ {
        FormatModel::Mvt
    } else if key == "application/vnd.maplibre-vector-tile"@ || key == "mlt"@ {
        FormatModel::Mlt
    } else if key == "webp"@ {
        FormatModel::Webp
    } else if key == "png"@ {
        FormatModel::Png
    } else if key == "jpg"@ || key == "jpeg"@ {
        FormatModel::Jpeg
    } else if key == "gph3"@ {
        FormatModel::Gph3
    } else {
        FormatModel::Other(key)
    }
}

impl TileFormat {
    /// Classify a raw `format` string; other modules use this entry point.
    pub fn parse_public(raw: &str) -> (f: Self)
        ensures
            f@ == format_named(raw@),
    {
        Self::parse(raw)
    }

    fn parse(raw: &str) -> (f: Self)
        ensures
            f@ == format_named(raw@),
    {
        let key = lower_trimmed(raw);
        if is_text(&key, "pbf") || is_text(&key, "mvt") {
            TileFormat::Mvt
        } else if is_text(&key, "application/vnd.maplibre-vector-tile") || is_text(&key, "mlt") {
            TileFormat::Mlt
        } else if is_text(&key, "webp") {
            TileFormat::Webp
        } else if is_text(&key, "png") {
            TileFormat::Png
        } else if is_text(&key, "jpg") || is_text(&key, "jpeg") {
            TileFormat::Jpeg
        } else if is_text(&key, "gph3") {
            TileFormat::Gph3
        } else {
            TileFormat::Other(string_of(key.as_slice()))
        }
    }

    /// A copy of this format.
    pub fn copied(&self) -> (f: Self)
        ensures
            f@ == self@,
    {
        match self {
            TileFormat::Mvt => TileFormat::Mvt,
            TileFormat::Mlt => TileFormat::Mlt,
            TileFormat::Webp => TileFormat::Webp,
            TileFormat::Png => TileFormat::Png,
            TileFormat::Jpeg => TileFormat::Jpeg,
            TileFormat::Gph3 => TileFormat::Gph3,
            TileFormat::Other(s) => TileFormat::Other(s.clone()),
            TileFormat::Unknown => TileFormat::Unknown,
        }
    }

    pub fn is_vector(&self) -> (r: bool)
        ensures
            r == (self is Mvt || self is Mlt),
    {
        match self {
            TileFormat::Mvt | TileFormat::Mlt => true,
            _ => false,
        }
    }
}

#[derive(Debug, Clone, Copy, PartialEq, Eq, Structural)]
pub enum ArtifactKind {
    Basemap,
    Routes,
    TerrainRgb,
    Hillshade,
    ValhallaPackage,
    Unknown,
}

/// A vector layer as advertised in the `json` metadata key. `fields` are the layer's
/// `(name, type)` pairs in name order.
#[derive(Debug, Clone, PartialEq)]
pub struct VectorLayer {
    pub id: String,
    pub minzoom: Option<u8>,
    pub maxzoom: Option<u8>,
    pub fields: Vec<(String, String)>,
}

impl VectorLayer {
    /// The layer's field names, in the order held.
    pub open spec fn field_names(&self) -> Seq<Seq<char>> {
        self.fields@.map_values(|p: (String, String)| p.0@)
    }

    /// Fields come from a JSON object: each name once, in text order.
    pub open spec fn well_formed(&self) -> bool {
        strictly_sorted(self.field_names())
    }
}

/// Where a build came from. Planetiler stamps all of this; other producers stamp none of it.
#[derive(Debug, Clone, PartialEq)]
pub struct Provenance {
    pub planetiler_version: Option<String>,
    pub githash: Option<String>,
    pub buildtime: Option<String>,
    pub osm_replication_seq: Option<String>,
    pub osm_replication_time: Option<String>,
}

impl Default for Provenance {
    fn default() -> (p: Self)
        ensures
            p.planetiler_version is None && p.githash is None && p.buildtime is None
                && p.osm_replication_seq is None && p.osm_replication_time is None,
    {
        Provenance {
            planetiler_version: None,
            githash: None,
            buildtime: None,
            osm_replication_seq: None,
            osm_replication_time: None,
        }
    }
}

/// A metadata table's rows as characters.
pub open spec fn rows(m: Seq<(String, String)>) -> Seq<(Seq<char>, Seq<char>)> {
    m.map_values(|p: (String, String)| (p.0@, p.1@))
}

/// The value of the first row named `key` from row `i` on.
pub open spec fn lookup_from(m: Seq<(Seq<char>, Seq<char>)>, key: Seq<char>, i: int) -> Option<Seq<char>>
    decreases m.len() - i,
{
    if i < 0 || i >= m.len() {
        None
    } else if m[i].0 == key {
        Some(m[i].1)
    } else {
        lookup_from(m, key, i + 1)
    }
}

pub open spec fn lookup(m: Seq<(Seq<char>, Seq<char>)>, key: Seq<char>) -> Option<Seq<char>> {
    lookup_from(m, key, 0)
}

pub open spec fn text_of(o: Option<String>) -> Option<Seq<char>> {
    match o {
        Some(s) => Some(s@),
        None => None,
    }
}

/// The value stored under `key`, if any.
pub fn meta_get(meta: &[(String, String)], key: &str) -> (r: Option<String>)
    ensures
        text_of(r) == lookup(rows(meta@), key@),
{
    let mut i: usize = 0;
    while i < meta.len()
        invariant
            i <= meta@.len(),
            lookup(rows(meta@), key@) == lookup_from(rows(meta@), key@, i as int),
        decreases meta@.len() - i,
    {
        if same_text(meta[i].0.as_str(), key) {
            return Some(meta[i].1.clone());
        }
        i = i + 1;
    }
    None
}

impl Provenance {
    /// Planetiler's stamps, read from an archive's metadata.
    pub fn from_metadata(meta: &[(String, String)]) -> (p: Self)
        ensures
            text_of(p.planetiler_version) == lookup(rows(meta@), "planetiler:version"@),
            text_of(p.githash) == lookup(rows(meta@), "planetiler:githash"@),
            text_of(p.buildtime) == lookup(rows(meta@), "planetiler:buildtime"@),
            text_of(p.osm_replication_seq) == lookup(
                rows(meta@),
                "planetiler:osm:osmosisreplicationseq"@,
            ),
            text_of(p.osm_replication_time) == lookup(
                rows(meta@),
                "planetiler:osm:osmosisreplicationtime"@,
            ),
    {
        Provenance {
            planetiler_version: meta_get(meta, "planetiler:version"),
            githash: meta_get(meta, "planetiler:githash"),
            buildtime: meta_get(meta, "planetiler:buildtime"),
            osm_replication_seq: meta_get(meta, "planetiler:osm:osmosisreplicationseq"),
            osm_replication_time: meta_get(meta, "planetiler:osm:osmosisreplicationtime"),
        }
    }

    /// Nothing stamped at all.
    pub fn is_empty(&self) -> (r: bool)
        ensures
            r == (self.planetiler_version is None && self.githash is None && self.buildtime is None
                && self.osm_replication_seq is None && self.osm_replication_time is None),
    {
        self.planetiler_version.is_none() && self.githash.is_none() && self.buildtime.is_none()
            && self.osm_replication_seq.is_none() && self.osm_replication_time.is_none()
    }
}

#[derive(Debug, Clone, PartialEq)]
pub struct Artifact {
    pub path: String,
    pub file_name: String,
    pub area: String,
    /// `_mlt`, `.old`, `.base` - anything distinguishing this from the canonical build.
    pub variant: Option<String>,
    pub size_bytes: u64,
    pub kind: ArtifactKind,
    pub format: TileFormat,
    pub minzoom: Option<u8>,
    pub maxzoom: Option<u8>,
    pub bounds: Option<String>,
    /// `terrarium` or `mapbox` for raster-DEM tilesets.
    pub encoding: Option<String>,
    pub compression: Option<String>,
    pub layers: Vec<VectorLayer>,
    pub provenance: Provenance,
    /// The metadata table's rows, in key order, each key once ([`meta_in_order`]): the
    /// functions that compare two builds' metadata ask for this.
    pub metadata: Vec<(String, String)>,
    /// Set when the file could not be opened as an mbtiles-shaped database.
    pub probe_error: Option<String>,
}

/// `<area>[_<suffix>].<ext>[.<trailing>]`, split: the suffix without its leading underscores
/// (none when empty), the extension, and whatever follows the second dot.
pub open spec fn name_parts(area: Seq<char>, file: Seq<char>) -> Option<(Option<Seq<char>>, Seq<char>, Option<Seq<char>>)> {
    if area.len() <= file.len() && file.subrange(0, area.len() as int) == area {
        let rest = file.subrange(area.len() as int, file.len() as int);
        let d1 = run(rest, 0, Class::NotDot) as int;
        let suffix_raw = rest.subrange(0, d1);
        let after = if d1 < rest.len() {
            rest.subrange(d1 + 1, rest.len() as int)
        } else {
            Seq::empty()
        };
        let d2 = run(after, 0, Class::NotDot) as int;
        let ext = after.subrange(0, d2);
        let trailing = if d2 < after.len() {
            Some(after.subrange(d2 + 1, after.len() as int))
        } else {
            None
        };
        let suffix = suffix_raw.subrange(run(suffix_raw, 0, Class::Underscore) as int, suffix_raw.len() as int);
        Some((if suffix.len() > 0 { Some(suffix) } else { None }, ext, trailing))
    } else {
        None
    }
}

pub open spec fn parts_text(p: (Option<String>, String, Option<String>)) -> (Option<Seq<char>>, Seq<char>, Option<Seq<char>>) {
    (text_of(p.0), p.1@, text_of(p.2))
}

/// Split a file name belonging to `area`; `None` when it does not start with the area's name.
pub fn split_name(area: &str, file_name: &str) -> (r: Option<(Option<String>, String, Option<String>)>)
    ensures
        r matches Some(p) ==> name_parts(area@, file_name@) == Some(parts_text(p)),
        r is None ==> name_parts(area@, file_name@) is None,
{
    let a = chars_of(area);
    let f = chars_of(file_name);
    if a.len() > f.len() || !crate::text::starts_with_chars(&f, a.as_slice()) {
        return None;
    }
    let rest = slice_of(&f, a.len(), f.len());
    let d1 = run_end(&rest, 0, Class::NotDot);
    let suffix_raw = slice_of(&rest, 0, d1);
    let after = if d1 < rest.len() {
        slice_of(&rest, d1 + 1, rest.len())
    } else {
        Vec::new()
    };
    let d2 = run_end(&after, 0, Class::NotDot);
    let ext = slice_of(&after, 0, d2);
    let trailing = if d2 < after.len() {
        let t = slice_of(&after, d2 + 1, after.len());
        Some(string_of(t.as_slice()))
    } else {
        None
    };
    let u = run_end(&suffix_raw, 0, Class::Underscore);
    let suffix = slice_of(&suffix_raw, u, suffix_raw.len());
    let suffix_text = if suffix.len() > 0 {
        Some(string_of(suffix.as_slice()))
    } else {
        None
    };
    assert(after@ == (if d1 < rest@.len() {
        rest@.subrange(d1 + 1, rest@.len() as int)
    } else {
        Seq::<char>::empty()
    }));
    Some((suffix_text, string_of(ext.as_slice()), trailing))
}

pub open spec fn opt_is(o: Option<Seq<char>>, s: Seq<char>) -> bool {
    o == Some(s)
}

/// Filename-derived kind, used only when the metadata table is unreadable.
pub open spec fn kind_for_name(suffix: Option<Seq<char>>, ext: Seq<char>) -> ArtifactKind {
    if opt_is(suffix, "routes"@) {
        ArtifactKind::Routes
    } else if opt_is(suffix, "terrain"@) {
        ArtifactKind::TerrainRgb
    } else if opt_is(suffix, "hillshade"@) {
        ArtifactKind::Hillshade
    } else if ext == "vtiles"@ {
        ArtifactKind::ValhallaPackage
    } else if suffix is None && ext == "mbtiles"@ {
        ArtifactKind::Basemap
    } else {
        ArtifactKind::Unknown
    }
}

pub open spec fn str_text(o: Option<&str>) -> Option<Seq<char>> {
    match o {
        Some(s) => Some(s@),
        None => None,
    }
}

pub fn kind_from_name(suffix: Option<&str>, ext: &str) -> (k: ArtifactKind)
    ensures
        k == kind_for_name(str_text(suffix), ext@),
{
    if let Some(s) = suffix {
        if same_text(s, "routes") {
            return ArtifactKind::Routes;
        } else if same_text(s, "terrain") {
            return ArtifactKind::TerrainRgb;
        } else if same_text(s, "hillshade") {
            return ArtifactKind::Hillshade;
        }
    }
    if same_text(ext, "vtiles") {
        ArtifactKind::ValhallaPackage
    } else if suffix.is_none() && same_text(ext, "mbtiles") {
        ArtifactKind::Basemap
    } else {
        ArtifactKind::Unknown
    }
}

/// Whether a raster archive holds packed elevation: an explicit `encoding` wins; without one, a
/// `round-digits` key marks the older pipeline, which packed the mapbox way.
pub open spec fn dem_encoding_of(m: Seq<(Seq<char>, Seq<char>)>) -> Option<Seq<char>> {
    match lookup(m, "encoding"@) {
        Some(e) => Some(e),
        None => if lookup(m, "round-digits"@) is Some {
            Some("mapbox"@)
        } else {
            None
        },
    }
}

pub fn dem_encoding(metadata: &[(String, String)]) -> (r: Option<String>)
    ensures
        text_of(r) == dem_encoding_of(rows(metadata@)),
{
    if let Some(explicit) = meta_get(metadata, "encoding") {
        return Some(explicit);
    }
    if meta_get(metadata, "round-digits").is_some() {
        Some(String::from_str("mapbox"))
    } else {
        None
    }
}

/// Metadata-derived kind: routing tiles are a package; a vector archive with exactly one layer,
/// `route`, is the routes build and any other is a basemap; a raster with an elevation encoding
/// is terrain RGB and one without is a plain picture.
pub open spec fn kind_for_metadata(format: FormatModel, encoding: Option<Seq<char>>, layer_ids: Seq<Seq<char>>) -> Option<ArtifactKind> {
    match format {
        FormatModel::Gph3 => Some(ArtifactKind::ValhallaPackage),
        FormatModel::Mvt | FormatModel::Mlt => if layer_ids.len() == 1 && layer_ids[0] == "route"@ {
            Some(ArtifactKind::Routes)
        } else {
            Some(ArtifactKind::Basemap)
        },
        FormatModel::Webp | FormatModel::Png | FormatModel::Jpeg => Some(
            if encoding is Some {
                ArtifactKind::TerrainRgb
            } else {
                ArtifactKind::Hillshade
            },
        ),
        _ => None,
    }
}

/// Whether a format is a raster image.
pub open spec fn is_raster(f: FormatModel) -> bool {
    f == FormatModel::Webp || f == FormatModel::Png || f == FormatModel::Jpeg
}

/// For raster archives the image format does not matter: any raster with an elevation encoding
/// is terrain RGB, and any raster without one is a hillshade picture. Two rasters with the same
/// encoding and layers are classified alike.
pub proof fn rasters_split_on_the_encoding_alone(f: FormatModel, g: FormatModel, encoding: Option<Seq<char>>, layer_ids: Seq<Seq<char>>)
    requires
        is_raster(f),
        is_raster(g),
    ensures
        encoding is Some ==> kind_for_metadata(f, encoding, layer_ids) == Some(ArtifactKind::TerrainRgb),
        encoding is None ==> kind_for_metadata(f, encoding, layer_ids) == Some(ArtifactKind::Hillshade),
        kind_for_metadata(f, encoding, layer_ids) == kind_for_metadata(g, encoding, layer_ids),
{
}

pub open spec fn layer_ids(layers: Seq<VectorLayer>) -> Seq<Seq<char>> {
    layers.map_values(|l: VectorLayer| l.id@)
}

pub fn kind_from_metadata(format: &TileFormat, encoding: Option<&str>, layers: &[VectorLayer]) -> (k: Option<ArtifactKind>)
    ensures
        k == kind_for_metadata(format@, str_text(encoding), layer_ids(layers@)),
{
    match format {
        TileFormat::Gph3 => Some(ArtifactKind::ValhallaPackage),
        TileFormat::Mvt | TileFormat::Mlt => {
            if layers.len() == 1 && same_text(layers[0].id.as_str(), "route") {
                Some(ArtifactKind::Routes)
            } else {
                Some(ArtifactKind::Basemap)
            }
        },
        TileFormat::Webp | TileFormat::Png | TileFormat::Jpeg => Some(
            if encoding.is_some() {
                ArtifactKind::TerrainRgb
            } else {
                ArtifactKind::Hillshade
            },
        ),
        _ => None,
    }
}

#[derive(Debug, Clone, PartialEq)]
pub struct ZoomStat {
    pub zoom: u8,
    pub tiles: u64,
    /// Sum of blob lengths as addressed.
    pub bytes: u64,
}

#[derive(Debug, Clone, PartialEq)]
pub struct TileStats {
    pub addressed_tiles: u64,
    pub addressed_bytes: u64,
    /// `Some` only for deduplicated (`--compact-db`) archives.
    pub unique_tiles: Option<u64>,
    pub unique_bytes: Option<u64>,
    pub per_zoom: Vec<ZoomStat>,
}

#[derive(Debug, Clone, PartialEq)]
pub struct Area {
    pub name: String,
    pub dir: String,
    pub artifacts: Vec<Artifact>,
}

/// The artifacts of `kind` whose variant is (or is not) set, in order.
pub open spec fn of_kind_with(arts: Seq<Artifact>, kind: ArtifactKind, variant: bool) -> Seq<Artifact>
    decreases arts.len(),
{
    if arts.len() == 0 {
        Seq::empty()
    } else {
        let rest = of_kind_with(arts.drop_last(), kind, variant);
        if arts.last().kind == kind && (arts.last().variant is Some) == variant {
            rest.push(arts.last())
        } else {
            rest
        }
    }
}

pub open spec fn byte_total(arts: Seq<Artifact>) -> nat
    decreases arts.len(),
{
    if arts.len() == 0 {
        0
    } else {
        byte_total(arts.drop_last()) + arts.last().size_bytes as nat
    }
}

pub proof fn lemma_byte_total_prefix(arts: Seq<Artifact>, i: int)
    requires
        0 <= i <= arts.len(),
    ensures
        byte_total(arts.take(i)) <= byte_total(arts),
    decreases arts.len() - i,
{
    if i < arts.len() {
        lemma_byte_total_prefix(arts, i + 1);
        assert(arts.take(i + 1).drop_last() =~= arts.take(i));
    } else {
        assert(arts.take(i) =~= arts);
    }
}

impl Area {
    /// Artifacts of one kind, canonical builds first, then variants, each group in listing order.
    pub fn of_kind(&self, kind: ArtifactKind) -> (found: Vec<&Artifact>)
        ensures
            found@.map_values(|a: &Artifact| *a) == of_kind_with(self.artifacts@, kind, false)
                + of_kind_with(self.artifacts@, kind, true),
    {
        let mut plain: Vec<&Artifact> = Vec::new();
        let mut variants: Vec<&Artifact> = Vec::new();
        let mut i: usize = 0;
        while i < self.artifacts.len()
            invariant
                i <= self.artifacts@.len(),
                plain@.map_values(|a: &Artifact| *a) == of_kind_with(self.artifacts@.take(i as int), kind, false),
                variants@.map_values(|a: &Artifact| *a) == of_kind_with(self.artifacts@.take(i as int), kind, true),
            decreases self.artifacts@.len() - i,
        {
            let a = &self.artifacts[i];
            assert(self.artifacts@.take(i + 1).drop_last() =~= self.artifacts@.take(i as int));
            let ghost p0 = plain@;
            let ghost v0 = variants@;
            if a.kind == kind {
                if a.variant.is_some() {
                    variants.push(a);
                    assert(variants@.map_values(|a: &Artifact| *a) =~= v0.map_values(|a: &Artifact| *a).push(*a));
                } else {
                    plain.push(a);
                    assert(plain@.map_values(|a: &Artifact| *a) =~= p0.map_values(|a: &Artifact| *a).push(*a));
                }
            }
            i = i + 1;
        }
        assert(self.artifacts@.take(self.artifacts@.len() as int) =~= self.artifacts@);
        let ghost p1 = plain@;
        let mut j: usize = 0;
        while j < variants.len()
            invariant
                j <= variants@.len(),
                plain@ == p1 + variants@.take(j as int),
            decreases variants@.len() - j,
        {
            plain.push(variants[j]);
            assert(p1 + variants@.take(j + 1) =~= (p1 + variants@.take(j as int)).push(variants@[j as int]));
            j = j + 1;
        }
        assert(variants@.take(variants@.len() as int) =~= variants@);
        assert(plain@.map_values(|a: &Artifact| *a) =~= p1.map_values(|a: &Artifact| *a) + variants@.map_values(|a: &Artifact| *a));
        plain
    }

    /// Bytes taken by every artifact of the area.
    pub fn total_bytes(&self) -> (n: u64)
        requires
            byte_total(self.artifacts@) <= u64::MAX,
        ensures
            n == byte_total(self.artifacts@),
    {
        let mut total: u64 = 0;
        let mut i: usize = 0;
        while i < self.artifacts.len()
            invariant
                i <= self.artifacts@.len(),
                byte_total(self.artifacts@) <= u64::MAX,
                total == byte_total(self.artifacts@.take(i as int)),
            decreases self.artifacts@.len() - i,
        {
            assert(self.artifacts@.take(i + 1).drop_last() =~= self.artifacts@.take(i as int));
            proof {
                lemma_byte_total_prefix(self.artifacts@, i + 1);
            }
            total = total + self.artifacts[i].size_bytes;
            i = i + 1;
        }
        assert(self.artifacts@.take(self.artifacts@.len() as int) =~= self.artifacts@);
        total
    }
}

} // verus!

verus! {

#[derive(Debug, Clone, PartialEq)]
pub struct ZoomDelta {
    pub zoom: u8,
    pub tiles_a: u64,
    pub tiles_b: u64,
    pub bytes_a: u64,
    pub bytes_b: u64,
}

/// Metadata differences between two builds, each list in key order with each key once.
#[derive(Debug, Clone, Default, PartialEq)]
pub struct MetadataDiff {
    pub only_in_a: Vec<(String, String)>,
    pub only_in_b: Vec<(String, String)>,
    pub changed: Vec<(String, (String, String))>,
}

#[derive(Debug, Clone, PartialEq)]
pub struct LayerDiff {
    pub layer: String,
    pub only_in_a_fields: Vec<String>,
    pub only_in_b_fields: Vec<String>,
}

/// The first per-zoom line for `zoom`, from line `i` on.
pub open spec fn zoom_line(s: Seq<ZoomStat>, zoom: u8, i: int) -> Option<ZoomStat>
    decreases s.len() - i,
{
    if i < 0 || i >= s.len() {
        None
    } else if s[i].zoom == zoom {
        Some(s[i])
    } else {
        zoom_line(s, zoom, i + 1)
    }
}

/// One zoom's line of a comparison: a zoom one side lacks reads as zero there.
pub open spec fn zoom_delta(a: Seq<ZoomStat>, b: Seq<ZoomStat>, zoom: u8) -> ZoomDelta {
    let za = zoom_line(a, zoom, 0);
    let zb = zoom_line(b, zoom, 0);
    ZoomDelta {
        zoom,
        tiles_a: match za { Some(z) => z.tiles, None => 0 },
        tiles_b: match zb { Some(z) => z.tiles, None => 0 },
        bytes_a: match za { Some(z) => z.bytes, None => 0 },
        bytes_b: match zb { Some(z) => z.bytes, None => 0 },
    }
}

/// Lines for zooms `z..=255` that either side has, in increasing zoom order.
pub open spec fn zoom_deltas_from(a: Seq<ZoomStat>, b: Seq<ZoomStat>, z: int) -> Seq<ZoomDelta>
    decreases 256 - z,
{
    if z < 0 || z > 255 {
        Seq::empty()
    } else if zoom_line(a, z as u8, 0) is Some || zoom_line(b, z as u8, 0) is Some {
        seq![zoom_delta(a, b, z as u8)] + zoom_deltas_from(a, b, z + 1)
    } else {
        zoom_deltas_from(a, b, z + 1)
    }
}

/// Whether a build has a per-zoom line for `zoom`.
pub open spec fn has_zoom(s: Seq<ZoomStat>, zoom: u8) -> bool {
    exists|j: int| 0 <= j < s.len() && #[trigger] s[j].zoom == zoom
}

proof fn lemma_zoom_line(s: Seq<ZoomStat>, zoom: u8, i: int)
    requires
        0 <= i,
    ensures
        (zoom_line(s, zoom, i) is Some) <==> exists|j: int| i <= j < s.len() && #[trigger] s[j].zoom == zoom,
        zoom_line(s, zoom, i) matches Some(l) ==> exists|j: int| i <= j < s.len() && #[trigger] s[j] == l && l.zoom == zoom,
    decreases s.len() - i,
{
    if i < s.len() {
        lemma_zoom_line(s, zoom, i + 1);
        if s[i].zoom != zoom {
            if exists|j: int| i <= j < s.len() && #[trigger] s[j].zoom == zoom {
                let j = choose|j: int| i <= j < s.len() && #[trigger] s[j].zoom == zoom;
                assert(i + 1 <= j);
            }
        }
    }
}

proof fn lemma_zoom_deltas_from(a: Seq<ZoomStat>, b: Seq<ZoomStat>, z: int)
    requires
        0 <= z <= 256,
    ensures
        forall|k: int| 0 <= k < zoom_deltas_from(a, b, z).len() ==> z <= #[trigger] zoom_deltas_from(a, b, z)[k].zoom,
        forall|k: int, l: int| 0 <= k < l < zoom_deltas_from(a, b, z).len() ==> #[trigger] zoom_deltas_from(a, b, z)[k].zoom
            < #[trigger] zoom_deltas_from(a, b, z)[l].zoom,
        forall|w: u8| z <= w ==> ((exists|k: int| 0 <= k < zoom_deltas_from(a, b, z).len() && #[trigger] zoom_deltas_from(a, b, z)[k].zoom == w)
            <==> (zoom_line(a, w, 0) is Some || zoom_line(b, w, 0) is Some)),
        forall|k: int| 0 <= k < zoom_deltas_from(a, b, z).len() ==> #[trigger] zoom_deltas_from(a, b, z)[k] == zoom_delta(
            a,
            b,
            zoom_deltas_from(a, b, z)[k].zoom,
        ),
    decreases 256 - z,
{
    if z <= 255 {
        lemma_zoom_deltas_from(a, b, z + 1);
        let rest = zoom_deltas_from(a, b, z + 1);
        let d = zoom_deltas_from(a, b, z);
        if zoom_line(a, z as u8, 0) is Some || zoom_line(b, z as u8, 0) is Some {
            assert(d == seq![zoom_delta(a, b, z as u8)] + rest);
            assert forall|k: int| 0 < k < d.len() implies #[trigger] d[k] == rest[k - 1] by {}
            assert forall|w: u8| z <= w implies ((exists|k: int| 0 <= k < d.len() && #[trigger] d[k].zoom == w)
                <==> (zoom_line(a, w, 0) is Some || zoom_line(b, w, 0) is Some)) by {
                if w == z {
                    assert(d[0].zoom == w);
                } else {
                    if exists|k: int| 0 <= k < d.len() && #[trigger] d[k].zoom == w {
                        let k = choose|k: int| 0 <= k < d.len() && #[trigger] d[k].zoom == w;
                        assert(k > 0);
                        assert(rest[k - 1].zoom == w);
                    }
                    if exists|k: int| 0 <= k < rest.len() && #[trigger] rest[k].zoom == w {
                        let k = choose|k: int| 0 <= k < rest.len() && #[trigger] rest[k].zoom == w;
                        assert(d[k + 1].zoom == w);
                    }
                }
            }
        } else {
            assert forall|w: u8| z <= w implies ((exists|k: int| 0 <= k < d.len() && #[trigger] d[k].zoom == w)
                <==> (zoom_line(a, w, 0) is Some || zoom_line(b, w, 0) is Some)) by {
                if w == z {
                    if exists|k: int| 0 <= k < d.len() && #[trigger] d[k].zoom == w {
                        let k = choose|k: int| 0 <= k < d.len() && #[trigger] d[k].zoom == w;
                        assert(rest[k].zoom >= z + 1);
                    }
                }
            }
        }
    }
}

/// Comparing two builds zoom by zoom lists every zoom either build has, and no other, each once
/// and in increasing order. Each line carries the two builds' own figures for its zoom: those
/// of a per-zoom line of that build, or zero when the build has no tiles there.
pub proof fn every_zoom_either_build_has_is_compared(a: Seq<ZoomStat>, b: Seq<ZoomStat>)
    ensures
        forall|k: int, l: int| 0 <= k < l < zoom_deltas_from(a, b, 0).len() ==> #[trigger] zoom_deltas_from(a, b, 0)[k].zoom
            < #[trigger] zoom_deltas_from(a, b, 0)[l].zoom,
        forall|w: u8| (exists|k: int| 0 <= k < zoom_deltas_from(a, b, 0).len() && #[trigger] zoom_deltas_from(a, b, 0)[k].zoom == w)
            <==> (has_zoom(a, w) || has_zoom(b, w)),
        forall|k: int| 0 <= k < zoom_deltas_from(a, b, 0).len() ==> ({
            let d = #[trigger] zoom_deltas_from(a, b, 0)[k];
            &&& (has_zoom(a, d.zoom) ==> exists|j: int| 0 <= j < a.len() && #[trigger] a[j].zoom == d.zoom && a[j].tiles == d.tiles_a && a[j].bytes == d.bytes_a)
            &&& (!has_zoom(a, d.zoom) ==> d.tiles_a == 0 && d.bytes_a == 0)
            &&& (has_zoom(b, d.zoom) ==> exists|j: int| 0 <= j < b.len() && #[trigger] b[j].zoom == d.zoom && b[j].tiles == d.tiles_b && b[j].bytes == d.bytes_b)
            &&& (!has_zoom(b, d.zoom) ==> d.tiles_b == 0 && d.bytes_b == 0)
        }),
{
    lemma_zoom_deltas_from(a, b, 0);
    let d = zoom_deltas_from(a, b, 0);
    assert forall|w: u8| (exists|k: int| 0 <= k < d.len() && #[trigger] d[k].zoom == w) <==> (has_zoom(a, w) || has_zoom(b, w)) by {
        lemma_zoom_line(a, w, 0);
        lemma_zoom_line(b, w, 0);
        assert(0 <= w);
    }
    assert forall|k: int| 0 <= k < d.len() implies ({
        let dk = #[trigger] d[k];
        &&& (has_zoom(a, dk.zoom) ==> exists|j: int| 0 <= j < a.len() && #[trigger] a[j].zoom == dk.zoom && a[j].tiles == dk.tiles_a && a[j].bytes == dk.bytes_a)
        &&& (!has_zoom(a, dk.zoom) ==> dk.tiles_a == 0 && dk.bytes_a == 0)
        &&& (has_zoom(b, dk.zoom) ==> exists|j: int| 0 <= j < b.len() && #[trigger] b[j].zoom == dk.zoom && b[j].tiles == dk.tiles_b && b[j].bytes == dk.bytes_b)
        &&& (!has_zoom(b, dk.zoom) ==> dk.tiles_b == 0 && dk.bytes_b == 0)
    }) by {
        let w = d[k].zoom;
        lemma_zoom_line(a, w, 0);
        lemma_zoom_line(b, w, 0);
        assert(d[k] == zoom_delta(a, b, w));
        if let Some(l) = zoom_line(a, w, 0) {
            let j = choose|j: int| 0 <= j < a.len() && #[trigger] a[j] == l && l.zoom == w;
            assert(a[j].zoom == w);
        }
        if let Some(l) = zoom_line(b, w, 0) {
            let j = choose|j: int| 0 <= j < b.len() && #[trigger] b[j] == l && l.zoom == w;
            assert(b[j].zoom == w);
        }
    }
}

fn find_zoom(s: &Vec<ZoomStat>, zoom: u8) -> (r: Option<(u64, u64)>)
    ensures
        r matches Some((t, b)) ==> zoom_line(s@, zoom, 0) matches Some(z) && z.tiles == t && z.bytes
            == b,
        r is None ==> zoom_line(s@, zoom, 0) is None,
{
    let mut i: usize = 0;
    while i < s.len()
        invariant
            i <= s@.len(),
            zoom_line(s@, zoom, 0) == zoom_line(s@, zoom, i as int),
        decreases s@.len() - i,
    {
        if s[i].zoom == zoom {
            return Some((s[i].tiles, s[i].bytes));
        }
        i = i + 1;
    }
    None
}

/// Compare two builds zoom by zoom: every zoom either side has, in increasing order, with the
/// tiles and bytes of each side.
pub fn diff_zooms(a: &TileStats, b: &TileStats) -> (deltas: Vec<ZoomDelta>)
    ensures
        deltas@ == zoom_deltas_from(a.per_zoom@, b.per_zoom@, 0),
{
    let mut deltas: Vec<ZoomDelta> = Vec::new();
    let mut z: u16 = 0;
    while z < 256
        invariant
            z <= 256,
            zoom_deltas_from(a.per_zoom@, b.per_zoom@, 0) == deltas@ + zoom_deltas_from(
                a.per_zoom@,
                b.per_zoom@,
                z as int,
            ),
        decreases 256 - z,
    {
        let zoom = z as u8;
        let fa = find_zoom(&a.per_zoom, zoom);
        let fb = find_zoom(&b.per_zoom, zoom);
        if fa.is_some() || fb.is_some() {
            let (tiles_a, bytes_a) = match fa {
                Some(p) => p,
                None => (0, 0),
            };
            let (tiles_b, bytes_b) = match fb {
                Some(p) => p,
                None => (0, 0),
            };
            let ghost before = deltas@;
            deltas.push(ZoomDelta { zoom, tiles_a, tiles_b, bytes_a, bytes_b });
            assert(deltas@ + zoom_deltas_from(a.per_zoom@, b.per_zoom@, z + 1) =~= before
                + zoom_deltas_from(a.per_zoom@, b.per_zoom@, z as int));
        }
        z = z + 1;
    }
    assert(deltas@ + zoom_deltas_from(a.per_zoom@, b.per_zoom@, 256) =~= deltas@);
    deltas
}

/// Rows of `a` (but `json`) whose key `b` does not have, in order.
pub open spec fn rows_only_in(a: Seq<(Seq<char>, Seq<char>)>, b: Seq<(Seq<char>, Seq<char>)>) -> Seq<(Seq<char>, Seq<char>)>
    decreases a.len(),
{
    if a.len() == 0 {
        Seq::empty()
    } else {
        let rest = rows_only_in(a.drop_last(), b);
        let (k, v) = a.last();
        if k != "json"@ && lookup(b, k) is None {
            rest.push((k, v))
        } else {
            rest
        }
    }
}

/// Keys of `a` (but `json`) whose value differs in `b`, with both values, in order.
pub open spec fn rows_changed(a: Seq<(Seq<char>, Seq<char>)>, b: Seq<(Seq<char>, Seq<char>)>) -> Seq<(Seq<char>, (Seq<char>, Seq<char>))>
    decreases a.len(),
{
    if a.len() == 0 {
        Seq::empty()
    } else {
        let rest = rows_changed(a.drop_last(), b);
        let (k, va) = a.last();
        match lookup(b, k) {
            Some(vb) => if k != "json"@ && vb != va {
                rest.push((k, (va, vb)))
            } else {
                rest
            },
            None => rest,
        }
    }
}

pub open spec fn changed_rows(v: Seq<(String, (String, String))>) -> Seq<(Seq<char>, (Seq<char>, Seq<char>))> {
    v.map_values(|p: (String, (String, String))| (p.0@, (p.1.0@, p.1.1@)))
}

fn rows_only_in_exec(a: &Vec<(String, String)>, b: &Vec<(String, String)>) -> (out: Vec<(String, String)>)
    ensures
        rows(out@) == rows_only_in(rows(a@), rows(b@)),
{
    let mut out: Vec<(String, String)> = Vec::new();
    let mut i: usize = 0;
    while i < a.len()
        invariant
            i <= a@.len(),
            rows(out@) == rows_only_in(rows(a@.take(i as int)), rows(b@)),
        decreases a@.len() - i,
    {
        assert(rows(a@.take(i + 1)).drop_last() =~= rows(a@.take(i as int)));
        let key = a[i].0.as_str();
        if !same_text(key, "json") && meta_get(b.as_slice(), key).is_none() {
            let ghost before = out@;
            out.push((a[i].0.clone(), a[i].1.clone()));
            assert(rows(out@) =~= rows(before).push((a@[i as int].0@, a@[i as int].1@)));
        }
        i = i + 1;
    }
    assert(a@.take(a@.len() as int) =~= a@);
    out
}

/// The keys of metadata rows, in order.
pub open spec fn meta_keys(m: Seq<(Seq<char>, Seq<char>)>) -> Seq<Seq<char>> {
    m.map_values(|p: (Seq<char>, Seq<char>)| p.0)
}

/// The keys of changed rows, in order.
pub open spec fn changed_keys_of(m: Seq<(Seq<char>, (Seq<char>, Seq<char>))>) -> Seq<Seq<char>> {
    m.map_values(|p: (Seq<char>, (Seq<char>, Seq<char>))| p.0)
}

/// A metadata table as a map holds it: each key once, in text order.
pub open spec fn meta_in_order(m: Seq<(String, String)>) -> bool {
    strictly_sorted(meta_keys(rows(m)))
}

proof fn lemma_sorted_init(ks: Seq<Seq<char>>)
    requires
        ks.len() > 0,
        strictly_sorted(ks),
    ensures
        strictly_sorted(ks.drop_last()),
        forall|x: Seq<char>| #[trigger] ks.drop_last().contains(x) ==> lex_lt(x, ks.last()),
{
    let init = ks.drop_last();
    assert forall|i: int, j: int| 0 <= i < j < init.len() implies lex_lt(#[trigger] init[i], #[trigger] init[j]) by {
        assert(init[i] == ks[i] && init[j] == ks[j]);
    }
    assert forall|x: Seq<char>| #[trigger] init.contains(x) implies lex_lt(x, ks.last()) by {
        let q = choose|q: int| 0 <= q < init.len() && init[q] == x;
        assert(ks[q] == x);
        assert(lex_lt(ks[q], ks[ks.len() - 1]));
    }
}

proof fn lemma_sorted_push(ks: Seq<Seq<char>>, k: Seq<char>)
    requires
        strictly_sorted(ks),
        forall|x: Seq<char>| #[trigger] ks.contains(x) ==> lex_lt(x, k),
    ensures
        strictly_sorted(ks.push(k)),
{
    let out = ks.push(k);
    assert forall|i: int, j: int| 0 <= i < j < out.len() implies lex_lt(#[trigger] out[i], #[trigger] out[j]) by {
        if j == out.len() - 1 {
            assert(out[i] == ks[i]);
            assert(ks.contains(ks[i]));
        } else {
            assert(out[i] == ks[i] && out[j] == ks[j]);
        }
    }
}

proof fn lemma_rows_only_in_sorted(a: Seq<(Seq<char>, Seq<char>)>, b: Seq<(Seq<char>, Seq<char>)>)
    requires
        strictly_sorted(meta_keys(a)),
    ensures
        strictly_sorted(meta_keys(rows_only_in(a, b))),
        forall|x: Seq<char>| #[trigger] meta_keys(rows_only_in(a, b)).contains(x) ==> meta_keys(a).contains(x),
    decreases a.len(),
{
    if a.len() > 0 {
        let ka = meta_keys(a);
        lemma_sorted_init(ka);
        assert(meta_keys(a.drop_last()) =~= ka.drop_last());
        lemma_rows_only_in_sorted(a.drop_last(), b);
        let rest = rows_only_in(a.drop_last(), b);
        let k = a.last().0;
        assert(ka.last() == k);
        assert forall|x: Seq<char>| #[trigger] meta_keys(rest).contains(x) implies ka.contains(x) && lex_lt(x, k) by {
            assert(ka.drop_last().contains(x));
            let q = choose|q: int| 0 <= q < ka.drop_last().len() && ka.drop_last()[q] == x;
            assert(ka[q] == x);
        }
        if k != "json"@ && lookup(b, k) is None {
            assert(meta_keys(rows_only_in(a, b)) =~= meta_keys(rest).push(k));
            lemma_sorted_push(meta_keys(rest), k);
            assert forall|x: Seq<char>| #[trigger] meta_keys(rest).push(k).contains(x) implies ka.contains(x) by {
                let q = choose|q: int| 0 <= q < meta_keys(rest).push(k).len() && meta_keys(rest).push(k)[q] == x;
                if q < meta_keys(rest).len() {
                    assert(meta_keys(rest)[q] == x);
                    assert(meta_keys(rest).contains(x));
                } else {
                    assert(ka[ka.len() - 1] == x);
                }
            }
        }
    }
}

proof fn lemma_rows_changed_sorted(a: Seq<(Seq<char>, Seq<char>)>, b: Seq<(Seq<char>, Seq<char>)>)
    requires
        strictly_sorted(meta_keys(a)),
    ensures
        strictly_sorted(changed_keys_of(rows_changed(a, b))),
        forall|x: Seq<char>| #[trigger] changed_keys_of(rows_changed(a, b)).contains(x) ==> meta_keys(a).contains(x),
    decreases a.len(),
{
    if a.len() > 0 {
        let ka = meta_keys(a);
        lemma_sorted_init(ka);
        assert(meta_keys(a.drop_last()) =~= ka.drop_last());
        lemma_rows_changed_sorted(a.drop_last(), b);
        let rest = rows_changed(a.drop_last(), b);
        let k = a.last().0;
        assert(ka.last() == k);
        assert forall|x: Seq<char>| #[trigger] changed_keys_of(rest).contains(x) implies ka.contains(x) && lex_lt(x, k) by {
            assert(ka.drop_last().contains(x));
            let q = choose|q: int| 0 <= q < ka.drop_last().len() && ka.drop_last()[q] == x;
            assert(ka[q] == x);
        }
        if rows_changed(a, b) != rest {
            let va = a.last().1;
            let vb = lookup(b, k).unwrap();
            assert(rows_changed(a, b) == rest.push((k, (va, vb))));
            assert(changed_keys_of(rows_changed(a, b)) =~= changed_keys_of(rest).push(k));
            lemma_sorted_push(changed_keys_of(rest), k);
            assert forall|x: Seq<char>| #[trigger] changed_keys_of(rest).push(k).contains(x) implies ka.contains(x) by {
                let q = choose|q: int| 0 <= q < changed_keys_of(rest).push(k).len() && changed_keys_of(rest).push(k)[q] == x;
                if q < changed_keys_of(rest).len() {
                    assert(changed_keys_of(rest)[q] == x);
                    assert(changed_keys_of(rest).contains(x));
                } else {
                    assert(ka[ka.len() - 1] == x);
                }
            }
        }
    }
}

/// Metadata keys that differ between two builds. `json` is left out: it is the whole layer
/// schema and belongs to [`diff_layers`].
pub fn diff_metadata(a: &Artifact, b: &Artifact) -> (d: MetadataDiff)
    requires
        meta_in_order(a.metadata@),
        meta_in_order(b.metadata@),
    ensures
        rows(d.only_in_a@) == rows_only_in(rows(a.metadata@), rows(b.metadata@)),
        rows(d.only_in_b@) == rows_only_in(rows(b.metadata@), rows(a.metadata@)),
        changed_rows(d.changed@) == rows_changed(rows(a.metadata@), rows(b.metadata@)),
        meta_in_order(d.only_in_a@),
        meta_in_order(d.only_in_b@),
        strictly_sorted(changed_keys_of(changed_rows(d.changed@))),
{
    let only_in_a = rows_only_in_exec(&a.metadata, &b.metadata);
    let only_in_b = rows_only_in_exec(&b.metadata, &a.metadata);
    let mut changed: Vec<(String, (String, String))> = Vec::new();
    let mut i: usize = 0;
    while i < a.metadata.len()
        invariant
            i <= a.metadata@.len(),
            changed_rows(changed@) == rows_changed(rows(a.metadata@.take(i as int)), rows(b.metadata@)),
        decreases a.metadata@.len() - i,
    {
        assert(rows(a.metadata@.take(i + 1)).drop_last() =~= rows(a.metadata@.take(i as int)));
        let key = a.metadata[i].0.as_str();
        match meta_get(b.metadata.as_slice(), key) {
            Some(vb) => {
                if !same_text(key, "json") && !same_text(vb.as_str(), a.metadata[i].1.as_str()) {
                    let ghost before = changed@;
                    changed.push((a.metadata[i].0.clone(), (a.metadata[i].1.clone(), vb)));
                    assert(changed_rows(changed@) =~= changed_rows(before).push(
                        (a.metadata@[i as int].0@, (a.metadata@[i as int].1@, vb@)),
                    ));
                }
            },
            None => {},
        }
        i = i + 1;
    }
    assert(a.metadata@.take(a.metadata@.len() as int) =~= a.metadata@);
    proof {
        lemma_rows_only_in_sorted(rows(a.metadata@), rows(b.metadata@));
        lemma_rows_only_in_sorted(rows(b.metadata@), rows(a.metadata@));
        lemma_rows_changed_sorted(rows(a.metadata@), rows(b.metadata@));
    }
    MetadataDiff { only_in_a, only_in_b, changed }
}

/// Strict order of text as `str`'s `Ord` compares it, from position `i` on: character by
/// character, a proper prefix first.
pub open spec fn lex_from(a: Seq<char>, b: Seq<char>, i: int) -> bool
    decreases a.len() - i,
{
    if i < 0 || i >= a.len() {
        i >= 0 && i < b.len()
    } else if i >= b.len() {
        false
    } else if a[i] != b[i] {
        a[i] < b[i]
    } else {
        lex_from(a, b, i + 1)
    }
}

pub open spec fn lex_lt(a: Seq<char>, b: Seq<char>) -> bool {
    lex_from(a, b, 0)
}

proof fn lemma_lex_from_total(a: Seq<char>, b: Seq<char>, i: int)
    requires
        0 <= i <= a.len(),
        i <= b.len(),
        a.take(i) == b.take(i),
    ensures
        a != b ==> lex_from(a, b, i) || lex_from(b, a, i),
        !(lex_from(a, b, i) && lex_from(b, a, i)),
        !lex_from(a, a, i),
    decreases a.len() - i,
{
    if i < a.len() && i < b.len() && a[i] == b[i] {
        assert(a.take(i + 1) =~= a.take(i).push(a[i]));
        assert(b.take(i + 1) =~= b.take(i).push(b[i]));
        lemma_lex_from_total(a, b, i + 1);
    } else if i < a.len() && i < b.len() {
        assert(a[i] < b[i] || b[i] < a[i]);
    } else if i == a.len() && i == b.len() {
        assert(a =~= a.take(i));
        assert(b =~= b.take(i));
    }
    if i < a.len() {
        lemma_lex_self(a, i);
    }
}

proof fn lemma_lex_self(a: Seq<char>, i: int)
    requires
        0 <= i <= a.len(),
    ensures
        !lex_from(a, a, i),
    decreases a.len() - i,
{
    if i < a.len() {
        lemma_lex_self(a, i + 1);
    }
}

proof fn lemma_lex_from_trans(a: Seq<char>, b: Seq<char>, c: Seq<char>, i: int)
    requires
        0 <= i,
        lex_from(a, b, i),
        lex_from(b, c, i),
    ensures
        lex_from(a, c, i),
    decreases a.len() - i,
{
    if i < a.len() && i < b.len() && i < c.len() && a[i] == b[i] && b[i] == c[i] {
        lemma_lex_from_trans(a, b, c, i + 1);
    }
}

/// Text order is a strict total order.
pub proof fn lemma_lex_order(a: Seq<char>, b: Seq<char>, c: Seq<char>)
    ensures
        !lex_lt(a, a),
        a != b ==> lex_lt(a, b) || lex_lt(b, a),
        !(lex_lt(a, b) && lex_lt(b, a)),
        lex_lt(a, b) && lex_lt(b, c) ==> lex_lt(a, c),
{
    assert(a.take(0) =~= b.take(0));
    lemma_lex_from_total(a, b, 0);
    lemma_lex_self(a, 0);
    if lex_lt(a, b) && lex_lt(b, c) {
        lemma_lex_from_trans(a, b, c, 0);
    }
}

pub(crate) fn text_lt(a: &Vec<char>, b: &Vec<char>) -> (r: bool)
    ensures
        r == lex_lt(a@, b@),
{
    let mut i: usize = 0;
    while i < a.len() && i < b.len() && a[i] == b[i]
        invariant
            i <= a@.len(),
            i <= b@.len(),
            lex_lt(a@, b@) == lex_from(a@, b@, i as int),
        decreases a@.len() - i,
    {
        i = i + 1;
    }
    if i == a.len() {
        i < b.len()
    } else if i == b.len() {
        false
    } else {
        a[i] < b[i]
    }
}

proof fn lemma_lex_from_at(a: Seq<char>, b: Seq<char>, i: int, j: int)
    requires
        0 <= j <= i,
        i <= a.len(),
        i < b.len(),
        forall|k: int| 0 <= k < i ==> a[k] == b[k],
        i == a.len() || a[i] < b[i],
    ensures
        lex_from(a, b, j),
    decreases i - j,
{
    if j < i {
        lemma_lex_from_at(a, b, i, j + 1);
    }
}

/// Text that agrees with another up to position `i`, and there ends or has the smaller
/// character, comes first.
pub proof fn lemma_lex_at(a: Seq<char>, b: Seq<char>, i: int)
    requires
        0 <= i <= a.len(),
        i < b.len(),
        forall|k: int| 0 <= k < i ==> a[k] == b[k],
        i == a.len() || a[i] < b[i],
    ensures
        lex_lt(a, b),
{
    lemma_lex_from_at(a, b, i, 0);
}

/// A list in which each text comes before the next is strictly sorted.
pub proof fn lemma_sorted_from_adjacent(ks: Seq<Seq<char>>)
    requires
        forall|i: int| 0 <= i < ks.len() - 1 ==> lex_lt(#[trigger] ks[i], ks[i + 1]),
    ensures
        strictly_sorted(ks),
    decreases ks.len(),
{
    if ks.len() > 1 {
        let init = ks.drop_last();
        assert forall|i: int| 0 <= i < init.len() - 1 implies lex_lt(#[trigger] init[i], init[i + 1]) by {
            assert(init[i] == ks[i] && init[i + 1] == ks[i + 1]);
            assert(lex_lt(ks[i], ks[i + 1]));
        }
        lemma_sorted_from_adjacent(init);
        let n = ks.len() - 1;
        assert forall|i: int, j: int| 0 <= i < j < ks.len() implies lex_lt(#[trigger] ks[i], #[trigger] ks[j]) by {
            if j < n {
                assert(init[i] == ks[i] && init[j] == ks[j]);
            } else if i < n - 1 {
                assert(init[i] == ks[i] && init[n - 1] == ks[n - 1]);
                assert(lex_lt(init[i], init[n - 1]));
                assert(lex_lt(ks[n - 1], ks[n]));
                lemma_lex_order(ks[i], ks[n - 1], ks[n]);
            } else {
                assert(lex_lt(ks[n - 1], ks[n]));
            }
        }
    }
}

/// Strictly increasing in text order.
pub open spec fn strictly_sorted(ids: Seq<Seq<char>>) -> bool {
    forall|i: int, j: int| 0 <= i < j < ids.len() ==> lex_lt(#[trigger] ids[i], #[trigger] ids[j])
}

/// The field names of the first layer called `id`, or none.
pub open spec fn layer_fields(layers: Seq<VectorLayer>, id: Seq<char>, i: int) -> Seq<Seq<char>>
    decreases layers.len() - i,
{
    if i < 0 || i >= layers.len() {
        Seq::empty()
    } else if layers[i].id@ == id {
        layers[i].fields@.map_values(|p: (String, String)| p.0@)
    } else {
        layer_fields(layers, id, i + 1)
    }
}

/// The names of `fa` that `fb` lacks, in order.
pub open spec fn names_missing(fa: Seq<Seq<char>>, fb: Seq<Seq<char>>) -> Seq<Seq<char>>
    decreases fa.len(),
{
    if fa.len() == 0 {
        Seq::empty()
    } else {
        let rest = names_missing(fa.drop_last(), fb);
        if fb.contains(fa.last()) {
            rest
        } else {
            rest.push(fa.last())
        }
    }
}

/// A layer's difference between two builds, as characters.
pub open spec fn layer_diff_of(a: Seq<VectorLayer>, b: Seq<VectorLayer>, id: Seq<char>) -> (Seq<char>, Seq<Seq<char>>, Seq<Seq<char>>) {
    let fa = layer_fields(a, id, 0);
    let fb = layer_fields(b, id, 0);
    (id, names_missing(fa, fb), names_missing(fb, fa))
}

/// The differing layers among `ids`, in that order.
pub open spec fn layer_diffs_for(a: Seq<VectorLayer>, b: Seq<VectorLayer>, ids: Seq<Seq<char>>) -> Seq<(Seq<char>, Seq<Seq<char>>, Seq<Seq<char>>)>
    decreases ids.len(),
{
    if ids.len() == 0 {
        Seq::empty()
    } else {
        let rest = layer_diffs_for(a, b, ids.drop_last());
        let d = layer_diff_of(a, b, ids.last());
        if d.1.len() > 0 || d.2.len() > 0 {
            rest.push(d)
        } else {
            rest
        }
    }
}

pub open spec fn diff_texts(v: Seq<LayerDiff>) -> Seq<(Seq<char>, Seq<Seq<char>>, Seq<Seq<char>>)> {
    v.map_values(|d: LayerDiff| (d.layer@, crate::planetiler::texts(d.only_in_a_fields@), crate::planetiler::texts(d.only_in_b_fields@)))
}

pub open spec fn char_lists(v: Seq<Vec<char>>) -> Seq<Seq<char>> {
    v.map_values(|c: Vec<char>| c@)
}

/// Insert `x` into a strictly sorted list, unless it is already there.
fn insert_sorted(ids: &mut Vec<Vec<char>>, x: Vec<char>)
    requires
        strictly_sorted(char_lists(old(ids)@)),
    ensures
        strictly_sorted(char_lists(final(ids)@)),
        forall|y: Seq<char>| #[trigger] char_lists(final(ids)@).contains(y) <==> (char_lists(old(ids)@).contains(y) || y == x@),
{
    let ghost before = char_lists(ids@);
    let mut p: usize = 0;
    while p < ids.len() && text_lt(&ids[p], &x)
        invariant
            p <= ids@.len(),
            char_lists(ids@) == before,
            strictly_sorted(before),
            forall|j: int| 0 <= j < p ==> lex_lt(#[trigger] before[j], x@),
        decreases ids@.len() - p,
    {
        p = p + 1;
    }
    if p < ids.len() {
        let same = ids[p].len() == x.len() && crate::text::matches_at(&ids[p], 0, x.as_slice());
        if same {
            assert(ids@[p as int]@.subrange(0, x@.len() as int) =~= ids@[p as int]@);
            assert(before[p as int] == x@);
            assert(before.contains(x@));
            return;
        }
        proof {
            if ids@[p as int]@ == x@ {
                assert(ids@[p as int]@.subrange(0, x@.len() as int) =~= ids@[p as int]@);
            }
            assert(before[p as int] != x@);
            lemma_lex_order(x@, before[p as int], x@);
            assert(lex_lt(x@, before[p as int]));
            assert forall|j: int| p <= j < before.len() implies lex_lt(x@, #[trigger] before[j]) by {
                if j > p {
                    lemma_lex_order(x@, before[p as int], before[j]);
                }
            }
        }
    }
    let ghost xv = x@;
    ids.insert(p, x);
    proof {
        let after = char_lists(ids@);
        assert(after =~= before.insert(p as int, xv));
        assert forall|i: int, j: int| 0 <= i < j < after.len() implies lex_lt(#[trigger] after[i], #[trigger] after[j]) by {
            if j < p {
            } else if j == p {
            } else if i < p {
                assert(after[j] == before[j - 1]);
                if i < j - 1 {
                } else {
                }
                lemma_lex_order(before[i], xv, before[j - 1]);
            } else if i == p {
                assert(after[j] == before[j - 1]);
            } else {
                assert(after[i] == before[i - 1]);
                assert(after[j] == before[j - 1]);
            }
        }
        assert forall|y: Seq<char>| #[trigger] after.contains(y) <==> (before.contains(y) || y == xv) by {
            if after.contains(y) {
                let k = choose|k: int| 0 <= k < after.len() && after[k] == y;
                if k < p {
                    assert(before[k] == y);
                } else if k > p {
                    assert(before[k - 1] == y);
                }
            }
            if before.contains(y) {
                let k = choose|k: int| 0 <= k < before.len() && before[k] == y;
                if k < p {
                    assert(after[k] == y);
                } else {
                    assert(after[k + 1] == y);
                }
            }
            if y == xv {
                assert(after[p as int] == y);
            }
        }
    }
}

/// Field names of a layer list's first layer called `id`.
fn fields_of(layers: &Vec<VectorLayer>, id: &str) -> (names: Vec<String>)
    ensures
        crate::planetiler::texts(names@) == layer_fields(layers@, id@, 0),
{
    let mut i: usize = 0;
    while i < layers.len()
        invariant
            i <= layers@.len(),
            layer_fields(layers@, id@, 0) == layer_fields(layers@, id@, i as int),
        decreases layers@.len() - i,
    {
        if same_text(layers[i].id.as_str(), id) {
            let mut names: Vec<String> = Vec::new();
            let mut j: usize = 0;
            while j < layers[i].fields.len()
                invariant
                    i < layers@.len(),
                    j <= layers@[i as int].fields@.len(),
                    crate::planetiler::texts(names@) == layers@[i as int].fields@.take(j as int).map_values(|p: (String, String)| p.0@),
                decreases layers@[i as int].fields@.len() - j,
            {
                let ghost before = names@;
                let name = layers[i].fields[j].0.clone();
                assert(name@ == layers@[i as int].fields@[j as int].0@);
                names.push(name);
                assert(crate::planetiler::texts(names@) =~= crate::planetiler::texts(before).push(layers@[i as int].fields@[j as int].0@));
                assert(layers@[i as int].fields@.take(j + 1).map_values(|p: (String, String)| p.0@) =~= layers@[i as int].fields@.take(j as int).map_values(|p: (String, String)| p.0@).push(layers@[i as int].fields@[j as int].0@));
                j = j + 1;
            }
            assert(layers@[i as int].fields@.take(j as int) =~= layers@[i as int].fields@);
            return names;
        }
        i = i + 1;
    }
    let names: Vec<String> = Vec::new();
    assert(crate::planetiler::texts(names@) =~= Seq::<Seq<char>>::empty());
    names
}

fn contains_text(v: &Vec<String>, s: &str) -> (r: bool)
    ensures
        r == crate::planetiler::texts(v@).contains(s@),
{
    let mut i: usize = 0;
    while i < v.len()
        invariant
            i <= v@.len(),
            forall|j: int| 0 <= j < i ==> v@[j]@ != s@,
        decreases v@.len() - i,
    {
        if same_text(v[i].as_str(), s) {
            assert(crate::planetiler::texts(v@)[i as int] == s@);
            return true;
        }
        i = i + 1;
    }
    proof {
        if crate::planetiler::texts(v@).contains(s@) {
            let k = choose|k: int| 0 <= k < v@.len() && crate::planetiler::texts(v@)[k] == s@;
            assert(v@[k]@ == s@);
        }
    }
    false
}

fn names_missing_exec(fa: &Vec<String>, fb: &Vec<String>) -> (out: Vec<String>)
    ensures
        crate::planetiler::texts(out@) == names_missing(crate::planetiler::texts(fa@), crate::planetiler::texts(fb@)),
{
    let mut out: Vec<String> = Vec::new();
    let mut i: usize = 0;
    while i < fa.len()
        invariant
            i <= fa@.len(),
            crate::planetiler::texts(out@) == names_missing(crate::planetiler::texts(fa@.take(i as int)), crate::planetiler::texts(fb@)),
        decreases fa@.len() - i,
    {
        assert(crate::planetiler::texts(fa@.take(i + 1)).drop_last() =~= crate::planetiler::texts(fa@.take(i as int)));
        if !contains_text(fb, fa[i].as_str()) {
            let ghost before = out@;
            out.push(fa[i].clone());
            assert(crate::planetiler::texts(out@) =~= crate::planetiler::texts(before).push(fa@[i as int]@));
        }
        i = i + 1;
    }
    assert(fa@.take(fa@.len() as int) =~= fa@);
    out
}

/// Adds every layer's id to a strictly sorted list of ids.
fn add_ids(ids: &mut Vec<Vec<char>>, layers: &Vec<VectorLayer>)
    requires
        strictly_sorted(char_lists(old(ids)@)),
    ensures
        strictly_sorted(char_lists(final(ids)@)),
        forall|y: Seq<char>| #[trigger] char_lists(final(ids)@).contains(y) <==> (char_lists(old(ids)@).contains(y)
            || layer_ids(layers@).contains(y)),
{
    let ghost start = char_lists(ids@);
    let ghost all = layer_ids(layers@);
    let mut k: usize = 0;
    while k < layers.len()
        invariant
            k <= layers@.len(),
            all == layer_ids(layers@),
            strictly_sorted(char_lists(ids@)),
            forall|y: Seq<char>| #[trigger] char_lists(ids@).contains(y) <==> (start.contains(y) || all.take(k as int).contains(y)),
        decreases layers@.len() - k,
    {
        let id = chars_of(layers[k].id.as_str());
        assert(id@ == all[k as int]);
        insert_sorted(ids, id);
        proof {
            let prev = all.take(k as int);
            let next = all.take(k + 1);
            assert(next =~= prev.push(all[k as int]));
            assert forall|y: Seq<char>| #[trigger] char_lists(ids@).contains(y) <==> (start.contains(y) || next.contains(y)) by {
                if next.contains(y) && y != all[k as int] {
                    let q = choose|q: int| 0 <= q < next.len() && next[q] == y;
                    assert(prev[q] == y);
                }
                if prev.contains(y) {
                    let q = choose|q: int| 0 <= q < prev.len() && prev[q] == y;
                    assert(next[q] == y);
                }
                if y == all[k as int] {
                    assert(next[k as int] == y);
                }
            }
        }
        k = k + 1;
    }
    assert(all.take(all.len() as int) =~= all);
}

proof fn lemma_names_missing_sorted(fa: Seq<Seq<char>>, fb: Seq<Seq<char>>)
    requires
        strictly_sorted(fa),
    ensures
        strictly_sorted(names_missing(fa, fb)),
        forall|x: Seq<char>| #[trigger] names_missing(fa, fb).contains(x) ==> fa.contains(x),
    decreases fa.len(),
{
    if fa.len() > 0 {
        let init = fa.drop_last();
        assert(strictly_sorted(init)) by {
            assert forall|i: int, j: int| 0 <= i < j < init.len() implies lex_lt(#[trigger] init[i], #[trigger] init[j]) by {
                assert(init[i] == fa[i] && init[j] == fa[j]);
            }
        }
        lemma_names_missing_sorted(init, fb);
        let rest = names_missing(init, fb);
        assert forall|x: Seq<char>| #[trigger] rest.contains(x) implies fa.contains(x) && lex_lt(x, fa.last()) by {
            assert(init.contains(x));
            let q = choose|q: int| 0 <= q < init.len() && init[q] == x;
            assert(fa[q] == x);
            assert(lex_lt(fa[q], fa[fa.len() - 1]));
        }
        if !fb.contains(fa.last()) {
            let out = rest.push(fa.last());
            assert forall|i: int, j: int| 0 <= i < j < out.len() implies lex_lt(#[trigger] out[i], #[trigger] out[j]) by {
                if j == out.len() - 1 {
                    assert(rest.contains(out[i]));
                } else {
                    assert(out[i] == rest[i] && out[j] == rest[j]);
                }
            }
            assert forall|x: Seq<char>| #[trigger] out.contains(x) implies fa.contains(x) by {
                let q = choose|q: int| 0 <= q < out.len() && out[q] == x;
                if q < rest.len() {
                    assert(rest[q] == x);
                    assert(rest.contains(x));
                } else {
                    assert(fa[fa.len() - 1] == x);
                }
            }
        }
    }
}

proof fn lemma_layer_fields_sorted(layers: Seq<VectorLayer>, id: Seq<char>, i: int)
    requires
        forall|k: int| 0 <= k < layers.len() ==> #[trigger] layers[k].well_formed(),
    ensures
        strictly_sorted(layer_fields(layers, id, i)),
    decreases layers.len() - i,
{
    if 0 <= i < layers.len() {
        assert(layers[i].well_formed());
        if layers[i].id@ != id {
            lemma_layer_fields_sorted(layers, id, i + 1);
        }
    }
}

proof fn lemma_layer_diffs_sorted(a: Seq<VectorLayer>, b: Seq<VectorLayer>, ids: Seq<Seq<char>>)
    requires
        forall|k: int| 0 <= k < a.len() ==> #[trigger] a[k].well_formed(),
        forall|k: int| 0 <= k < b.len() ==> #[trigger] b[k].well_formed(),
    ensures
        forall|k: int| 0 <= k < layer_diffs_for(a, b, ids).len() ==> strictly_sorted(#[trigger] layer_diffs_for(a, b, ids)[k].1)
            && strictly_sorted(layer_diffs_for(a, b, ids)[k].2),
    decreases ids.len(),
{
    if ids.len() > 0 {
        lemma_layer_diffs_sorted(a, b, ids.drop_last());
        let id = ids.last();
        lemma_layer_fields_sorted(a, id, 0);
        lemma_layer_fields_sorted(b, id, 0);
        lemma_names_missing_sorted(layer_fields(a, id, 0), layer_fields(b, id, 0));
        lemma_names_missing_sorted(layer_fields(b, id, 0), layer_fields(a, id, 0));
        let rest = layer_diffs_for(a, b, ids.drop_last());
        let d = layer_diff_of(a, b, id);
        let all = layer_diffs_for(a, b, ids);
        assert forall|k: int| 0 <= k < all.len() implies strictly_sorted(#[trigger] all[k].1) && strictly_sorted(all[k].2) by {
            if k < rest.len() {
                assert(all[k] == rest[k]);
                assert(strictly_sorted(rest[k].1));
            } else {
                assert(all[k] == d);
            }
        }
    }
}

/// Every layer id either build has.
pub open spec fn all_layer_ids(a: Seq<VectorLayer>, b: Seq<VectorLayer>) -> Seq<Seq<char>> {
    layer_ids(a) + layer_ids(b)
}

/// Per-layer field differences between two builds: for every layer id either has, in text
/// order and once each, the fields only one side's layer of that name has. Layers with no
/// difference are left out.
pub fn diff_layers(a: &Artifact, b: &Artifact) -> (out: Vec<LayerDiff>)
    ensures
        exists|ids: Seq<Seq<char>>|
            strictly_sorted(ids) && (forall|y: Seq<char>| #[trigger] ids.contains(y) <==> all_layer_ids(
                a.layers@,
                b.layers@,
            ).contains(y)) && diff_texts(out@) == layer_diffs_for(a.layers@, b.layers@, ids),
        (forall|k: int| 0 <= k < a.layers@.len() ==> #[trigger] a.layers@[k].well_formed())
            && (forall|k: int| 0 <= k < b.layers@.len() ==> #[trigger] b.layers@[k].well_formed()) ==> forall|d: int|
            0 <= d < out@.len() ==> strictly_sorted(crate::planetiler::texts(#[trigger] out@[d].only_in_a_fields@))
                && strictly_sorted(crate::planetiler::texts(out@[d].only_in_b_fields@)),
{
    let mut ids: Vec<Vec<char>> = Vec::new();
    add_ids(&mut ids, &a.layers);
    add_ids(&mut ids, &b.layers);
    proof {
        let all = all_layer_ids(a.layers@, b.layers@);
        assert forall|y: Seq<char>| #[trigger] char_lists(ids@).contains(y) <==> all.contains(y) by {
            let la = layer_ids(a.layers@);
            let lb = layer_ids(b.layers@);
            if all.contains(y) {
                let q = choose|q: int| 0 <= q < all.len() && all[q] == y;
                if q < la.len() {
                    assert(la[q] == y);
                } else {
                    assert(lb[q - la.len()] == y);
                }
            }
            if la.contains(y) {
                let q = choose|q: int| 0 <= q < la.len() && la[q] == y;
                assert(all[q] == y);
            }
            if lb.contains(y) {
                let q = choose|q: int| 0 <= q < lb.len() && lb[q] == y;
                assert(all[q + la.len()] == y);
            }
        }
    }
    let ghost sorted_ids = char_lists(ids@);
    let mut out: Vec<LayerDiff> = Vec::new();
    let mut i: usize = 0;
    while i < ids.len()
        invariant
            i <= ids@.len(),
            sorted_ids == char_lists(ids@),
            diff_texts(out@) == layer_diffs_for(a.layers@, b.layers@, sorted_ids.take(i as int)),
        decreases ids@.len() - i,
    {
        let id = string_of(ids[i].as_slice());
        let fa = fields_of(&a.layers, id.as_str());
        let fb = fields_of(&b.layers, id.as_str());
        let only_a = names_missing_exec(&fa, &fb);
        let only_b = names_missing_exec(&fb, &fa);
        assert(sorted_ids.take(i + 1).drop_last() =~= sorted_ids.take(i as int));
        assert(sorted_ids.take(i + 1).last() == id@);
        if only_a.len() > 0 || only_b.len() > 0 {
            let ghost before = out@;
            out.push(LayerDiff { layer: id, only_in_a_fields: only_a, only_in_b_fields: only_b });
            assert(diff_texts(out@) =~= diff_texts(before).push(layer_diff_of(a.layers@, b.layers@, sorted_ids[i as int])));
        }
        i = i + 1;
    }
    assert(sorted_ids.take(sorted_ids.len() as int) =~= sorted_ids);
    proof {
        if (forall|k: int| 0 <= k < a.layers@.len() ==> #[trigger] a.layers@[k].well_formed())
            && (forall|k: int| 0 <= k < b.layers@.len() ==> #[trigger] b.layers@[k].well_formed()) {
            lemma_layer_diffs_sorted(a.layers@, b.layers@, sorted_ids);
            assert forall|d: int| 0 <= d < out@.len() implies strictly_sorted(crate::planetiler::texts(#[trigger] out@[d].only_in_a_fields@))
                && strictly_sorted(crate::planetiler::texts(out@[d].only_in_b_fields@)) by {
                let row = layer_diffs_for(a.layers@, b.layers@, sorted_ids)[d];
                assert(diff_texts(out@)[d] == row);
                assert(strictly_sorted(row.1));
                assert(crate::planetiler::texts(out@[d].only_in_a_fields@) == row.1);
                assert(crate::planetiler::texts(out@[d].only_in_b_fields@) == row.2);
            }
        }
    }
    out
}

/// `str::parse::<u8>` of a metadata value.
pub fn parse_u8_text(s: &str) -> (r: Option<u8>)
    ensures
        r matches Some(v) ==> crate::text::parse_unsigned(s@, 255) == Some(v as nat),
        r is None ==> crate::text::parse_unsigned(s@, 255) is None,
{
    let v = chars_of(s);
    assert(v@.subrange(0, v@.len() as int) =~= v@);
    match crate::text::parse_u32_range(&v, 0, v.len()) {
        Some(n) => if n <= 255 {
            Some(n as u8)
        } else {
            None
        },
        None => None,
    }
}

/// Whether a suffix names a kind of its own rather than a variant.
pub open spec fn known_suffix(s: Option<Seq<char>>) -> bool {
    opt_is(s, "routes"@) || opt_is(s, "terrain"@) || opt_is(s, "hillshade"@)
}

/// What distinguishes a file from the canonical build: an unknown suffix (with whatever follows
/// the second dot), or else just what follows the second dot.
pub open spec fn variant_of(suffix: Option<Seq<char>>, trailing: Option<Seq<char>>) -> Option<Seq<char>> {
    match (suffix, trailing) {
        (Some(s), Some(t)) => if !known_suffix(suffix) {
            Some(s + "."@ + t)
        } else {
            Some(t)
        },
        (Some(s), None) => if !known_suffix(suffix) {
            Some(s)
        } else {
            None
        },
        (None, Some(t)) => Some(t),
        (None, None) => None,
    }
}

pub open spec fn parsed_zoom(v: Option<Seq<char>>) -> Option<u8> {
    match v {
        Some(text) => match crate::text::parse_unsigned(text, 255) {
            Some(n) => Some(n as u8),
            None => None,
        },
        None => None,
    }
}

/// An artifact as probed: named from its file name, classified from its metadata when that
/// could be read (`read` holds the metadata rows and the layers its `json` lists, or why it
/// could not be read), from its name otherwise.
pub open spec fn probed(a: Artifact, path: Seq<char>, file_name: Seq<char>, area: Seq<char>, size_bytes: u64, read: Result<(Seq<(Seq<char>, Seq<char>)>, Seq<VectorLayer>), Seq<char>>) -> bool {
    let parts = match name_parts(area, file_name) {
        Some(p) => p,
        None => (None, Seq::empty(), None),
    };
    let by_name = kind_for_name(parts.0, parts.1);
    &&& a.path@ == path
    &&& a.file_name@ == file_name
    &&& a.area@ == area
    &&& a.size_bytes == size_bytes
    &&& text_of(a.variant) == variant_of(parts.0, parts.2)
    &&& match read {
        Ok((m, layers)) => {
            let format = match lookup(m, "format"@) {
                Some(f) => format_named(f),
                None => FormatModel::Unknown,
            };
            let encoding = dem_encoding_of(m);
            &&& a.format@ == format
            &&& a.minzoom == parsed_zoom(lookup(m, "minzoom"@))
            &&& a.maxzoom == parsed_zoom(lookup(m, "maxzoom"@))
            &&& text_of(a.bounds) == lookup(m, "bounds"@)
            &&& text_of(a.encoding) == encoding
            &&& text_of(a.compression) == lookup(m, "compression"@)
            &&& a.layers@ == layers
            &&& text_of(a.provenance.planetiler_version) == lookup(m, "planetiler:version"@)
            &&& text_of(a.provenance.githash) == lookup(m, "planetiler:githash"@)
            &&& text_of(a.provenance.buildtime) == lookup(m, "planetiler:buildtime"@)
            &&& text_of(a.provenance.osm_replication_seq) == lookup(m, "planetiler:osm:osmosisreplicationseq"@)
            &&& text_of(a.provenance.osm_replication_time) == lookup(m, "planetiler:osm:osmosisreplicationtime"@)
            &&& a.kind == match kind_for_metadata(format, encoding, layer_ids(layers)) {
                Some(k) => k,
                None => by_name,
            }
            &&& rows(a.metadata@) == m
            &&& a.probe_error is None
        },
        Err(e) => {
            &&& a.format@ == FormatModel::Unknown
            &&& a.minzoom is None && a.maxzoom is None
            &&& a.bounds is None && a.encoding is None && a.compression is None
            &&& a.layers@.len() == 0
            &&& a.provenance.planetiler_version is None && a.provenance.githash is None
            &&& a.provenance.buildtime is None && a.provenance.osm_replication_seq is None
            &&& a.provenance.osm_replication_time is None
            &&& a.kind == by_name
            &&& a.metadata@.len() == 0
            &&& text_of(a.probe_error) == Some(e)
        },
    }
}

pub open spec fn read_text(read: Result<(Vec<(String, String)>, Vec<VectorLayer>), String>) -> Result<(Seq<(Seq<char>, Seq<char>)>, Seq<VectorLayer>), Seq<char>> {
    match read {
        Ok((m, l)) => Ok((rows(m@), l@)),
        Err(e) => Err(e@),
    }
}

fn opt_text_eq(o: &Option<String>, lit: &str) -> (r: bool)
    ensures
        r == opt_is(text_of(*o), lit@),
{
    match o {
        Some(s) => same_text(s.as_str(), lit),
        None => false,
    }
}

fn zoom_of(meta: &[(String, String)], key: &str) -> (z: Option<u8>)
    ensures
        z == parsed_zoom(lookup(rows(meta@), key@)),
{
    match meta_get(meta, key) {
        Some(v) => parse_u8_text(v.as_str()),
        None => None,
    }
}

/// Everything cheap about one file, from its name, size and what was read of its metadata.
pub fn probe(path: &str, file_name: &str, area: &str, size_bytes: u64, read: Result<(Vec<(String, String)>, Vec<VectorLayer>), String>) -> (a: Artifact)
    ensures
        probed(a, path@, file_name@, area@, size_bytes, read_text(read)),
{
    let (suffix, ext, trailing) = match split_name(area, file_name) {
        Some(p) => p,
        None => (None, String::new(), None),
    };
    let by_name = kind_from_name(
        match &suffix {
            Some(s) => Some(s.as_str()),
            None => None,
        },
        ext.as_str(),
    );
    let known = opt_text_eq(&suffix, "routes") || opt_text_eq(&suffix, "terrain") || opt_text_eq(&suffix, "hillshade");
    let variant = match (&suffix, &trailing) {
        (Some(s), Some(t)) => if !known {
            let dotted = crate::text::concat_str(s.as_str(), ".");
            Some(crate::text::concat_str(dotted.as_str(), t.as_str()))
        } else {
            Some(t.clone())
        },
        (Some(s), None) => if !known {
            Some(s.clone())
        } else {
            None
        },
        (None, Some(t)) => Some(t.clone()),
        (None, None) => None,
    };
    match read {
        Ok((meta, layers)) => {
            let format = match meta_get(meta.as_slice(), "format") {
                Some(f) => TileFormat::parse(f.as_str()),
                None => TileFormat::Unknown,
            };
            let encoding = dem_encoding(meta.as_slice());
            let kind = match kind_from_metadata(
                &format,
                match &encoding {
                    Some(e) => Some(e.as_str()),
                    None => None,
                },
                layers.as_slice(),
            ) {
                Some(k) => k,
                None => by_name,
            };
            Artifact {
                path: String::from_str(path),
                file_name: String::from_str(file_name),
                area: String::from_str(area),
                variant,
                size_bytes,
                kind,
                format,
                minzoom: zoom_of(meta.as_slice(), "minzoom"),
                maxzoom: zoom_of(meta.as_slice(), "maxzoom"),
                bounds: meta_get(meta.as_slice(), "bounds"),
                encoding,
                compression: meta_get(meta.as_slice(), "compression"),
                layers,
                provenance: Provenance::from_metadata(meta.as_slice()),
                metadata: meta,
                probe_error: None,
            }
        },
        Err(e) => Artifact {
            path: String::from_str(path),
            file_name: String::from_str(file_name),
            area: String::from_str(area),
            variant,
            size_bytes,
            kind: by_name,
            format: TileFormat::Unknown,
            minzoom: None,
            maxzoom: None,
            bounds: None,
            encoding: None,
            compression: None,
            layers: Vec::new(),
            provenance: Provenance::default(),
            metadata: Vec::new(),
            probe_error: Some(e),
        },
    }
}


/// Whether a directory entry of the output root is an area: a directory whose name does not
/// start with a dot.
pub fn is_area_entry(name: &str, is_dir: bool) -> (r: bool)
    ensures
        r == (is_dir && !(name@.len() > 0 && name@[0] == '.')),
{
    let cs = chars_of(name);
    is_dir && !(cs.len() > 0 && cs[0] == '.')
}

/// Whether a directory entry of an area is one of its artifacts: a file whose name does not
/// start with a dot and splits as `<area>[_<suffix>].<ext>`. Whatever else the OS drops there is
/// not.
pub fn is_artifact_entry(area: &str, name: &str, is_file: bool) -> (r: bool)
    ensures
        r == (is_file && !(name@.len() > 0 && name@[0] == '.') && name_parts(area@, name@) is Some),
{
    let cs = chars_of(name);
    if !is_file || (cs.len() > 0 && cs[0] == '.') {
        return false;
    }
    split_name(area, name).is_some()
}

/// Whether `s` is in order of `file_name`, as text.
pub open spec fn sorted_by_file_name(s: Seq<Artifact>) -> bool {
    forall|i: int, j: int| 0 <= i < j < s.len() ==> !lex_lt(s[j].file_name@, s[i].file_name@)
}

/// The Artifacts in order of `file_name`, as text; of two with the same file_name, the one given first
/// comes first.
pub fn sort_by_file_name(items: Vec<Artifact>) -> (out: Vec<Artifact>)
    ensures
        out@.to_multiset() == items@.to_multiset(),
        sorted_by_file_name(out@),
{
    broadcast use vstd::seq_lib::group_to_multiset_ensures;
    let mut rest = items;
    let mut out: Vec<Artifact> = Vec::new();
    while rest.len() > 0
        invariant
            out@.to_multiset().add(rest@.to_multiset()) =~= items@.to_multiset(),
            sorted_by_file_name(out@),
            forall|i: int, j: int| 0 <= i < out@.len() && 0 <= j < rest@.len() ==> !lex_lt(#[trigger] rest@[j].file_name@, #[trigger] out@[i].file_name@),
        decreases rest@.len(),
    {
        let mut m: usize = 0;
        let mut best = chars_of(rest[0].file_name.as_str());
        let mut k: usize = 1;
        proof {
            lemma_lex_order(rest@[0].file_name@, rest@[0].file_name@, rest@[0].file_name@);
        }
        while k < rest.len()
            invariant
                m < k <= rest@.len(),
                best@ == rest@[m as int].file_name@,
                forall|t: int| 0 <= t < k ==> !lex_lt(#[trigger] rest@[t].file_name@, rest@[m as int].file_name@),
            decreases rest@.len() - k,
        {
            let cand = chars_of(rest[k].file_name.as_str());
            if text_lt(&cand, &best) {
                proof {
                    assert forall|t: int| 0 <= t < k + 1 implies !lex_lt(#[trigger] rest@[t].file_name@, rest@[k as int].file_name@) by {
                        lemma_lex_order(rest@[t].file_name@, rest@[k as int].file_name@, rest@[m as int].file_name@);
                    }
                }
                m = k;
                best = cand;
            } else {
                proof {
                    lemma_lex_order(rest@[k as int].file_name@, rest@[m as int].file_name@, rest@[m as int].file_name@);
                }
            }
            k = k + 1;
        }
        let ghost before_rest = rest@;
        let ghost before_out = out@;
        let x = rest.remove(m);
        proof {
            assert(before_rest[m as int] == x);
            assert forall|j: int| 0 <= j < rest@.len() implies !lex_lt(#[trigger] rest@[j].file_name@, x.file_name@) by {
                if j < m {
                    assert(rest@[j] == before_rest[j]);
                } else {
                    assert(rest@[j] == before_rest[j + 1]);
                }
            }
            assert forall|i: int| 0 <= i < before_out.len() implies !lex_lt(x.file_name@, #[trigger] before_out[i].file_name@) by {
                assert(before_rest[m as int] == x);
            }
        }
        out.push(x);
        proof {
            assert forall|i: int, j: int| 0 <= i < out@.len() && 0 <= j < rest@.len() implies !lex_lt(#[trigger] rest@[j].file_name@, #[trigger] out@[i].file_name@) by {
                if i < before_out.len() {
                    assert(out@[i] == before_out[i]);
                    if j < m {
                        assert(rest@[j] == before_rest[j]);
                    } else {
                        assert(rest@[j] == before_rest[j + 1]);
                    }
                }
            }
            assert forall|i: int, j: int| 0 <= i < j < out@.len() implies !lex_lt(out@[j].file_name@, out@[i].file_name@) by {
                if j < before_out.len() {
                    assert(out@[i] == before_out[i] && out@[j] == before_out[j]);
                } else {
                    assert(out@[i] == before_out[i]);
                }
            }
            assert(out@ == before_out.push(x));
            assert(rest@ == before_rest.remove(m as int));
            broadcast use vstd::multiset::group_multiset_axioms;
            vstd::seq_lib::to_multiset_build(before_out, x);
            vstd::seq_lib::to_multiset_remove(before_rest, m as int);
            vstd::seq_lib::to_multiset_contains(before_rest, x);
            assert(before_rest.contains(x));
            assert(out@.to_multiset().add(rest@.to_multiset()) =~= before_out.to_multiset().add(before_rest.to_multiset()));
        }
    }
    proof {
        assert(rest@.to_multiset() =~= vstd::multiset::Multiset::empty());
    }
    out
}

/// Whether `s` is in order of `name`, as text.
pub open spec fn sorted_by_area_name(s: Seq<Area>) -> bool {
    forall|i: int, j: int| 0 <= i < j < s.len() ==> !lex_lt(s[j].name@, s[i].name@)
}

/// The Areas in order of `name`, as text; of two with the same name, the one given first
/// comes first.
pub fn sort_by_area_name(items: Vec<Area>) -> (out: Vec<Area>)
    ensures
        out@.to_multiset() == items@.to_multiset(),
        sorted_by_area_name(out@),
{
    broadcast use vstd::seq_lib::group_to_multiset_ensures;
    let mut rest = items;
    let mut out: Vec<Area> = Vec::new();
    while rest.len() > 0
        invariant
            out@.to_multiset().add(rest@.to_multiset()) =~= items@.to_multiset(),
            sorted_by_area_name(out@),
            forall|i: int, j: int| 0 <= i < out@.len() && 0 <= j < rest@.len() ==> !lex_lt(#[trigger] rest@[j].name@, #[trigger] out@[i].name@),
        decreases rest@.len(),
    {
        let mut m: usize = 0;
        let mut best = chars_of(rest[0].name.as_str());
        let mut k: usize = 1;
        proof {
            lemma_lex_order(rest@[0].name@, rest@[0].name@, rest@[0].name@);
        }
        while k < rest.len()
            invariant
                m < k <= rest@.len(),
                best@ == rest@[m as int].name@,
                forall|t: int| 0 <= t < k ==> !lex_lt(#[trigger] rest@[t].name@, rest@[m as int].name@),
            decreases rest@.len() - k,
        {
            let cand = chars_of(rest[k].name.as_str());
            if text_lt(&cand, &best) {
                proof {
                    assert forall|t: int| 0 <= t < k + 1 implies !lex_lt(#[trigger] rest@[t].name@, rest@[k as int].name@) by {
                        lemma_lex_order(rest@[t].name@, rest@[k as int].name@, rest@[m as int].name@);
                    }
                }
                m = k;
                best = cand;
            } else {
                proof {
                    lemma_lex_order(rest@[k as int].name@, rest@[m as int].name@, rest@[m as int].name@);
                }
            }
            k = k + 1;
        }
        let ghost before_rest = rest@;
        let ghost before_out = out@;
        let x = rest.remove(m);
        proof {
            assert(before_rest[m as int] == x);
            assert forall|j: int| 0 <= j < rest@.len() implies !lex_lt(#[trigger] rest@[j].name@, x.name@) by {
                if j < m {
                    assert(rest@[j] == before_rest[j]);
                } else {
                    assert(rest@[j] == before_rest[j + 1]);
                }
            }
            assert forall|i: int| 0 <= i < before_out.len() implies !lex_lt(x.name@, #[trigger] before_out[i].name@) by {
                assert(before_rest[m as int] == x);
            }
        }
        out.push(x);
        proof {
            assert forall|i: int, j: int| 0 <= i < out@.len() && 0 <= j < rest@.len() implies !lex_lt(#[trigger] rest@[j].name@, #[trigger] out@[i].name@) by {
                if i < before_out.len() {
                    assert(out@[i] == before_out[i]);
                    if j < m {
                        assert(rest@[j] == before_rest[j]);
                    } else {
                        assert(rest@[j] == before_rest[j + 1]);
                    }
                }
            }
            assert forall|i: int, j: int| 0 <= i < j < out@.len() implies !lex_lt(out@[j].name@, out@[i].name@) by {
                if j < before_out.len() {
                    assert(out@[i] == before_out[i] && out@[j] == before_out[j]);
                } else {
                    assert(out@[i] == before_out[i]);
                }
            }
            assert(out@ == before_out.push(x));
            assert(rest@ == before_rest.remove(m as int));
            broadcast use vstd::multiset::group_multiset_axioms;
            vstd::seq_lib::to_multiset_build(before_out, x);
            vstd::seq_lib::to_multiset_remove(before_rest, m as int);
            vstd::seq_lib::to_multiset_contains(before_rest, x);
            assert(before_rest.contains(x));
            assert(out@.to_multiset().add(rest@.to_multiset()) =~= before_out.to_multiset().add(before_rest.to_multiset()));
        }
    }
    proof {
        assert(rest@.to_multiset() =~= vstd::multiset::Multiset::empty());
    }
    out
}

/// Tiles counted over per-zoom rows.
pub open spec fn tiles_total(z: Seq<ZoomStat>) -> nat
    decreases z.len(),
{
    if z.len() == 0 { 0 } else { tiles_total(z.drop_last()) + z.last().tiles as nat }
}

/// Bytes counted over per-zoom rows.
pub open spec fn bytes_total(z: Seq<ZoomStat>) -> nat
    decreases z.len(),
{
    if z.len() == 0 { 0 } else { bytes_total(z.drop_last()) + z.last().bytes as nat }
}

proof fn lemma_totals_grow(z: Seq<ZoomStat>, i: int)
    requires
        0 <= i <= z.len(),
    ensures
        tiles_total(z.take(i)) <= tiles_total(z),
        bytes_total(z.take(i)) <= bytes_total(z),
    decreases z.len() - i,
{
    if i < z.len() {
        lemma_totals_grow(z, i + 1);
        assert(z.take(i + 1).drop_last() =~= z.take(i));
    }
    assert(z.take(z.len() as int) =~= z);
}

/// An archive's tile statistics from its per-zoom counts, and from the count and size of its
/// distinct blobs when it stores each once (`None` for a classic archive).
pub fn tile_stats_from(per_zoom: Vec<ZoomStat>, unique: Option<(u64, u64)>) -> (s: TileStats)
    requires
        tiles_total(per_zoom@) <= u64::MAX,
        bytes_total(per_zoom@) <= u64::MAX,
    ensures
        s.addressed_tiles == tiles_total(per_zoom@),
        s.addressed_bytes == bytes_total(per_zoom@),
        s.unique_tiles == (match unique { Some(u) => Some(u.0), None => None::<u64> }),
        s.unique_bytes == (match unique { Some(u) => Some(u.1), None => None::<u64> }),
        s.per_zoom@ == per_zoom@,
{
    let mut tiles: u64 = 0;
    let mut bytes: u64 = 0;
    let mut i: usize = 0;
    while i < per_zoom.len()
        invariant
            i <= per_zoom@.len(),
            tiles == tiles_total(per_zoom@.take(i as int)),
            bytes == bytes_total(per_zoom@.take(i as int)),
            tiles_total(per_zoom@) <= u64::MAX,
            bytes_total(per_zoom@) <= u64::MAX,
        decreases per_zoom@.len() - i,
    {
        assert(per_zoom@.take(i + 1).drop_last() =~= per_zoom@.take(i as int));
        proof {
            lemma_totals_grow(per_zoom@, i + 1);
        }
        tiles = tiles + per_zoom[i].tiles;
        bytes = bytes + per_zoom[i].bytes;
        i = i + 1;
    }
    assert(per_zoom@.take(per_zoom@.len() as int) =~= per_zoom@);
    let (unique_tiles, unique_bytes) = match unique {
        Some((t, b)) => (Some(t), Some(b)),
        None => (None, None),
    };
    TileStats { addressed_tiles: tiles, addressed_bytes: bytes, unique_tiles, unique_bytes, per_zoom }
}


/// Whether `s` is in text order.
pub open spec fn sorted_texts(s: Seq<Seq<char>>) -> bool {
    forall|i: int, j: int| 0 <= i < j < s.len() ==> !lex_lt(s[j], s[i])
}

/// Strings in text order (the order `sort` gives `String`s, which compare by their UTF-8 bytes
/// and so by their characters).
pub fn sort_texts(items: Vec<String>) -> (out: Vec<String>)
    ensures
        crate::planetiler::texts(out@).to_multiset() == crate::planetiler::texts(items@).to_multiset(),
        sorted_texts(crate::planetiler::texts(out@)),
{
    broadcast use vstd::seq_lib::group_to_multiset_ensures;
    let mut rest = items;
    let mut out: Vec<String> = Vec::new();
    while rest.len() > 0
        invariant
            crate::planetiler::texts(out@).to_multiset().add(crate::planetiler::texts(rest@).to_multiset())
                =~= crate::planetiler::texts(items@).to_multiset(),
            sorted_texts(crate::planetiler::texts(out@)),
            forall|i: int, j: int| 0 <= i < out@.len() && 0 <= j < rest@.len() ==> !lex_lt(#[trigger] rest@[j]@, #[trigger] out@[i]@),
        decreases rest@.len(),
    {
        let mut m: usize = 0;
        let mut best = chars_of(rest[0].as_str());
        let mut k: usize = 1;
        proof {
            lemma_lex_order(rest@[0]@, rest@[0]@, rest@[0]@);
        }
        while k < rest.len()
            invariant
                m < k <= rest@.len(),
                best@ == rest@[m as int]@,
                forall|t: int| 0 <= t < k ==> !lex_lt(#[trigger] rest@[t]@, rest@[m as int]@),
            decreases rest@.len() - k,
        {
            let cand = chars_of(rest[k].as_str());
            if text_lt(&cand, &best) {
                proof {
                    assert forall|t: int| 0 <= t < k + 1 implies !lex_lt(#[trigger] rest@[t]@, rest@[k as int]@) by {
                        lemma_lex_order(rest@[t]@, rest@[k as int]@, rest@[m as int]@);
                    }
                }
                m = k;
                best = cand;
            } else {
                proof {
                    lemma_lex_order(rest@[k as int]@, rest@[m as int]@, rest@[m as int]@);
                }
            }
            k = k + 1;
        }
        let ghost before_rest = rest@;
        let ghost before_out = out@;
        let x = rest.remove(m);
        proof {
            assert(before_rest[m as int] == x);
            assert forall|j: int| 0 <= j < rest@.len() implies !lex_lt(#[trigger] rest@[j]@, x@) by {
                if j < m {
                    assert(rest@[j] == before_rest[j]);
                } else {
                    assert(rest@[j] == before_rest[j + 1]);
                }
            }
        }
        out.push(x);
        proof {
            assert forall|i: int, j: int| 0 <= i < out@.len() && 0 <= j < rest@.len() implies !lex_lt(#[trigger] rest@[j]@, #[trigger] out@[i]@) by {
                if i < before_out.len() {
                    assert(out@[i] == before_out[i]);
                    if j < m {
                        assert(rest@[j] == before_rest[j]);
                    } else {
                        assert(rest@[j] == before_rest[j + 1]);
                    }
                }
            }
            let to = crate::planetiler::texts(out@);
            assert forall|i: int, j: int| 0 <= i < j < to.len() implies !lex_lt(to[j], to[i]) by {
                if j < before_out.len() {
                    assert(out@[i] == before_out[i] && out@[j] == before_out[j]);
                    assert(crate::planetiler::texts(before_out)[i] == to[i]);
                    assert(crate::planetiler::texts(before_out)[j] == to[j]);
                } else {
                    assert(out@[i] == before_out[i]);
                    assert(to[j] == x@);
                }
            }
            let tbo = crate::planetiler::texts(before_out);
            let tbr = crate::planetiler::texts(before_rest);
            assert(to =~= tbo.push(x@));
            assert(crate::planetiler::texts(rest@) =~= tbr.remove(m as int));
            assert(tbr[m as int] == x@);
            broadcast use vstd::multiset::group_multiset_axioms;
            vstd::seq_lib::to_multiset_build(tbo, x@);
            vstd::seq_lib::to_multiset_remove(tbr, m as int);
            vstd::seq_lib::to_multiset_contains(tbr, x@);
        }
    }
    out
}


/// Whether `path` lies under `root`, as `std::path::Path::starts_with` decides it.
pub uninterp spec fn path_under(path: Seq<char>, root: Seq<char>) -> bool;

/// Wraps `std::path::Path::starts_with`, which compares whole path components. The answer
/// depends on the two texts alone; the component rules are not spelled out here.
#[verifier::external_body]
fn starts_with_path(path: &str, root: &str) -> (r: bool)
    ensures
        r == path_under(path@, root@),
{
    std::path::Path::new(path).starts_with(root)
}

/// Why an artifact is not deleted.
#[derive(Debug, Clone, PartialEq)]
pub enum DeleteRefusal {
    /// The path is not under the output root.
    Outside(String),
    /// The path is not a regular file.
    NotAFile(String),
}

impl DeleteRefusal {
    /// The refusal as a sentence.
    pub fn message(&self) -> (m: String)
        ensures
            m@ == match self {
                DeleteRefusal::Outside(p) => p@ + " is outside the output root"@,
                DeleteRefusal::NotAFile(p) => p@ + " is not a file"@,
            },
    {
        match self {
            DeleteRefusal::Outside(p) => crate::text::concat_str(p.as_str(), " is outside the output root"),
            DeleteRefusal::NotAFile(p) => crate::text::concat_str(p.as_str(), " is not a file"),
        }
    }
}

/// What deleting an archive removes: the file, then the `-journal`, `-wal` and `-shm`
/// sidecars an SQLite archive leaves beside it.
pub open spec fn with_sidecars(target: Seq<char>) -> Seq<Seq<char>> {
    seq![target, target + "-journal"@, target + "-wal"@, target + "-shm"@]
}

/// The files to delete for an artifact, given the canonical output root and the canonical path
/// asked for. A path outside the root is refused, and so is anything that is not a file; the
/// path arrives from a front end, and a delete that removes whatever it is handed is one typo
/// from being a problem. Of the files planned, those that exist are removed.
pub fn deletion_plan(root: &str, target: &str, target_is_file: bool) -> (r: Result<Vec<String>, DeleteRefusal>)
    ensures
        !path_under(target@, root@) ==> (r matches Err(DeleteRefusal::Outside(t)) && t@ == target@),
        path_under(target@, root@) && !target_is_file ==> (r matches Err(DeleteRefusal::NotAFile(t)) && t@ == target@),
        path_under(target@, root@) && target_is_file ==> (r matches Ok(v) && crate::planetiler::texts(v@) == with_sidecars(target@)),
{
    if !starts_with_path(target, root) {
        return Err(DeleteRefusal::Outside(String::from_str(target)));
    }
    if !target_is_file {
        return Err(DeleteRefusal::NotAFile(String::from_str(target)));
    }
    let mut v: Vec<String> = Vec::new();
    v.push(String::from_str(target));
    v.push(crate::text::concat_str(target, "-journal"));
    v.push(crate::text::concat_str(target, "-wal"));
    v.push(crate::text::concat_str(target, "-shm"));
    assert(crate::planetiler::texts(v@) =~= with_sidecars(target@));
    Ok(v)
}

/// The bytes a delete frees: the sizes of the planned files that were there to remove, a file
/// that was not there counting for nothing.
pub open spec fn freed_total(sizes: Seq<Option<u64>>) -> int
    decreases sizes.len(),
{
    if sizes.len() == 0 {
        0
    } else {
        freed_total(sizes.drop_last()) + match sizes.last() {
            Some(n) => n as int,
            None => 0,
        }
    }
}

/// What deleting an artifact returns: given, for each file of its [`deletion_plan`] (the
/// archive, then its `-journal`, `-wal` and `-shm` sidecars), the size found when it was a file
/// and `None` when it was not there, the total of the sizes found.
pub fn freed_bytes(sizes: &[Option<u64>]) -> (n: u64)
    requires
        freed_total(sizes@) <= u64::MAX,
    ensures
        n == freed_total(sizes@),
{
    let mut n: u64 = 0;
    let mut i: usize = 0;
    while i < sizes.len()
        invariant
            i <= sizes@.len(),
            n == freed_total(sizes@.take(i as int)),
            freed_total(sizes@) <= u64::MAX,
        decreases sizes@.len() - i,
    {
        assert(sizes@.take(i + 1).drop_last() =~= sizes@.take(i as int));
        proof {
            lemma_freed_total_prefix(sizes@, i + 1);
        }
        match sizes[i] {
            Some(k) => {
                n = n + k;
            },
            None => {},
        }
        i = i + 1;
    }
    assert(sizes@.take(i as int) =~= sizes@);
    n
}

proof fn lemma_freed_total_prefix(sizes: Seq<Option<u64>>, k: int)
    requires
        0 <= k <= sizes.len(),
    ensures
        freed_total(sizes.take(k)) <= freed_total(sizes),
    decreases sizes.len() - k,
{
    if k < sizes.len() {
        lemma_freed_total_prefix(sizes, k + 1);
        assert(sizes.take(k + 1).drop_last() =~= sizes.take(k));
    } else {
        assert(sizes.take(k) =~= sizes);
    }
}

/// Deleting an archive touches nothing but that archive and its sidecars: every file a plan
/// names is the path asked for, or that path with a suffix added.
pub proof fn sidecars_extend_the_target(target: Seq<char>, p: Seq<char>)
    requires
        with_sidecars(target).contains(p),
    ensures
        p.len() >= target.len(),
        p.subrange(0, target.len() as int) == target,
{
    let i = choose|i: int| 0 <= i < with_sidecars(target).len() && with_sidecars(target)[i] == p;
    if i == 0 {
        assert(p.subrange(0, target.len() as int) =~= target);
    } else if i == 1 {
        assert((target + "-journal"@).subrange(0, target.len() as int) =~= target);
    } else if i == 2 {
        assert((target + "-wal"@).subrange(0, target.len() as int) =~= target);
    } else {
        assert((target + "-shm"@).subrange(0, target.len() as int) =~= target);
    }
}

} // verus!
