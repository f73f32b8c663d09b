//! Serving tiles out of the generated archives: the pieces that decide what a request reads.
use vstd::prelude::*;
use vstd::arithmetic::power2::pow2;
use crate::catalog::{Artifact, FormatModel, TileFormat};
use crate::options::{
    basemap_extra_keys, basemap_options, common_keys, keys_and_flags, planetiler_common, routes_extra_keys, routes_options,
    OptionDef,
};
use crate::text::{chars_of, parse_u32_range, parse_unsigned, run, run_end, Class};

verus! {

/// Is this blob gzipped? Sniffed from the gzip magic bytes rather than trusted from metadata,
/// because producers disagree.
pub fn is_gzip(blob: &[u8]) -> (r: bool)
    ensures
        r == (blob@.len() >= 2 && blob@[0] == 0x1f && blob@[1] == 0x8b),
{
    blob.len() >= 2 && blob[0] == 0x1f && blob[1] == 0x8b
}

/// The stored row of an XYZ tile: mbtiles rows are TMS, counted from the bottom, so row `y` of
/// `2^z` rows is stored as `2^z - 1 - y`; a `y` past the last row has none.
pub fn tms_row(z: u8, y: u32) -> (r: Option<u32>)
    requires
        z < 32,
    ensures
        r == (if y < pow2(z as nat) {
            Some((pow2(z as nat) - 1 - y) as u32)
        } else {
            None::<u32>
        }),
{
    proof {
        vstd::arithmetic::power2::lemma_pow2(z as nat);
        vstd::arithmetic::power2::lemma2_to64();
        vstd::arithmetic::power2::lemma_pow2_strictly_increases(z as nat, 32);
        assert(1u32 << z == pow2(z as nat)) by {
            vstd::bits::lemma_u32_shl_is_mul(1, z as u32);
            vstd::arithmetic::power2::lemma_pow2(z as nat);
        }
    }
    let rows: u32 = 1u32 << z;
    if y < rows {
        Some(rows - 1 - y)
    } else {
        None
    }
}

pub open spec fn content_type_of(f: FormatModel) -> Seq<char> {
    match f {
        FormatModel::Mvt => "application/x-protobuf"@,
        FormatModel::Mlt => "application/vnd.maplibre-vector-tile"@,
        FormatModel::Webp => "image/webp"@,
        FormatModel::Png => "image/png"@,
        FormatModel::Jpeg => "image/jpeg"@,
        _ => "application/octet-stream"@,
    }
}

/// The `Content-Type` a tile of this format is served with.
pub fn content_type(format: &TileFormat) -> (t: &'static str)
    ensures
        t@ == content_type_of(format@),
{
    match format {
        TileFormat::Mvt => "application/x-protobuf",
        TileFormat::Mlt => "application/vnd.maplibre-vector-tile",
        TileFormat::Webp => "image/webp",
        TileFormat::Png => "image/png",
        TileFormat::Jpeg => "image/jpeg",
        _ => "application/octet-stream",
    }
}

/// The costing a routing request uses when it names none.
pub fn default_costing() -> (c: String)
    ensures
        c@ == "pedestrian"@,
{
    String::from_str("pedestrian")
}

/// Flipping a row between XYZ and TMS twice gives the row back, and an in-range row stays in
/// range: mbtiles rows count from the bottom, requests from the top.
pub proof fn tms_flip_is_its_own_inverse(z: u8, y: u32)
    requires
        z < 32,
        y < pow2(z as nat),
    ensures
        (pow2(z as nat) - 1 - y) < pow2(z as nat),
        pow2(z as nat) - 1 - (pow2(z as nat) - 1 - y) == y,
{
}

/// The part of a path segment before its first `.`: a tile request may carry an extension.
pub open spec fn before_dot(s: Seq<char>) -> Seq<char> {
    s.subrange(0, run(s, 0, Class::NotDot) as int)
}

/// The tile row a request names: the segment up to its first `.` (`3.pbf` is row 3), read as
/// `str::parse::<u32>` reads it.
pub fn request_row(y: &str) -> (r: Option<u32>)
    ensures
        match parse_unsigned(before_dot(y@), u32::MAX as nat) {
            Some(n) => r == Some(n as u32),
            None => r is None,
        },
{
    let v = chars_of(y);
    let e = run_end(&v, 0, Class::NotDot);
    parse_u32_range(&v, 0, e)
}

/// What a tile request is answered with.
#[derive(Debug, Clone, PartialEq)]
pub enum TileReply {
    /// The row is not a number.
    BadRow,
    /// No archive is served under that name.
    UnknownSource,
    /// The archive has no such tile: normal for sparse coverage, so not an error.
    NoTile,
    /// The tile, with its type and whether the bytes are gzipped.
    Tile { content_type: &'static str, gzip: bool, body: Vec<u8> },
    /// Reading the archive failed.
    Failed { message: String },
}

impl TileReply {
    /// The HTTP status of the reply.
    pub fn status(&self) -> (code: u16)
        ensures
            code == match *self {
                TileReply::BadRow => 400u16,
                TileReply::UnknownSource => 404u16,
                TileReply::NoTile => 204u16,
                TileReply::Tile { .. } => 200u16,
                TileReply::Failed { .. } => 500u16,
            },
    {
        match self {
            TileReply::BadRow => 400,
            TileReply::UnknownSource => 404,
            TileReply::NoTile => 204,
            TileReply::Tile { .. } => 200,
            TileReply::Failed { .. } => 500,
        }
    }
}

/// The reply to a tile read from an archive of `format`: the tile with its content type, marked
/// gzipped when its bytes are; no content when there is no such tile; a failure as such.
pub fn tile_reply(format: &TileFormat, fetched: Result<Option<Vec<u8>>, String>) -> (r: TileReply)
    ensures
        match fetched {
            Ok(Some(blob)) => (r matches TileReply::Tile { content_type, gzip, body } && content_type@ == content_type_of(format@)
                && gzip == (blob@.len() >= 2 && blob@[0] == 0x1f && blob@[1] == 0x8b) && body@ == blob@),
            Ok(None) => r == TileReply::NoTile,
            Err(m) => (r matches TileReply::Failed { message } && message@ == m@),
        },
{
    match fetched {
        Ok(Some(blob)) => {
            let gzip = is_gzip(blob.as_slice());
            TileReply::Tile { content_type: content_type(format), gzip, body: blob }
        },
        Ok(None) => TileReply::NoTile,
        Err(message) => TileReply::Failed { message },
    }
}


/// The registry key of an archive: `<area>/<file name>`.
pub fn source_key(area: &str, file: &str) -> (k: String)
    ensures
        k@ == area@ + "/"@ + file@,
{
    let a = crate::text::concat_str(area, "/");
    crate::text::concat_str(a.as_str(), file)
}

/// The tile URL template a TileJSON document hands out for an archive.
pub fn tiles_template(base: &str, area: &str, file: &str) -> (t: String)
    ensures
        t@ == base@ + "/tiles/"@ + area@ + "/"@ + file@ + "/{z}/{x}/{y}"@,
{
    let a = crate::text::concat_str(base, "/tiles/");
    let b = crate::text::concat_str(a.as_str(), area);
    let c = crate::text::concat_str(b.as_str(), "/");
    let d = crate::text::concat_str(c.as_str(), file);
    crate::text::concat_str(d.as_str(), "/{z}/{x}/{y}")
}

/// How a TileJSON document names the encoding of an archive's tiles: `mlt` for MapLibre
/// tiles, `mvt` for everything else.
pub fn tile_encoding(format: &TileFormat) -> (e: &'static str)
    ensures
        e@ == (if format@ == FormatModel::Mlt { "mlt"@ } else { "mvt"@ }),
{
    match format {
        TileFormat::Mlt => "mlt",
        _ => "mvt",
    }
}

/// The options a step's form is built from, by the step's name: routes and basemap have their
/// own, anything else the options every planetiler step shares.
pub fn options_named(step: &str) -> (defs: Vec<OptionDef>)
    ensures
        keys_and_flags(defs@) == (if step@ == "routes"@ {
            common_keys() + routes_extra_keys()
        } else if step@ == "basemap"@ {
            common_keys() + basemap_extra_keys()
        } else {
            common_keys()
        }),
{
    if crate::text::same_text(step, "routes") {
        routes_options()
    } else if crate::text::same_text(step, "basemap") {
        basemap_options()
    } else {
        planetiler_common()
    }
}


/// What the server needs of an archive to serve it: where it is, how its tiles are encoded, the
/// zooms it covers and the tile size it announces. (Its bounds and vector layer list are read
/// from the metadata as JSON and numbers, outside this library.)
#[derive(Debug, Clone, PartialEq)]
pub struct Served {
    pub path: String,
    pub format: TileFormat,
    pub minzoom: u8,
    pub maxzoom: u8,
    pub encoding: Option<String>,
    pub tile_size: u32,
}

/// An archive as served: zooms default to 0 and 14 when its metadata does not say, and tiles
/// are announced at 512 pixels, the convention for terrain-RGB and vector tiles alike.
pub fn served_from(art: &Artifact) -> (s: Served)
    ensures
        s.path@ == art.path@,
        s.format@ == art.format@,
        s.minzoom == (match art.minzoom { Some(z) => z, None => 0u8 }),
        s.maxzoom == (match art.maxzoom { Some(z) => z, None => 14u8 }),
        crate::settings::text_of(s.encoding) == crate::settings::text_of(art.encoding),
        s.tile_size == 512,
{
    Served {
        path: art.path.clone(),
        format: art.format.copied(),
        minzoom: match art.minzoom {
            Some(z) => z,
            None => 0,
        },
        maxzoom: match art.maxzoom {
            Some(z) => z,
            None => 14,
        },
        encoding: match &art.encoding {
            Some(e) => Some(e.clone()),
            None => None,
        },
        tile_size: 512,
    }
}

} // verus!
