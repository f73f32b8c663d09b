//! Valhalla routing packages: which graph tiles go in, and how each is compressed.
//!
//! Every tile is stored gzipped. zopfli is the default: about 3% smaller than zlib at level 9
//! for a much slower compress, and still ordinary gzip for the reader.
use vstd::prelude::*;
use std::io::Read;
use std::io::Write;
use crate::cli::PackageArgs;
use crate::settings::Settings;
use crate::text::{join, path_join};
use crate::valhalla::{tile_path, GraphTile};

verus! {

#[verifier::external_type_specification]
#[verifier::external_body]
pub struct ExIoError(std::io::Error);

#[derive(Debug, Clone, Copy, PartialEq, Eq, Structural)]
pub enum Compression {
    /// Slower, ~3% smaller, and still plain gzip on the wire.
    Zopfli,
    /// zlib level 9 with a gzip wrapper.
    Zlib,
}

/// The gzip stream zopfli produces for `data` with its default options.
pub uninterp spec fn zopfli_gzip(data: Seq<u8>) -> Seq<u8>;

/// The gzip stream flate2 produces for `data` at compression level 9.
pub uninterp spec fn zlib_gzip(data: Seq<u8>) -> Seq<u8>;

/// Wraps `zopfli::compress` with default options and the gzip format, writing into a vector.
/// The output is a function of the input alone. zopfli only passes on its writer's errors, and
/// writing into a vector does not fail, so it succeeds.
#[verifier::external_body]
fn zopfli_compress(data: &[u8]) -> (r: Result<Vec<u8>, std::io::Error>)
    ensures
        r is Ok,
        r matches Ok(out) ==> out@ == zopfli_gzip(data@),
{
    let mut out = Vec::new();
    zopfli::compress(zopfli::Options::default(), zopfli::Format::Gzip, data, &mut out)?;
    Ok(out)
}

/// Wraps flate2's `GzEncoder` at `Compression::new(9)` over a vector: `new`, `write_all` of the
/// data, then `finish`. The output is a function of the input alone. The encoder only passes on
/// its writer's errors, and writing into a vector does not fail, so it succeeds.
#[verifier::external_body]
fn zlib_compress(data: &[u8]) -> (r: Result<Vec<u8>, std::io::Error>)
    ensures
        r is Ok,
        r matches Ok(out) ==> out@ == zlib_gzip(data@),
{
    let mut encoder = flate2::write::GzEncoder::new(Vec::new(), flate2::Compression::new(9));
    encoder.write_all(data)?;
    encoder.finish()
}

/// Wraps `std::io::Error`'s `Display`; nothing is stated of the text.
#[verifier::external_body]
pub(crate) fn io_error_text(e: &std::io::Error) -> String {
    e.to_string()
}

/// A compressor failed; the text is its own error message.
#[derive(Debug, Clone, PartialEq)]
pub struct CompressError {
    pub how: Compression,
    pub message: String,
}

/// Compress one tile to gzip, with the chosen compressor. Compressing into memory always
/// succeeds; the error case stays in the signature for the compressors' own error type.
pub fn compress(data: &[u8], how: Compression) -> (r: Result<Vec<u8>, CompressError>)
    ensures
        r matches Ok(out) && out@ == match how {
            Compression::Zopfli => zopfli_gzip(data@),
            Compression::Zlib => zlib_gzip(data@),
        },
{
    let attempt = match how {
        Compression::Zopfli => zopfli_compress(data),
        Compression::Zlib => zlib_compress(data),
    };
    match attempt {
        Ok(out) => Ok(out),
        Err(e) => Err(CompressError { how, message: io_error_text(&e) }),
    }
}

#[derive(Debug, Clone, PartialEq)]
pub struct PackageOptions {
    pub package_id: String,
    pub tile_dir: String,
    pub output: String,
    pub compression: Compression,
}

#[derive(Debug, Clone, Default, PartialEq)]
pub struct PackageReport {
    pub tiles_written: usize,
    pub tiles_missing: usize,
    pub raw_bytes: u64,
    pub compressed_bytes: u64,
}

impl PackageReport {
    /// The report before any tile is written: only the missing ones are known.
    pub fn for_missing(missing: usize) -> (r: Self)
        ensures
            r.tiles_missing == missing,
            r.tiles_written == 0,
            r.raw_bytes == 0,
            r.compressed_bytes == 0,
    {
        PackageReport { tiles_written: 0, tiles_missing: missing, raw_bytes: 0, compressed_bytes: 0 }
    }

    /// Count one tile written: its size before and after compression.
    pub fn record(&mut self, raw_len: u64, compressed_len: u64)
        requires
            old(self).tiles_written < usize::MAX,
            old(self).raw_bytes + raw_len <= u64::MAX,
            old(self).compressed_bytes + compressed_len <= u64::MAX,
        ensures
            final(self).tiles_written == old(self).tiles_written + 1,
            final(self).tiles_missing == old(self).tiles_missing,
            final(self).raw_bytes == old(self).raw_bytes + raw_len,
            final(self).compressed_bytes == old(self).compressed_bytes + compressed_len,
    {
        self.raw_bytes = self.raw_bytes + raw_len;
        self.compressed_bytes = self.compressed_bytes + compressed_len;
        self.tiles_written = self.tiles_written + 1;
    }
}

/// The metadata rows of a routing package, in the order they are written.
pub fn package_metadata(package_id: &str) -> (rows: Vec<(String, String)>)
    ensures
        rows@.map_values(|r: (String, String)| (r.0@, r.1@)) == seq![
            ("name"@, package_id@),
            ("type"@, "routing"@),
            ("version"@, "1.0"@),
            ("format"@, "gph3"@),
            ("description"@, "Nutiteq Valhalla routing package for "@ + package_id@),
        ],
{
    let mut rows: Vec<(String, String)> = Vec::new();
    rows.push((String::from_str("name"), String::from_str(package_id)));
    rows.push((String::from_str("type"), String::from_str("routing")));
    rows.push((String::from_str("version"), String::from_str("1.0")));
    rows.push((String::from_str("format"), String::from_str("gph3")));
    rows.push((String::from_str("description"), crate::text::concat_str("Nutiteq Valhalla routing package for ", package_id)));
    assert(rows@.map_values(|r: (String, String)| (r.0@, r.1@)) =~= seq![
        ("name"@, package_id@),
        ("type"@, "routing"@),
        ("version"@, "1.0"@),
        ("format"@, "gph3"@),
        ("description"@, "Nutiteq Valhalla routing package for "@ + package_id@),
    ]);
    rows
}

/// Where a tile's `.gph` file sits under a tile directory.
pub fn tile_file(tile_dir: &str, tile: GraphTile) -> (p: String)
    ensures
        p@ == path_join(tile_dir@, tile_path(tile)),
{
    let rel = tile.path();
    join(tile_dir, rel.as_str())
}

/// What flate2's `GzDecoder` reads out of a gzip stream, or `None` when it refuses it.
pub uninterp spec fn gzip_decoded(blob: Seq<u8>) -> Option<Seq<u8>>;

/// Wraps `flate2::read::GzDecoder::new` and `read_to_end` into a new vector. The outcome,
/// bytes or refusal, is a function of the input alone.
#[verifier::external_body]
fn gunzip(blob: &[u8]) -> (r: Result<Vec<u8>, std::io::Error>)
    ensures
        match r {
            Ok(out) => gzip_decoded(blob@) == Some(out@),
            Err(_) => gzip_decoded(blob@) is None,
        },
{
    let mut out = Vec::new();
    flate2::read::GzDecoder::new(blob).read_to_end(&mut out)?;
    Ok(out)
}

/// One tile of a package as it goes back on disk: where its `.gph` file sits under the tile
/// directory, and its bytes ungzipped, since Valhalla reads tiles raw. This is what makes a
/// package testable: routing against an unpacked package proves the artefact that ships. A blob
/// that is not gzip is refused, naming the tile.
pub fn unpacked_tile(tile_dir: &str, tile: GraphTile, blob: &[u8]) -> (r: Result<(String, Vec<u8>), String>)
    ensures
        match gzip_decoded(blob@) {
            Some(raw) => (r matches Ok((p, v)) && p@ == path_join(tile_dir@, tile_path(tile)) && v@ == raw),
            None => (r matches Err(m) && m@ == "decompressing "@ + tile_path(tile)),
        },
{
    match gunzip(blob) {
        Ok(raw) => Ok((tile_file(tile_dir, tile), raw)),
        Err(_) => {
            let rel = tile.path();
            Err(crate::text::concat_str("decompressing ", rel.as_str()))
        },
    }
}

/// Which `.gph` files exist for a set of graph tiles: `is_file[i]` tells whether the file of
/// `tiles[i]` is there. Present tiles come back with their path, missing ones on their own, both
/// in the order given.
pub fn resolve(tile_dir: &str, tiles: &[GraphTile], is_file: &[bool]) -> (r: (Vec<(GraphTile, String)>, Vec<GraphTile>))
    requires
        is_file@.len() == tiles@.len(),
    ensures
        r.0@.map_values(|p: (GraphTile, String)| (p.0, p.1@)) == found_tiles(tile_dir@, tiles@, is_file@),
        r.1@ == missing_tiles(tiles@, is_file@),
{
    let mut found: Vec<(GraphTile, String)> = Vec::new();
    let mut missing: Vec<GraphTile> = Vec::new();
    let mut i: usize = 0;
    while i < tiles.len()
        invariant
            i <= tiles@.len(),
            is_file@.len() == tiles@.len(),
            found@.map_values(|p: (GraphTile, String)| (p.0, p.1@)) == found_tiles(
                tile_dir@,
                tiles@.take(i as int),
                is_file@.take(i as int),
            ),
            missing@ == missing_tiles(tiles@.take(i as int), is_file@.take(i as int)),
        decreases tiles@.len() - i,
    {
        let tile = tiles[i];
        assert(tiles@.take(i + 1).drop_last() =~= tiles@.take(i as int));
        assert(is_file@.take(i + 1).drop_last() =~= is_file@.take(i as int));
        if is_file[i] {
            let ghost before = found@;
            found.push((tile, tile_file(tile_dir, tile)));
            assert(found@.map_values(|p: (GraphTile, String)| (p.0, p.1@)) =~= before.map_values(
                |p: (GraphTile, String)| (p.0, p.1@),
            ).push((tile, path_join(tile_dir@, tile_path(tile)))));
        } else {
            missing.push(tile);
        }
        i = i + 1;
    }
    assert(tiles@.take(tiles@.len() as int) =~= tiles@);
    assert(is_file@.take(is_file@.len() as int) =~= is_file@);
    (found, missing)
}

/// The tiles whose file is there, each with its path, in order.
pub open spec fn found_tiles(dir: Seq<char>, tiles: Seq<GraphTile>, present: Seq<bool>) -> Seq<(GraphTile, Seq<char>)>
    decreases tiles.len(),
{
    if tiles.len() == 0 || present.len() != tiles.len() {
        Seq::empty()
    } else {
        let rest = found_tiles(dir, tiles.drop_last(), present.drop_last());
        if present.last() {
            rest.push((tiles.last(), path_join(dir, tile_path(tiles.last()))))
        } else {
            rest
        }
    }
}

/// The tiles whose file is not there, in order.
pub open spec fn missing_tiles(tiles: Seq<GraphTile>, present: Seq<bool>) -> Seq<GraphTile>
    decreases tiles.len(),
{
    if tiles.len() == 0 || present.len() != tiles.len() {
        Seq::empty()
    } else {
        let rest = missing_tiles(tiles.drop_last(), present.drop_last());
        if present.last() {
            rest
        } else {
            rest.push(tiles.last())
        }
    }
}


/// The compressor a `--compression` name selects.
pub fn compression_named(name: &str) -> (c: Option<Compression>)
    ensures
        c == (if name@ == "zopfli"@ {
            Some(Compression::Zopfli)
        } else if name@ == "zlib"@ {
            Some(Compression::Zlib)
        } else {
            None::<Compression>
        }),
{
    if crate::text::same_text(name, "zopfli") {
        Some(Compression::Zopfli)
    } else if crate::text::same_text(name, "zlib") {
        Some(Compression::Zlib)
    } else {
        None
    }
}

/// Where the graph tiles to pack come from.
#[derive(Debug, Clone, PartialEq)]
pub enum TileList {
    /// The tiles covering a `.poly` shape; which those are follows from its coordinates.
    Shape(String),
    /// The tiles a web-mercator quadtree mask marks, expanded to a zoom.
    Mask { mask: String, max_zoom: u8 },
    /// The tiles listed in an existing package.
    Like(String),
}

/// In order of directness: the shape, which can describe an area nothing has covered yet; a
/// tilemask; an existing package, the one named or else the output about to be replaced.
pub fn tile_list_for(args: &PackageArgs, output: &str) -> (t: TileList)
    ensures
        match args.poly {
            Some(p) => (t matches TileList::Shape(q) && q@ == p@),
            None => match args.tilemask {
                Some(m) => (t matches TileList::Mask { mask, max_zoom } && mask@ == m@ && max_zoom == args.polymaxzoom),
                None => (t matches TileList::Like(r) && r@ == match args.like {
                    Some(l) => l@,
                    None => output@,
                }),
            },
        },
{
    match &args.poly {
        Some(p) => TileList::Shape(p.clone()),
        None => match &args.tilemask {
            Some(m) => TileList::Mask { mask: m.clone(), max_zoom: args.polymaxzoom },
            None => match &args.like {
                Some(l) => TileList::Like(l.clone()),
                None => TileList::Like(String::from_str(output)),
            },
        },
    }
}

/// The Valhalla tile directory a package is built from: the one given, or the graph build's
/// output in the repository.
pub fn package_tile_dir(settings: &Settings, args: &PackageArgs) -> (d: String)
    ensures
        d@ == match args.tiles {
            Some(t) => t@,
            None => path_join(settings.repo_root@, "valhalla_tiles"@),
        },
{
    match &args.tiles {
        Some(t) => t.clone(),
        None => join(settings.repo_root.as_str(), "valhalla_tiles"),
    }
}

/// The package written: the path given, or `<output root>/<area>/<area>.vtiles`.
pub fn package_output(settings: &Settings, args: &PackageArgs) -> (o: String)
    ensures
        o@ == match args.output {
            Some(p) => p@,
            None => path_join(path_join(settings.output_root@, args.area@), args.area@ + ".vtiles"@),
        },
{
    match &args.output {
        Some(p) => p.clone(),
        None => {
            let dir = settings.area_dir(args.area.as_str());
            let name = crate::text::concat_str(args.area.as_str(), ".vtiles");
            join(dir.as_str(), name.as_str())
        },
    }
}

} // verus!
