use std::io::Read;
use cairn_core::package::{compress, resolve, tile_file, Compression};
use cairn_core::valhalla::GraphTile;
use cairn_core::package::{package_metadata, PackageReport};

#[test]
fn level_zero_path_has_two_groups() {
    assert_eq!(GraphTile::new(45, 33, 0).path(), "0/003/015.gph");
}

#[test]
fn level_two_path_has_three_groups() {
    assert_eq!(GraphTile::new(0, 720, 2).path(), "2/001/036/800.gph");
}

#[test]
fn level_one_path_has_two_groups() {
    assert_eq!(GraphTile::new(5, 3, 1).path(), "1/001/085.gph");
}

#[test]
fn id_zero_is_all_zeroes() {
    assert_eq!(GraphTile::new(0, 0, 2).path(), "2/000/000/000.gph");
    assert_eq!(GraphTile::new(0, 0, 0).path(), "0/000/000.gph");
}

#[test]
fn deeper_levels_add_groups() {
    assert_eq!(GraphTile::new(7, 0, 3).path(), "3/000/000/000/007.gph");
}

#[test]
fn both_compressors_produce_readable_gzip() {
    let data = b"valhalla graph tile payload, repeated. ".repeat(400);
    for how in [Compression::Zlib, Compression::Zopfli] {
        let blob = compress(&data, how).unwrap();
        assert_eq!(&blob[..2], &[0x1f, 0x8b], "{how:?} must emit a gzip header");
        let mut out = Vec::new();
        flate2::read::GzDecoder::new(&blob[..]).read_to_end(&mut out).unwrap();
        assert_eq!(out, data, "{how:?} round trip");
    }
}

#[test]
fn resolve_keeps_order_and_paths() {
    let tiles = [GraphTile::new(0, 0, 0), GraphTile::new(1, 0, 0), GraphTile::new(2, 0, 0)];
    let (found, missing) = resolve("/tiles", &tiles, &[true, false, true]);
    assert_eq!(
        found,
        vec![
            (GraphTile::new(0, 0, 0), "/tiles/0/000/000.gph".to_string()),
            (GraphTile::new(2, 0, 0), "/tiles/0/000/002.gph".to_string()),
        ]
    );
    assert_eq!(missing, vec![GraphTile::new(1, 0, 0)]);
    assert_eq!(tile_file("/tiles/", GraphTile::new(5, 3, 1)), "/tiles/1/001/085.gph");
}

#[test]
fn a_package_says_what_it_is() {
    let rows = package_metadata("alps");
    assert_eq!(
        rows,
        vec![
            ("name".to_string(), "alps".to_string()),
            ("type".to_string(), "routing".to_string()),
            ("version".to_string(), "1.0".to_string()),
            ("format".to_string(), "gph3".to_string()),
            ("description".to_string(), "Nutiteq Valhalla routing package for alps".to_string()),
        ]
    );
    let mut report = PackageReport::for_missing(3);
    report.record(100, 40);
    report.record(50, 20);
    assert_eq!(report, PackageReport { tiles_written: 2, tiles_missing: 3, raw_bytes: 150, compressed_bytes: 60 });
}

fn package_args(area: &str) -> cairn_core::cli::PackageArgs {
    cairn_core::cli::PackageArgs {
        area: area.to_string(),
        tiles: None,
        poly: None,
        levels: vec![0, 1, 2],
        tilemask: None,
        polymaxzoom: 11,
        like: None,
        compression: "zopfli".to_string(),
        output: None,
        dry_run: false,
        skip_existing: false,
    }
}

#[test]
fn package_paths_default_to_the_repository_layout() {
    let settings = cairn_core::settings::Settings::for_repo("/repo".to_string());
    let mut args = package_args("alps");
    assert_eq!(cairn_core::package::package_tile_dir(&settings, &args), "/repo/valhalla_tiles");
    assert_eq!(cairn_core::package::package_output(&settings, &args), "/repo/alpimaps_mbtiles/alps/alps.vtiles");
    args.tiles = Some("/g".to_string());
    args.output = Some("/tmp/x.vtiles".to_string());
    assert_eq!(cairn_core::package::package_tile_dir(&settings, &args), "/g");
    assert_eq!(cairn_core::package::package_output(&settings, &args), "/tmp/x.vtiles");
}

#[test]
fn tile_list_prefers_the_shape_then_the_mask_then_a_package() {
    let mut args = package_args("alps");
    assert_eq!(cairn_core::package::tile_list_for(&args, "/o/alps.vtiles"), cairn_core::package::TileList::Like("/o/alps.vtiles".to_string()));
    args.like = Some("/old.vtiles".to_string());
    assert_eq!(cairn_core::package::tile_list_for(&args, "/o/alps.vtiles"), cairn_core::package::TileList::Like("/old.vtiles".to_string()));
    args.tilemask = Some("AAAA".to_string());
    assert_eq!(
        cairn_core::package::tile_list_for(&args, "/o/alps.vtiles"),
        cairn_core::package::TileList::Mask { mask: "AAAA".to_string(), max_zoom: 11 }
    );
    args.poly = Some("alps.poly".to_string());
    assert_eq!(cairn_core::package::tile_list_for(&args, "/o/alps.vtiles"), cairn_core::package::TileList::Shape("alps.poly".to_string()));
}

#[test]
fn compression_names() {
    assert_eq!(cairn_core::package::compression_named("zopfli"), Some(Compression::Zopfli));
    assert_eq!(cairn_core::package::compression_named("zlib"), Some(Compression::Zlib));
    assert_eq!(cairn_core::package::compression_named("gzip"), None);
}

#[test]
fn missing_tiles_are_reported_not_fatal() {
    let tiles = [GraphTile::new(1, 1, 0)];
    let (found, missing) = resolve("/tmp/empty", &tiles, &[false]);
    assert!(found.is_empty());
    let report = PackageReport::for_missing(missing.len());
    assert_eq!(report.tiles_written, 0);
    assert_eq!(report.tiles_missing, 1);
}

#[test]
fn a_packed_tile_unpacks_to_its_own_bytes_and_place() {
    let raw = b"graph tile bytes, repeated. ".repeat(50);
    for how in [Compression::Zopfli, Compression::Zlib] {
        let blob = compress(&raw, how).unwrap();
        let (path, back) = cairn_core::package::unpacked_tile("/t", GraphTile::new(45, 33, 0), &blob).unwrap();
        assert_eq!(path, "/t/0/003/015.gph");
        assert_eq!(back, raw);
    }
    assert_eq!(
        cairn_core::package::unpacked_tile("/t", GraphTile::new(45, 33, 0), b"not gzip"),
        Err("decompressing 0/003/015.gph".to_string())
    );
}
