use cairn_core::download::{extract_path, poly_path, poly_url_from_pbf};
use cairn_core::elevation_tiles::Tile;
use cairn_core::hgt::{file_name, parse_name, HgtSource, HgtTile};
use cairn_core::settings::Settings;
use cairn_core::state::{hash_options, outputs_for, state_path};
use cairn_core::steps::StepId;

#[test]
fn settings_defaults_follow_the_repo_layout() {
    let s = Settings::for_repo("/repo".to_string());
    assert_eq!(s.output_root, "/repo/alpimaps_mbtiles");
    assert_eq!(s.data_dir, "/repo/data/sources");
    assert_eq!(s.area_dir("rhone-alpes"), "/repo/alpimaps_mbtiles/rhone-alpes");
}

#[test]
fn download_the_extract_is_named_the_way_planetiler_expects() {
    assert_eq!(extract_path("/data", "rhone-alpes"), "/data/rhone_alpes.osm.pbf");
}

#[test]
fn poly_url_is_derived_from_the_extract_url() {
    assert_eq!(
        poly_url_from_pbf("https://download.geofabrik.de/europe/france/rhone-alpes-latest.osm.pbf")
            .as_deref(),
        Some("https://download.geofabrik.de/europe/france/rhone-alpes.poly")
    );
    assert_eq!(poly_url_from_pbf("https://example.invalid/rhone-alpes.osm.pbf"), None);
}

#[test]
fn poly_path_keeps_the_area_name() {
    let p = poly_path("/data", "rhone-alpes");
    assert_eq!(p, "/data/rhone-alpes.poly");
}

#[test]
fn tiles_are_named_the_way_the_mirror_names_them() {
    assert_eq!(Tile::at(6, 45), Tile { dir: "N45".into(), name: "N45E006.hgt".into() });
    assert_eq!(Tile::at(-1, 51), Tile { dir: "N51".into(), name: "N51W001.hgt".into() });
    assert_eq!(Tile::at(-70, -34), Tile { dir: "S34".into(), name: "S34W070.hgt".into() });
    assert_eq!(
        Tile::at(6, 45).url(),
        "https://elevation-tiles-prod.s3.us-east-1.amazonaws.com/skadi/N45/N45E006.hgt.gz"
    );
}

#[test]
fn mirror_tiles_land_in_their_degree_directory() {
    let t = Tile::at(6, 45);
    assert_eq!(t.path("/elev", false), "/elev/N45/N45E006.hgt");
    assert_eq!(t.path("/elev", true), "/elev/N45/N45E006.hgt.gz");
}

#[test]
fn names_follow_the_srtm_convention() {
    assert_eq!(file_name(6, 44), "N44E006.hgt");
    assert_eq!(file_name(-3, -9), "S09W003.hgt");
    assert_eq!(file_name(0, 0), "N00E000.hgt");
}

#[test]
fn parses_names_back() {
    assert_eq!(parse_name("N44E006.hgt"), Some((6, 44)));
    assert_eq!(parse_name("S09W003.hgt"), Some((-3, -9)));
    assert_eq!(parse_name("readme.txt"), None);
}

fn grid(size: usize, f: impl Fn(usize, usize) -> i16) -> Vec<u8> {
    let mut out = Vec::with_capacity(size * size * 2);
    for row in 0..size {
        for col in 0..size {
            out.extend_from_slice(&f(row, col).to_be_bytes());
        }
    }
    out
}

#[test]
fn infers_size_from_length() {
    assert_eq!(HgtTile::parse(&grid(1201, |_, _| 0)).unwrap().size, 1201);
    assert_eq!(HgtTile::parse(&grid(3601, |_, _| 0)).unwrap().size, 3601);
    assert!(HgtTile::parse(&[0, 0, 0]).is_err());
}

#[test]
fn samples_read_big_endian_and_voids_are_missing() {
    let tile = HgtTile::parse(&grid(3, |row, col| if row == 1 && col == 1 { -32768 } else { (row * 3 + col) as i16 - 2 })).unwrap();
    assert_eq!(tile.at(0, 0), Some(-2));
    assert_eq!(tile.at(2, 2), Some(6));
    assert_eq!(tile.at(1, 1), None);
    assert_eq!(tile.at(3, 0), None);
    let err = HgtTile::parse(&[0, 0, 0, 0, 0, 0]).err().unwrap();
    assert_eq!(err.message(), "6 bytes is not a square i16 grid");
}

#[test]
fn tiles_are_looked_for_in_a_degree_directory_first() {
    let src = HgtSource::new("/elev".to_string());
    assert_eq!(src.candidates(6, 44), vec!["/elev/N44/N44E006.hgt".to_string(), "/elev/N44E006.hgt".to_string()]);
}

#[test]
fn state_lives_beside_the_outputs() {
    assert_eq!(state_path("/out/alps"), "/out/alps/.studio-state.json");
    let s = Settings::for_repo("/repo".to_string());
    assert_eq!(outputs_for(&s, "rhone-alpes", StepId::Routes), vec!["/repo/alpimaps_mbtiles/rhone-alpes/rhone-alpes_routes.mbtiles".to_string()]);
    assert_eq!(outputs_for(&s, "rhone-alpes", StepId::DownloadOsm), vec!["/repo/data/sources/rhone_alpes.osm.pbf".to_string()]);
    assert_eq!(outputs_for(&s, "rhone-alpes", StepId::ValhallaTiles), vec!["/repo/valhalla_tiles".to_string()]);
    assert_eq!(outputs_for(&s, "rhone-alpes", StepId::ElevationTiles), vec!["/repo/elevation_tiles".to_string()]);
}

#[test]
fn option_fingerprint_is_fnv1a() {
    // FNV-1a of the empty string is the offset basis; of "a" a known constant
    assert_eq!(hash_options(""), "cbf29ce484222325");
    assert_eq!(hash_options("a"), "af63dc4c8601ec8c");
}
