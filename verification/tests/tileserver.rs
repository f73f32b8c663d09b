use cairn_core::catalog::TileFormat;
use cairn_core::tileserver::{request_row, tile_reply, tms_row, TileReply};

#[test]
fn a_row_may_carry_an_extension() {
    assert_eq!(request_row("3.pbf"), Some(3));
    assert_eq!(request_row("17"), Some(17));
    assert_eq!(request_row("+5.png"), Some(5));
    assert_eq!(request_row("x.pbf"), None);
    assert_eq!(request_row(".pbf"), None);
    assert_eq!(request_row("4294967296"), None);
}

#[test]
fn replies_follow_what_the_archive_gave() {
    let gz = vec![0x1f, 0x8b, 8, 0];
    match tile_reply(&TileFormat::Mvt, Ok(Some(gz.clone()))) {
        TileReply::Tile { content_type, gzip, body } => {
            assert_eq!(content_type, "application/x-protobuf");
            assert!(gzip);
            assert_eq!(body, gz);
        }
        other => panic!("expected a tile, got {other:?}"),
    }
    let plain = tile_reply(&TileFormat::Webp, Ok(Some(vec![1, 2])));
    assert!(matches!(&plain, TileReply::Tile { gzip: false, content_type: "image/webp", .. }));
    assert_eq!(plain.status(), 200);
    assert_eq!(tile_reply(&TileFormat::Png, Ok(None)), TileReply::NoTile);
    assert_eq!(TileReply::NoTile.status(), 204);
    let failed = tile_reply(&TileFormat::Png, Err("disk".into()));
    assert_eq!(failed, TileReply::Failed { message: "disk".into() });
    assert_eq!(failed.status(), 500);
    assert_eq!(TileReply::BadRow.status(), 400);
    assert_eq!(TileReply::UnknownSource.status(), 404);
}

#[test]
fn xyz_rows_flip_to_tms_and_back() {
    assert_eq!(tms_row(2, 1), Some(2));
    assert_eq!(tms_row(2, 2), Some(1));
    assert_eq!(tms_row(2, 4), None);
    for y in 0..8u32 {
        assert_eq!(tms_row(3, tms_row(3, y).unwrap()), Some(y));
    }
}

#[test]
fn tilejson_points_at_the_tile_route() {
    assert_eq!(
        cairn_core::tileserver::tiles_template("http://127.0.0.1:7777", "alps", "alps.mbtiles"),
        "http://127.0.0.1:7777/tiles/alps/alps.mbtiles/{z}/{x}/{y}"
    );
    assert_eq!(cairn_core::tileserver::source_key("alps", "alps.mbtiles"), "alps/alps.mbtiles");
    assert_eq!(cairn_core::tileserver::tile_encoding(&cairn_core::catalog::TileFormat::Mlt), "mlt");
    assert_eq!(cairn_core::tileserver::tile_encoding(&cairn_core::catalog::TileFormat::Mvt), "mvt");
    assert_eq!(cairn_core::tileserver::tile_encoding(&cairn_core::catalog::TileFormat::Png), "mvt");
}

#[test]
fn step_forms_fall_back_to_the_shared_options() {
    let common = cairn_core::options::planetiler_common().len();
    assert_eq!(cairn_core::tileserver::options_named("terrain").len(), common);
    assert!(cairn_core::tileserver::options_named("basemap").len() > common);
    assert!(cairn_core::tileserver::options_named("routes").len() > common);
}

#[test]
fn served_archives_default_their_zooms() {
    let meta = vec![("format".to_string(), "pbf".to_string()), ("minzoom".to_string(), "5".to_string())];
    let art = cairn_core::catalog::probe("/o/alps/alps.mbtiles", "alps.mbtiles", "alps", 100, Ok((meta, vec![])));
    let served = cairn_core::tileserver::served_from(&art);
    assert_eq!(served.path, "/o/alps/alps.mbtiles");
    assert_eq!(served.format, TileFormat::Mvt);
    assert_eq!(served.minzoom, 5);
    assert_eq!(served.maxzoom, 14);
    assert_eq!(served.tile_size, 512);
    assert_eq!(served.encoding, None);
}

/// mbtiles rows are TMS (origin bottom-left); XYZ requests count from the top. At z=2 the
/// four rows are 0..3, so XYZ y=1 must read TMS row 2.
#[test]
fn flips_tms_rows() {
    assert_eq!(tms_row(2, 1), Some(2));
    assert_ne!(tms_row(2, 1), Some(1), "unflipped lookup must miss");
}

#[test]
fn rejects_out_of_range_y() {
    // at z=0 there is exactly one tile; y=1 would underflow the flip
    assert_eq!(tms_row(0, 1), None);
    assert_eq!(tms_row(0, 0), Some(0));
}

#[test]
fn content_types_distinguish_mvt_from_mlt() {
    let mvt = cairn_core::catalog::probe("/d/a.mbtiles", "a.mbtiles", "a", 0, Ok((vec![("format".to_string(), "pbf".to_string())], vec![])));
    assert_eq!(cairn_core::tileserver::content_type(&cairn_core::tileserver::served_from(&mvt).format), "application/x-protobuf");
    let mlt = cairn_core::catalog::probe(
        "/d/a_mlt.mbtiles",
        "a_mlt.mbtiles",
        "a",
        0,
        Ok((vec![("format".to_string(), "application/vnd.maplibre-vector-tile".to_string())], vec![])),
    );
    assert_eq!(
        cairn_core::tileserver::content_type(&cairn_core::tileserver::served_from(&mlt).format),
        "application/vnd.maplibre-vector-tile"
    );
}
