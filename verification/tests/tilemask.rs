use base64::Engine;
use cairn_core::routing::available;
use cairn_core::catalog::TileFormat;
use cairn_core::tilemask::{tiles, tiles_from_bytes, QuadTile, TilemaskError};
use cairn_core::tileserver::{content_type, default_costing, tms_row};

fn encode(bits: &[u8]) -> String {
    let mut bytes = vec![0u8; bits.len().div_ceil(8)];
    for (i, bit) in bits.iter().enumerate() {
        bytes[i / 8] |= bit << (7 - i % 8);
    }
    base64::engine::general_purpose::STANDARD.encode(bytes)
}

#[test]
fn empty_mask_yields_nothing() {
    assert!(tiles("", 3).unwrap().is_empty());
}

#[test]
fn outside_root_covers_nothing() {
    assert!(tiles(&encode(&[0, 0]), 3).unwrap().is_empty());
}

#[test]
fn inside_leaf_expands_to_max_zoom() {
    let got = tiles(&encode(&[0, 1]), 1).unwrap();
    assert_eq!(got.len(), 5, "root plus its four children");
    assert!(got.contains(&QuadTile { z: 0, x: 0, y: 0 }));
    assert!(got.contains(&QuadTile { z: 1, x: 1, y: 1 }));
}

#[test]
fn descends_into_explicit_children() {
    let bits = [1, 0, 0, 1, 0, 0, 0, 0, 0, 0];
    let got = tiles(&encode(&bits), 1).unwrap();
    assert_eq!(got, vec![QuadTile { z: 1, x: 0, y: 0 }]);
}

#[test]
fn truncated_mask_is_an_error() {
    assert!(tiles(&encode(&[1, 1]), 2).is_err());
}

#[test]
fn rejects_non_base64() {
    assert!(tiles("!!!not base64!!!", 2).is_err());
}

#[test]
fn a_filled_leaf_is_depth_first_in_row_order() {
    let got = tiles_from_bytes(&[0b0100_0000], 1).unwrap();
    assert_eq!(
        got,
        vec![
            QuadTile { z: 0, x: 0, y: 0 },
            QuadTile { z: 1, x: 0, y: 0 },
            QuadTile { z: 1, x: 1, y: 0 },
            QuadTile { z: 1, x: 0, y: 1 },
            QuadTile { z: 1, x: 1, y: 1 },
        ]
    );
    // a single byte holds eight bits, so a root with children runs out at bit 8
    assert_eq!(tiles_from_bytes(&[0b1000_0000], 1), Err(TilemaskError::EndedEarly { at: 8 }));
    assert_eq!(TilemaskError::EndedEarly { at: 8 }.message(), "tilemask ended early at bit 8");
}

#[test]
fn surrounding_white_space_is_ignored() {
    assert_eq!(tiles(&format!("  {}\n", encode(&[0, 1])), 0).unwrap(), vec![QuadTile { z: 0, x: 0, y: 0 }]);
}

#[test]
fn xyz_rows_flip_to_tms() {
    assert_eq!(tms_row(2, 1), Some(2));
    assert_eq!(tms_row(0, 0), Some(0));
    assert_eq!(tms_row(0, 1), None);
    assert_eq!(tms_row(31, 0), Some(0x7fff_ffff));
}

#[test]
fn content_types_follow_the_format() {
    assert_eq!(content_type(&TileFormat::Mvt), "application/x-protobuf");
    assert_eq!(content_type(&TileFormat::Mlt), "application/vnd.maplibre-vector-tile");
    assert_eq!(content_type(&TileFormat::Other("tiff".into())), "application/octet-stream");
    assert_eq!(default_costing(), "pedestrian");
}

#[test]
fn this_build_cannot_route() {
    assert!(!available());
}

#[test]
fn an_inside_root_leaf_covers_everything_to_the_max_zoom() {
    // 0x40: no children, inside
    let t = cairn_core::tilemask::tiles("QA==", 1).unwrap();
    assert_eq!(t.len(), 5);
    assert_eq!(t[0], cairn_core::tilemask::QuadTile { z: 0, x: 0, y: 0 });
    assert_eq!(cairn_core::tilemask::tiles("QA==", 2).unwrap().len(), 21);
    assert_eq!(cairn_core::tilemask::tiles("QA==", 0).unwrap().len(), 1);
}
