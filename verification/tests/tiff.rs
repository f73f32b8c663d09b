use std::io::Write;
use cairn_core::geotiff::undo_float_predictor;
use cairn_core::tiff::{
    decode_tile_bytes, TileError,
    codec_for, decode_value, double_to_u64, first_int, level_from, more_directories,
    needs_float_predictor, parse_entries, parse_header, read_uint, tag_value, Codec, EntryData,
    TagValue, TiffError, TiffHeader, BITS_PER_SAMPLE, IMAGE_LENGTH, IMAGE_WIDTH,
    MODEL_PIXEL_SCALE, MODEL_TIEPOINT, SAMPLE_FORMAT, TILE_BYTE_COUNTS, TILE_LENGTH,
    TILE_OFFSETS, TILE_WIDTH,
};

fn le_entry(tag: u16, kind: u16, count: u32, payload: [u8; 4]) -> Vec<u8> {
    let mut e = Vec::new();
    e.extend_from_slice(&tag.to_le_bytes());
    e.extend_from_slice(&kind.to_le_bytes());
    e.extend_from_slice(&count.to_le_bytes());
    e.extend_from_slice(&payload);
    e
}

#[test]
fn headers_in_both_byte_orders() {
    let mut h = vec![b'I', b'I', 42, 0, 8, 0, 0, 0];
    h.resize(16, 0);
    assert_eq!(parse_header(&h), Ok(TiffHeader { little_endian: true, big: false, first_ifd: 8 }));
    let mut b = vec![b'M', b'M', 0, 43, 0, 8, 0, 0, 0, 0, 0, 0, 0, 0, 0x01, 0x10];
    b.truncate(16);
    assert_eq!(parse_header(&b), Ok(TiffHeader { little_endian: false, big: true, first_ifd: 0x110 }));
}

#[test]
fn a_non_tiff_is_refused() {
    let mut h = b"GIF89a".to_vec();
    h.resize(16, 0);
    assert_eq!(parse_header(&h), Err(TiffError::ByteOrder { first: b'G', second: b'I' }));
    let mut m = vec![b'I', b'I', 7, 0];
    m.resize(16, 0);
    assert_eq!(parse_header(&m), Err(TiffError::Magic { found: 7 }));
}

#[test]
fn integers_read_in_either_order() {
    let b = [0x12, 0x34, 0x56, 0x78];
    assert_eq!(read_uint(&b, 0, 4, true), 0x7856_3412);
    assert_eq!(read_uint(&b, 0, 4, false), 0x1234_5678);
    assert_eq!(read_uint(&b, 1, 2, false), 0x3456);
}

#[test]
fn directory_counts_and_entries() {
    let h = TiffHeader { little_endian: true, big: false, first_ifd: 8 };
    assert_eq!(h.entry_count(&[3, 0]), Ok(3));
    assert_eq!(h.entry_count(&[0x01, 0x20]), Err(TiffError::EntryCount { count: 0x2001 }));
    assert_eq!(h.next_directory(&[0, 1, 0, 0]), 256);
    let mut block = Vec::new();
    block.extend(le_entry(IMAGE_WIDTH, 3, 1, [0x00, 0x02, 0, 0]));
    block.extend(le_entry(TILE_OFFSETS, 4, 4, [0x40, 0x01, 0, 0]));
    block.extend(le_entry(9999, 99, 1, [0, 0, 0, 0]));
    let entries = parse_entries(&block, &h);
    assert_eq!(entries.len(), 2);
    assert_eq!(entries[0].tag, IMAGE_WIDTH);
    assert_eq!(entries[0].data, EntryData::Inline(vec![0x00, 0x02]));
    assert_eq!(entries[1].data, EntryData::At { offset: 0x140, len: 16 });
    assert_eq!(decode_value(3, &[0x00, 0x02], 1, true), TagValue::Ints(vec![512]));
}

#[test]
fn values_decode_by_type() {
    assert_eq!(decode_value(4, &[1, 0, 0, 0, 2, 0, 0, 0, 9], 3, true), TagValue::Ints(vec![1, 2]));
    assert_eq!(decode_value(1, &[7, 8], 2, false), TagValue::Ints(vec![7, 8]));
    assert_eq!(decode_value(5, &[1; 8], 1, true), TagValue::Ints(vec![]));
    assert_eq!(decode_value(2, b"-9999\0", 6, true), TagValue::Text(b"-9999\0".to_vec()));
    let bits = 25.0f64.to_bits();
    assert_eq!(decode_value(12, &bits.to_le_bytes(), 1, true), TagValue::Doubles(vec![bits]));
    assert_eq!(decode_value(12, &bits.to_be_bytes(), 1, false), TagValue::Doubles(vec![bits]));
}

#[test]
fn doubles_convert_as_rust_does() {
    for x in [0.0f64, 1.0, 1.9, 255.5, 4096.0, 1e19, 1e20, -3.0, f64::NAN, f64::INFINITY, f64::NEG_INFINITY, 0.5, 9007199254740993.0] {
        assert_eq!(double_to_u64(x.to_bits()), x as u64, "{x}");
    }
    assert_eq!(first_int(Some(&TagValue::Doubles(vec![512.0f64.to_bits()]))), Some(512));
    assert_eq!(first_int(Some(&TagValue::Text(vec![]))), None);
}

fn full_image_tags() -> Vec<(u16, TagValue)> {
    let d = |xs: &[f64]| TagValue::Doubles(xs.iter().map(|x| x.to_bits()).collect());
    vec![
        (IMAGE_WIDTH, TagValue::Ints(vec![600])),
        (IMAGE_LENGTH, TagValue::Ints(vec![300])),
        (TILE_WIDTH, TagValue::Ints(vec![256])),
        (TILE_LENGTH, TagValue::Ints(vec![256])),
        (TILE_OFFSETS, TagValue::Ints(vec![100, 200, 0, 400, 500, 600])),
        (TILE_BYTE_COUNTS, TagValue::Ints(vec![10, 20, 0, 40, 50, 60])),
        (BITS_PER_SAMPLE, TagValue::Ints(vec![32])),
        (SAMPLE_FORMAT, TagValue::Ints(vec![3])),
        (MODEL_PIXEL_SCALE, d(&[5.0, 5.0, 0.0])),
        (MODEL_TIEPOINT, d(&[0.0, 0.0, 0.0, 700000.0, 6600000.0, 0.0])),
    ]
}

#[test]
fn a_full_image_level_is_read_from_its_tags() {
    let tags = full_image_tags();
    let level = level_from(&tags, false).unwrap();
    assert_eq!((level.width, level.height, level.tile_width, level.compression, level.predictor), (600, 300, 256, 1, 1));
    assert_eq!(level.tile_count(), 6);
    assert_eq!(level.tiles_across(), 3);
    assert_eq!(level.tile_span(1), Some((200, 20)));
    assert_eq!(level.tile_span(2), None);
    assert_eq!(level.tile_span(6), None);
    let geo = level.georef.unwrap();
    assert_eq!(f64::from_bits(geo.scale_x), 5.0);
    assert_eq!(f64::from_bits(geo.origin_y), 6600000.0);
}

#[test]
fn an_overview_needs_the_full_image() {
    let mut tags = full_image_tags();
    tags.truncate(8);
    assert!(level_from(&tags, false).is_none());
    let level = level_from(&tags, true).unwrap();
    assert!(level.georef.is_none());
}

#[test]
fn only_single_float_bands_are_levels() {
    let mut tags = full_image_tags();
    tags.push((BITS_PER_SAMPLE, TagValue::Ints(vec![16])));
    assert!(level_from(&tags, false).is_none());
    assert_eq!(tag_value(&tags, BITS_PER_SAMPLE), Some(&TagValue::Ints(vec![16])));
    let mut mismatched = full_image_tags();
    mismatched.push((TILE_BYTE_COUNTS, TagValue::Ints(vec![1])));
    assert!(level_from(&mismatched, false).is_none());
}

#[test]
fn codecs_and_predictors() {
    assert_eq!(codec_for(1), Ok(Codec::Uncompressed));
    assert_eq!(codec_for(8), Ok(Codec::Deflate));
    assert_eq!(codec_for(32946), Ok(Codec::Deflate));
    assert_eq!(codec_for(50000), Ok(Codec::Zstd));
    assert_eq!(codec_for(7), Err(7));
    assert_eq!(needs_float_predictor(1), Ok(false));
    assert_eq!(needs_float_predictor(3), Ok(true));
    assert_eq!(needs_float_predictor(2), Err(2));
    assert!(more_directories(8, 0));
    assert!(!more_directories(0, 0));
    assert!(!more_directories(8, 32));
}

fn tiny_level(compression: u64, predictor: u64) -> cairn_core::tiff::Level {
    cairn_core::tiff::Level {
        width: 2,
        height: 1,
        tile_width: 2,
        tile_height: 1,
        compression,
        predictor,
        offsets: vec![0],
        byte_counts: vec![8],
        georef: None,
    }
}

#[test]
fn stored_tiles_decode_to_their_samples() {
    let samples: Vec<u8> = [1.5f32, -2.0f32].iter().flat_map(|v| v.to_le_bytes()).collect();
    assert_eq!(decode_tile_bytes(&samples, &tiny_level(1, 1)), Ok(samples.clone()));
    // short data is filled out with zeros
    assert_eq!(decode_tile_bytes(&samples[..4], &tiny_level(1, 1)).unwrap(), [&samples[..4], &[0u8; 4][..]].concat());
    let zipped = {
        let mut e = flate2::write::ZlibEncoder::new(Vec::new(), flate2::Compression::default());
        e.write_all(&samples).unwrap();
        e.finish().unwrap()
    };
    assert_eq!(decode_tile_bytes(&zipped, &tiny_level(8, 1)), Ok(samples.clone()));
    let z = zstd::stream::encode_all(&samples[..], 3).unwrap();
    assert_eq!(decode_tile_bytes(&z, &tiny_level(50000, 1)), Ok(samples.clone()));
    assert_eq!(decode_tile_bytes(&samples, &tiny_level(7, 1)), Err(TileError::Compression { code: 7 }));
    assert_eq!(decode_tile_bytes(&samples, &tiny_level(1, 2)), Err(TileError::Predictor { code: 2 }));
    assert!(matches!(decode_tile_bytes(&[1, 2, 3], &tiny_level(50000, 1)), Err(TileError::Decode { .. })));
}

#[test]
fn the_float_predictor_is_undone_per_tile() {
    let samples: Vec<u8> = [1.5f32, -2.0f32].iter().flat_map(|v| v.to_le_bytes()).collect();
    // encode: byte planes most significant first, then a byte-wise difference
    let mut planes = vec![0u8; 8];
    for (k, b) in samples.iter().enumerate() {
        let sample = k / 4;
        let plane = 3 - k % 4;
        planes[plane * 2 + sample] = *b;
    }
    let mut encoded = planes.clone();
    for i in (1..encoded.len()).rev() {
        encoded[i] = encoded[i].wrapping_sub(encoded[i - 1]);
    }
    let mut check = encoded.clone();
    undo_float_predictor(&mut check, 2, 1);
    assert_eq!(check, samples);
    assert_eq!(decode_tile_bytes(&encoded, &tiny_level(1, 3)), Ok(samples));
}
