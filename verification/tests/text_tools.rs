use cairn_core::cli::human_elapsed;
use cairn_core::desktop::{command_lines, split_args};
use cairn_core::elevation::Encoding;
use cairn_core::geotiff::{type_size, undo_float_predictor};
use cairn_core::link::{is_library_path, link_args, read_includes};
use cairn_core::render::{round_digits_for, terrain_encoding};
use cairn_core::tileserver::is_gzip;

#[test]
fn quoted_arguments_stay_whole() {
    assert_eq!(
        split_args("--max-point-buffer=4  --polygon='/tmp/my area.poly'"),
        vec!["--max-point-buffer=4", "--polygon=/tmp/my area.poly"]
    );
    assert_eq!(split_args("   "), Vec::<String>::new());
    assert_eq!(split_args("--a \"b c\" --d"), vec!["--a", "b c", "--d"]);
}

#[test]
fn an_empty_quoted_argument_still_counts() {
    assert_eq!(split_args("--x '' --y"), vec!["--x", "", "--y"]);
}

#[test]
fn reads_the_commands_block_and_stops_there() {
    let usage = "Build, inspect and serve AlpiMaps tile output\n\
                 \n\
                 Usage: alpimaps [OPTIONS] <COMMAND>\n\
                 \n\
                 Commands:\n  catalog   List generated areas and their artifacts\n  download  Download the area's OSM extract from Geofabrik\n  help      Print this message\n\
                 \n\
                 Options:\n      --repo <REPO>  Repository root\n";
    let commands = command_lines(usage);
    assert_eq!(
        commands,
        vec![
            ("catalog".to_string(), "List generated areas and their artifacts".to_string()),
            (
                "download".to_string(),
                "Download the area's OSM extract from Geofabrik".to_string()
            ),
        ]
    );
}

#[test]
fn no_commands_block_is_empty() {
    assert!(command_lines("").is_empty());
    assert!(command_lines("Usage: alpimaps\nOptions:\n  --help\n").is_empty());
}

#[test]
fn durations_read_in_two_units() {
    assert_eq!(human_elapsed(5), "5s");
    assert_eq!(human_elapsed(65), "1m5s");
    assert_eq!(human_elapsed(3725), "1h2m");
}

#[test]
fn parses_encoding_names() {
    assert_eq!(Encoding::parse("terrarium"), Some(Encoding::Terrarium));
    assert_eq!(Encoding::parse("Mapbox"), Some(Encoding::Mapbox));
    assert_eq!(Encoding::parse("webp"), None);
}

#[test]
fn sniffs_gzip_rather_than_trusting_metadata() {
    assert!(is_gzip(&[0x1f, 0x8b, 0x08, 0x00]));
    assert!(!is_gzip(b"RIFF\x8a\x0c"));
    assert!(!is_gzip(&[0x1f]));
}

#[test]
fn the_ramp_adds_a_digit_per_zoom_and_caps() {
    assert_eq!(round_digits_for(12, 12, 8, 15), 8);
    assert_eq!(round_digits_for(11, 12, 8, 15), 9);
    assert_eq!(round_digits_for(0, 12, 8, 15), 15);
    // a cap below the base disables the ramp
    assert_eq!(round_digits_for(5, 12, 8, 4), 8);
    // above the maximum zoom nothing is subtracted
    assert_eq!(round_digits_for(14, 12, 8, 15), 8);
}

fn encode_float_predictor(values: &[f32]) -> Vec<u8> {
    let width = values.len();
    let mut planes = vec![0u8; width * 4];
    for (i, v) in values.iter().enumerate() {
        let b = v.to_le_bytes();
        for byte in 0..4 {
            planes[(4 - byte - 1) * width + i] = b[byte];
        }
    }
    let mut out = planes.clone();
    for i in (1..out.len()).rev() {
        out[i] = out[i].wrapping_sub(out[i - 1]);
    }
    out
}

#[test]
fn float_predictor_round_trips() {
    let values: Vec<f32> = vec![0.0, 1.5, -3.25, 1234.5, 4808.0, -99999.0, 0.125, 42.0];
    let mut encoded = encode_float_predictor(&values);
    undo_float_predictor(&mut encoded, values.len(), 1);
    let decoded: Vec<f32> = encoded
        .chunks_exact(4)
        .map(|c| f32::from_le_bytes([c[0], c[1], c[2], c[3]]))
        .collect();
    assert_eq!(decoded, values);
}

#[test]
fn float_predictor_handles_multiple_rows() {
    let row_a: Vec<f32> = (0..16).map(|i| i as f32 * 3.5).collect();
    let row_b: Vec<f32> = (0..16).map(|i| 1000.0 - i as f32).collect();
    let mut buffer = encode_float_predictor(&row_a);
    buffer.extend(encode_float_predictor(&row_b));
    undo_float_predictor(&mut buffer, 16, 2);
    let decoded: Vec<f32> = buffer
        .chunks_exact(4)
        .map(|c| f32::from_le_bytes([c[0], c[1], c[2], c[3]]))
        .collect();
    assert_eq!(&decoded[..16], &row_a[..]);
    assert_eq!(&decoded[16..], &row_b[..]);
}

#[test]
fn a_partial_row_is_left_alone() {
    let mut bytes = vec![1u8, 1, 1, 1, 9, 9];
    undo_float_predictor(&mut bytes, 1, 5);
    assert_eq!(bytes, vec![4, 3, 2, 1, 9, 9]);
}

#[test]
fn type_sizes_match_the_spec() {
    assert_eq!(type_size(1), 1);
    assert_eq!(type_size(3), 2);
    assert_eq!(type_size(4), 4);
    assert_eq!(type_size(12), 8);
    assert_eq!(type_size(16), 8);
    assert_eq!(type_size(999), 0, "unknown types are skipped, not guessed");
}

#[test]
fn versioned_sonames_are_libraries() {
    for token in [
        "/opt/protobuf/lib/libprotobuf.so.3.21.12.0",
        "/usr/lib/x86_64-linux-gnu/libspatialite.so.7",
        "/usr/lib/x86_64-linux-gnu/libgeos_c.so.1",
        "/usr/lib/x86_64-linux-gnu/libluajit-5.1.so",
    ] {
        assert!(is_library_path(token), "dropped from the link line: {token}");
    }
}

#[test]
fn macos_and_static_forms_are_libraries() {
    for token in ["/opt/homebrew/lib/libprotobuf-lite.35.1.0.dylib", "src/libvalhalla.a"] {
        assert!(is_library_path(token), "dropped from the link line: {token}");
    }
}

#[test]
fn flags_and_plain_words_are_not() {
    for token in ["-lcurl", "-L/usr/lib", "-Wl,-search_paths_first", "-framework", "CoreFoundation"]
    {
        assert!(!is_library_path(token), "mistaken for a library: {token}");
    }
    assert!(!is_library_path("/some/dir.so.d/notalib"));
}

#[test]
fn a_linux_link_line_keeps_its_libraries() {
    let line = "/usr/bin/c++ -O3 CMakeFiles/x.dir/a.cc.o -o valhalla_build_tiles \
                src/libvalhalla.a /opt/protobuf/lib/libprotobuf.so.3.21.12.0 \
                /usr/lib/x86_64-linux-gnu/libspatialite.so.7 -lm";
    let args = link_args(line, "/build", false);
    for needle in ["libvalhalla.a", "libprotobuf.so.3.21.12.0", "libspatialite.so.7", "-lm"] {
        assert!(args.iter().any(|a| a.contains(needle)), "{needle} missing from {args:?}");
    }
}

#[test]
fn the_cxx_runtime_matches_the_platform() {
    let args = link_args("/usr/bin/c++ -o x a.o", "/build", false);
    assert!(args.iter().any(|a| a == "-lstdc++"), "expected -lstdc++ in {args:?}");
    let args = link_args("/usr/bin/c++ -o x a.o", "/build", true);
    assert!(args.iter().any(|a| a == "-lc++"), "expected -lc++ in {args:?}");
}

#[test]
fn link_arguments_in_full() {
    let args = link_args("c++ -Wl,-x -L/opt lib/a.a -framework Foundation -o out", "/b", true);
    assert_eq!(
        args,
        vec!["-Wl,-x", "-L/opt", "/b/lib/a.a", "-framework", "Foundation", "-lcurl", "-lz", "-lc++"]
    );
}

#[test]
fn include_directories_come_from_the_flags_line() {
    let flags = "# comment\nCXX_DEFINES = -DX\nCXX_INCLUDES = -I/a/b -isystem /c/d -I/e\n";
    assert_eq!(read_includes(flags), Some(vec!["/a/b".to_string(), "/c/d".to_string(), "/e".to_string()]));
    assert_eq!(read_includes("CXX_FLAGS = -O3\n"), None);
}

/// The vertical step of a terrarium tile at a zoom: 1/256 m times two to the ramp's exponent.
fn terrarium_step(z: u8, maxzoom: u8, round_digits: u32, max_round_digits: u32) -> f64 {
    2f64.powi(round_digits_for(z, maxzoom, round_digits, max_round_digits) as i32) / 256.0
}

/// Each zoom below the maximum doubles the step, until the cap.
#[test]
fn the_ramp_doubles_per_zoom_and_then_caps() {
    let step = |z| terrarium_step(z, 13, 8, 11);
    assert_eq!(step(13), 1.0);
    assert_eq!(step(12), 2.0);
    assert_eq!(step(11), 4.0);
    assert_eq!(step(10), 8.0);
    assert_eq!(step(9), 8.0, "capped at max_round_digits");
}

/// A cap below the base disables the ramp entirely.
#[test]
fn cap_below_the_base_disables_the_ramp() {
    for z in 5..=13 {
        assert_eq!(terrarium_step(z, 13, 8, 0), 1.0);
    }
}

#[test]
fn terrain_encoding_defaults_by_step_and_refuses_unknown_names() {
    let terrain = cairn_core::steps::StepId::TerrainRgb;
    let hillshade = cairn_core::steps::StepId::Hillshade;
    assert_eq!(terrain_encoding(terrain, None), Ok(Encoding::Terrarium));
    assert_eq!(terrain_encoding(hillshade, None), Ok(Encoding::Mapbox));
    assert_eq!(terrain_encoding(hillshade, Some(" Terrarium ")), Ok(Encoding::Terrarium));
    assert_eq!(terrain_encoding(terrain, Some("png")), Err("unknown encoding `png`".to_string()));
}
