use cairn_core::catalog::{
    dem_encoding, diff_layers, diff_metadata, diff_zooms, kind_from_metadata, kind_from_name,
    split_name, Area, Artifact, ArtifactKind, Provenance, TileFormat, TileStats, VectorLayer,
    ZoomStat,
};
use cairn_core::catalog::{is_area_entry, is_artifact_entry, probe, sort_by_area_name, sort_by_file_name};

#[test]
fn splits_every_real_filename() {
    let a = "rhone-alpes";
    assert_eq!(split_name(a, "rhone-alpes.mbtiles"), Some((None, "mbtiles".into(), None)));
    assert_eq!(
        split_name(a, "rhone-alpes_routes.mbtiles"),
        Some((Some("routes".into()), "mbtiles".into(), None))
    );
    assert_eq!(
        split_name(a, "rhone-alpes.vtiles.base"),
        Some((None, "vtiles".into(), Some("base".into())))
    );
    assert_eq!(
        split_name(a, "rhone-alpes_hillshade.mbtiles.old"),
        Some((Some("hillshade".into()), "mbtiles".into(), Some("old".into())))
    );
    assert_eq!(split_name(a, "corsica.mbtiles"), None);
}

fn meta(pairs: &[(&str, &str)]) -> Vec<(String, String)> {
    let mut rows: Vec<(String, String)> = pairs.iter().map(|(k, v)| (k.to_string(), v.to_string())).collect();
    rows.sort();
    rows
}

fn layer(id: &str, fields: &[&str]) -> VectorLayer {
    VectorLayer {
        id: id.into(),
        minzoom: None,
        maxzoom: None,
        fields: fields.iter().map(|f| (f.to_string(), "String".to_string())).collect(),
    }
}

fn artifact(metadata: Vec<(String, String)>, layers: Vec<VectorLayer>, variant: Option<&str>, kind: ArtifactKind, size: u64) -> Artifact {
    Artifact {
        path: "/out/a/a.mbtiles".into(),
        file_name: "a.mbtiles".into(),
        area: "a".into(),
        variant: variant.map(|v| v.to_string()),
        size_bytes: size,
        kind,
        format: TileFormat::Mvt,
        minzoom: None,
        maxzoom: None,
        bounds: None,
        encoding: None,
        compression: None,
        layers,
        provenance: Provenance::default(),
        metadata,
        probe_error: None,
    }
}

#[test]
fn formats_are_read_case_blind() {
    assert_eq!(TileFormat::parse_public(" PBF "), TileFormat::Mvt);
    assert_eq!(TileFormat::parse_public("application/vnd.maplibre-vector-tile"), TileFormat::Mlt);
    assert_eq!(TileFormat::parse_public("JPG"), TileFormat::Jpeg);
    assert_eq!(TileFormat::parse_public("Tiff"), TileFormat::Other("tiff".into()));
    assert!(TileFormat::Mlt.is_vector() && !TileFormat::Webp.is_vector());
}

#[test]
fn names_classify_only_as_a_fallback() {
    assert_eq!(kind_from_name(Some("routes"), "mbtiles"), ArtifactKind::Routes);
    assert_eq!(kind_from_name(None, "vtiles"), ArtifactKind::ValhallaPackage);
    assert_eq!(kind_from_name(None, "mbtiles"), ArtifactKind::Basemap);
    assert_eq!(kind_from_name(Some("mlt"), "mbtiles"), ArtifactKind::Unknown);
}

#[test]
fn metadata_classifies_what_a_file_is() {
    assert_eq!(kind_from_metadata(&TileFormat::Gph3, None, &[]), Some(ArtifactKind::ValhallaPackage));
    assert_eq!(kind_from_metadata(&TileFormat::Mvt, None, &[layer("route", &[])]), Some(ArtifactKind::Routes));
    assert_eq!(kind_from_metadata(&TileFormat::Mlt, None, &[layer("water", &[])]), Some(ArtifactKind::Basemap));
    assert_eq!(kind_from_metadata(&TileFormat::Webp, Some("terrarium"), &[]), Some(ArtifactKind::TerrainRgb));
    assert_eq!(kind_from_metadata(&TileFormat::Webp, None, &[]), Some(ArtifactKind::Hillshade));
    assert_eq!(kind_from_metadata(&TileFormat::Unknown, None, &[]), None);
}

#[test]
fn round_digits_means_mapbox_unless_encoding_says_otherwise() {
    assert_eq!(dem_encoding(&meta(&[("round-digits", " 3 4")])), Some("mapbox".to_string()));
    assert_eq!(dem_encoding(&meta(&[("encoding", "terrarium"), ("round-digits", " 8 9")])), Some("terrarium".to_string()));
    assert_eq!(dem_encoding(&meta(&[("format", "webp")])), None);
}

#[test]
fn provenance_reads_planetiler_stamps() {
    let p = Provenance::from_metadata(&meta(&[("planetiler:githash", "aaa"), ("format", "pbf")]));
    assert_eq!(p.githash.as_deref(), Some("aaa"));
    assert!(!p.is_empty());
    assert!(Provenance::from_metadata(&meta(&[("format", "pbf")])).is_empty());
}

#[test]
fn metadata_diff_surfaces_provenance_changes() {
    let a = artifact(meta(&[("format", "pbf"), ("planetiler:githash", "aaa"), ("json", "{}"), ("only", "a")]), vec![], None, ArtifactKind::Basemap, 1);
    let b = artifact(meta(&[("format", "pbf"), ("planetiler:githash", "bbb"), ("json", "{ }"), ("extra", "b")]), vec![], None, ArtifactKind::Basemap, 1);
    let diff = diff_metadata(&a, &b);
    assert_eq!(diff.changed, vec![("planetiler:githash".to_string(), ("aaa".to_string(), "bbb".to_string()))]);
    assert_eq!(diff.only_in_a, vec![("only".to_string(), "a".to_string())]);
    assert_eq!(diff.only_in_b, vec![("extra".to_string(), "b".to_string())]);
}

#[test]
fn layer_diff_reports_dropped_fields() {
    let a = artifact(vec![], vec![layer("place", &["name", "name_int"]), layer("water", &["class"])], None, ArtifactKind::Basemap, 1);
    let b = artifact(vec![], vec![layer("water", &["class"]), layer("place", &["name"]), layer("aeroway", &["ref"])], None, ArtifactKind::Basemap, 1);
    let diff = diff_layers(&a, &b);
    assert_eq!(diff.len(), 2);
    assert_eq!(diff[0].layer, "aeroway");
    assert_eq!(diff[0].only_in_b_fields, vec!["ref"]);
    assert_eq!(diff[1].layer, "place");
    assert_eq!(diff[1].only_in_a_fields, vec!["name_int"]);
    assert!(diff[1].only_in_b_fields.is_empty());
}

#[test]
fn zoom_diff_aligns_missing_zooms() {
    let a = TileStats {
        addressed_tiles: 1, addressed_bytes: 100, unique_tiles: None, unique_bytes: None,
        per_zoom: vec![ZoomStat { zoom: 5, tiles: 1, bytes: 100 }],
    };
    let b = TileStats {
        addressed_tiles: 2, addressed_bytes: 250, unique_tiles: None, unique_bytes: None,
        per_zoom: vec![
            ZoomStat { zoom: 6, tiles: 1, bytes: 200 },
            ZoomStat { zoom: 5, tiles: 1, bytes: 50 },
        ],
    };
    let deltas = diff_zooms(&a, &b);
    assert_eq!(deltas.len(), 2);
    assert_eq!((deltas[0].zoom, deltas[0].bytes_a, deltas[0].bytes_b), (5, 100, 50));
    assert_eq!(deltas[1].bytes_a, 0, "zoom missing from A reads as zero, not absent");
    assert_eq!((deltas[1].zoom, deltas[1].bytes_b), (6, 200));
}

#[test]
fn canonical_builds_come_before_variants() {
    let area = Area {
        name: "a".into(),
        dir: "/out/a".into(),
        artifacts: vec![
            artifact(vec![], vec![], Some("mlt"), ArtifactKind::Basemap, 10),
            artifact(vec![], vec![], None, ArtifactKind::Routes, 20),
            artifact(vec![], vec![], None, ArtifactKind::Basemap, 30),
        ],
    };
    let basemaps = area.of_kind(ArtifactKind::Basemap);
    assert_eq!(basemaps.len(), 2);
    assert_eq!(basemaps[0].size_bytes, 30);
    assert_eq!(basemaps[1].variant.as_deref(), Some("mlt"));
    assert_eq!(area.total_bytes(), 60);
}

#[test]
fn only_area_files_count_and_they_come_sorted() {
    assert!(is_area_entry("alps", true));
    assert!(!is_area_entry(".cache", true));
    assert!(!is_area_entry("alps", false));
    assert!(is_artifact_entry("alps", "alps_routes.mbtiles", true));
    assert!(!is_artifact_entry("alps", ".DS_Store", true));
    assert!(!is_artifact_entry("alps", "notes.txt", true));
    assert!(!is_artifact_entry("alps", "alps.mbtiles", false));
    let arts: Vec<_> = ["alps_routes.mbtiles", "alps.mbtiles", "alps.vtiles"]
        .iter()
        .map(|n| probe(&format!("/o/alps/{n}"), n, "alps", 1, Err("x".into())))
        .collect();
    let sorted: Vec<String> = sort_by_file_name(arts).into_iter().map(|a| a.file_name).collect();
    assert_eq!(sorted, vec!["alps.mbtiles", "alps.vtiles", "alps_routes.mbtiles"]);
    let areas = vec![
        Area { name: "rhone".into(), dir: "/o/rhone".into(), artifacts: vec![] },
        Area { name: "alps".into(), dir: "/o/alps".into(), artifacts: vec![] },
    ];
    let names: Vec<String> = sort_by_area_name(areas).into_iter().map(|a| a.name).collect();
    assert_eq!(names, vec!["alps", "rhone"]);
}

#[test]
fn tile_stats_sum_the_zooms() {
    let per_zoom = vec![ZoomStat { zoom: 0, tiles: 1, bytes: 100 }, ZoomStat { zoom: 1, tiles: 4, bytes: 300 }];
    let s = cairn_core::catalog::tile_stats_from(per_zoom.clone(), Some((3, 250)));
    assert_eq!(s, TileStats { addressed_tiles: 5, addressed_bytes: 400, unique_tiles: Some(3), unique_bytes: Some(250), per_zoom: per_zoom.clone() });
    let classic = cairn_core::catalog::tile_stats_from(per_zoom, None);
    assert_eq!((classic.unique_tiles, classic.unique_bytes), (None, None));
}

#[test]
fn deletion_takes_the_sidecars_and_refuses_strangers() {
    let plan = cairn_core::catalog::deletion_plan("/out", "/out/alps/alps.mbtiles", true).unwrap();
    assert_eq!(
        plan,
        vec!["/out/alps/alps.mbtiles", "/out/alps/alps.mbtiles-journal", "/out/alps/alps.mbtiles-wal", "/out/alps/alps.mbtiles-shm"]
    );
    let outside = cairn_core::catalog::deletion_plan("/out", "/home/me/precious.mbtiles", true).unwrap_err();
    assert!(outside.message().contains("outside the output root"));
    // a sibling whose name merely starts like the root is not under it
    assert!(cairn_core::catalog::deletion_plan("/out", "/outside/a.mbtiles", true).is_err());
    let dir = cairn_core::catalog::deletion_plan("/out", "/out/nested", false).unwrap_err();
    assert!(dir.message().contains("not a file"));
}

fn probed(file: &str, rows: &[(&str, &str)], layers: Vec<VectorLayer>) -> Artifact {
    probe(&format!("/out/rhone-alpes/{file}"), file, "rhone-alpes", 1000, Ok((meta(rows), layers)))
}

/// `format` is authoritative: an MLT basemap is a basemap even though nothing in its name
/// says so, and the `_mlt` part becomes a variant rather than a kind.
#[test]
fn classifies_mlt_as_a_basemap_variant() {
    let art = probed(
        "rhone-alpes_mlt.mbtiles",
        &[("format", "application/vnd.maplibre-vector-tile"), ("minzoom", "0"), ("maxzoom", "14")],
        vec![],
    );
    assert_eq!(art.kind, ArtifactKind::Basemap);
    assert_eq!(art.format, TileFormat::Mlt);
    assert_eq!(art.variant.as_deref(), Some("mlt"));
}

/// The routes build is the one that emits a single `route` layer.
#[test]
fn classifies_routes_by_its_single_layer() {
    // {"vector_layers":[{"id":"route","minzoom":5,"maxzoom":14,"fields":{"name":"String","extent":"String","symbol":"Number"}}]}
    let route = VectorLayer {
        id: "route".into(),
        minzoom: Some(5),
        maxzoom: Some(14),
        fields: vec![
            ("extent".to_string(), "String".to_string()),
            ("name".to_string(), "String".to_string()),
            ("symbol".to_string(), "Number".to_string()),
        ],
    };
    let art = probed("rhone-alpes_routes.mbtiles", &[("format", "pbf")], vec![route]);
    assert_eq!(art.kind, ArtifactKind::Routes);
    assert_eq!(art.layers.len(), 1);
    assert!(art.layers[0].fields.iter().any(|(k, _)| k == "extent"));
}

/// The older pipeline wrote terrain RGB under a `_hillshade` name with no `encoding` key at
/// all - only `round-digits`, the per-zoom quantisation ramp.
#[test]
fn round_digits_marks_an_unlabelled_terrain_archive() {
    let art = probed(
        "rhone-alpes_hillshade.mbtiles",
        &[("format", "webp"), ("round-digits", " 3 4 5 6 7 7 7 7"), ("minzoom", "5")],
        vec![],
    );
    assert_eq!(art.kind, ArtifactKind::TerrainRgb, "named hillshade, actually terrain");
    assert_eq!(art.encoding.as_deref(), Some("mapbox"), "rio-rgbify packed these as mapbox");
}

/// An explicit `encoding` always wins over the inference.
#[test]
fn explicit_encoding_beats_the_round_digits_guess() {
    let art = probed(
        "rhone-alpes_terrain.mbtiles",
        &[("format", "webp"), ("encoding", "terrarium"), ("round-digits", " 8 9")],
        vec![],
    );
    assert_eq!(art.encoding.as_deref(), Some("terrarium"));
}

/// An `encoding` key is what separates terrain RGB from a plain picture raster.
#[test]
fn encoding_separates_terrain_from_hillshade() {
    let terrain = probed("rhone-alpes_terrain.mbtiles", &[("format", "webp"), ("encoding", "terrarium")], vec![]);
    assert_eq!(terrain.kind, ArtifactKind::TerrainRgb);
    let hill = probed("rhone-alpes_hillshade.mbtiles", &[("format", "webp")], vec![]);
    assert_eq!(hill.kind, ArtifactKind::Hillshade);
    assert_eq!(hill.encoding, None);
}

#[test]
fn classifies_valhalla_package() {
    let art = probed("rhone-alpes.vtiles", &[("format", "gph3"), ("type", "routing")], vec![]);
    assert_eq!(art.kind, ArtifactKind::ValhallaPackage);
}

/// Under `--compact-db` one blob can serve many (z,x,y), so summing the `tiles` view overstates
/// what is on disk. Both numbers have to be reported.
#[test]
fn separates_addressed_from_unique_bytes() {
    // four addresses, two distinct blobs (100 and 200 bytes)
    let per_zoom = vec![ZoomStat { zoom: 5, tiles: 2, bytes: 200 }, ZoomStat { zoom: 6, tiles: 2, bytes: 300 }];
    let stats = cairn_core::catalog::tile_stats_from(per_zoom, Some((2, 300)));
    assert_eq!(stats.addressed_tiles, 4);
    assert_eq!(stats.addressed_bytes, 500, "100+100+200+100 as addressed");
    assert_eq!(stats.unique_tiles, Some(2));
    assert_eq!(stats.unique_bytes, Some(300), "only two blobs actually stored");
    assert_eq!(1.0 - stats.unique_tiles.unwrap() as f64 / stats.addressed_tiles as f64, 0.5);
}

#[test]
fn per_zoom_breakdown() {
    let per_zoom = vec![ZoomStat { zoom: 5, tiles: 1, bytes: 100 }, ZoomStat { zoom: 6, tiles: 2, bytes: 500 }];
    let stats = cairn_core::catalog::tile_stats_from(per_zoom, None);
    assert_eq!(
        stats.per_zoom,
        vec![ZoomStat { zoom: 5, tiles: 1, bytes: 100 }, ZoomStat { zoom: 6, tiles: 2, bytes: 500 }]
    );
}

/// Classic archives store blobs inline, so there is nothing to deduplicate.
#[test]
fn classic_archive_reports_no_unique_count() {
    let stats = cairn_core::catalog::tile_stats_from(vec![ZoomStat { zoom: 5, tiles: 2, bytes: 200 }], None);
    assert_eq!(stats.addressed_bytes, 200);
    assert_eq!(stats.unique_tiles, None);
}

/// A file that is not a database at all still gets listed.
#[test]
fn unreadable_file_is_listed_with_an_error() {
    let art = probe("/out/rhone-alpes/rhone-alpes.mbtiles", "rhone-alpes.mbtiles", "rhone-alpes", 14, Err("file is not a database".into()));
    assert!(art.probe_error.is_some());
    assert_eq!(art.kind, ArtifactKind::Basemap, "falls back to the filename");
}

#[test]
fn only_files_that_were_there_count_as_freed() {
    assert_eq!(cairn_core::catalog::freed_bytes(&[Some(1000), None, Some(24), None]), 1024);
    assert_eq!(cairn_core::catalog::freed_bytes(&[None, None, None, None]), 0);
    assert_eq!(cairn_core::catalog::freed_bytes(&[]), 0);
}

#[test]
fn a_delete_frees_the_sizes_of_the_file_and_its_sidecars_that_exist() {
    // the archive, -journal, -wal, -shm: 100 + 20 + 30 bytes, no -wal
    assert_eq!(cairn_core::catalog::freed_bytes(&[Some(100), Some(20), None, Some(30)]), 150);
}
