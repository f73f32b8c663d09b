use cairn_core::external::{phase_of, ToolJob};
use cairn_core::planetiler::{PlanetilerJob, Schema};
use cairn_core::steps::StepId;
use cairn_core::toolchain::{adoptium_url, candidates, exe, pick_java, JavaSource};

#[test]
fn stage_banners_become_phases() {
    assert_eq!(
        phase_of("2026/08/20 10:00:00.000000 [INFO] Parsing files: data/alps.osm.pbf"),
        Some("Parsing files".to_string())
    );
    assert_eq!(
        phase_of("[INFO] Building tiles from level 0"),
        Some("Building tiles from level 0".to_string())
    );
}

#[test]
fn chatter_is_not_a_phase() {
    assert_eq!(phase_of("[INFO] 1000 nodes processed"), None);
    assert_eq!(phase_of("[WARN] Building something"), None);
    assert_eq!(phase_of("no marker at all"), None);
}

#[test]
fn a_tool_job_prints_its_program_first() {
    let job = ToolJob {
        step: StepId::ValhallaTiles,
        area: "alps".into(),
        program: "/opt/valhalla_build_tiles".into(),
        args: vec!["-c".into(), "valhalla.json".into()],
        working_dir: ".".into(),
    };
    assert_eq!(job.command_line(), vec!["/opt/valhalla_build_tiles", "-c", "valhalla.json"]);
}

fn job() -> PlanetilerJob {
    PlanetilerJob {
        step: StepId::Basemap,
        area: "rhone-alpes".into(),
        java: "java".into(),
        jar: "planetiler.jar".into(),
        schema: Schema::OpenMapTiles,
        heap_mb: 12288,
        output: "out/rhone-alpes.mbtiles".into(),
        tmp_dir: "tmp/run-1".into(),
        extra_args: vec!["--area=rhone-alpes".into(), "--force".into()],
        working_dir: ".".into(),
        log_interval: "1s".into(),
    }
}

#[test]
fn builds_openmaptiles_command() {
    let argv = job().command_line();
    assert_eq!(argv[1], "-Xmx12288m");
    assert_eq!(argv[4], "openmaptiles");
    assert!(argv.contains(&"--mbtiles=out/rhone-alpes.mbtiles".to_string()));
    assert!(argv.contains(&"--area=rhone-alpes".to_string()));
}

#[test]
fn always_passes_a_tmpdir() {
    assert!(job().command_line().iter().any(|a| a == "--tmpdir=tmp/run-1"));
}

#[test]
fn overrides_the_log_interval() {
    assert!(job().command_line().iter().any(|a| a == "--loginterval=1s"));
}

#[test]
fn yaml_schema_uses_custom_subcommand() {
    let mut j = job();
    j.schema = Schema::Yaml { path: "shortbread.yml".into() };
    let argv = j.command_line();
    assert_eq!(argv[4], "custom");
    assert!(argv.contains(&"--schema=shortbread.yml".to_string()));
}

#[test]
fn the_full_argument_vector_in_order() {
    assert_eq!(
        job().command_line(),
        vec![
            "java",
            "-Xmx12288m",
            "-jar",
            "planetiler.jar",
            "openmaptiles",
            "--mbtiles=out/rhone-alpes.mbtiles",
            "--tmpdir=tmp/run-1",
            "--loginterval=1s",
            "--area=rhone-alpes",
            "--force",
        ]
    );
}

#[test]
fn parses_modern_version() {
    assert_eq!(
        cairn_core::toolchain::parse_version("openjdk version \"21.0.11\" 2026-04-21\nOpenJDK Runtime Environment"),
        Some(21)
    );
}

#[test]
fn parses_bare_major() {
    assert_eq!(cairn_core::toolchain::parse_version("openjdk version \"25\" 2026-09-16"), Some(25));
}

#[test]
fn parses_legacy_scheme() {
    assert_eq!(cairn_core::toolchain::parse_version("java version \"1.8.0_452\""), Some(8));
}

#[test]
fn rejects_garbage() {
    assert_eq!(cairn_core::toolchain::parse_version("command not found"), None);
}

#[test]
fn builds_a_host_url() {
    let url = adoptium_url(21, "linux", "x86_64").unwrap();
    assert!(url.contains("/21/ga/"), "{url}");
    assert!(url.ends_with("/jre/hotspot/normal/eclipse"), "{url}");
    assert_eq!(url, "https://api.adoptium.net/v3/binary/latest/21/ga/linux/x64/jre/hotspot/normal/eclipse");
    assert!(adoptium_url(21, "plan9", "x86_64").is_err());
    assert!(adoptium_url(21, "macos", "riscv64").is_err());
}

#[test]
fn java_lives_in_the_bin_directory() {
    assert_eq!(exe("/opt/jdk"), "/opt/jdk/bin/java");
}

#[test]
fn srtm_names_read_back() {
    for (lon, lat) in [(6, 44), (-3, -9), (0, 0), (-179, 89), (123, -45)] {
        let name = cairn_core::hgt::file_name(lon, lat);
        assert_eq!(cairn_core::hgt::parse_name(&name), Some((lon, lat)), "{name}");
    }
}

#[test]
fn java_candidates_come_in_order() {
    let c = candidates(Some("/opt/jdk"), Some("/data/runtime"), None);
    let paths: Vec<&str> = c.iter().map(|p| p.0.as_str()).collect();
    assert_eq!(paths, vec!["/opt/jdk/bin/java", "/opt/jdk", "/data/runtime/bin/java", "java"]);
    assert_eq!(c[0].1, JavaSource::Configured);
    assert_eq!(c[1].1, JavaSource::Configured);
    assert_eq!(c[2].1, JavaSource::Managed);
    assert_eq!(c[3].1, JavaSource::Path);
}

#[test]
fn only_path_java_without_homes() {
    let c = candidates(None, None, None);
    assert_eq!(c.len(), 1);
    assert_eq!(c[0].0, "java");
    assert_eq!(c[0].1, JavaSource::Path);
}

#[test]
fn first_recent_enough_java_wins() {
    let c = candidates(None, Some("/m"), Some("/jh"));
    let found = pick_java(&c, &[Some(17), Some(21), Some(25)]).unwrap();
    assert_eq!(found.path, "/jh/bin/java");
    assert_eq!(found.version, 21);
    assert_eq!(found.source, JavaSource::JavaHome);
    assert!(pick_java(&c, &[None, Some(11), Some(20)]).is_none());
    assert!(pick_java(&c, &[]).is_none());
}

#[test]
fn coverage_lists_each_square_once_in_order() {
    let names: Vec<String> = ["N44E006.hgt", "readme.txt", "N45E006.hgt", "S09W003.hgt", "N44E006.hgt", "N44", "N44E005.hgt"]
        .iter()
        .map(|s| s.to_string())
        .collect();
    assert_eq!(cairn_core::hgt::coverage_of(&names), vec![(-3, -9), (5, 44), (6, 44), (6, 45)]);
    assert!(cairn_core::hgt::coverage_of(&[]).is_empty());
}

#[test]
fn boundary_points_also_try_the_neighbouring_squares() {
    assert_eq!(cairn_core::hgt::square_candidates(6, 44, false, false), vec![(6, 44)]);
    assert_eq!(cairn_core::hgt::square_candidates(6, 45, true, false), vec![(6, 45), (6, 44)]);
    assert_eq!(cairn_core::hgt::square_candidates(7, 44, false, true), vec![(7, 44), (6, 44)]);
    assert_eq!(cairn_core::hgt::square_candidates(7, 45, true, true), vec![(7, 45), (7, 44), (6, 45), (6, 44)]);
}

#[test]
fn tools_are_looked_for_in_the_build_then_on_path() {
    let c = cairn_core::external::tool_candidates(
        &["/repo/valhalla/build".to_string()],
        &["/usr/local/bin".to_string(), "/usr/bin".to_string()],
        "valhalla_build_tiles",
    );
    assert_eq!(
        c,
        vec!["/repo/valhalla/build/valhalla_build_tiles", "/usr/local/bin/valhalla_build_tiles", "/usr/bin/valhalla_build_tiles"]
    );
}

#[test]
fn elevation_job_writes_decompressed_tiles_into_the_elevation_dir() {
    let settings = cairn_core::settings::Settings::for_repo("/repo".to_string());
    let job = cairn_core::external::elevation_job(&settings, "alps", "/repo/valhalla.json", "/bin/valhalla_build_elevation".to_string());
    assert_eq!(
        job.command_line(),
        vec!["/bin/valhalla_build_elevation", "-v", "-d", "-c", "/repo/valhalla.json", "-o", "/repo/elevation_tiles"]
    );
    assert_eq!(job.step, StepId::ElevationTiles);
    assert_eq!(job.working_dir, "/repo");
}

#[test]
fn tiles_job_needs_the_extract() {
    let settings = cairn_core::settings::Settings::for_repo("/repo".to_string());
    let err = cairn_core::external::tiles_job(&settings, "rhone-alpes", "/c.json", "vbt".to_string(), false).err().unwrap();
    assert_eq!(err, "/repo/data/sources/rhone_alpes.osm.pbf is missing; run `alpimaps download` first");
    let job = cairn_core::external::tiles_job(&settings, "rhone-alpes", "/c.json", "vbt".to_string(), true).ok().unwrap();
    assert_eq!(job.command_line(), vec!["vbt", "-c", "/c.json", "/repo/data/sources/rhone_alpes.osm.pbf"]);
    assert_eq!(job.step, StepId::ValhallaTiles);
}
