use cairn_core::catalog::sort_texts;
use cairn_core::desktop::{
    clearing_for, cli_candidates, fallback_tile_dir, is_stale_unpack, known_areas, list_steps, package_path,
    step_info, unpack_dir, Clearing,
};
use cairn_core::settings::{first_present, AreaConfig, Settings};
use cairn_core::steps::StepId;
use cairn_core::toolchain::managed_homes;

fn settings() -> Settings {
    Settings::for_repo("/repo".to_string())
}

#[test]
fn step_info_resolves_paths_for_the_area() {
    let info = step_info(&settings(), "alps", StepId::Basemap);
    assert_eq!(info.id, StepId::Basemap);
    assert_eq!(info.label, "Basemap");
    assert_eq!(info.deps, vec![StepId::DownloadOsm]);
    assert!(info.implemented);
    assert_eq!(info.command, "basemap");
    assert_eq!(info.writes, vec!["/repo/alpimaps_mbtiles/alps/alps.mbtiles".to_string()]);
    assert!(info.option_count > 0);
    assert_eq!(step_info(&settings(), "alps", StepId::DownloadOsm).option_count, 0);
}

#[test]
fn listing_without_an_area_uses_a_placeholder() {
    let steps = list_steps(&settings(), None);
    assert_eq!(steps.len(), 8);
    assert_eq!(steps[0].id, StepId::DownloadOsm);
    assert_eq!(steps[7].id, StepId::ValhallaPackage);
    assert_eq!(steps[2].writes, vec!["/repo/alpimaps_mbtiles/<area>/<area>.mbtiles".to_string()]);
}

#[test]
fn clearing_depends_on_step_and_flag() {
    assert!(matches!(clearing_for(Some(StepId::Routes), Some(true)), Clearing::RemoveOutputs(v) if v == vec![StepId::Routes]));
    assert!(matches!(clearing_for(None, Some(true)), Clearing::RemoveOutputs(v) if v.len() == 8));
    assert!(matches!(clearing_for(Some(StepId::Routes), None), Clearing::Forget(StepId::Routes)));
    assert!(matches!(clearing_for(Some(StepId::Routes), Some(false)), Clearing::Forget(StepId::Routes)));
    assert!(matches!(clearing_for(None, None), Clearing::ForgetAll));
}

#[test]
fn cli_is_looked_for_beside_the_app_first() {
    let c = cli_candidates(Some("/app/bin"), Some("/app/res"), &["/usr/bin".to_string()]);
    assert_eq!(
        c,
        vec![
            "/app/bin/alpimaps",
            "/app/bin/../Resources/alpimaps",
            "/app/bin/alpimaps.exe",
            "/app/res/resources/alpimaps",
            "/app/res/alpimaps",
            "/usr/bin/alpimaps",
        ]
    );
    assert_eq!(cli_candidates(None, None, &[]), Vec::<String>::new());
}

#[test]
fn first_present_takes_the_first_hit() {
    let paths = vec!["a".to_string(), "b".to_string(), "c".to_string()];
    assert_eq!(first_present(&paths, &[false, true, true]), Some("b".to_string()));
    assert_eq!(first_present(&paths, &[false, false, false]), None);
    assert_eq!(first_present(&paths, &[false]), None);
}

#[test]
fn managed_runtime_homes_try_the_bundle_layout_first() {
    let h = managed_homes(&["/m/jdk-21".to_string()]);
    assert_eq!(h, vec!["/m/jdk-21/Contents/Home".to_string(), "/m/jdk-21".to_string()]);
}

#[test]
fn package_defaults_to_the_area_vtiles() {
    let s = settings();
    assert_eq!(package_path(&s, "alps", None), "/repo/alpimaps_mbtiles/alps/alps.vtiles");
    assert_eq!(package_path(&s, "alps", Some("alps.base.vtiles")), "/repo/alpimaps_mbtiles/alps/alps.base.vtiles");
}

#[test]
fn missing_package_falls_back_on_the_graph_output() {
    let s = settings();
    assert_eq!(fallback_tile_dir(&s, "/p/a.vtiles", true), Ok("/repo/valhalla_tiles".to_string()));
    assert_eq!(
        fallback_tile_dir(&s, "/p/a.vtiles", false),
        Err("no /p/a.vtiles and no valhalla_tiles/ to fall back on".to_string())
    );
}

#[test]
fn unpacks_are_keyed_by_name_size_and_time() {
    let u = unpack_dir("/cache", "/out/alps/alps.vtiles", "alps", Some((1234, 1700000000)));
    assert_eq!(u.dir, "/cache/alps.vtiles-1234-1700000000");
    assert_eq!(u.stale_prefix, "alps.vtiles-");
    let unknown = unpack_dir("/cache", "/out/alps/alps.vtiles", "alps", None);
    assert_eq!(unknown.dir, "/cache/alps.vtiles-unknown");
    let nameless = unpack_dir("/cache", "/out/..", "alps", None);
    assert_eq!(nameless.stale_prefix, "alps-");
    assert!(is_stale_unpack("alps.vtiles-99-1", &u.stale_prefix));
    assert!(!is_stale_unpack("alps.base.vtiles-99-1", &u.stale_prefix));
}

#[test]
fn configured_areas_join_the_found_ones_sorted() {
    let configured = vec![
        AreaConfig { name: "zurich".to_string(), poly: None },
        AreaConfig { name: "alps".to_string(), poly: None },
        AreaConfig { name: "zurich".to_string(), poly: None },
    ];
    let areas = known_areas(vec!["rhone-alpes".to_string(), "alps".to_string()], &configured);
    assert_eq!(areas, vec!["alps", "rhone-alpes", "zurich"]);
}

#[test]
fn texts_sort_by_character() {
    let v = sort_texts(vec!["b".to_string(), "B".to_string(), "a".to_string(), "ab".to_string()]);
    assert_eq!(v, vec!["B", "a", "ab", "b"]);
}
