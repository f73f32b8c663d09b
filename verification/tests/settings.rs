use cairn_core::settings::{newest_jar, Settings};

#[test]
fn the_candidates_climb_from_the_start() {
    assert_eq!(
        Settings::repo_candidates("/x/checkout/app/src-tauri"),
        vec!["/x/checkout/app/src-tauri", "/x/checkout/app", "/x/checkout", "/x"]
    );
    assert_eq!(Settings::repo_candidates("/a"), vec!["/a", "/"]);
}

#[test]
fn locate_repo_finds_the_checkout_above_the_start() {
    let start = "/x/checkout/app/src-tauri";
    assert_eq!(Settings::locate_repo(start, &[false, false, true, false]), "/x/checkout");
    assert_eq!(Settings::locate_repo(start, &[true, false, true, false]), start);
}

#[test]
fn locate_repo_falls_back_to_the_start() {
    assert_eq!(Settings::locate_repo("a/b/c", &[false, false, false, false]), "a/b/c");
    assert_eq!(Settings::locate_repo("a/b/c", &[]), "a/b/c");
}

#[test]
fn checkout_markers_sit_in_the_directory() {
    let (file, dir) = Settings::checkout_markers("/repo");
    assert_eq!(file, "/repo/valhalla.json");
    assert_eq!(dir, "/repo/planetiler");
}

#[test]
fn newest_jar_takes_the_last_name_in_order() {
    let names: Vec<String> = ["notes.txt", "planetiler-dist-0.10.3-with-deps.jar", "planetiler-dist-0.11.0-with-deps.jar", "x.jar"]
        .iter()
        .map(|s| s.to_string())
        .collect();
    assert_eq!(
        newest_jar("/Resources", &names),
        Some("/Resources/planetiler-dist-0.11.0-with-deps.jar".to_string())
    );
    assert_eq!(newest_jar("/Resources", &["x.jar".to_string()]), None);
    assert_eq!(newest_jar("/Resources", &[]), None);
}

#[test]
fn the_configured_jar_wins_when_it_is_there() {
    let mut s = Settings::for_repo("/repo".into());
    s.planetiler_jar = Some("/opt/p.jar".into());
    let found = vec![("/a/new-with-deps.jar".to_string(), 99u64)];
    assert_eq!(s.planetiler_jar_path(true, &found), Some("/opt/p.jar".to_string()));
    assert_eq!(s.planetiler_jar_path(false, &found), Some("/a/new-with-deps.jar".to_string()));
}

#[test]
fn the_most_recently_built_jar_runs() {
    let s = Settings::for_repo("/repo".into());
    let found = vec![
        ("/data/jars/a-with-deps.jar".to_string(), 10u64),
        ("/Resources/b-with-deps.jar".to_string(), 30u64),
        ("/repo/planetiler/planetiler-dist/target/c-with-deps.jar".to_string(), 20u64),
    ];
    assert_eq!(s.planetiler_jar_path(false, &found), Some("/Resources/b-with-deps.jar".to_string()));
    let tied = vec![("/first-with-deps.jar".to_string(), 5u64), ("/second-with-deps.jar".to_string(), 5u64)];
    assert_eq!(s.planetiler_jar_path(false, &tied), Some("/second-with-deps.jar".to_string()));
    assert_eq!(s.planetiler_jar_path(false, &[]), None);
    assert_eq!(s.checkout_jar_dir(), "/repo/planetiler/planetiler-dist/target");
}

#[test]
fn downloaded_jars_are_named_so_the_lookup_finds_them() {
    assert_eq!(
        cairn_core::settings::downloaded_jar_name("https://github.com/x/releases/download/t/planetiler.jar"),
        "planetiler-with-deps.jar"
    );
    assert_eq!(
        cairn_core::settings::downloaded_jar_name("https://h/p/planetiler-dist-0.9-with-deps.jar"),
        "planetiler-dist-0.9-with-deps.jar"
    );
    assert_eq!(cairn_core::settings::downloaded_jar_name("a.jar.jar"), "a-with-deps.jar");
    assert_eq!(cairn_core::settings::downloaded_jar_name("https://h/latest"), "latest-with-deps.jar");
    assert_eq!(cairn_core::settings::downloaded_jar_name("https://h/"), "-with-deps.jar");
}

#[test]
fn a_blank_jar_url_means_none() {
    assert_eq!(cairn_core::settings::jar_url(Some("https://a"), Some("https://b")), Some("https://a".to_string()));
    assert_eq!(cairn_core::settings::jar_url(None, Some("https://b")), Some("https://b".to_string()));
    assert_eq!(cairn_core::settings::jar_url(Some("  "), Some("https://b")), None);
    assert_eq!(cairn_core::settings::jar_url(None, None), None);
}
