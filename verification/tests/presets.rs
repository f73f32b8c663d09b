use cairn_core::options::{basemap_options, find, routes_options, to_args};
use cairn_core::presets::{builtin, Preset, PresetStore, DEFAULT_PRESET};
use cairn_core::steps::StepId;

fn preset(name: &str, step: StepId, description: &str) -> Preset {
    Preset { name: name.into(), step, description: description.into(), values: Vec::new() }
}

#[test]
fn upsert_replaces_within_a_step() {
    let mut store = PresetStore::new();
    store.upsert(preset("a", StepId::Basemap, ""));
    store.upsert(preset("a", StepId::Basemap, "second"));
    assert_eq!(store.presets.len(), 1);
    assert_eq!(store.presets[0].description, "second");
}

/// Names are scoped per step, so "measured" can mean different things for basemap and routes.
#[test]
fn same_name_coexists_across_steps() {
    let mut store = PresetStore::new();
    for step in [StepId::Basemap, StepId::Routes] {
        store.upsert(preset("measured", step, ""));
    }
    assert_eq!(store.presets.len(), 2);
    assert!(store.get(StepId::Routes, "measured").is_some());
}

#[test]
fn remove_reports_whether_it_matched() {
    let mut store = PresetStore::new();
    store.upsert(preset("a", StepId::Basemap, ""));
    assert!(store.remove(StepId::Basemap, "a"));
    assert!(!store.remove(StepId::Basemap, "a"));
}

#[test]
fn removing_one_leaves_its_namesake_under_another_step() {
    let mut store = PresetStore::new();
    store.upsert(preset("x", StepId::Basemap, "b"));
    store.upsert(preset("x", StepId::Routes, "r"));
    store.upsert(preset("y", StepId::Basemap, "y"));
    assert!(store.remove(StepId::Basemap, "x"));
    assert!(store.get(StepId::Basemap, "x").is_none());
    assert_eq!(store.get(StepId::Routes, "x").map(|p| p.description.as_str()), Some("r"));
    assert_eq!(store.presets.len(), 2);
    let names: Vec<&str> = store.for_step(StepId::Basemap).iter().map(|p| p.name.as_str()).collect();
    assert_eq!(names, vec!["y"]);
}

#[test]
fn upsert_reads_back_and_keeps_its_place() {
    let mut store = PresetStore::new();
    store.upsert(preset("a", StepId::Basemap, "1"));
    store.upsert(preset("b", StepId::Basemap, "2"));
    store.upsert(preset("a", StepId::Basemap, "3"));
    assert_eq!(store.presets[0].description, "3");
    assert_eq!(store.get(StepId::Basemap, "a").unwrap().description, "3");
    assert_eq!(store.get(StepId::Basemap, "b").unwrap().description, "2");
}

#[test]
fn builtin_presets_are_the_measured_sets_and_stock() {
    let presets = builtin();
    assert_eq!(presets.len(), 3);
    assert_eq!((presets[0].name.as_str(), presets[0].step), (DEFAULT_PRESET, StepId::Basemap));
    assert_eq!((presets[1].name.as_str(), presets[1].step), (DEFAULT_PRESET, StepId::Routes));
    assert_eq!((presets[2].name.as_str(), presets[2].step), ("stock", StepId::Basemap));
    let mut store = PresetStore::new();
    for p in builtin() {
        store.upsert(p);
    }
    assert_eq!(store.for_step(StepId::Basemap).len(), 2);
}

#[test]
fn measured_routes_render_the_flags_the_schema_knows() {
    let presets = builtin();
    let defs = routes_options();
    let args = to_args(&defs, &presets[1].values);
    for expected in [
        "--languages=",
        "--compact-db=true",
        "--only_layers=route",
        "--nodemap-type=sparsearray",
        "--simplify-tolerance-at-max-zoom=0.25",
        "--route_extent_digits=2",
        "--route_symbol_id=true",
    ] {
        assert!(args.contains(&expected.to_string()), "missing {expected} from {args:?}");
    }
    assert!(find(&basemap_options(), "simplify_tolerance").is_some());
}

#[test]
fn a_user_preset_wins_over_the_builtin_of_the_same_name() {
    let user = vec![Preset {
        name: "measured".to_string(),
        step: StepId::Basemap,
        description: "mine".to_string(),
        values: vec![],
    }];
    let store = PresetStore::offered(builtin(), user);
    assert_eq!(store.get(StepId::Basemap, "measured").unwrap().description, "mine");
    // the routes preset of the same name is a different one, and stays built-in
    assert_ne!(store.get(StepId::Routes, "measured").unwrap().description, "mine");
    assert!(store.get(StepId::Basemap, "stock").is_some());
    assert_eq!(store.presets.len(), 3);
}

/// A built-in preset that names a flag the schema does not define would silently drop that
/// flag from the command line, which is exactly how a "tuned" build quietly becomes a stock
/// one.
#[test]
fn builtin_presets_only_use_known_options() {
    for preset in builtin() {
        let defs = match preset.step {
            StepId::Basemap => basemap_options(),
            StepId::Routes => routes_options(),
            other => panic!("no schema wired for {other:?}"),
        };
        for (key, _) in &preset.values {
            assert!(find(&defs, key).is_some(), "{:?}/{} references unknown option {key}", preset.step, preset.name);
        }
    }
}

/// The measured basemap set must render the flags it was measured with.
#[test]
fn measured_basemap_renders_its_flags() {
    let preset = builtin().into_iter().find(|p| p.step == StepId::Basemap && p.name == "measured").unwrap();
    let args = to_args(&basemap_options(), &preset.values);
    for expected in [
        "--max-point-buffer=4",
        "--landcover_tolerance_z11_13=1.05",
        "--landcover_merge_maxzoom=true",
        "--water_pool_tolerance=1",
        "--drop_redundant_name_int=true",
        "--transportation_surface_detail=true",
        "--transportation-name-limit-merge=true",
        "--simplify-tolerance=0.7",
        "--languages=",
    ] {
        assert!(args.contains(&expected.to_string()), "missing {expected} from {args:?}");
    }
}

#[test]
fn builtin_values_are_held_in_key_order() {
    for p in builtin() {
        let keys: Vec<&str> = p.values.iter().map(|(k, _)| k.as_str()).collect();
        let mut sorted = keys.clone();
        sorted.sort();
        sorted.dedup();
        assert_eq!(keys, sorted, "{} for {:?}", p.name, p.step);
    }
    assert_eq!(builtin()[0].values[0].0, "compact_db");
}
