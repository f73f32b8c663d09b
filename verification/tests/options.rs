use cairn_core::options::{
    basemap_options, find, package_options, planetiler_common, routes_options, terrain_options,
    to_args, OptionKind, OptionValue,
};
use cairn_core::options::{parse_override, Override, OverrideError};
use cairn_core::options::{parse_overrides, with_overrides};

fn values(pairs: &[(&str, OptionValue)]) -> Vec<(String, OptionValue)> {
    let mut v: Vec<(String, OptionValue)> =
        pairs.iter().map(|(k, val)| (k.to_string(), val.clone())).collect();
    v.sort_by(|a, b| a.0.cmp(&b.0));
    v
}

fn num(text: &str) -> OptionValue {
    OptionValue::Number(text.to_string())
}

#[test]
fn emits_only_what_was_set() {
    let defs = basemap_options();
    let args = to_args(&defs, &values(&[("simplify_tolerance", num("0.7"))]));
    assert_eq!(args, vec!["--simplify-tolerance=0.7"]);
}

/// An untouched form must add nothing, so planetiler's defaults stand.
#[test]
fn empty_values_emit_no_arguments() {
    assert!(to_args(&basemap_options(), &values(&[])).is_empty());
}

#[test]
fn renders_the_measured_flag_set() {
    let defs = basemap_options();
    let args = to_args(
        &defs,
        &values(&[
            ("simplify_tolerance", num("0.7")),
            ("simplify_tolerance_at_max_zoom", num("0.25")),
            ("min_feature_size_at_max_zoom", num("0.25")),
            ("landcover_tolerance_z11_13", num("1.05")),
            ("landcover_drop_redundant_subclass", OptionValue::Bool(true)),
            ("landcover_merge_maxzoom", OptionValue::Bool(true)),
        ]),
    );
    assert!(args.contains(&"--simplify-tolerance=0.7".to_string()));
    assert!(args.contains(&"--simplify-tolerance-at-max-zoom=0.25".to_string()));
    assert!(args.contains(&"--landcover_tolerance_z11_13=1.05".to_string()));
    assert!(args.contains(&"--landcover_drop_redundant_subclass=true".to_string()));
    assert_eq!(args.len(), 6);
}

#[test]
fn booleans_emit_explicit_false() {
    let args = to_args(&basemap_options(), &values(&[("compact_db", OptionValue::Bool(false))]));
    assert_eq!(args, vec!["--compact-db=false"]);
}

/// `--languages=` with nothing after it is how localised names are dropped.
#[test]
fn empty_string_is_still_emitted() {
    let args = to_args(&basemap_options(), &values(&[("languages", OptionValue::Text(String::new()))]));
    assert_eq!(args, vec!["--languages="]);
}

#[test]
fn null_is_treated_as_unset() {
    assert!(to_args(&basemap_options(), &values(&[("simplify_tolerance", OptionValue::Null)])).is_empty());
}

#[test]
fn unknown_keys_are_ignored() {
    assert!(to_args(&basemap_options(), &values(&[("not_a_flag", num("1"))])).is_empty());
}

#[test]
fn route_options_carry_the_fork_flags() {
    let defs = routes_options();
    for key in ["route_road_tolerance", "route_extent_digits", "route_symbol_id"] {
        assert!(find(&defs, key).is_some(), "missing {key}");
    }
    let args = to_args(&defs, &values(&[("route_extent_digits", num("2"))]));
    assert_eq!(args, vec!["--route_extent_digits=2"]);
}

#[test]
fn every_key_is_unique_within_a_step() {
    for defs in [basemap_options(), routes_options()] {
        let mut keys: Vec<&str> = defs.iter().map(|d| d.key.as_str()).collect();
        let before = keys.len();
        keys.sort_unstable();
        keys.dedup();
        assert_eq!(keys.len(), before, "duplicate option key");
    }
}

#[test]
fn arguments_follow_definition_order_not_value_order() {
    let args = to_args(
        &basemap_options(),
        &values(&[("maxzoom", num("14")), ("compact_db", OptionValue::Bool(true)), ("languages", OptionValue::Text("en,fr".into()))]),
    );
    assert_eq!(args, vec!["--maxzoom=14", "--compact-db=true", "--languages=en,fr"]);
}

#[test]
fn a_nested_value_renders_as_its_json() {
    let args = to_args(&package_options(), &values(&[("levels", OptionValue::Other("[0,1]".into()))]));
    assert_eq!(args, vec!["--levels=[0,1]"]);
}

#[test]
fn terrain_flags_differ_from_their_keys() {
    let defs = terrain_options();
    let args = to_args(&defs, &values(&[("download_elevation", OptionValue::Bool(false)), ("round_digits", num("8"))]));
    assert_eq!(args, vec!["--round-digits=8", "--no-elevation-download=false"]);
    assert_eq!(defs.len(), 13);
}

#[test]
fn schema_kinds_are_as_declared() {
    let common = planetiler_common();
    assert_eq!(common.len(), 14);
    assert_eq!(common[4].kind, OptionKind::Int { min: Some(0), max: Some(15) });
    assert_eq!(common[0].kind, OptionKind::Float { min: Some(0), max: None });
    assert_eq!(
        find(&common, "nodemap_type").map(|d| d.kind.clone()),
        Some(OptionKind::Choice { choices: vec!["sparsearray".into(), "sortedtable".into(), "array".into()] })
    );
    assert!(find(&common, "route_symbol_id").is_none());
    assert_eq!(basemap_options().len(), 24);
    assert_eq!(routes_options().len(), 23);
}

#[test]
fn overrides_are_read_by_their_option_kind() {
    let defs = basemap_options();
    assert_eq!(parse_override(&defs, "compact_db=true"), Ok(("compact_db".to_string(), Override::Bool(true))));
    assert_eq!(parse_override(&defs, "maxzoom=-3"), Ok(("maxzoom".to_string(), Override::Int(-3))));
    assert_eq!(parse_override(&defs, "maxzoom=+14"), Ok(("maxzoom".to_string(), Override::Int(14))));
    assert_eq!(parse_override(&defs, "simplify_tolerance=0.70"), Ok(("simplify_tolerance".to_string(), Override::Float("0.70".into()))));
    assert_eq!(parse_override(&defs, "languages=en=fr"), Ok(("languages".to_string(), Override::Text("en=fr".into()))));
    assert_eq!(parse_override(&defs, "compact_db"), Err(OverrideError::NotKeyValue { entry: "compact_db".into() }));
    assert_eq!(parse_override(&defs, "nope=1"), Err(OverrideError::UnknownKey { key: "nope".into() }));
    assert_eq!(parse_override(&defs, "compact_db=yes"), Err(OverrideError::NotBool { key: "compact_db".into() }));
    assert_eq!(parse_override(&defs, "maxzoom=1.5"), Err(OverrideError::NotInt { key: "maxzoom".into() }));
    assert_eq!(parse_override(&defs, "maxzoom=-"), Err(OverrideError::NotInt { key: "maxzoom".into() }));
    assert_eq!(parse_override(&defs, "maxzoom=9223372036854775807"), Ok(("maxzoom".to_string(), Override::Int(i64::MAX))));
    assert_eq!(parse_override(&defs, "maxzoom=-9223372036854775808"), Ok(("maxzoom".to_string(), Override::Int(i64::MIN))));
    assert_eq!(parse_override(&defs, "maxzoom=9223372036854775808"), Err(OverrideError::NotInt { key: "maxzoom".into() }));
    assert_eq!(parse_override(&defs, "simplify_tolerance=1e-3"), Ok(("simplify_tolerance".to_string(), Override::Float("1e-3".into()))));
    assert_eq!(parse_override(&defs, "simplify_tolerance=0,7"), Err(OverrideError::NotFloat { key: "simplify_tolerance".into() }));
    assert_eq!(parse_override(&defs, "simplify_tolerance="), Err(OverrideError::NotFloat { key: "simplify_tolerance".into() }));
}

#[test]
fn an_override_wins_over_the_preset_value() {
    let base = vec![("maxzoom".to_string(), num("14")), ("compact_db".to_string(), OptionValue::Bool(true))];
    let over = vec![("maxzoom".to_string(), num("13"))];
    let merged = with_overrides(base, over);
    let args = to_args(&basemap_options(), &merged);
    assert_eq!(args, vec!["--maxzoom=13", "--compact-db=true"]);
}

#[test]
fn the_last_override_of_a_key_wins() {
    let base = vec![("maxzoom".to_string(), num("14"))];
    let over = vec![("maxzoom".to_string(), num("13")), ("maxzoom".to_string(), num("12"))];
    let merged = with_overrides(base, over);
    assert_eq!(merged, vec![("maxzoom".to_string(), num("12"))]);
    let args = to_args(&basemap_options(), &merged);
    assert_eq!(args, vec!["--maxzoom=12"]);
}

#[test]
fn overrides_parse_in_order_and_stop_at_the_first_refusal() {
    let defs = basemap_options();
    let raw = vec!["maxzoom=13".to_string(), "compact_db=true".to_string()];
    assert_eq!(
        parse_overrides(&defs, &raw),
        Ok(vec![("maxzoom".to_string(), Override::Int(13)), ("compact_db".to_string(), Override::Bool(true))])
    );
    let twice = vec!["maxzoom=13".to_string(), "compact_db=true".to_string(), "maxzoom=12".to_string()];
    assert_eq!(
        parse_overrides(&defs, &twice),
        Ok(vec![("compact_db".to_string(), Override::Bool(true)), ("maxzoom".to_string(), Override::Int(12))])
    );
    let bad = vec!["maxzoom=13".to_string(), "maxzom=12".to_string(), "nonsense".to_string()];
    assert_eq!(parse_overrides(&defs, &bad), Err(OverrideError::UnknownKey { key: "maxzom".to_string() }));
    assert_eq!(parse_overrides(&defs, &[]), Ok(vec![]));
}

#[test]
fn every_step_shows_its_own_form() {
    assert_eq!(cairn_core::options::step_options(cairn_core::steps::StepId::Routes).len(), 23);
    assert_eq!(cairn_core::options::step_options(cairn_core::steps::StepId::Basemap).len(), 24);
    assert_eq!(cairn_core::options::step_options(cairn_core::steps::StepId::Hillshade).len(), 13);
    assert_eq!(cairn_core::options::step_options(cairn_core::steps::StepId::ValhallaPackage).len(), 3);
    assert!(cairn_core::options::step_options(cairn_core::steps::StepId::DownloadOsm).is_empty());
    assert!(cairn_core::options::step_options(cairn_core::steps::StepId::ValhallaTiles).is_empty());
}
