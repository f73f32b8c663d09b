use cairn_core::download::{extract_url, take_area_poly, with_clip, IndexEntry};
use cairn_core::options::OptionValue;

fn entry(id: &str, name: &str, pbf: Option<&str>) -> IndexEntry {
    IndexEntry { id: id.to_string(), name: name.to_string(), pbf: pbf.map(|s| s.to_string()) }
}

fn index() -> Vec<IndexEntry> {
    vec![
        entry("europe", "Europe", Some("https://d/europe-latest.osm.pbf")),
        entry("alps-region", "Rhone-Alpes", Some("https://d/by-name-latest.osm.pbf")),
        entry("rhone-alpes", "Rhône-Alpes", Some("https://d/europe/france/rhone-alpes-latest.osm.pbf")),
        entry("nowhere", "Nowhere", None),
    ]
}

#[test]
fn ids_are_matched_ignoring_case() {
    assert_eq!(extract_url(&index(), "Rhone-Alpes"), Ok("https://d/europe/france/rhone-alpes-latest.osm.pbf".to_string()));
}

#[test]
fn a_name_match_never_wins_over_an_id() {
    // "alps-region" is named "Rhone-Alpes", but "rhone-alpes" is an id further down
    assert_eq!(extract_url(&index(), "rhone-alpes"), Ok("https://d/europe/france/rhone-alpes-latest.osm.pbf".to_string()));
}

#[test]
fn names_are_a_fallback() {
    let es = vec![entry("fr-ara", "Auvergne-Rhône-Alpes", Some("https://d/ara-latest.osm.pbf"))];
    assert_eq!(extract_url(&es, "auvergne-rhône-alpes"), Ok("https://d/ara-latest.osm.pbf".to_string()));
}

#[test]
fn entries_without_an_extract_are_passed_over() {
    assert_eq!(
        extract_url(&index(), "nowhere"),
        Err("no Geofabrik extract called `nowhere` - ids look like `rhone-alpes` or `france`".to_string())
    );
}

fn values(pairs: Vec<(&str, OptionValue)>) -> Vec<(String, OptionValue)> {
    pairs.into_iter().map(|(k, v)| (k.to_string(), v)).collect()
}

#[test]
fn area_poly_asks_for_the_boundary_when_no_shape_is_set() {
    let (rest, fetch) = take_area_poly(values(vec![("area_poly", OptionValue::Bool(true)), ("maxzoom", OptionValue::Number("14".into()))]), "polygon");
    assert!(fetch);
    assert_eq!(rest, values(vec![("maxzoom", OptionValue::Number("14".into()))]));
    let with = with_clip(rest, "polygon", "/data/alps.poly");
    assert_eq!(with.last().unwrap(), &("polygon".to_string(), OptionValue::Text("/data/alps.poly".into())));
}

#[test]
fn an_explicit_shape_wins_and_the_switch_goes_anyway() {
    let (rest, fetch) = take_area_poly(
        values(vec![("polygon", OptionValue::Text("/mine.poly".into())), ("area_poly", OptionValue::Bool(true))]),
        "polygon",
    );
    assert!(!fetch);
    assert_eq!(rest, values(vec![("polygon", OptionValue::Text("/mine.poly".into()))]));
    let (rest, fetch) = take_area_poly(values(vec![("area_poly", OptionValue::Bool(false))]), "polygon");
    assert!(!fetch);
    assert!(rest.is_empty());
}

#[test]
fn download_percent_is_capped_and_zero_when_unknown() {
    assert_eq!(cairn_core::download::download_percent(50, Some(200)), 25);
    assert_eq!(cairn_core::download::download_percent(300, Some(200)), 100);
    assert_eq!(cairn_core::download::download_percent(300, Some(0)), 0);
    assert_eq!(cairn_core::download::download_percent(300, None), 0);
}

/// An explicit clip shape is the user's decision and must survive the switch.
#[test]
fn area_poly_never_overrides_an_explicit_shape() {
    let (values, fetch) = take_area_poly(
        values(vec![("area_poly", OptionValue::Bool(true)), ("polygon", OptionValue::Text("/tmp/mine.poly".into()))]),
        "polygon",
    );
    assert!(!fetch, "an explicit shape short-circuits before any download");
    assert_eq!(values.iter().find(|(k, _)| k == "polygon").map(|(_, v)| v.clone()), Some(OptionValue::Text("/tmp/mine.poly".into())));
    // the switch is cairn's own and must not reach the tool
    assert!(!values.iter().any(|(k, _)| k == "area_poly"));
}
