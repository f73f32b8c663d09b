use cairn_core::routing::{config_from_template, ConfigError, Json};

fn text(s: &str) -> Json {
    Json::Text(s.to_string())
}

fn object(members: Vec<(&str, Json)>) -> Json {
    Json::Object(members.into_iter().map(|(k, v)| (k.to_string(), v)).collect())
}

fn get<'a>(j: &'a Json, key: &str) -> Option<&'a Json> {
    match j {
        Json::Object(ms) => ms.iter().find(|(k, _)| k == key).map(|(_, v)| v),
        _ => None,
    }
}

/// {"mjolnir":{"tile_dir":"/old","tile_extract":"/old.tar"},
///  "service_limits":{"isochrone":{"max_contours":4}}}
fn template() -> Json {
    object(vec![
        ("mjolnir", object(vec![("tile_dir", text("/old")), ("tile_extract", text("/old.tar"))])),
        (
            "service_limits",
            object(vec![("isochrone", object(vec![("max_contours", Json::Number("4".to_string()))]))]),
        ),
    ])
}

#[test]
fn template_is_repointed_at_the_tile_directory() {
    let json = config_from_template(template(), "/data/tiles").unwrap();
    let mjolnir = get(&json, "mjolnir").unwrap();
    assert_eq!(get(mjolnir, "tile_dir"), Some(&text("/data/tiles")));
    // everything else survives, including the keys the actor validates
    let limits = get(&json, "service_limits").unwrap();
    let iso = get(limits, "isochrone").unwrap();
    assert_eq!(get(iso, "max_contours"), Some(&Json::Number("4".to_string())));
}

#[test]
fn stale_extract_is_removed() {
    let t = object(vec![(
        "mjolnir",
        object(vec![("tile_dir", text("/old")), ("tile_extract", text("/old.tar")), ("traffic_extract", text("/t.tar"))]),
    )]);
    let json = config_from_template(t, "/data/tiles").unwrap();
    let mjolnir = get(&json, "mjolnir").unwrap();
    assert!(get(mjolnir, "tile_extract").is_none());
    assert!(get(mjolnir, "traffic_extract").is_none());
    match mjolnir {
        Json::Object(ms) => assert_eq!(ms.len(), 1),
        _ => panic!("mjolnir is not an object"),
    }
}

#[test]
fn rejects_a_template_without_mjolnir() {
    // {"loki":{}}
    let t = object(vec![("loki", object(vec![]))]);
    assert!(config_from_template(t, "/tiles").is_err());
}

#[test]
fn mjolnir_must_be_an_object() {
    let t = object(vec![("mjolnir", Json::Array(vec![]))]);
    assert_eq!(config_from_template(t, "/tiles"), Err(ConfigError::NoMjolnir));
    assert_eq!(config_from_template(Json::Null, "/tiles"), Err(ConfigError::NoMjolnir));
    assert_eq!(ConfigError::NoMjolnir.message(), "config template has no mjolnir section");
}

#[test]
fn other_mjolnir_keys_are_kept_in_order() {
    let t = object(vec![(
        "mjolnir",
        object(vec![("hierarchy", Json::Bool(true)), ("tile_dir", text("/old")), ("shortcuts", Json::Bool(false))]),
    )]);
    let json = config_from_template(t, "/g").unwrap();
    let expected = object(vec![(
        "mjolnir",
        object(vec![("hierarchy", Json::Bool(true)), ("shortcuts", Json::Bool(false)), ("tile_dir", text("/g"))]),
    )]);
    assert_eq!(json, expected);
}

/// Without Valhalla the library reports that it cannot route.
#[test]
fn reports_unavailable_without_valhalla() {
    assert!(!cairn_core::routing::available());
}
