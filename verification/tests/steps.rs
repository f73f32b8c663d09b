use cairn_core::steps::{plan, StepId, ALL_STEPS};

#[test]
fn plan_pulls_in_dependencies() {
    let p = plan(&[StepId::ValhallaPackage]);
    assert_eq!(
        p,
        vec![
            StepId::DownloadOsm,
            StepId::ElevationTiles,
            StepId::ValhallaTiles,
            StepId::ValhallaPackage
        ]
    );
}

#[test]
fn plan_orders_dependencies_first() {
    for step in ALL_STEPS {
        let p = plan(&[step]);
        for (i, s) in p.iter().enumerate() {
            for dep in s.deps() {
                let at = p.iter().position(|x| x == dep).expect("dep present");
                assert!(at < i, "{dep:?} must precede {s:?} in {p:?}");
            }
        }
    }
}

#[test]
fn plan_deduplicates_shared_dependencies() {
    let p = plan(&[StepId::Basemap, StepId::Routes]);
    assert_eq!(p, vec![StepId::DownloadOsm, StepId::Basemap, StepId::Routes]);
    assert_eq!(p.iter().filter(|s| **s == StepId::DownloadOsm).count(), 1);
}

#[test]
fn plan_of_everything_contains_everything_once() {
    let p = plan(&ALL_STEPS);
    assert_eq!(p.len(), ALL_STEPS.len());
    for step in ALL_STEPS {
        assert!(p.contains(&step), "{step:?} missing");
    }
}

#[test]
fn empty_selection_is_an_empty_plan() {
    assert!(plan(&[]).is_empty());
}

#[test]
fn every_step_is_wired_into_the_runner() {
    for step in ALL_STEPS {
        assert!(step.is_implemented(), "{step:?} is not wired into the runner");
    }
}

#[test]
fn planetiler_steps_are_flagged() {
    assert!(StepId::Basemap.is_planetiler() && StepId::Routes.is_planetiler());
    assert!(!StepId::TerrainRgb.is_planetiler());
}

#[test]
fn a_repeated_selection_keeps_the_first_placement() {
    let p = plan(&[StepId::Routes, StepId::DownloadOsm, StepId::Routes]);
    assert_eq!(p, vec![StepId::DownloadOsm, StepId::Routes]);
}

#[test]
fn steps_describe_themselves() {
    assert_eq!(StepId::TerrainRgb.label(), "Terrain RGB");
    assert_eq!(StepId::ValhallaTiles.command(), "valhalla-tiles");
    assert_eq!(StepId::Basemap.reads(), "the OSM extract, the planetiler jar, Java 21+");
    assert!(StepId::Hillshade.summary().starts_with("The same renderer packed the mapbox way"));
    assert_eq!(StepId::ValhallaTiles.deps(), &[StepId::DownloadOsm, StepId::ElevationTiles]);
}
