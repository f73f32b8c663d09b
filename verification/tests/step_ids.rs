use cairn_core::step_ids::step_from_id;
use cairn_core::steps::ALL_STEPS;

#[test]
fn every_step_id_reads_back() {
    for step in ALL_STEPS {
        assert_eq!(step_from_id(step.id()), Some(step));
    }
    assert_eq!(step_from_id("valhalla_package"), Some(cairn_core::steps::StepId::ValhallaPackage));
    assert_eq!(step_from_id("Basemap"), None);
    assert_eq!(step_from_id(""), None);
}
