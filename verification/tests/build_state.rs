use cairn_core::state::{hash_options, status, BuildState, OutputFile, StepRecord, StepStatus, VERSION};
use cairn_core::steps::StepId;

fn output(name: &str, bytes: u64, modified: u64) -> OutputFile {
    OutputFile { name: name.into(), bytes, modified, dir: false }
}

fn record(options: &[(&str, &str)], finished_at: u64) -> StepRecord {
    let options: Vec<(String, String)> = options.iter().map(|(k, v)| (k.to_string(), v.to_string())).collect();
    let canonical = canonical(&options);
    StepRecord { finished_at, elapsed: Some("2m".into()), options_hash: hash_options(&canonical), options }
}

fn canonical(options: &[(String, String)]) -> String {
    let body: Vec<String> = options.iter().map(|(k, v)| format!("\"{k}\":{v}")).collect();
    format!("{{{}}}", body.join(","))
}

fn judge(state: &BuildState, step: StepId, options: &[(&str, &str)], probe: Option<OutputFile>) -> StepStatus {
    let options: Vec<(String, String)> = options.iter().map(|(k, v)| (k.to_string(), v.to_string())).collect();
    let hash = hash_options(&canonical(&options));
    status(&["alps.mbtiles".to_string()], &[probe], state.get(step), &options, &hash)
}

#[test]
fn no_output_means_the_step_has_to_run() {
    match judge(&BuildState::empty(), StepId::Basemap, &[], None) {
        StepStatus::Missing { missing } => assert_eq!(missing, vec!["alps.mbtiles"]),
        other => panic!("expected missing output, got {other:?}"),
    }
}

#[test]
fn output_alone_counts_as_built_untracked() {
    let s = judge(&BuildState::empty(), StepId::Basemap, &[], Some(output("alps.mbtiles", 1, 77)));
    assert!(s.is_fresh());
    match s {
        StepStatus::Built { recorded, outputs, finished_at, elapsed } => {
            assert!(!recorded);
            assert_eq!(outputs[0].bytes, 1);
            assert_eq!(finished_at, 77);
            assert_eq!(elapsed, None);
        }
        other => panic!("expected built, got {other:?}"),
    }
}

#[test]
fn a_recorded_run_reads_back_its_timing() {
    let mut state = BuildState::empty();
    state.mark_done(StepId::Basemap, record(&[("maxzoom", "14")], 1234));
    match judge(&state, StepId::Basemap, &[("maxzoom", "14")], Some(output("alps.mbtiles", 5, 9))) {
        StepStatus::Built { recorded, finished_at, elapsed, .. } => {
            assert!(recorded);
            assert_eq!(finished_at, 1234);
            assert_eq!(elapsed.as_deref(), Some("2m"));
        }
        other => panic!("expected built and recorded, got {other:?}"),
    }
}

#[test]
fn changing_an_option_makes_it_stale_and_says_which() {
    let mut state = BuildState::empty();
    state.mark_done(StepId::Basemap, record(&[("maxzoom", "14")], 1));
    match judge(&state, StepId::Basemap, &[("maxzoom", "13")], Some(output("alps.mbtiles", 1, 1))) {
        StepStatus::OptionsChanged { changed, .. } => assert_eq!(changed, vec!["maxzoom"]),
        other => panic!("expected changed options, got {other:?}"),
    }
}

/// Clearing forgets the options, not the output: the file is still there, so the step is still
/// built, just no longer backed by a record.
#[test]
fn clearing_forgets_the_options_not_the_output() {
    let mut state = BuildState::empty();
    state.mark_done(StepId::Basemap, record(&[("maxzoom", "14")], 1));
    state.mark_done(StepId::Routes, record(&[], 2));
    state.clear(StepId::Basemap);
    assert!(state.get(StepId::Basemap).is_none());
    assert_eq!(state.get(StepId::Routes).map(|r| r.finished_at), Some(2));
    match judge(&state, StepId::Basemap, &[("maxzoom", "13")], Some(output("alps.mbtiles", 1, 1))) {
        StepStatus::Built { recorded, .. } => assert!(!recorded),
        other => panic!("expected built and unrecorded, got {other:?}"),
    }
}

#[test]
fn marking_again_replaces_the_record() {
    let mut state = BuildState::empty();
    state.mark_done(StepId::Basemap, record(&[], 1));
    state.mark_done(StepId::Basemap, record(&[], 2));
    assert_eq!(state.get(StepId::Basemap).map(|r| r.finished_at), Some(2));
    assert_eq!(state.steps.len(), 1);
    state.clear_all();
    assert!(state.get(StepId::Basemap).is_none());
    assert!(state.steps.is_empty());
}

#[test]
fn a_record_of_another_layout_is_not_read() {
    let mut state = BuildState::empty();
    state.mark_done(StepId::Basemap, record(&[], 1));
    let kept = state.clone().accept();
    assert_eq!(kept.get(StepId::Basemap).map(|r| r.finished_at), Some(1));
    let mut old = state;
    old.version = VERSION + 1;
    let read = old.accept();
    assert!(read.get(StepId::Basemap).is_none());
    assert_eq!(read.version, VERSION);
}

#[test]
fn only_regular_files_are_deleted() {
    let paths = vec!["/o/a.mbtiles".to_string(), "/repo/elevation_tiles".to_string(), "/o/b.vtiles".to_string()];
    let out = cairn_core::state::files_to_remove(&paths, &[true, false, true]);
    assert_eq!(out, vec!["/o/a.mbtiles".to_string(), "/o/b.vtiles".to_string()]);
    assert!(cairn_core::state::files_to_remove(&paths, &[false, false, false]).is_empty());
}

#[test]
fn empty_files_and_empty_directories_do_not_count() {
    let f = cairn_core::state::output_found("a.mbtiles".into(), false, true, 10, false, 7).unwrap();
    assert_eq!(f, OutputFile { name: "a.mbtiles".into(), bytes: 10, modified: 7, dir: false });
    assert!(cairn_core::state::output_found("a.mbtiles".into(), false, true, 0, false, 7).is_none());
    assert!(cairn_core::state::output_found("tiles".into(), true, false, 4096, false, 7).is_none());
    let d = cairn_core::state::output_found("tiles".into(), true, false, 4096, true, 7).unwrap();
    assert!(d.dir);
    assert_eq!(d.bytes, 0);
}

#[test]
fn a_removed_output_reads_as_missing_though_it_was_recorded() {
    let mut state = BuildState::empty();
    state.mark_done(StepId::Basemap, record(&[("maxzoom", "14")], 1));
    let after = judge(&state, StepId::Basemap, &[("maxzoom", "14")], None);
    assert!(!after.is_fresh());
    match after {
        StepStatus::Missing { missing } => assert_eq!(missing, vec!["alps.mbtiles"]),
        other => panic!("expected missing output, got {other:?}"),
    }
}
