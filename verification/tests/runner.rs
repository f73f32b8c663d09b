use cairn_core::options::OptionValue;
use cairn_core::planetiler::Schema;
use cairn_core::runner::{is_forced, planetiler_job, runner_for, should_skip, Run, StepRunner};
use cairn_core::settings::Settings;
use cairn_core::state::{OutputFile, StepStatus};
use cairn_core::steps::StepId;
use cairn_core::progress::LogEvent;
use cairn_core::runner::step_event;
use cairn_core::steps::StepEvent;

#[test]
fn a_run_walks_the_plan_and_stops_at_a_failure() {
    let mut run = Run::new(&[StepId::Basemap, StepId::Routes]);
    assert_eq!(run.ordered, vec![StepId::DownloadOsm, StepId::Basemap, StepId::Routes]);
    assert_eq!(run.current(), Some(StepId::DownloadOsm));
    run.done();
    assert_eq!(run.current(), Some(StepId::Basemap));
    run.failed();
    assert_eq!(run.current(), None);
    assert_eq!(run.into_completed(), vec![StepId::DownloadOsm]);
}

#[test]
fn a_run_that_succeeds_reports_every_step() {
    let mut run = Run::new(&[StepId::ValhallaPackage]);
    while run.current().is_some() {
        run.done();
    }
    assert_eq!(
        run.into_completed(),
        vec![StepId::DownloadOsm, StepId::ElevationTiles, StepId::ValhallaTiles, StepId::ValhallaPackage]
    );
}

#[test]
fn built_output_is_skipped_unless_forced() {
    let built = StepStatus::Built { outputs: vec![OutputFile { name: "a".into(), bytes: 1, modified: 0, dir: false }], elapsed: None, finished_at: 0, recorded: false };
    let missing = StepStatus::Missing { missing: vec!["a".into()] };
    assert!(should_skip(false, &built));
    assert!(!should_skip(true, &built));
    assert!(!should_skip(false, &missing));
    assert!(is_forced(StepId::Routes, false, &[StepId::Basemap, StepId::Routes]));
    assert!(!is_forced(StepId::Hillshade, false, &[StepId::Basemap]));
    assert!(is_forced(StepId::Hillshade, true, &[]));
}

#[test]
fn every_step_has_its_kind_of_work() {
    assert_eq!(runner_for(StepId::DownloadOsm), StepRunner::Download);
    assert_eq!(runner_for(StepId::ElevationTiles), StepRunner::Elevation);
    assert_eq!(runner_for(StepId::ValhallaTiles), StepRunner::ValhallaTool);
    assert_eq!(runner_for(StepId::TerrainRgb), StepRunner::Terrain);
    assert_eq!(runner_for(StepId::Hillshade), StepRunner::Terrain);
    assert_eq!(runner_for(StepId::ValhallaPackage), StepRunner::ValhallaPackage);
    assert_eq!(runner_for(StepId::Basemap), StepRunner::Planetiler);
    assert_eq!(runner_for(StepId::Routes), StepRunner::Planetiler);
}

#[test]
fn a_routes_job_carries_its_area_options_and_typed_extras() {
    let settings = Settings::for_repo("/repo".into());
    let values = vec![
        ("route_extent_digits".to_string(), OptionValue::Number("2".into())),
        ("simplify_tolerance".to_string(), OptionValue::Number("0.5".into())),
    ];
    let job = planetiler_job(&settings, "alps", StepId::Routes, "/usr/bin/java", "/p.jar", Schema::OpenMapTiles, &values, "--polygon='/tmp/my area.poly'");
    assert_eq!(job.output, "/repo/alpimaps_mbtiles/alps/alps_routes.mbtiles");
    assert_eq!(job.tmp_dir, "/repo/data/tmp/alps-Routes");
    assert_eq!(
        job.extra_args,
        vec![
            "--download",
            "--area=alps",
            "--force",
            "--simplify-tolerance=0.5",
            "--route_extent_digits=2",
            "--polygon=/tmp/my area.poly",
        ]
    );
    assert_eq!(job.working_dir, "/repo");
    assert_eq!(job.heap_mb, 12288);
}

#[test]
fn a_basemap_job_ignores_route_only_options() {
    let settings = Settings::for_repo("/repo".into());
    let values = vec![("route_extent_digits".to_string(), OptionValue::Number("2".into()))];
    let job = planetiler_job(&settings, "alps", StepId::Basemap, "java", "p.jar", Schema::OpenMapTiles, &values, "");
    assert_eq!(job.output, "/repo/alpimaps_mbtiles/alps/alps.mbtiles");
    assert_eq!(job.extra_args, vec!["--download", "--area=alps", "--force"]);
}

#[test]
fn planetiler_lines_become_step_events() {
    let (e, t) = step_event(StepId::Basemap, LogEvent::PhaseEnd { stage: "osm_pass1".into(), elapsed: "1m2s".into() });
    assert!(matches!(e, StepEvent::Log { line, .. } if line == "osm_pass1 finished in 1m2s"));
    assert_eq!(t.as_deref(), Some("1m2s"));
    let (e, t) = step_event(StepId::Routes, LogEvent::ZoomEnd { stage: "archive".into(), zoom: 12, elapsed: "3s".into() });
    assert!(matches!(e, StepEvent::Phase { name, step } if name == "archive z12 (3s)" && step == StepId::Routes));
    assert_eq!(t, None);
    let (e, _) = step_event(StepId::Basemap, LogEvent::RunEnd);
    assert!(matches!(e, StepEvent::Log { line, .. } if line == "FINISHED!"));
    let (e, _) = step_event(StepId::Basemap, LogEvent::Progress { stage: "osm_pass1".into(), label: "read".into(), percent: 42 });
    assert!(matches!(e, StepEvent::Progress { label, percent: 42, .. } if label == "read"));
}

#[test]
fn a_run_counts_only_when_it_exited_cleanly_and_was_not_cancelled() {
    match cairn_core::runner::finished_event(StepId::Basemap, "/o/a.mbtiles", true, false, Some("3m".to_string())) {
        StepEvent::Finished { step, ok, elapsed, outputs } => {
            assert_eq!(step, StepId::Basemap);
            assert!(ok);
            assert_eq!(elapsed, Some("3m".to_string()));
            assert_eq!(outputs, vec!["/o/a.mbtiles".to_string()]);
        }
        other => panic!("unexpected {other:?}"),
    }
    for (exited_ok, cancelled) in [(false, false), (true, true), (false, true)] {
        match cairn_core::runner::finished_event(StepId::Routes, "/o/r.mbtiles", exited_ok, cancelled, None) {
            StepEvent::Finished { ok, outputs, .. } => {
                assert!(!ok);
                assert!(outputs.is_empty());
            }
            other => panic!("unexpected {other:?}"),
        }
    }
}

#[test]
fn planetiler_runs_get_their_own_tmp_dirs() {
    let settings = Settings::for_repo("/repo".to_string());
    let job = |area: &str, step: StepId| {
        planetiler_job(&settings, area, step, "java", "p.jar", Schema::OpenMapTiles, &[], "").tmp_dir
    };
    assert_eq!(job("alps", StepId::Basemap), "/repo/data/tmp/alps-Basemap");
    assert_ne!(job("alps", StepId::Basemap), job("alps", StepId::Routes));
    assert_ne!(job("alps", StepId::Basemap), job("rhone-alpes", StepId::Basemap));
}

#[test]
fn command_line_flags_adjust_the_job_arguments() {
    let extra = vec!["--download".to_string(), "--area=alps".to_string(), "--force".to_string()];
    let pass = vec!["--max-point-buffer=4".to_string()];
    assert_eq!(
        cairn_core::runner::with_cli_flags(extra.clone(), false, Some("/p/alps.poly"), &pass),
        vec!["--area=alps", "--force", "--polygon=/p/alps.poly", "--max-point-buffer=4"]
    );
    assert_eq!(cairn_core::runner::with_cli_flags(extra.clone(), true, None, &[]), extra);
}

#[test]
fn only_a_sent_cancel_stops_a_run() {
    assert!(cairn_core::runner::cancel_requested(cairn_core::runner::CancelPoll::Requested));
    assert!(!cairn_core::runner::cancel_requested(cairn_core::runner::CancelPoll::Nothing));
    assert!(!cairn_core::runner::cancel_requested(cairn_core::runner::CancelPoll::SenderGone));
}
