use cairn_core::progress::{parse_line, strip_ansi, LogEvent};

fn prog(line: &str) -> (String, String, u8) {
    match parse_line(line) {
        LogEvent::Progress { stage, label, percent } => (stage, label, percent),
        other => panic!("expected Progress, got {other:?} for {line:?}"),
    }
}

#[test]
fn reads_progress_counter() {
    let (stage, label, pct) =
        prog("0:00:02 INF [lake_centerlines] -  read: [   22 100%   53/s ] write: [    0    0/s ] 0");
    assert_eq!((stage.as_str(), label.as_str(), pct), ("lake_centerlines", "read", 100));
}

#[test]
fn reads_suffixed_counts() {
    let (stage, label, pct) =
        prog("0:00:53 INF [archive] -  features: [  22M 100% 3.7M/s ] 1.7G  tiles: [  21k 3.6k/s ] 296M");
    assert_eq!((stage.as_str(), label.as_str(), pct), ("archive", "features", 100));
}

#[test]
fn reads_ratio_counter() {
    let (stage, label, pct) = prog("0:00:47 INF [sort] -  chunks: [   2 /   2 100% ] 1.7G");
    assert_eq!((stage.as_str(), label.as_str(), pct), ("sort", "chunks", 100));
}

#[test]
fn worker_cpu_summary_is_not_progress() {
    assert!(matches!(
        parse_line("0:00:02 INF [lake_centerlines] -   read     1x(19% 0.2s)"),
        LogEvent::Log { .. }
    ));
}

#[test]
fn continuation_line_is_not_progress() {
    assert!(matches!(
        parse_line("    cpus: 0.7 gc:  0% heap: 67M/34G direct: 245k postGC: 76M"),
        LogEvent::Log { .. }
    ));
}

#[test]
fn pipeline_detail_line_is_not_progress() {
    assert!(matches!(
        parse_line("    ->     (0/3) -> read( -%) ->    (0/1k) -> process( -%  -%) ->   (0/68k)"),
        LogEvent::Log { .. }
    ));
}

#[test]
fn phase_start_and_end() {
    assert_eq!(
        parse_line("0:00:01 INF [lake_centerlines] - Starting..."),
        LogEvent::PhaseStart { stage: "lake_centerlines".into() }
    );
    assert_eq!(
        parse_line("0:00:02 INF [lake_centerlines] - Finished in 1s cpu:3s avg:2.7"),
        LogEvent::PhaseEnd { stage: "lake_centerlines".into(), elapsed: "1s".into() }
    );
}

#[test]
fn run_end_is_the_finished_bang_line() {
    assert_eq!(parse_line("0:00:53 INF [archive] - FINISHED!"), LogEvent::RunEnd);
    assert_eq!(
        parse_line("0:00:53 INF [archive] - Finished in 54s cpu:5m24s gc:1s avg:6"),
        LogEvent::PhaseEnd { stage: "archive".into(), elapsed: "54s".into() }
    );
}

#[test]
fn reads_zoom_completions() {
    assert_eq!(
        parse_line("0:00:50 INF [archive:write] - Finished z12 in 1s cpu:20s avg:15.7, now starting z13"),
        LogEvent::ZoomEnd { stage: "archive:write".into(), zoom: 12, elapsed: "1s".into() }
    );
}

#[test]
fn strips_ansi_before_matching() {
    let (stage, _, pct) =
        prog("\u{1b}[0m0:00:02 INF [osm_pass1] -  read: [ \u{1b}[32m 50 50%\u{1b}[0m  53/s ]");
    assert_eq!((stage.as_str(), pct), ("osm_pass1", 50));
}

#[test]
fn debug_lines_are_logs() {
    assert!(matches!(
        parse_line("0:00:01 DEB - argument: vacuum_analyze=false (mbtiles: vacuum analyze)"),
        LogEvent::Log { .. }
    ));
}

#[test]
fn escapes_are_removed_and_text_kept() {
    assert_eq!(strip_ansi("\u{1b}[1;32mgreen\u{1b}[0m plain"), "green plain");
    // an escape without its closing letter is not an escape
    assert_eq!(strip_ansi("\u{1b}[12"), "\u{1b}[12");
}

#[test]
fn a_stageless_finished_line_has_an_empty_stage() {
    assert_eq!(
        parse_line("0:00:53 INF - Finished in 54s"),
        LogEvent::PhaseEnd { stage: String::new(), elapsed: "54s".into() }
    );
}

#[test]
fn a_zoom_too_large_for_a_byte_is_a_phase_end() {
    assert_eq!(
        parse_line("0:00:50 INF [archive] - Finished z300 in 1s"),
        LogEvent::PhaseEnd { stage: "archive".into(), elapsed: "1s".into() }
    );
}

#[test]
fn percent_above_a_hundred_is_capped_and_above_a_byte_skipped() {
    let (_, label, pct) = prog("0:00:02 INF [x] - read: [ 150% ]");
    assert_eq!((label.as_str(), pct), ("read", 100));
    // 300 does not fit a byte, so that counter is passed over for the next one
    let (_, label, pct) = prog("0:00:02 INF [x] - read: [ 300% ] write: [ 7% ]");
    assert_eq!((label.as_str(), pct), ("write", 7));
}

#[test]
fn a_counter_without_percent_does_not_shadow_a_later_one() {
    let (_, label, pct) = prog("0:00:02 INF [x] - tiles: [ 21k 3.6k/s ] features: [ 22M 40% ]");
    assert_eq!((label.as_str(), pct), ("features", 40));
}

#[test]
fn trailing_white_space_is_dropped_from_log_lines() {
    assert_eq!(parse_line("hello world  \t"), LogEvent::Log { line: "hello world".into() });
}
