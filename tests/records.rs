use pore_detection::classify::{AnalysisParams, Region};
use pore_detection::export::ExportDecimalFormat;
use pore_detection::pipeline::analyze;
use pore_detection::raster::Raster;
use pore_detection::records::{ImageData, RunStatus, Images};

fn record(name: &str, luma: u8) -> ImageData {
    let raster = Raster::new(3, 2, vec![luma, 0, luma, 0, luma, 0]).unwrap();
    ImageData::new(name.to_string(), raster)
}

fn workspace(n: usize) -> Images {
    let mut ws = Images::new();
    for i in 0..n {
        ws.add(record(&format!("img{i}.png"), 200));
    }
    ws
}

fn params(threshold: i32) -> AnalysisParams {
    AnalysisParams {
        threshold,
        pore_size_low: 0,
        pore_size_high: 100,
        included_min_feature_size: 0,
    }
}

#[test]
fn new_record_is_idle_with_defaults() {
    let r = record("a.png", 9);
    assert_eq!(r.source(), "a.png");
    assert_eq!(r.params(), AnalysisParams::default());
    assert_eq!(r.region(), None);
    assert_eq!(r.generation(), 0);
    assert_eq!(r.status(), RunStatus::Idle);
    assert!(r.result().is_none());
}

#[test]
fn job_is_a_snapshot() {
    let mut r = record("a.png", 200);
    let job = r.set_params(4, params(100));
    assert_eq!(job.record, 4);
    assert_eq!(job.generation, 1);
    assert_eq!(job.params, params(100));
    assert_eq!(r.status(), RunStatus::Running);
    let later = r.set_params(4, params(250));
    assert_eq!(later.generation, 2);
    // the first snapshot still holds the parameters it was taken with
    assert_eq!(job.params.threshold, 100);
    let outcome = job.run();
    let direct = analyze(r.raster(), &params(100), None);
    assert_eq!(outcome.result.included, direct.included);
    assert_eq!(outcome.result.reference, direct.reference);
    assert_eq!(outcome.result.density, direct.density);
}

#[test]
fn stale_outcome_is_discarded() {
    let mut r = record("a.png", 200);
    let first = r.set_params(0, params(100));
    let second = r.set_params(0, params(255));
    let second_outcome = second.run();
    let first_outcome = first.run();
    assert!(!r.complete(first_outcome));
    assert_eq!(r.status(), RunStatus::Running);
    assert!(r.result().is_none());
    assert!(r.complete(second_outcome));
    assert_eq!(r.status(), RunStatus::Complete);
    let res = r.result().as_ref().unwrap();
    // at threshold 255 nothing is FOREGROUND
    assert!(res.reference.is_empty());
}

#[test]
fn outcome_is_applied_once() {
    let mut r = record("a.png", 200);
    let job = r.analyze_image(0);
    let again = job.run();
    let copy_generation = again.generation;
    assert!(r.complete(again));
    let job2 = r.analyze_image(0);
    assert_eq!(job2.generation, copy_generation + 1);
    let outcome = job2.run();
    assert!(r.complete(outcome));
}

#[test]
fn region_change_starts_run() {
    let mut r = record("a.png", 200);
    let region = Region { start_x: 0, start_y: 2, end_x: 2, end_y: 0 };
    let job = r.set_region(0, Some(region));
    assert_eq!(r.region(), Some(region));
    assert_eq!(job.region, Some(region));
    assert_eq!(job.generation, 1);
    let reset = r.set_region(0, None);
    assert_eq!(reset.region, None);
    assert_eq!(r.generation(), 2);
}

#[test]
fn workspace_keeps_load_order() {
    let ws = workspace(3);
    assert_eq!(ws.len(), 3);
    assert_eq!(ws.record(0).source(), "img0.png");
    assert_eq!(ws.record(2).source(), "img2.png");
    assert_eq!(ws.selected(), None);
    assert_eq!(ws.previous(), None);
}

#[test]
fn select_sets_previous_and_starts_run() {
    let mut ws = workspace(3);
    let job = ws.reload_image(None);
    assert_eq!(ws.selected(), Some(0));
    assert_eq!(ws.previous(), None);
    assert_eq!(job.record, 0);
    let job = ws.reload_image(Some(2));
    assert_eq!(ws.selected(), Some(2));
    assert_eq!(ws.previous(), Some(0));
    assert_eq!(job.record, 2);
    assert_eq!(ws.record(2).status(), RunStatus::Running);
    assert_eq!(ws.record(1).status(), RunStatus::Idle);
}

#[test]
fn next_and_previous_wrap_around() {
    let mut ws = workspace(3);
    assert!(ws.select_next().is_none());
    assert!(ws.select_previous().is_none());
    ws.reload_image(Some(1));
    assert_eq!(ws.select_next().unwrap().record, 2);
    assert_eq!(ws.select_next().unwrap().record, 0);
    assert_eq!(ws.selected(), Some(0));
    assert_eq!(ws.select_previous().unwrap().record, 2);
    assert_eq!(ws.select_previous().unwrap().record, 1);
    assert_eq!(ws.previous(), Some(2));
}

#[test]
fn outcome_goes_to_the_run_record() {
    let mut ws = workspace(2);
    let job0 = ws.reload_image(Some(0));
    let job1 = ws.reload_image(Some(1));
    // the outcome for record 0 arrives after the selection moved on
    assert!(ws.receive_image_data(job0.run()));
    assert!(ws.record(0).result().is_some());
    assert!(ws.record(1).result().is_none());
    let stale = ws.set_params(1, params(10));
    let fresh = ws.set_params(1, params(20));
    assert!(!ws.receive_image_data(job1.run()));
    assert!(!ws.receive_image_data(stale.run()));
    assert!(ws.receive_image_data(fresh.run()));
    assert_eq!(ws.record(1).status(), RunStatus::Complete);
}

#[test]
fn outcome_for_unknown_record_is_dropped() {
    let mut ws = workspace(1);
    let mut other = workspace(3);
    let job = other.reload_image(Some(2));
    assert!(!ws.receive_image_data(job.run()));
}

#[test]
fn previous_settings_are_applied() {
    let mut ws = workspace(2);
    ws.reload_image(Some(0));
    let region = Region { start_x: 0, start_y: 2, end_x: 1, end_y: 0 };
    ws.set_params(0, params(42));
    ws.set_region(0, Some(region));
    ws.reload_image(Some(1));
    let job = ws.apply_previous_settings().unwrap();
    assert_eq!(job.record, 1);
    assert_eq!(job.params, params(42));
    assert_eq!(job.region, Some(region));
    assert_eq!(ws.record(1).params(), params(42));
    assert_eq!(ws.selected(), Some(1));
    assert_eq!(ws.previous(), Some(1));
}

#[test]
fn previous_settings_keep_own_region_when_previous_has_none() {
    let mut ws = workspace(2);
    let region = Region { start_x: 0, start_y: 2, end_x: 1, end_y: 0 };
    ws.set_region(1, Some(region));
    ws.reload_image(Some(0));
    ws.reload_image(Some(1));
    let job = ws.apply_previous_settings().unwrap();
    assert_eq!(job.region, Some(region));
    let mut fresh = workspace(2);
    assert!(fresh.apply_previous_settings().is_none());
}

#[test]
fn export_format_names_and_separators() {
    assert_eq!(ExportDecimalFormat::default(), ExportDecimalFormat::Dot);
    assert_eq!(ExportDecimalFormat::Dot.to_string(), "Dot (.)");
    assert_eq!(ExportDecimalFormat::Comma.to_string(), "Comma (,)");
    assert_eq!(ExportDecimalFormat::Dot.separator(), '.');
    assert_eq!(ExportDecimalFormat::Comma.separator(), ',');
}

#[test]
fn moving_the_selection_keeps_the_records() {
    let mut ws = workspace(3);
    ws.reload_image(Some(2));
    ws.set_params(0, params(33));
    let job = ws.select_next().unwrap();
    assert_eq!(job.record, 0);
    assert_eq!(ws.record(0).params(), params(33));
    assert_eq!(ws.record(0).source(), "img0.png");
    assert_eq!(ws.record(1).source(), "img1.png");
    assert_eq!(ws.record(2).source(), "img2.png");
    assert_eq!(ws.record(1).status(), RunStatus::Idle);
}
