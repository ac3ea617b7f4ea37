use r3dy::execute::{
    could_not_rename_message, failure_message, skip_message, RenameOutcome, RunSummary,
};
use r3dy::fspath::with_extension;

fn s(x: &str) -> String {
    x.to_string()
}

#[test]
fn outcomes_land_in_exactly_one_bucket() {
    let mut sum = RunSummary::new();
    sum.record(s("/r/a.NEV"), RenameOutcome::Renamed);
    sum.record(s("/r/b.NEV"), RenameOutcome::TargetExists);
    sum.record(s("/r/c.NEV"), RenameOutcome::Failed(s("permission denied")));
    sum.record(s("/r/d.NEV"), RenameOutcome::Renamed);
    assert_eq!(sum.converted, 2);
    assert_eq!(sum.skipped_existing, 1);
    assert_eq!(sum.failed.len(), 1);
    assert_eq!(sum.converted + sum.skipped_existing + sum.failed.len(), 4);
}

#[test]
fn skipped_candidate_is_never_converted_or_failed() {
    let mut sum = RunSummary::new();
    sum.record(s("/r/a.NEV"), RenameOutcome::TargetExists);
    assert_eq!(sum.converted, 0);
    assert_eq!(sum.skipped_existing, 1);
    assert!(sum.failed.is_empty());
}

#[test]
fn failure_keeps_path_and_error() {
    let mut sum = RunSummary::new();
    sum.record(s("/r/c.NEV"), RenameOutcome::Failed(s("cross-device link")));
    assert_eq!(sum.failed.len(), 1);
    assert_eq!(sum.failed[0].path, "/r/c.NEV");
    assert_eq!(sum.failed[0].error, "cross-device link");
    assert_eq!(
        could_not_rename_message("c.NEV", &sum.failed[0].error),
        "Could not rename c.NEV: cross-device link"
    );
}

#[test]
fn summary_line_pluralises_counts() {
    let sum = RunSummary::new();
    assert_eq!(sum.summary_line(), "Converted 0 files (skipped: 0, failed: 0)");
    let mut one = RunSummary::new();
    one.record(s("/r/a.NEV"), RenameOutcome::Renamed);
    assert_eq!(one.summary_line(), "Converted 1 file (skipped: 0, failed: 0)");
    let mut many = RunSummary::new();
    many.record(s("/r/a.NEV"), RenameOutcome::Renamed);
    many.record(s("/r/b.NEV"), RenameOutcome::Renamed);
    many.record(s("/r/c.NEV"), RenameOutcome::TargetExists);
    many.record(s("/r/d.NEV"), RenameOutcome::Failed(s("busy")));
    assert_eq!(many.summary_line(), "Converted 2 files (skipped: 1, failed: 1)");
}

#[test]
fn collision_scenario_skips_only_the_blocked_file() {
    let target_of_x = with_extension("/r/a/x.NEV", "R3D");
    assert_eq!(target_of_x, "/r/a/x.R3D");
    let mut sum = RunSummary::new();
    sum.record(s("/r/a/x.NEV"), RenameOutcome::TargetExists);
    sum.record(s("/r/a/y.NEV"), RenameOutcome::Renamed);
    assert_eq!(sum.summary_line(), "Converted 1 file (skipped: 1, failed: 0)");
}

#[test]
fn progress_notes_name_both_paths() {
    assert_eq!(
        skip_message("a/x.NEV", "a/x.R3D"),
        "Skipping a/x.NEV (a/x.R3D already exists)"
    );
    assert_eq!(
        failure_message("a/x.NEV", "permission denied"),
        "Failed to rename a/x.NEV: permission denied"
    );
}
