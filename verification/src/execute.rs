//! The rename executor's accounting: every candidate ends in exactly one of
//! three buckets — converted, skipped because the target name already
//! existed, or failed with an error — and the run's narration and summary
//! lines are built here, character for character.
//!
//! The executor performs no rename itself: the surrounding binary computes
//! the target with [`crate::fspath::with_extension`], asks the filesystem,
//! and reports one [`RenameOutcome`] per candidate, in order.

use vstd::prelude::*;
use vstd::string::*;

use crate::text::{dec_rep, usize_to_string};

verus! {

/// How the filesystem answered for one candidate: the target name was
/// already taken (so nothing was attempted), the rename went through, or the
/// rename was attempted and failed with the given error text.
pub enum RenameOutcome {
    TargetExists,
    Renamed,
    Failed(String),
}

/// Spec-level image of a [`RenameOutcome`].
pub enum RenameOutcomeModel {
    TargetExists,
    Renamed,
    Failed(Seq<char>),
}

impl View for RenameOutcome {
    type V = RenameOutcomeModel;

    open spec fn view(&self) -> RenameOutcomeModel {
        match self {
            RenameOutcome::TargetExists => RenameOutcomeModel::TargetExists,
            RenameOutcome::Renamed => RenameOutcomeModel::Renamed,
            RenameOutcome::Failed(e) => RenameOutcomeModel::Failed(e@),
        }
    }
}

/// A failed rename on record: the candidate path and the error text.
pub struct FailedRename {
    pub path: String,
    pub error: String,
}

/// Spec-level image of a [`FailedRename`].
pub struct FailedRenameModel {
    pub path: Seq<char>,
    pub error: Seq<char>,
}

impl View for FailedRename {
    type V = FailedRenameModel;

    open spec fn view(&self) -> FailedRenameModel {
        FailedRenameModel { path: self.path@, error: self.error@ }
    }
}

/// The spec-level images of the recorded failures.
pub open spec fn failure_views(s: Seq<FailedRename>) -> Seq<FailedRenameModel> {
    s.map_values(|f: FailedRename| f@)
}

/// The run's tally: counts of converted and skipped candidates, and the
/// failures with their errors.
pub struct RunSummary {
    pub converted: usize,
    pub skipped_existing: usize,
    pub failed: Vec<FailedRename>,
}

/// Spec-level image of a [`RunSummary`].
pub struct RunSummaryModel {
    pub converted: int,
    pub skipped_existing: int,
    pub failed: Seq<FailedRenameModel>,
}

impl View for RunSummary {
    type V = RunSummaryModel;

    open spec fn view(&self) -> RunSummaryModel {
        RunSummaryModel {
            converted: self.converted as int,
            skipped_existing: self.skipped_existing as int,
            failed: failure_views(self.failed@),
        }
    }
}

/// How one reported outcome advances the tally: exactly one bucket grows,
/// and a failure keeps the candidate's path beside its error.
pub open spec fn summary_step(
    s: RunSummaryModel,
    path: Seq<char>,
    outcome: RenameOutcomeModel,
) -> RunSummaryModel {
    match outcome {
        RenameOutcomeModel::TargetExists => RunSummaryModel {
            skipped_existing: s.skipped_existing + 1,
            ..s
        },
        RenameOutcomeModel::Renamed => RunSummaryModel { converted: s.converted + 1, ..s },
        RenameOutcomeModel::Failed(e) => RunSummaryModel {
            failed: s.failed.push(FailedRenameModel { path: path, error: e }),
            ..s
        },
    }
}

/// The number of candidates a tally accounts for.
pub open spec fn outcome_count(s: RunSummaryModel) -> int {
    s.converted + s.skipped_existing + s.failed.len()
}

impl RunSummary {
    /// An empty tally: nothing processed yet.
    pub fn new() -> (r: RunSummary)
        ensures
            r@ == (RunSummaryModel {
                converted: 0,
                skipped_existing: 0,
                failed: Seq::<FailedRenameModel>::empty(),
            }),
    {
        let r = RunSummary { converted: 0, skipped_existing: 0, failed: Vec::new() };
        proof {
            assert(r@.failed =~= Seq::<FailedRenameModel>::empty());
        }
        r
    }

    /// Books the reported outcome for one candidate; the transition is
    /// exactly [`summary_step`], so a candidate whose target already existed
    /// is counted skipped and is never counted converted or failed.
    pub fn record(&mut self, path: String, outcome: RenameOutcome)
        requires
            old(self)@.converted < usize::MAX,
            old(self)@.skipped_existing < usize::MAX,
        ensures
            final(self)@ == summary_step(old(self)@, path@, outcome@),
    {
        match outcome {
            RenameOutcome::TargetExists => {
                self.skipped_existing += 1;
            },
            RenameOutcome::Renamed => {
                self.converted += 1;
            },
            RenameOutcome::Failed(e) => {
                let ghost pre = self@;
                self.failed.push(FailedRename { path, error: e });
                proof {
                    assert(self@.failed =~= pre.failed.push(
                        FailedRenameModel { path: path@, error: e@ },
                    ));
                }
            },
        }
    }
}

/// A candidate whose target name already exists is tallied as skipped and
/// never as converted or failed: the skip count grows by one while the
/// converted count and the failure list stay exactly as they were. (No
/// rename is attempted for it, so the file itself is left untouched.)
pub proof fn lemma_skip_only_skips(s: RunSummaryModel, path: Seq<char>)
    ensures
        summary_step(s, path, RenameOutcomeModel::TargetExists).skipped_existing
            == s.skipped_existing + 1,
        summary_step(s, path, RenameOutcomeModel::TargetExists).converted == s.converted,
        summary_step(s, path, RenameOutcomeModel::TargetExists).failed == s.failed,
{
}

/// The tally after a whole run's outcomes, one per candidate, folded through
/// [`summary_step`].
pub open spec fn run_outcomes(
    s: RunSummaryModel,
    events: Seq<(Seq<char>, RenameOutcomeModel)>,
) -> RunSummaryModel
    decreases events.len(),
{
    if events.len() == 0 {
        s
    } else {
        summary_step(run_outcomes(s, events.drop_last()), events.last().0, events.last().1)
    }
}

/// The outcomes partition the candidates: every candidate processed lands in
/// exactly one bucket, so converted + skipped + failed equals the number of
/// candidates processed.
pub proof fn lemma_outcomes_partition(
    s: RunSummaryModel,
    events: Seq<(Seq<char>, RenameOutcomeModel)>,
)
    ensures
        outcome_count(run_outcomes(s, events)) == outcome_count(s) + events.len(),
    decreases events.len(),
{
    if events.len() > 0 {
        lemma_outcomes_partition(s, events.drop_last());
    }
}

/// The paths of the failures recorded over a run are exactly the candidates
/// whose outcome was a failure, each beside its error, in processing order.
pub proof fn lemma_failures_exact(
    s: RunSummaryModel,
    events: Seq<(Seq<char>, RenameOutcomeModel)>,
)
    ensures
        run_outcomes(s, events).failed == s.failed + failed_events(events),
    decreases events.len(),
{
    if events.len() == 0 {
        assert(s.failed + failed_events(events) =~= s.failed);
    } else {
        lemma_failures_exact(s, events.drop_last());
        match events.last().1 {
            RenameOutcomeModel::Failed(e) => {
                assert(s.failed + failed_events(events) =~= (s.failed + failed_events(
                    events.drop_last(),
                )).push(FailedRenameModel { path: events.last().0, error: e }));
            },
            _ => {
                assert(failed_events(events) == failed_events(events.drop_last()));
            },
        }
    }
}

/// The failure records among a run's outcomes, in processing order.
pub open spec fn failed_events(
    events: Seq<(Seq<char>, RenameOutcomeModel)>,
) -> Seq<FailedRenameModel>
    decreases events.len(),
{
    if events.len() == 0 {
        Seq::<FailedRenameModel>::empty()
    } else {
        let rest = failed_events(events.drop_last());
        match events.last().1 {
            RenameOutcomeModel::Failed(e) => rest.push(
                FailedRenameModel { path: events.last().0, error: e },
            ),
            _ => rest,
        }
    }
}

/// The note printed when a candidate is skipped over an existing target.
pub open spec fn spec_skip_message(display: Seq<char>, target_display: Seq<char>) -> Seq<char> {
    "Skipping "@ + display + " ("@ + target_display + " already exists)"@
}

/// See [`spec_skip_message`].
pub fn skip_message(display: &str, target_display: &str) -> (r: String)
    ensures
        r@ == spec_skip_message(display@, target_display@),
{
    let mut r = String::from_str("Skipping ");
    r.append(display);
    r.append(" (");
    r.append(target_display);
    r.append(" already exists)");
    proof {
        assert(r@ =~= spec_skip_message(display@, target_display@));
    }
    r
}

/// The note printed the moment a rename fails.
pub open spec fn spec_failure_message(display: Seq<char>, error: Seq<char>) -> Seq<char> {
    "Failed to rename "@ + display + ": "@ + error
}

/// See [`spec_failure_message`].
pub fn failure_message(display: &str, error: &str) -> (r: String)
    ensures
        r@ == spec_failure_message(display@, error@),
{
    let mut r = String::from_str("Failed to rename ");
    r.append(display);
    r.append(": ");
    r.append(error);
    proof {
        assert(r@ =~= spec_failure_message(display@, error@));
    }
    r
}

/// The per-failure detail line of the final report.
pub open spec fn spec_could_not_rename_message(display: Seq<char>, error: Seq<char>) -> Seq<
    char,
> {
    "Could not rename "@ + display + ": "@ + error
}

/// See [`spec_could_not_rename_message`].
pub fn could_not_rename_message(display: &str, error: &str) -> (r: String)
    ensures
        r@ == spec_could_not_rename_message(display@, error@),
{
    let mut r = String::from_str("Could not rename ");
    r.append(display);
    r.append(": ");
    r.append(error);
    proof {
        assert(r@ =~= spec_could_not_rename_message(display@, error@));
    }
    r
}

/// The report printed when no candidate was found at all.
pub open spec fn spec_no_files_message(ext: Seq<char>, root: Seq<char>) -> Seq<char> {
    "No ."@ + ext + " files found under "@ + root
}

/// See [`spec_no_files_message`].
pub fn no_files_message(ext: &str, root: &str) -> (r: String)
    ensures
        r@ == spec_no_files_message(ext@, root@),
{
    let mut r = String::from_str("No .");
    r.append(ext);
    r.append(" files found under ");
    r.append(root);
    proof {
        assert(r@ =~= spec_no_files_message(ext@, root@));
    }
    r
}

/// The run's one-line summary, its counts in decimal and "file" pluralised
/// for every count but one.
pub open spec fn spec_summary_line(s: RunSummaryModel) -> Seq<char> {
    "Converted "@ + dec_rep(s.converted as nat) + " file"@ + (if s.converted == 1 {
        Seq::<char>::empty()
    } else {
        "s"@
    }) + " (skipped: "@ + dec_rep(s.skipped_existing as nat) + ", failed: "@ + dec_rep(
        s.failed.len(),
    ) + ")"@
}

impl RunSummary {
    /// See [`spec_summary_line`].
    pub fn summary_line(&self) -> (r: String)
        ensures
            r@ == spec_summary_line(self@),
    {
        let mut r = String::from_str("Converted ");
        let count = usize_to_string(self.converted);
        r.append(count.as_str());
        r.append(" file");
        if self.converted != 1 {
            r.append("s");
        }
        r.append(" (skipped: ");
        let skipped = usize_to_string(self.skipped_existing);
        r.append(skipped.as_str());
        r.append(", failed: ");
        let failed = usize_to_string(self.failed.len());
        r.append(failed.as_str());
        r.append(")");
        proof {
            assert(r@ =~= spec_summary_line(self@));
        }
        r
    }
}

} // verus!
