//! A maintenance run: which steps it takes, what each asks of the store and the models, and what
//! it reports.
use vstd::prelude::*;
use vstd::string::*;
use crate::config::Config;
use crate::memory_writes::CompactionProposal;
use crate::text::{cat3, owned};
use crate::text;

verus! {

// ---------------------------------------------------------------------------
// Options and reports
// ---------------------------------------------------------------------------

/// What a maintenance run is to do.
#[derive(Debug, Clone, PartialEq, Eq)]
pub struct MaintenanceOptions {
    pub apply: bool,
    pub backup: bool,
    pub backup_output: Option<String>,
    pub validate_pending: bool,
    pub validate_limit: usize,
    pub compact: bool,
    pub compact_limit: usize,
    pub compact_min_memories: usize,
    pub feedback: bool,
    pub feedback_limit: usize,
    pub embed_missing: bool,
    pub embed_limit: usize,
    pub embed_scope: String,
}

/// Where a backup of the database was written, and how large it is.
#[derive(Debug, Clone, PartialEq, Eq)]
pub struct DatabaseBackupReport {
    pub output: String,
    pub size_bytes: u64,
}

/// What a maintenance run did.
#[derive(Debug)]
pub struct MaintenanceReport {
    pub project_id: String,
    pub apply: bool,
    pub backup: Option<DatabaseBackupReport>,
    pub validation: Option<MaintenanceValidationReport>,
    pub compaction: Option<MaintenanceCompactionReport>,
    pub feedback: Option<MaintenanceFeedbackReport>,
    pub embeddings: Option<MaintenanceEmbeddingReport>,
    pub warnings: Vec<String>,
}

/// What is to become of a pending memory.
#[derive(Debug, Clone, Copy, PartialEq, Eq, Structural)]
pub enum ValidationAction {
    Promote,
    Archive,
    Keep,
}

/// What is to become of a pending memory, and why.
#[derive(Debug, Clone, PartialEq, Eq)]
pub struct ValidationDecision {
    pub id: String,
    pub action: ValidationAction,
    pub reason: String,
}

/// What a model decided of pending memories.
#[derive(Debug)]
pub struct ValidationReport {
    pub model: String,
    pub decisions: Vec<ValidationDecision>,
}

/// What the validation step did.
#[derive(Debug)]
pub struct MaintenanceValidationReport {
    pub status: String,
    pub model: String,
    pub pending: usize,
    pub apply: bool,
    pub promote: usize,
    pub archive: usize,
    pub keep: usize,
    pub decisions: Option<ValidationReport>,
    pub error: Option<String>,
}

/// What the compaction step did.
#[derive(Debug)]
pub struct MaintenanceCompactionReport {
    pub status: String,
    pub candidate_memories: usize,
    pub min_memories: usize,
    pub apply: bool,
    pub proposal: Option<CompactionProposal>,
    pub application: Option<MaintenanceCompactionApplication>,
    pub error: Option<String>,
}

/// What came of storing a summary.
#[derive(Debug, Clone, PartialEq, Eq)]
pub struct MaintenanceCompactionApplication {
    pub summary_id: String,
    pub inserted: bool,
    pub duplicate_of: Option<String>,
    pub archived_source_memories: usize,
}

/// What the feedback step did.
#[derive(Debug, Clone, PartialEq, Eq)]
pub struct MaintenanceFeedbackReport {
    pub status: String,
    pub apply: bool,
    pub considered_events: usize,
    pub unapplied_events: usize,
    pub applied_events: usize,
    pub helpful_memories_updated: usize,
    pub unhelpful_memories_updated: usize,
    pub error: Option<String>,
}

/// What the embedding step did.
#[derive(Debug, Clone, PartialEq, Eq)]
pub struct MaintenanceEmbeddingReport {
    pub scope: String,
    pub limit: usize,
    pub apply: bool,
    pub memory_model: String,
    pub code_model: String,
    pub memories_missing: usize,
    pub code_symbols_missing: usize,
    pub memories_embedded: usize,
    pub code_symbols_embedded: usize,
}

/// Which steps were asked for by name.
#[derive(Debug, Clone, Copy, PartialEq, Eq, Structural)]
pub struct StepFlags {
    pub all: bool,
    pub backup: bool,
    pub validate_pending: bool,
    pub compact: bool,
    pub feedback: bool,
    pub embed_missing: bool,
}

/// Whether any step was asked for.
pub open spec fn any_step(f: StepFlags) -> bool {
    f.all || f.backup || f.validate_pending || f.compact || f.feedback || f.embed_missing
}

/// Which steps are taken: those asked for, all of them on `all`, and validation and compaction
/// where none was asked for.
pub fn chosen_steps(flags: StepFlags) -> (r: StepFlags)
    ensures
        r.all == flags.all,
        r.backup == (flags.all || flags.backup),
        r.validate_pending == (flags.all || flags.validate_pending || !any_step(flags)),
        r.compact == (flags.all || flags.compact || !any_step(flags)),
        r.feedback == (flags.all || flags.feedback),
        r.embed_missing == (flags.all || flags.embed_missing),
{
    let any = flags.all || flags.backup || flags.validate_pending || flags.compact || flags.feedback
        || flags.embed_missing;
    StepFlags {
        all: flags.all,
        backup: flags.all || flags.backup,
        validate_pending: flags.all || flags.validate_pending || !any,
        compact: flags.all || flags.compact || !any,
        feedback: flags.all || flags.feedback,
        embed_missing: flags.all || flags.embed_missing,
    }
}

/// A number brought between two bounds.
pub open spec fn clamped(n: usize, low: usize, high: usize) -> usize {
    if n < low {
        low
    } else if n > high {
        high
    } else {
        n
    }
}

/// Brings a number between two bounds.
pub fn clamp(n: usize, low: usize, high: usize) -> (r: usize)
    requires
        low <= high,
    ensures
        r == clamped(n, low, high),
{
    if n < low {
        low
    } else if n > high {
        high
    } else {
        n
    }
}

// ---------------------------------------------------------------------------
// The order of steps
// ---------------------------------------------------------------------------

/// A step of a maintenance run.
#[derive(Debug, Clone, Copy, PartialEq, Eq, Structural)]
pub enum MaintenanceStep {
    Backup,
    Validation,
    Compaction,
    Feedback,
    Embeddings,
}

/// The place of a step in a run.
pub open spec fn step_rank(step: MaintenanceStep) -> nat {
    match step {
        MaintenanceStep::Backup => 0,
        MaintenanceStep::Validation => 1,
        MaintenanceStep::Compaction => 2,
        MaintenanceStep::Feedback => 3,
        MaintenanceStep::Embeddings => 4,
    }
}

/// Whether a run takes a step.
pub open spec fn takes_step(options: MaintenanceOptions, step: MaintenanceStep) -> bool {
    match step {
        MaintenanceStep::Backup => options.backup,
        MaintenanceStep::Validation => options.validate_pending,
        MaintenanceStep::Compaction => options.compact,
        MaintenanceStep::Feedback => options.feedback,
        MaintenanceStep::Embeddings => options.embed_missing,
    }
}

/// The first step that a run takes, from a place on.
pub open spec fn step_from(options: MaintenanceOptions, from: nat) -> Option<MaintenanceStep> {
    if from <= 0 && options.backup {
        Some(MaintenanceStep::Backup)
    } else if from <= 1 && options.validate_pending {
        Some(MaintenanceStep::Validation)
    } else if from <= 2 && options.compact {
        Some(MaintenanceStep::Compaction)
    } else if from <= 3 && options.feedback {
        Some(MaintenanceStep::Feedback)
    } else if from <= 4 && options.embed_missing {
        Some(MaintenanceStep::Embeddings)
    } else {
        None
    }
}

/// The steps that a run takes, from a place on.
pub open spec fn steps_from(options: MaintenanceOptions, from: nat) -> Seq<MaintenanceStep>
    decreases 5 - from,
{
    match step_from(options, from) {
        None => Seq::empty(),
        Some(step) => seq![step] + steps_from(options, step_rank(step) + 1),
    }
}

/// A run takes each step that it is to take once, in the order of their places, and no other.
pub proof fn run_takes_its_steps_once(options: MaintenanceOptions, from: nat)
    ensures
        forall|step: MaintenanceStep| #[trigger]
            steps_from(options, from).contains(step) <==> takes_step(options, step) && step_rank(
                step,
            ) >= from,
        forall|i: int, j: int|
            0 <= i < j < steps_from(options, from).len() ==> step_rank(
                #[trigger] steps_from(options, from)[i],
            ) < step_rank(#[trigger] steps_from(options, from)[j]),
    decreases 5 - from,
{
    let steps = steps_from(options, from);
    match step_from(options, from) {
        None => {},
        Some(first) => {
            let next = step_rank(first) + 1;
            run_takes_its_steps_once(options, next);
            let rest = steps_from(options, next);
            assert(steps =~= seq![first] + rest);
            assert forall|step: MaintenanceStep| #[trigger] steps.contains(step) <==> takes_step(
                options,
                step,
            ) && step_rank(step) >= from by {
                assert(steps[0] == first);
                if steps.contains(step) {
                    let k = choose|k: int| 0 <= k < steps.len() && steps[k] == step;
                    if k > 0 {
                        assert(rest[k - 1] == step);
                        assert(rest.contains(step));
                    }
                }
                if takes_step(options, step) && step_rank(step) >= from && step != first {
                    assert(rest.contains(step));
                    let k = choose|k: int| 0 <= k < rest.len() && rest[k] == step;
                    assert(steps[k + 1] == step);
                }
            }
            assert forall|i: int, j: int| 0 <= i < j < steps.len() implies step_rank(
                #[trigger] steps[i],
            ) < step_rank(#[trigger] steps[j]) by {
                assert(rest[j - 1] == steps[j]);
                assert(rest.contains(steps[j]));
                if i > 0 {
                    assert(rest[i - 1] == steps[i]);
                }
            }
        },
    }
}

// ---------------------------------------------------------------------------
// The run
// ---------------------------------------------------------------------------

/// A maintenance run: what it is to do, how far it has come, and what it has to report.
pub struct MaintenanceRun {
    pub options: MaintenanceOptions,
    pub validate_model: String,
    pub next: u8,
    pub report: MaintenanceReport,
}

/// What came of a step. A backup that fails ends the run, and so does a compaction that the store
/// refuses.
pub enum StepOutcome {
    Backup(Result<DatabaseBackupReport, String>),
    Validation(Result<MaintenanceValidationReport, String>),
    Compaction(Result<MaintenanceCompactionReport, String>),
    Feedback(Result<MaintenanceFeedbackReport, String>),
    Embeddings(Result<MaintenanceEmbeddingReport, String>),
}

/// The step that an outcome is of.
pub open spec fn step_of(outcome: StepOutcome) -> MaintenanceStep {
    match outcome {
        StepOutcome::Backup(_) => MaintenanceStep::Backup,
        StepOutcome::Validation(_) => MaintenanceStep::Validation,
        StepOutcome::Compaction(_) => MaintenanceStep::Compaction,
        StepOutcome::Feedback(_) => MaintenanceStep::Feedback,
        StepOutcome::Embeddings(_) => MaintenanceStep::Embeddings,
    }
}

/// The words of a step that failed.
pub open spec fn failure_words(step: Seq<char>, error: Seq<char>) -> Seq<char> {
    step + " step failed: "@ + error
}

/// Whether a validation report is that of a step that failed.
pub open spec fn failed_validation(
    r: MaintenanceValidationReport,
    model: Seq<char>,
    apply: bool,
    message: Seq<char>,
) -> bool {
    &&& r.status@ == "failed"@
    &&& r.model@ == model
    &&& r.pending == 0
    &&& r.apply == apply
    &&& r.promote == 0
    &&& r.archive == 0
    &&& r.keep == 0
    &&& r.decisions is None
    &&& text::opt_text(r.error) == Some(message)
}

/// Whether a feedback report is that of a step that failed.
pub open spec fn failed_feedback(
    r: MaintenanceFeedbackReport,
    apply: bool,
    message: Seq<char>,
) -> bool {
    &&& r.status@ == "failed"@
    &&& r.apply == apply
    &&& r.considered_events == 0
    &&& r.unapplied_events == 0
    &&& r.applied_events == 0
    &&& r.helpful_memories_updated == 0
    &&& r.unhelpful_memories_updated == 0
    &&& text::opt_text(r.error) == Some(message)
}

/// The warnings after one more.
pub open spec fn warned(before: Seq<String>, after: Seq<String>, message: Seq<char>) -> bool {
    text::texts(after) == text::texts(before).push(message)
}

/// Whether a report is what it was but for its warnings and the part of one step.
pub open spec fn rest_of_report_stays(
    a: MaintenanceReport,
    b: MaintenanceReport,
    step: MaintenanceStep,
) -> bool {
    &&& b.project_id == a.project_id
    &&& b.apply == a.apply
    &&& step != MaintenanceStep::Backup ==> b.backup == a.backup
    &&& step != MaintenanceStep::Validation ==> b.validation == a.validation
    &&& step != MaintenanceStep::Compaction ==> b.compaction == a.compaction
    &&& step != MaintenanceStep::Feedback ==> b.feedback == a.feedback
    &&& step != MaintenanceStep::Embeddings ==> b.embeddings == a.embeddings
}

/// What an outcome makes of the report of a run.
pub open spec fn reported(
    run: MaintenanceRun,
    outcome: StepOutcome,
    after: MaintenanceReport,
) -> bool {
    let before = run.report;
    let apply = run.options.apply;
    &&& rest_of_report_stays(before, after, step_of(outcome))
    &&& match outcome {
        StepOutcome::Backup(Ok(report)) => after.backup == Some(report) && after.warnings
            == before.warnings,
        StepOutcome::Backup(Err(_)) => after == before,
        StepOutcome::Validation(Ok(report)) => after.validation == Some(report) && after.warnings
            == before.warnings,
        StepOutcome::Validation(Err(error)) => {
            let message = failure_words("validation"@, error@);
            &&& after.validation matches Some(report) && failed_validation(
                report,
                run.validate_model@,
                apply,
                message,
            )
            &&& warned(before.warnings@, after.warnings@, message)
        },
        StepOutcome::Compaction(Ok(report)) => {
            &&& after.compaction == Some(report)
            &&& match report.error {
                Some(error) => warned(
                    before.warnings@,
                    after.warnings@,
                    failure_words("compaction"@, error@),
                ),
                None => after.warnings == before.warnings,
            }
        },
        StepOutcome::Compaction(Err(_)) => after == before,
        StepOutcome::Feedback(Ok(report)) => after.feedback == Some(report) && after.warnings
            == before.warnings,
        StepOutcome::Feedback(Err(error)) => {
            let message = failure_words("feedback"@, error@);
            &&& after.feedback matches Some(report) && failed_feedback(report, apply, message)
            &&& warned(before.warnings@, after.warnings@, message)
        },
        StepOutcome::Embeddings(Ok(report)) => after.embeddings == Some(report) && after.warnings
            == before.warnings,
        StepOutcome::Embeddings(Err(error)) => after.embeddings == before.embeddings && warned(
            before.warnings@,
            after.warnings@,
            failure_words("embedding"@, error@),
        ),
    }
}

/// The error that ends the run, where an outcome does.
pub open spec fn ends_run(outcome: StepOutcome) -> Option<Seq<char>> {
    match outcome {
        StepOutcome::Backup(Err(error)) => Some(error@),
        StepOutcome::Compaction(Err(error)) => Some(error@),
        _ => None,
    }
}

impl MaintenanceRun {
    /// A run that has yet to take its first step.
    pub fn start(config: &Config, project_id: &str, options: MaintenanceOptions) -> (r: Self)
        ensures
            r.options == options,
            r.validate_model@ == config.validate_model@,
            r.next == 0,
            r.report.project_id@ == project_id@,
            r.report.apply == options.apply,
            r.report.backup is None,
            r.report.validation is None,
            r.report.compaction is None,
            r.report.feedback is None,
            r.report.embeddings is None,
            r.report.warnings@.len() == 0,
    {
        let apply = options.apply;
        MaintenanceRun {
            options,
            validate_model: owned(config.validate_model.as_str()),
            next: 0,
            report: MaintenanceReport {
                project_id: owned(project_id),
                apply,
                backup: None,
                validation: None,
                compaction: None,
                feedback: None,
                embeddings: None,
                warnings: Vec::new(),
            },
        }
    }

    /// The step that the run takes next; none where it has taken them all.
    pub fn next_step(&self) -> (r: Option<MaintenanceStep>)
        ensures
            r == step_from(self.options, self.next as nat),
    {
        if self.next <= 0 && self.options.backup {
            Some(MaintenanceStep::Backup)
        } else if self.next <= 1 && self.options.validate_pending {
            Some(MaintenanceStep::Validation)
        } else if self.next <= 2 && self.options.compact {
            Some(MaintenanceStep::Compaction)
        } else if self.next <= 3 && self.options.feedback {
            Some(MaintenanceStep::Feedback)
        } else if self.next <= 4 && self.options.embed_missing {
            Some(MaintenanceStep::Embeddings)
        } else {
            None
        }
    }

    /// Takes in what came of a step.
    pub fn accept(&mut self, outcome: StepOutcome) -> (r: Result<(), String>)
        ensures
            final(self).options == old(self).options,
            final(self).validate_model == old(self).validate_model,
            final(self).next == step_rank(step_of(outcome)) + 1,
            reported(*old(self), outcome, final(self).report),
            match r {
                Ok(_) => ends_run(outcome) is None,
                Err(error) => ends_run(outcome) == Some(error@),
            },
    {
        let apply = self.options.apply;
        let ghost before = self.report.warnings@;
        match outcome {
            StepOutcome::Backup(result) => {
                self.next = 1;
                match result {
                    Ok(report) => {
                        self.report.backup = Some(report);
                    },
                    Err(error) => {
                        return Err(error);
                    },
                }
            },
            StepOutcome::Validation(result) => {
                self.next = 2;
                match result {
                    Ok(report) => {
                        self.report.validation = Some(report);
                    },
                    Err(error) => {
                        let message = cat3("validation", " step failed: ", error.as_str());
                        let copy = owned(message.as_str());
                        self.report.warnings.push(copy);
                        assert(text::texts(self.report.warnings@) =~= text::texts(before).push(
                            message@,
                        ));
                        let model = owned(self.validate_model.as_str());
                        self.report.validation = Some(
                            MaintenanceValidationReport {
                                status: owned("failed"),
                                model,
                                pending: 0,
                                apply,
                                promote: 0,
                                archive: 0,
                                keep: 0,
                                decisions: None,
                                error: Some(message),
                            },
                        );
                    },
                }
            },
            StepOutcome::Compaction(result) => {
                self.next = 3;
                match result {
                    Ok(report) => {
                        if let Some(error) = &report.error {
                            let message = cat3("compaction", " step failed: ", error.as_str());
                            let ghost words = message@;
                            self.report.warnings.push(message);
                            assert(text::texts(self.report.warnings@) =~= text::texts(before).push(
                                words,
                            ));
                        }
                        self.report.compaction = Some(report);
                    },
                    Err(error) => {
                        return Err(error);
                    },
                }
            },
            StepOutcome::Feedback(result) => {
                self.next = 4;
                match result {
                    Ok(report) => {
                        self.report.feedback = Some(report);
                    },
                    Err(error) => {
                        let message = cat3("feedback", " step failed: ", error.as_str());
                        let copy = owned(message.as_str());
                        self.report.warnings.push(copy);
                        assert(text::texts(self.report.warnings@) =~= text::texts(before).push(
                            message@,
                        ));
                        self.report.feedback = Some(
                            MaintenanceFeedbackReport {
                                status: owned("failed"),
                                apply,
                                considered_events: 0,
                                unapplied_events: 0,
                                applied_events: 0,
                                helpful_memories_updated: 0,
                                unhelpful_memories_updated: 0,
                                error: Some(message),
                            },
                        );
                    },
                }
            },
            StepOutcome::Embeddings(result) => {
                self.next = 5;
                match result {
                    Ok(report) => {
                        self.report.embeddings = Some(report);
                    },
                    Err(error) => {
                        let message = cat3("embedding", " step failed: ", error.as_str());
                        let ghost words = message@;
                        self.report.warnings.push(message);
                        assert(text::texts(self.report.warnings@) =~= text::texts(before).push(
                            words,
                        ));
                    },
                }
            },
        }
        Ok(())
    }
}

} // verus!
