//! The pipeline of the single-directory mode: one shared cache directory
//! that the running test uses, and one staging directory that a background
//! worker fills for the next test.
//!
//! The pipeline decides; its driver does the work. Each method hands out the
//! file system steps that belong to the transition, and the driver reports
//! how the background worker ended when it asks for the ready directory.

use crate::types::errors::{Error, ErrorKind, ErrorView};
use crate::utils::paths::{artifacts_dir, artifacts_path, join_path, joined};
use crate::utils::plan::{
    after_move, after_plan, exists_at, is_additive, is_within, lemma_additive_plan_keeps,
    lemma_after_add, lemma_after_push, lemma_plan_push, moved, outside, plan_view, FsModel, FsStep,
    StepView,
};
use crate::text::{chars_of, ends_with, matches_at};
use vstd::prelude::*;
use vstd::string::*;

verus! {

/// What kind of thing a listed entry is.
#[derive(Debug, Clone, Copy, PartialEq, Eq, Structural)]
pub enum EntryKind {
    File,
    Dir,
    /// Neither a regular file nor a directory.
    Other,
    /// The entry could not be read.
    Unreadable,
}

/// One entry of a directory listing: its path relative to the directory
/// listed, and its kind.
#[derive(Debug, PartialEq, Eq)]
pub struct ListedEntry {
    pub path: String,
    pub kind: EntryKind,
}

/// How a background worker ended.
#[derive(Debug, Clone, Copy, PartialEq, Eq, Structural)]
pub enum WorkerOutcome {
    /// Every step of the preparation succeeded.
    Completed,
    /// The worker stopped early because it was asked to.
    Stopped,
    /// A step of the preparation failed.
    Failed,
    /// The worker panicked.
    Panicked,
}

/// Where the pipeline stands.
#[derive(Debug, Clone, Copy, PartialEq, Eq, Structural)]
pub enum PipelinePhase {
    /// No preparation is pending; the shared directory holds what it held.
    Idle,
    /// A worker was started for the next test and has not been collected.
    Preparing,
    /// The staging directory was promoted for the test that was asked for.
    Swapped,
    /// Both directories are gone.
    TornDown,
}

/// The directories that a cache directory needs to be usable.
pub open spec fn skeleton_dirs() -> Seq<Seq<char>> {
    seq!["debug"@, "debug/.fingerprint"@, "debug/deps"@, "debug/build"@, "debug/incremental"@]
}

/// The lock marker of a cache directory.
pub open spec fn lock_path(target_dir: Seq<char>) -> Seq<char> {
    joined(joined(target_dir, "debug"@), ".cargo-lock"@)
}

/// The steps that give `target_dir` the minimal structure of a cache directory.
pub open spec fn minimal_plan(target_dir: Seq<char>) -> Seq<StepView> {
    seq![
        StepView::CreateDirAll { path: joined(target_dir, "debug"@) },
        StepView::CreateDirAll { path: joined(target_dir, "debug/.fingerprint"@) },
        StepView::CreateDirAll { path: joined(target_dir, "debug/deps"@) },
        StepView::CreateDirAll { path: joined(target_dir, "debug/build"@) },
        StepView::CreateDirAll { path: joined(target_dir, "debug/incremental"@) },
        StepView::CreateEmptyFile { path: lock_path(target_dir) },
    ]
}

/// The shared directory of the pipeline that belongs to `output_dir`.
pub open spec fn shared_path(output_dir: Seq<char>) -> Seq<char> {
    joined(artifacts_path(output_dir), "shared_target"@)
}

/// The staging directory of the pipeline that belongs to `output_dir`.
pub open spec fn staging_path(output_dir: Seq<char>) -> Seq<char> {
    joined(artifacts_path(output_dir), "staging_target"@)
}

/// The steps that set a pipeline up: its directories, and the minimal
/// structure of the shared one.
pub open spec fn setup_steps(output_dir: Seq<char>) -> Seq<StepView> {
    seq![
        StepView::CreateDirAll { path: artifacts_path(output_dir) },
        StepView::CreateDirAll { path: shared_path(output_dir) },
        StepView::CreateDirAll { path: staging_path(output_dir) },
    ] + minimal_plan(shared_path(output_dir))
}

/// The steps with which a worker empties the staging directory and gives it
/// the minimal structure.
pub open spec fn reset_steps(staging: Seq<char>) -> Seq<StepView> {
    seq![
        StepView::RemoveDirAll { path: staging },
        StepView::CreateDirAll { path: staging },
    ] + minimal_plan(staging)
}

/// The steps that promote the staging directory to the shared one.
pub open spec fn swap_steps(shared: Seq<char>, staging: Seq<char>) -> Seq<StepView> {
    seq![
        StepView::RemoveDirAll { path: shared },
        StepView::Rename { from: staging, to: shared },
        StepView::CreateDirAll { path: staging },
    ]
}

/// The steps that go before the use of the shared directory: the swap,
/// where a preparation was pending and its worker completed; none otherwise.
pub open spec fn ready_steps(
    phase: PipelinePhase,
    outcome: Option<WorkerOutcome>,
    output_dir: Seq<char>,
) -> Seq<StepView> {
    if phase == PipelinePhase::Preparing && outcome == Some(WorkerOutcome::Completed) {
        swap_steps(shared_path(output_dir), staging_path(output_dir))
    } else {
        Seq::empty()
    }
}

/// The steps that remove both directories.
pub open spec fn teardown_steps(shared: Seq<char>, staging: Seq<char>) -> Seq<StepView> {
    seq![StepView::RemoveDirAll { path: shared }, StepView::RemoveDirAll { path: staging }]
}

/// The steps that give `target_dir` the minimal structure of a cache
/// directory: the directories that must exist and be writable while a test
/// runs, and a fresh, empty lock marker.
pub fn setup_minimal_target_dir(target_dir: &str) -> (steps: Vec<FsStep>)
    ensures
        plan_view(steps@) == minimal_plan(target_dir@),
{
    let mut steps: Vec<FsStep> = Vec::new();
    let debug_dir = join_path(target_dir, "debug");
    steps.push(FsStep::CreateDirAll { path: join_path(target_dir, "debug") });
    steps.push(FsStep::CreateDirAll { path: join_path(target_dir, "debug/.fingerprint") });
    steps.push(FsStep::CreateDirAll { path: join_path(target_dir, "debug/deps") });
    steps.push(FsStep::CreateDirAll { path: join_path(target_dir, "debug/build") });
    steps.push(FsStep::CreateDirAll { path: join_path(target_dir, "debug/incremental") });
    steps.push(FsStep::CreateEmptyFile { path: join_path(debug_dir.as_str(), ".cargo-lock") });
    assert(plan_view(steps@) =~= minimal_plan(target_dir@));
    steps
}

/// The name of the lock marker: a file that tells the build tool that a
/// build is in progress.
pub open spec fn lock_name() -> Seq<char> {
    seq!['.', 'c', 'a', 'r', 'g', 'o', '-', 'l', 'o', 'c', 'k']
}

/// The entry is a lock marker, which is never copied.
pub open spec fn is_lock_marker(path: Seq<char>) -> bool {
    path == lock_name() || ends_with(path, seq!['/'] + lock_name())
}

/// The entry is a file that a copy brings along.
pub open spec fn is_payload(entry: ListedEntry) -> bool {
    entry.kind == EntryKind::File && !is_lock_marker(entry.path@)
}

/// Whether the entry is a file that a copy brings along: a regular file
/// that is no lock marker.
pub fn carries_payload(entry: &ListedEntry) -> (r: bool)
    ensures
        r == is_payload(*entry),
{
    match entry.kind {
        EntryKind::File => {},
        _ => {
            return false;
        },
    }
    let path = chars_of(entry.path.as_str());
    let name = chars_of(".cargo-lock");
    let nested = chars_of("/.cargo-lock");
    proof {
        reveal_strlit(".cargo-lock");
        reveal_strlit("/.cargo-lock");
        assert(name@ =~= lock_name());
        assert(nested@ =~= seq!['/'] + lock_name());
    }
    if path.len() == name.len() {
        let same = matches_at(&path, &name, 0);
        assert(path@.subrange(0, path@.len() as int) =~= path@);
        !same
    } else if path.len() >= nested.len() {
        !matches_at(&path, &nested, path.len() - nested.len())
    } else {
        true
    }
}

/// The copies that fill a staging directory: one for each regular file of
/// the listing that is no lock marker, from `from_dir` to the same name
/// below `to_dir`.
pub open spec fn copy_steps(from_dir: Seq<char>, to_dir: Seq<char>, listing: Seq<ListedEntry>) -> Seq<
    StepView,
>
    decreases listing.len(),
{
    if listing.len() == 0 {
        Seq::empty()
    } else {
        let rest = copy_steps(from_dir, to_dir, listing.drop_last());
        let entry = listing.last();
        if is_payload(entry) {
            rest.push(
                StepView::CopyFile {
                    from: joined(from_dir, entry.path@),
                    to: joined(to_dir, entry.path@),
                },
            )
        } else {
            rest
        }
    }
}

/// The copies that bring the files listed in `from_dir` to `to_dir`. Only
/// regular files are copied, each unless its destination exists; lock
/// markers are left behind.
pub fn copy_plan(from_dir: &str, to_dir: &str, listing: &Vec<ListedEntry>) -> (steps: Vec<FsStep>)
    ensures
        plan_view(steps@) == copy_steps(from_dir@, to_dir@, listing@),
{
    let mut steps: Vec<FsStep> = Vec::new();
    let mut i: usize = 0;
    assert(plan_view(steps@) =~= copy_steps(from_dir@, to_dir@, listing@.take(0)));
    while i < listing.len()
        invariant
            i <= listing.len(),
            plan_view(steps@) == copy_steps(from_dir@, to_dir@, listing@.take(i as int)),
        decreases listing.len() - i,
    {
        let entry = &listing[i];
        proof {
            assert(listing@.take(i + 1).drop_last() =~= listing@.take(i as int));
        }
        if carries_payload(entry) {
            let step = FsStep::CopyFile {
                from: join_path(from_dir, entry.path.as_str()),
                to: join_path(to_dir, entry.path.as_str()),
            };
            proof {
                lemma_plan_push(steps@, step);
            }
            steps.push(step);
        }
        i += 1;
    }
    proof {
        assert(listing@.take(listing@.len() as int) =~= listing@);
    }
    steps
}

/// What a worker is to do for the next test.
#[derive(Debug)]
pub struct PrepareOrder {
    /// Whether a worker is in flight that must be asked to stop, and waited
    /// for, before the new one starts.
    pub cancel_running: bool,
    /// The test that the preparation is for.
    pub test: String,
    /// The steps that empty the staging directory and give it its structure.
    pub reset: Vec<FsStep>,
    /// The directory whose files the worker then copies, if it exists.
    pub copy_from: String,
    /// The directory that takes the copies.
    pub copy_to: String,
}

/// The directory that the next test runs against.
#[derive(Debug)]
pub struct ReadyTarget {
    /// The shared directory.
    pub dir: String,
    /// The steps to carry out before the directory is used.
    pub steps: Vec<FsStep>,
}

/// What is to be done to tear a pipeline down.
#[derive(Debug)]
pub struct TeardownOrder {
    /// Whether a worker is in flight that must be asked to stop, and waited for.
    pub cancel_running: bool,
    /// The steps that remove the directories.
    pub steps: Vec<FsStep>,
}

/// The state of a pipeline.
#[derive(Debug)]
enum Stage {
    Idle,
    Preparing(String),
    Swapped,
    TornDown,
}

/// Manages a pipeline of target directories for sequential test execution.
#[derive(Debug)]
pub struct TargetPipeline {
    master_target_dir: String,
    output_dir: String,
    shared_target_dir: String,
    staging_dir: String,
    stage: Stage,
}

/// The error that a torn-down pipeline answers with.
pub open spec fn torn_down_error() -> ErrorView {
    ErrorView { kind: ErrorKind::Io, detail: "target pipeline has been torn down"@ }
}

impl TargetPipeline {
    #[verifier::type_invariant]
    spec fn inv(self) -> bool {
        &&& self.shared_target_dir@ == shared_path(self.output_dir@)
        &&& self.staging_dir@ == staging_path(self.output_dir@)
    }

    /// The master cache directory that preparations copy from.
    pub closed spec fn master(self) -> Seq<char> {
        self.master_target_dir@
    }

    /// The output directory that the pipeline belongs to.
    pub closed spec fn output(self) -> Seq<char> {
        self.output_dir@
    }

    /// The shared directory.
    pub open spec fn shared(self) -> Seq<char> {
        shared_path(self.output())
    }

    /// The staging directory.
    pub open spec fn staging(self) -> Seq<char> {
        staging_path(self.output())
    }

    /// Where the pipeline stands.
    pub closed spec fn phase(self) -> PipelinePhase {
        match self.stage {
            Stage::Idle => PipelinePhase::Idle,
            Stage::Preparing(_) => PipelinePhase::Preparing,
            Stage::Swapped => PipelinePhase::Swapped,
            Stage::TornDown => PipelinePhase::TornDown,
        }
    }

    /// The test for which a preparation is pending.
    pub closed spec fn pending(self) -> Option<Seq<char>> {
        match self.stage {
            Stage::Preparing(test) => Some(test@),
            _ => None,
        }
    }

    /// Creates the pipeline for an output directory. Nothing is pending, and
    /// the steps of [`TargetPipeline::setup_plan`] are still to be carried out.
    pub fn new(master_target_dir: &str, output_dir: &str) -> (pipeline: TargetPipeline)
        ensures
            pipeline.master() == master_target_dir@,
            pipeline.output() == output_dir@,
            pipeline.phase() == PipelinePhase::Idle,
            pipeline.pending() is None,
    {
        let artifacts = artifacts_dir(output_dir);
        let shared_target_dir = join_path(artifacts.as_str(), "shared_target");
        let staging_dir = join_path(artifacts.as_str(), "staging_target");
        TargetPipeline {
            master_target_dir: master_target_dir.to_owned(),
            output_dir: output_dir.to_owned(),
            shared_target_dir,
            staging_dir,
            stage: Stage::Idle,
        }
    }

    /// The steps that set the pipeline up: the shared and the staging
    /// directory, and the minimal structure of the shared one, so that the
    /// very first test has a directory to run against.
    pub fn setup_plan(&self) -> (steps: Vec<FsStep>)
        ensures
            plan_view(steps@) == setup_steps(self.output()),
    {
        proof {
            use_type_invariant(self);
        }
        let mut steps: Vec<FsStep> = Vec::new();
        steps.push(FsStep::CreateDirAll { path: artifacts_dir(self.output_dir.as_str()) });
        steps.push(FsStep::CreateDirAll { path: self.shared_target_dir.clone() });
        steps.push(FsStep::CreateDirAll { path: self.staging_dir.clone() });
        let ghost head = steps@;
        let mut minimal = setup_minimal_target_dir(self.shared_target_dir.as_str());
        let ghost tail = minimal@;
        steps.append(&mut minimal);
        proof {
            crate::utils::plan::lemma_plan_add(head, tail);
            assert(plan_view(head) =~= seq![
                StepView::CreateDirAll { path: artifacts_path(self.output()) },
                StepView::CreateDirAll { path: shared_path(self.output()) },
                StepView::CreateDirAll { path: staging_path(self.output()) },
            ]);
        }
        steps
    }

    /// The phase of the pipeline.
    pub fn current_phase(&self) -> (phase: PipelinePhase)
        ensures
            phase == self.phase(),
    {
        match &self.stage {
            Stage::Idle => PipelinePhase::Idle,
            Stage::Preparing(_) => PipelinePhase::Preparing,
            Stage::Swapped => PipelinePhase::Swapped,
            Stage::TornDown => PipelinePhase::TornDown,
        }
    }

    /// Gives up a pending preparation. Returns whether a worker is in
    /// flight that must be asked to stop, and waited for.
    pub fn stop_preparation(&mut self) -> (cancel_running: bool)
        ensures
            cancel_running == (old(self).phase() == PipelinePhase::Preparing),
            final(self).output() == old(self).output(),
            final(self).master() == old(self).master(),
            final(self).pending() is None,
            final(self).phase() == if old(self).phase() == PipelinePhase::Preparing {
                PipelinePhase::Idle
            } else {
                old(self).phase()
            },
    {
        proof {
            use_type_invariant(&*self);
        }
        let running = match &self.stage {
            Stage::Preparing(_) => true,
            _ => false,
        };
        if running {
            self.stage = Stage::Idle;
        }
        running
    }

    /// Starts the preparation of the staging directory for the next test.
    ///
    /// A preparation that is still pending is given up: its worker is to be
    /// stopped before the new one starts. The new worker empties the staging
    /// directory, gives it the minimal structure and copies the files of the
    /// master's dependency directory into it. A pipeline that was torn down
    /// prepares nothing.
    pub fn prepare_next(&mut self, test_name: &str) -> (result: Result<PrepareOrder, Error>)
        ensures
            final(self).output() == old(self).output(),
            final(self).master() == old(self).master(),
            old(self).phase() == PipelinePhase::TornDown ==> result is Err && result->Err_0@
                == torn_down_error() && final(self).phase() == PipelinePhase::TornDown
                && final(self).pending() is None,
            old(self).phase() != PipelinePhase::TornDown ==> result is Ok && final(self).phase()
                == PipelinePhase::Preparing && final(self).pending() == Some(test_name@) && ({
                let order = result->Ok_0;
                &&& order.cancel_running == (old(self).phase() == PipelinePhase::Preparing)
                &&& order.test@ == test_name@
                &&& plan_view(order.reset@) == reset_steps(old(self).staging())
                &&& order.copy_from@ == joined(old(self).master(), "debug/deps"@)
                &&& order.copy_to@ == joined(old(self).staging(), "debug/deps"@)
            }),
    {
        proof {
            use_type_invariant(&*self);
        }
        match &self.stage {
            Stage::TornDown => {
                return Err(Error::Io("target pipeline has been torn down".to_owned()));
            },
            _ => {},
        }
        let cancel_running = self.stop_preparation();
        proof {
            use_type_invariant(&*self);
        }
        self.stage = Stage::Preparing(test_name.to_owned());
        let mut reset: Vec<FsStep> = Vec::new();
        reset.push(FsStep::RemoveDirAll { path: self.staging_dir.clone() });
        reset.push(FsStep::CreateDirAll { path: self.staging_dir.clone() });
        let ghost head = reset@;
        let mut minimal = setup_minimal_target_dir(self.staging_dir.as_str());
        let ghost tail = minimal@;
        reset.append(&mut minimal);
        proof {
            crate::utils::plan::lemma_plan_add(head, tail);
            assert(plan_view(head) =~= seq![
                StepView::RemoveDirAll { path: self.staging() },
                StepView::CreateDirAll { path: self.staging() },
            ]);
        }
        Ok(
            PrepareOrder {
                cancel_running,
                test: test_name.to_owned(),
                reset,
                copy_from: join_path(self.master_target_dir.as_str(), "debug/deps"),
                copy_to: join_path(self.staging_dir.as_str(), "debug/deps"),
            },
        )
    }

    /// Hands out the directory that the next test runs against.
    ///
    /// `outcome` says how the worker ended that was started last, where one
    /// was in flight; the caller has waited for it. If a preparation was
    /// pending and its worker completed, the staging directory is promoted:
    /// the steps remove the shared directory, move the staging directory
    /// into its place and create an empty staging directory. If the worker
    /// did not complete, or nothing was pending, the shared directory is
    /// handed out as it is. A pipeline that was torn down hands out nothing.
    pub fn get_ready_target_dir(&mut self, outcome: Option<WorkerOutcome>) -> (result: Result<
        ReadyTarget,
        Error,
    >)
        ensures
            final(self).output() == old(self).output(),
            final(self).master() == old(self).master(),
            final(self).pending() is None,
            old(self).phase() == PipelinePhase::TornDown ==> result is Err && result->Err_0@
                == torn_down_error() && final(self).phase() == PipelinePhase::TornDown,
            old(self).phase() != PipelinePhase::TornDown ==> result is Ok && result->Ok_0.dir@
                == old(self).shared() && plan_view(result->Ok_0.steps@) == ready_steps(
                old(self).phase(),
                outcome,
                old(self).output(),
            ),
            old(self).phase() == PipelinePhase::Preparing && outcome == Some(
                WorkerOutcome::Completed,
            ) ==> final(self).phase() == PipelinePhase::Swapped && plan_view(
                result->Ok_0.steps@,
            ) == swap_steps(old(self).shared(), old(self).staging()),
            old(self).phase() == PipelinePhase::Preparing && outcome != Some(
                WorkerOutcome::Completed,
            ) ==> final(self).phase() == PipelinePhase::Idle && result->Ok_0.steps@.len() == 0,
            old(self).phase() == PipelinePhase::Idle || old(self).phase()
                == PipelinePhase::Swapped ==> final(self).phase() == old(self).phase()
                && result->Ok_0.steps@.len() == 0,
    {
        proof {
            use_type_invariant(&*self);
        }
        let mut steps: Vec<FsStep> = Vec::new();
        assert(plan_view(steps@) =~= Seq::<StepView>::empty());
        match &self.stage {
            Stage::TornDown => {
                return Err(Error::Io("target pipeline has been torn down".to_owned()));
            },
            Stage::Preparing(_) => {
                let completed = match outcome {
                    Some(WorkerOutcome::Completed) => true,
                    _ => false,
                };
                if completed {
                    steps.push(FsStep::RemoveDirAll { path: self.shared_target_dir.clone() });
                    steps.push(
                        FsStep::Rename {
                            from: self.staging_dir.clone(),
                            to: self.shared_target_dir.clone(),
                        },
                    );
                    steps.push(FsStep::CreateDirAll { path: self.staging_dir.clone() });
                    assert(plan_view(steps@) =~= swap_steps(self.shared(), self.staging()));
                    self.stage = Stage::Swapped;
                } else {
                    self.stage = Stage::Idle;
                }
            },
            _ => {},
        }
        Ok(ReadyTarget { dir: self.shared_target_dir.clone(), steps })
    }

    /// Tears the pipeline down: a worker in flight is to be stopped, and
    /// both directories are removed. A second call asks for nothing.
    pub fn cleanup(&mut self) -> (order: TeardownOrder)
        ensures
            final(self).output() == old(self).output(),
            final(self).master() == old(self).master(),
            final(self).phase() == PipelinePhase::TornDown,
            final(self).pending() is None,
            order.cancel_running == (old(self).phase() == PipelinePhase::Preparing),
            old(self).phase() == PipelinePhase::TornDown ==> order.steps@.len() == 0,
            old(self).phase() != PipelinePhase::TornDown ==> plan_view(order.steps@)
                == teardown_steps(old(self).shared(), old(self).staging()),
    {
        proof {
            use_type_invariant(&*self);
        }
        let mut steps: Vec<FsStep> = Vec::new();
        let gone = match &self.stage {
            Stage::TornDown => true,
            _ => false,
        };
        let cancel_running = self.stop_preparation();
        proof {
            use_type_invariant(&*self);
        }
        if !gone {
            steps.push(FsStep::RemoveDirAll { path: self.shared_target_dir.clone() });
            steps.push(FsStep::RemoveDirAll { path: self.staging_dir.clone() });
            assert(plan_view(steps@) =~= teardown_steps(self.shared(), self.staging()));
        }
        self.stage = Stage::TornDown;
        TeardownOrder { cancel_running, steps }
    }
}

/// `dir` has the minimal structure of a cache directory.
pub open spec fn has_skeleton(fs: FsModel, dir: Seq<char>) -> bool {
    &&& forall|i: int|
        0 <= i < skeleton_dirs().len() ==> fs.dirs.contains(
            joined(dir, #[trigger] skeleton_dirs()[i]),
        )
    &&& exists_at(fs, lock_path(dir))
}

/// After the minimal plan the directory has the minimal structure.
pub proof fn lemma_minimal_plan_gives_skeleton(fs: FsModel, dir: Seq<char>)
    ensures
        has_skeleton(after_plan(fs, minimal_plan(dir)), dir),
{
    let s0 = StepView::CreateDirAll { path: joined(dir, "debug"@) };
    let s1 = StepView::CreateDirAll { path: joined(dir, "debug/.fingerprint"@) };
    let s2 = StepView::CreateDirAll { path: joined(dir, "debug/deps"@) };
    let s3 = StepView::CreateDirAll { path: joined(dir, "debug/build"@) };
    let s4 = StepView::CreateDirAll { path: joined(dir, "debug/incremental"@) };
    let s5 = StepView::CreateEmptyFile { path: lock_path(dir) };
    let p0 = Seq::<StepView>::empty();
    assert(minimal_plan(dir) =~= p0.push(s0).push(s1).push(s2).push(s3).push(s4).push(s5));
    lemma_after_push(fs, p0, s0);
    lemma_after_push(fs, p0.push(s0), s1);
    lemma_after_push(fs, p0.push(s0).push(s1), s2);
    lemma_after_push(fs, p0.push(s0).push(s1).push(s2), s3);
    lemma_after_push(fs, p0.push(s0).push(s1).push(s2).push(s3), s4);
    lemma_after_push(fs, p0.push(s0).push(s1).push(s2).push(s3).push(s4), s5);
    let end = after_plan(fs, minimal_plan(dir));
    assert forall|i: int| 0 <= i < skeleton_dirs().len() implies end.dirs.contains(
        joined(dir, #[trigger] skeleton_dirs()[i]),
    ) by {
        if i == 0 {
        } else if i == 1 {
        } else if i == 2 {
        } else if i == 3 {
        } else {
        }
    }
}

/// After the steps that set a pipeline up, its shared directory has the
/// minimal structure.
pub proof fn lemma_setup_gives_skeleton(fs: FsModel, output_dir: Seq<char>)
    ensures
        has_skeleton(after_plan(fs, setup_steps(output_dir)), shared_path(output_dir)),
{
    let head = seq![
        StepView::CreateDirAll { path: artifacts_path(output_dir) },
        StepView::CreateDirAll { path: shared_path(output_dir) },
        StepView::CreateDirAll { path: staging_path(output_dir) },
    ];
    lemma_after_add(fs, head, minimal_plan(shared_path(output_dir)));
    lemma_minimal_plan_gives_skeleton(after_plan(fs, head), shared_path(output_dir));
}

/// After a worker's reset steps the staging directory has the minimal structure.
pub proof fn lemma_reset_gives_skeleton(fs: FsModel, staging: Seq<char>)
    ensures
        has_skeleton(after_plan(fs, reset_steps(staging)), staging),
{
    let head = seq![
        StepView::RemoveDirAll { path: staging },
        StepView::CreateDirAll { path: staging },
    ];
    lemma_after_add(fs, head, minimal_plan(staging));
    lemma_minimal_plan_gives_skeleton(after_plan(fs, head), staging);
}

/// The copies of a worker are steps that only create.
pub proof fn lemma_copy_steps_additive(
    from_dir: Seq<char>,
    to_dir: Seq<char>,
    listing: Seq<ListedEntry>,
)
    ensures
        forall|i: int|
            0 <= i < copy_steps(from_dir, to_dir, listing).len() ==> is_additive(
                #[trigger] copy_steps(from_dir, to_dir, listing)[i],
            ),
    decreases listing.len(),
{
    if listing.len() > 0 {
        lemma_copy_steps_additive(from_dir, to_dir, listing.drop_last());
        let rest = copy_steps(from_dir, to_dir, listing.drop_last());
        let all = copy_steps(from_dir, to_dir, listing);
        assert forall|i: int| 0 <= i < all.len() implies is_additive(#[trigger] all[i]) by {
            if i < rest.len() {
                assert(all[i] == rest[i]);
            }
        }
    }
}

/// Steps that only create leave the minimal structure of a directory in place.
pub proof fn lemma_additive_keeps_skeleton(fs: FsModel, plan: Seq<StepView>, dir: Seq<char>)
    requires
        has_skeleton(fs, dir),
        forall|i: int| 0 <= i < plan.len() ==> is_additive(#[trigger] plan[i]),
    ensures
        has_skeleton(after_plan(fs, plan), dir),
{
    lemma_additive_plan_keeps(fs, plan);
}

/// What lies below `base + t` is found below `base + s` once the tree at
/// `base + s` is removed and the tree at `base + t` has taken its place.
proof fn lemma_swap_moves(
    paths: Set<Seq<char>>,
    base: Seq<char>,
    s: Seq<char>,
    t: Seq<char>,
    suffix: Seq<char>,
)
    requires
        s.len() >= 2,
        t.len() >= 2,
        s[1] != t[1],
        suffix.len() > 0,
        suffix[0] == '/',
        paths.contains(base + t + suffix),
    ensures
        after_move(outside(paths, base + s), base + t, base + s).contains(base + s + suffix),
{
    let shared = base + s;
    let staging = base + t;
    let q = staging + suffix;
    lemma_sibling_outside(base, t, s, suffix);
    assert(outside(paths, shared).contains(q));
    assert(is_within(q, staging)) by {
        let prefix = staging + seq!['/'];
        assert(q.subrange(0, prefix.len() as int) =~= prefix);
    }
    assert(q.skip(staging.len() as int) =~= suffix);
    assert(moved(q, staging, shared) == shared + suffix);
}

/// Promoting a staging directory that has the minimal structure gives a
/// shared directory that has it.
pub proof fn lemma_swap_keeps_skeleton(fs: FsModel, output_dir: Seq<char>)
    requires
        has_skeleton(fs, staging_path(output_dir)),
    ensures
        has_skeleton(
            after_plan(fs, swap_steps(shared_path(output_dir), staging_path(output_dir))),
            shared_path(output_dir),
        ),
{
    let artifacts = artifacts_path(output_dir);
    let shared = shared_path(output_dir);
    let staging = staging_path(output_dir);
    let base = artifacts + seq!['/'];
    let s = "shared_target"@;
    let t = "staging_target"@;
    reveal_strlit("shared_target");
    reveal_strlit("staging_target");
    reveal_strlit("debug");
    reveal_strlit("debug/.fingerprint");
    reveal_strlit("debug/deps");
    reveal_strlit("debug/build");
    reveal_strlit("debug/incremental");
    reveal_strlit(".cargo-lock");
    crate::utils::paths::lemma_artifacts_shape(output_dir);
    assert(s.len() == 13 && s[0] == 's' && s[1] == 'h' && s[12] == 't');
    assert(t.len() == 14 && t[0] == 's' && t[1] == 't' && t[13] == 't');
    assert(shared =~= base + s);
    assert(staging =~= base + t);
    assert(shared.last() == 't') by {
        assert(shared[shared.len() - 1] == s[12]);
    }
    assert(staging.last() == 't') by {
        assert(staging[staging.len() - 1] == t[13]);
    }

    let r0 = StepView::RemoveDirAll { path: shared };
    let r1 = StepView::Rename { from: staging, to: shared };
    let r2 = StepView::CreateDirAll { path: staging };
    let p0 = Seq::<StepView>::empty();
    assert(swap_steps(shared, staging) =~= p0.push(r0).push(r1).push(r2));
    lemma_after_push(fs, p0, r0);
    lemma_after_push(fs, p0.push(r0), r1);
    lemma_after_push(fs, p0.push(r0).push(r1), r2);
    let fs2 = after_plan(fs, p0.push(r0).push(r1));
    let end = after_plan(fs, swap_steps(shared, staging));
    assert(fs2.dirs == after_move(outside(fs.dirs, shared), staging, shared));
    assert(fs2.files == after_move(outside(fs.files, shared), staging, shared));
    assert(fs2.dirs.subset_of(end.dirs));
    assert(fs2.files == end.files);

    assert forall|i: int| 0 <= i < skeleton_dirs().len() implies end.dirs.contains(
        joined(shared, #[trigger] skeleton_dirs()[i]),
    ) by {
        let rel = skeleton_dirs()[i];
        assert(rel.len() > 0 && rel[0] == 'd');
        let suffix = seq!['/'] + rel;
        assert(joined(staging, rel) =~= base + t + suffix);
        assert(joined(shared, rel) =~= base + s + suffix);
        assert(fs.dirs.contains(joined(staging, skeleton_dirs()[i])));
        lemma_swap_moves(fs.dirs, base, s, t, suffix);
    }
    let debug = "debug"@;
    let lock = ".cargo-lock"@;
    assert(debug.len() == 5 && debug[0] == 'd' && debug[4] == 'g');
    assert(lock.len() == 11 && lock[0] == '.');
    let suffix = seq!['/'] + debug + seq!['/'] + lock;
    assert(joined(staging, debug) =~= staging + seq!['/'] + debug);
    assert(joined(shared, debug) =~= shared + seq!['/'] + debug);
    assert(joined(staging, debug).last() == 'g') by {
        assert(joined(staging, debug)[joined(staging, debug).len() - 1] == debug[4]);
    }
    assert(joined(shared, debug).last() == 'g') by {
        assert(joined(shared, debug)[joined(shared, debug).len() - 1] == debug[4]);
    }
    assert(lock_path(staging) =~= base + t + suffix);
    assert(lock_path(shared) =~= base + s + suffix);
    if fs.dirs.contains(lock_path(staging)) {
        lemma_swap_moves(fs.dirs, base, s, t, suffix);
    } else {
        lemma_swap_moves(fs.files, base, s, t, suffix);
    }
}

/// A staging directory that a worker has reset and filled, and that is then
/// promoted, gives a shared directory with the minimal structure, whatever
/// the file system held before.
pub proof fn lemma_promoted_directory_is_complete(
    fs: FsModel,
    output_dir: Seq<char>,
    master: Seq<char>,
    listing: Seq<ListedEntry>,
)
    ensures
        has_skeleton(
            after_plan(
                fs,
                reset_steps(staging_path(output_dir)) + copy_steps(
                    joined(master, "debug/deps"@),
                    joined(staging_path(output_dir), "debug/deps"@),
                    listing,
                ) + swap_steps(shared_path(output_dir), staging_path(output_dir)),
            ),
            shared_path(output_dir),
        ),
{
    let staging = staging_path(output_dir);
    let shared = shared_path(output_dir);
    let reset = reset_steps(staging);
    let copies = copy_steps(
        joined(master, "debug/deps"@),
        joined(staging, "debug/deps"@),
        listing,
    );
    let swap = swap_steps(shared, staging);
    lemma_after_add(fs, reset + copies, swap);
    lemma_after_add(fs, reset, copies);
    lemma_reset_gives_skeleton(fs, staging);
    lemma_copy_steps_additive(
        joined(master, "debug/deps"@),
        joined(staging, "debug/deps"@),
        listing,
    );
    lemma_additive_keeps_skeleton(after_plan(fs, reset), copies, staging);
    lemma_swap_keeps_skeleton(after_plan(fs, reset + copies), output_dir);
}

/// What lies at or below `base + s` lies outside the tree at `base + t`,
/// where the two names differ in their second character.
proof fn lemma_sibling_outside(base: Seq<char>, s: Seq<char>, t: Seq<char>, suffix: Seq<char>)
    requires
        s.len() >= 2,
        t.len() >= 2,
        s[1] != t[1],
    ensures
        !is_within(base + s + suffix, base + t),
{
    let q = base + s + suffix;
    let other = base + t;
    let at: int = base.len() as int + 1;
    assert(q[at] == s[1]);
    assert(other[at] == t[1]);
    let prefix = other + seq!['/'];
    if q.len() >= prefix.len() && q.subrange(0, prefix.len() as int) == prefix {
        assert(q.subrange(0, prefix.len() as int)[at] == q[at]);
        assert(prefix[at] == other[at]);
    }
}

/// The steps of a worker: the reset of the staging directory, then the copies.
pub open spec fn worker_steps(
    output_dir: Seq<char>,
    master: Seq<char>,
    listing: Seq<ListedEntry>,
) -> Seq<StepView> {
    reset_steps(staging_path(output_dir)) + copy_steps(
        joined(master, "debug/deps"@),
        joined(staging_path(output_dir), "debug/deps"@),
        listing,
    )
}

/// A worker never disturbs the shared directory: however far it gets, the
/// shared directory keeps the minimal structure that it had.
pub proof fn lemma_worker_leaves_shared_alone(
    fs: FsModel,
    output_dir: Seq<char>,
    master: Seq<char>,
    listing: Seq<ListedEntry>,
    done: int,
)
    requires
        has_skeleton(fs, shared_path(output_dir)),
        0 <= done <= worker_steps(output_dir, master, listing).len(),
    ensures
        has_skeleton(
            after_plan(fs, worker_steps(output_dir, master, listing).take(done)),
            shared_path(output_dir),
        ),
{
    let shared = shared_path(output_dir);
    let staging = staging_path(output_dir);
    let all = worker_steps(output_dir, master, listing);
    if done > 0 {
        let first = seq![StepView::RemoveDirAll { path: staging }];
        let rest = all.take(done).skip(1);
        assert(all.take(done) =~= first + rest);
        lemma_after_add(fs, first, rest);
        assert(first =~= Seq::<StepView>::empty().push(first[0]));
        lemma_after_push(fs, Seq::<StepView>::empty(), first[0]);
        let fs1 = after_plan(fs, first);
        assert(fs1.dirs == outside(fs.dirs, staging));
        assert(fs1.files == outside(fs.files, staging));

        let artifacts = artifacts_path(output_dir);
        let base = artifacts + seq!['/'];
        let s = "shared_target"@;
        let t = "staging_target"@;
        reveal_strlit("shared_target");
        reveal_strlit("staging_target");
        reveal_strlit("debug");
        reveal_strlit("debug/.fingerprint");
        reveal_strlit("debug/deps");
        reveal_strlit("debug/build");
        reveal_strlit("debug/incremental");
        reveal_strlit(".cargo-lock");
        crate::utils::paths::lemma_artifacts_shape(output_dir);
        assert(s.len() == 13 && s[1] == 'h' && s[12] == 't');
        assert(t.len() == 14 && t[1] == 't');
        assert(shared =~= base + s);
        assert(staging =~= base + t);
        assert(shared.last() == 't') by {
            assert(shared[shared.len() - 1] == s[12]);
        }
        assert(has_skeleton(fs1, shared)) by {
            assert forall|i: int| 0 <= i < skeleton_dirs().len() implies fs1.dirs.contains(
                joined(shared, #[trigger] skeleton_dirs()[i]),
            ) by {
                let rel = skeleton_dirs()[i];
                assert(rel.len() > 0 && rel[0] == 'd');
                let suffix = seq!['/'] + rel;
                assert(joined(shared, rel) =~= base + s + suffix);
                lemma_sibling_outside(base, s, t, suffix);
            }
            let debug = "debug"@;
            let lock = ".cargo-lock"@;
            assert(debug.len() == 5 && debug[0] == 'd' && debug[4] == 'g');
            assert(lock.len() == 11 && lock[0] == '.');
            let suffix = seq!['/'] + debug + seq!['/'] + lock;
            assert(joined(shared, debug) =~= shared + seq!['/'] + debug);
            assert(joined(shared, debug).last() == 'g') by {
                assert(joined(shared, debug)[joined(shared, debug).len() - 1] == debug[4]);
            }
            assert(lock_path(shared) =~= base + s + suffix);
            lemma_sibling_outside(base, s, t, suffix);
        }
        lemma_copy_steps_additive(
            joined(master, "debug/deps"@),
            joined(staging, "debug/deps"@),
            listing,
        );
        assert forall|i: int| 0 <= i < rest.len() implies is_additive(#[trigger] rest[i]) by {
            assert(rest[i] == all[i + 1]);
            let reset = reset_steps(staging);
            if i + 1 < reset.len() {
                assert(all[i + 1] == reset[i + 1]);
            } else {
                assert(all[i + 1] == copy_steps(
                    joined(master, "debug/deps"@),
                    joined(staging, "debug/deps"@),
                    listing,
                )[i + 1 - reset.len()]);
            }
        }
        lemma_additive_keeps_skeleton(fs1, rest, shared);
    } else {
        assert(all.take(0) =~= Seq::<StepView>::empty());
    }
}

/// The directory that is handed out always has the minimal structure:
/// where the shared directory has it, and the staging directory has it
/// whenever its worker completed, the shared directory has it after the
/// steps that go before its use, whatever the phase and the outcome.
pub proof fn lemma_ready_directory_has_skeleton(
    fs: FsModel,
    output_dir: Seq<char>,
    phase: PipelinePhase,
    outcome: Option<WorkerOutcome>,
)
    requires
        has_skeleton(fs, shared_path(output_dir)),
        outcome == Some(WorkerOutcome::Completed) ==> has_skeleton(fs, staging_path(output_dir)),
    ensures
        has_skeleton(
            after_plan(fs, ready_steps(phase, outcome, output_dir)),
            shared_path(output_dir),
        ),
{
    if phase == PipelinePhase::Preparing && outcome == Some(WorkerOutcome::Completed) {
        lemma_swap_keeps_skeleton(fs, output_dir);
    }
}

} // verus!
