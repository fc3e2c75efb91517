//! The cache directory preparer of the per-test mode: for each test a
//! directory tree that the build tool takes for an already built cache.
//!
//! The preparer plans; its driver lists the master cache directory and
//! carries the steps out.

use crate::text::{concat4, concat5, texts};
use crate::types::errors::{Error, ErrorKind, ErrorView};
use crate::utils::paths::{
    artifacts_dir, artifacts_path, join_path, joined, output_path, parent_of, path_parent,
    target_path, test_output_dir, test_target_dir,
};
use crate::utils::pipeline::{copy_plan, copy_steps, lock_path, EntryKind, ListedEntry};
use crate::utils::plan::{lemma_plan_add, lemma_plan_push, plan_view, FsStep, StepView};
use vstd::prelude::*;
use vstd::string::*;

verus! {

/// What the master cache directory holds of the directories that a test
/// run can reuse: for each the regular files and other entries below it,
/// by path relative to it, or `None` where the directory does not exist.
#[derive(Debug)]
pub struct MasterListing {
    /// `debug/deps`: compiled artifacts, which are copied.
    pub deps: Option<Vec<ListedEntry>>,
    /// `debug/examples`: reference data, which is linked.
    pub examples: Option<Vec<ListedEntry>>,
    /// `debug/build/src`: reference data, which is linked.
    pub build_src: Option<Vec<ListedEntry>>,
}

/// The step that makes sure that the directory of `dest` exists.
pub open spec fn parent_steps(dest: Seq<char>) -> Seq<StepView> {
    match path_parent(dest) {
        Some(parent) => seq![StepView::CreateDirAll { path: parent }],
        None => Seq::empty(),
    }
}

/// The links that bring the files listed in `from_dir` to `to_dir`, each
/// after the step that creates its directory.
pub open spec fn link_steps(from_dir: Seq<char>, to_dir: Seq<char>, listing: Seq<ListedEntry>) -> Seq<
    StepView,
>
    decreases listing.len(),
{
    if listing.len() == 0 {
        Seq::empty()
    } else {
        let rest = link_steps(from_dir, to_dir, listing.drop_last());
        let entry = listing.last();
        if entry.kind == EntryKind::File {
            rest + parent_steps(joined(to_dir, entry.path@)).push(
                StepView::LinkFile {
                    from: joined(from_dir, entry.path@),
                    to: joined(to_dir, entry.path@),
                },
            )
        } else {
            rest
        }
    }
}

/// The steps for one directory of reference data: nothing where the master
/// does not have it, else the directory and a link for each of its files.
pub open spec fn linked_dir_steps(
    master: Seq<char>,
    target: Seq<char>,
    rel: Seq<char>,
    listing: Option<Vec<ListedEntry>>,
) -> Seq<StepView> {
    match listing {
        Some(entries) => seq![StepView::CreateDirAll { path: joined(target, rel) }] + link_steps(
            joined(master, rel),
            joined(target, rel),
            entries@,
        ),
        None => Seq::empty(),
    }
}

/// The copies of the compiled artifacts, where the master has any.
pub open spec fn deps_steps(master: Seq<char>, target: Seq<char>, listing: Option<Vec<ListedEntry>>) -> Seq<
    StepView,
> {
    match listing {
        Some(entries) => copy_steps(
            joined(master, "debug/deps"@),
            joined(target, "debug/deps"@),
            entries@,
        ),
        None => Seq::empty(),
    }
}

/// The steps that prepare the cache directory of one test.
pub open spec fn preparation_steps(
    master: Seq<char>,
    output_dir: Seq<char>,
    test: Seq<char>,
    listing: MasterListing,
) -> Seq<StepView> {
    let target = target_path(output_dir, test);
    seq![
        StepView::CreateDirAll { path: output_path(output_dir, test) },
        StepView::CreateDirAll { path: target },
        StepView::CreateDirAll { path: joined(target, "debug"@) },
        StepView::CreateEmptyFile { path: lock_path(target) },
        StepView::CreateDirAll { path: joined(target, "debug/.fingerprint"@) },
        StepView::CreateDirAll { path: joined(target, "debug/deps"@) },
    ] + deps_steps(master, target, listing.deps) + seq![
        StepView::CreateDirAll { path: joined(target, "debug/build"@) },
        StepView::CreateDirAll { path: joined(target, "debug/incremental"@) },
    ] + linked_dir_steps(master, target, "debug/examples"@, listing.examples) + linked_dir_steps(
        master,
        target,
        "debug/build/src"@,
        listing.build_src,
    )
}

/// The steps that prepare the cache directories of the first `n` tests.
pub open spec fn preparation_steps_upto(
    master: Seq<char>,
    output_dir: Seq<char>,
    tests: Seq<Seq<char>>,
    listing: MasterListing,
    n: int,
) -> Seq<StepView>
    decreases n,
{
    if n <= 0 {
        seq![StepView::CreateDirAll { path: artifacts_path(output_dir) }]
    } else {
        preparation_steps_upto(master, output_dir, tests, listing, n - 1) + preparation_steps(
            master,
            output_dir,
            tests[n - 1],
            listing,
        )
    }
}

/// The links that bring the files listed in `from_dir` to `to_dir`.
fn link_plan(from_dir: &str, to_dir: &str, listing: &Vec<ListedEntry>) -> (steps: Vec<FsStep>)
    ensures
        plan_view(steps@) == link_steps(from_dir@, to_dir@, listing@),
{
    let mut steps: Vec<FsStep> = Vec::new();
    let mut i: usize = 0;
    assert(plan_view(steps@) =~= link_steps(from_dir@, to_dir@, listing@.take(0)));
    while i < listing.len()
        invariant
            i <= listing.len(),
            plan_view(steps@) == link_steps(from_dir@, to_dir@, listing@.take(i as int)),
        decreases listing.len() - i,
    {
        let entry = &listing[i];
        proof {
            assert(listing@.take(i + 1).drop_last() =~= listing@.take(i as int));
        }
        match entry.kind {
            EntryKind::File => {
                let dest = join_path(to_dir, entry.path.as_str());
                let ghost before = plan_view(steps@);
                match parent_of(dest.as_str()) {
                    Some(parent) => {
                        let step = FsStep::CreateDirAll { path: parent };
                        proof {
                            lemma_plan_push(steps@, step);
                        }
                        steps.push(step);
                    },
                    None => {},
                }
                let step = FsStep::LinkFile {
                    from: join_path(from_dir, entry.path.as_str()),
                    to: dest,
                };
                proof {
                    lemma_plan_push(steps@, step);
                    assert(plan_view(steps@).push(step@) =~= before + parent_steps(dest@).push(
                        step@,
                    ));
                }
                steps.push(step);
            },
            _ => {},
        }
        i += 1;
    }
    proof {
        assert(listing@.take(listing@.len() as int) =~= listing@);
    }
    steps
}

/// Appends `more` to `steps`.
fn extend_plan(steps: &mut Vec<FsStep>, more: Vec<FsStep>)
    ensures
        plan_view(final(steps)@) == plan_view(old(steps)@) + plan_view(more@),
{
    let mut more = more;
    proof {
        lemma_plan_add(steps@, more@);
    }
    steps.append(&mut more);
}

/// Appends one step to `steps`.
fn push_step(steps: &mut Vec<FsStep>, step: FsStep)
    ensures
        plan_view(final(steps)@) == plan_view(old(steps)@).push(step@),
{
    proof {
        lemma_plan_push(steps@, step);
    }
    steps.push(step);
}

/// The steps for one directory of reference data.
fn linked_dir_plan(master: &str, target: &str, rel: &str, listing: &Option<Vec<ListedEntry>>) -> (steps:
    Vec<FsStep>)
    ensures
        plan_view(steps@) == linked_dir_steps(master@, target@, rel@, *listing),
{
    let mut steps: Vec<FsStep> = Vec::new();
    assert(plan_view(steps@) =~= Seq::<StepView>::empty());
    match listing {
        Some(entries) => {
            let source_dir = join_path(master, rel);
            let dest_dir = join_path(target, rel);
            let links = link_plan(source_dir.as_str(), dest_dir.as_str(), entries);
            push_step(&mut steps, FsStep::CreateDirAll { path: dest_dir });
            extend_plan(&mut steps, links);
            assert(plan_view(steps@) =~= linked_dir_steps(master@, target@, rel@, *listing));
        },
        None => {},
    }
    steps
}

/// The steps that prepare the cache directory of one test.
///
/// The directories that must exist and be writable while the test runs are
/// created as real directories, and the compiled artifacts of the master are
/// copied into the dependency directory; the lock marker is created fresh and
/// empty; read-only reference data is linked. No step overwrites what exists.
pub fn prepare_target_dir(
    master_target_dir: &str,
    test_name: &str,
    output_dir: &str,
    listing: &MasterListing,
) -> (steps: Vec<FsStep>)
    ensures
        plan_view(steps@) == preparation_steps(
            master_target_dir@,
            output_dir@,
            test_name@,
            *listing,
        ),
{
    let target = test_target_dir(output_dir, test_name);
    let debug_dir = join_path(target.as_str(), "debug");
    let mut steps: Vec<FsStep> = Vec::new();
    assert(plan_view(steps@) =~= Seq::<StepView>::empty());
    push_step(&mut steps, FsStep::CreateDirAll { path: test_output_dir(output_dir, test_name) });
    push_step(&mut steps, FsStep::CreateDirAll { path: target.clone() });
    push_step(&mut steps, FsStep::CreateDirAll { path: join_path(target.as_str(), "debug") });
    push_step(
        &mut steps,
        FsStep::CreateEmptyFile { path: join_path(debug_dir.as_str(), ".cargo-lock") },
    );
    push_step(
        &mut steps,
        FsStep::CreateDirAll { path: join_path(target.as_str(), "debug/.fingerprint") },
    );
    push_step(&mut steps, FsStep::CreateDirAll { path: join_path(target.as_str(), "debug/deps") });
    match &listing.deps {
        Some(entries) => {
            let source_dir = join_path(master_target_dir, "debug/deps");
            let dest_dir = join_path(target.as_str(), "debug/deps");
            let copies = copy_plan(source_dir.as_str(), dest_dir.as_str(), entries);
            extend_plan(&mut steps, copies);
        },
        None => {
            assert(plan_view(steps@) + Seq::<StepView>::empty() =~= plan_view(steps@));
        },
    }
    push_step(&mut steps, FsStep::CreateDirAll { path: join_path(target.as_str(), "debug/build") });
    push_step(
        &mut steps,
        FsStep::CreateDirAll { path: join_path(target.as_str(), "debug/incremental") },
    );
    let examples = linked_dir_plan(
        master_target_dir,
        target.as_str(),
        "debug/examples",
        &listing.examples,
    );
    extend_plan(&mut steps, examples);
    let build_src = linked_dir_plan(
        master_target_dir,
        target.as_str(),
        "debug/build/src",
        &listing.build_src,
    );
    extend_plan(&mut steps, build_src);
    assert(plan_view(steps@) =~= preparation_steps(
        master_target_dir@,
        output_dir@,
        test_name@,
        *listing,
    ));
    steps
}

/// What is to be done before the tests of a batch run side by side.
#[derive(Debug)]
pub struct PreparationPlan {
    /// The steps, in the order in which they are to be carried out.
    pub steps: Vec<FsStep>,
    /// The cache directory of each test, in the order of the tests.
    pub target_dirs: Vec<String>,
}

/// The cache directories of the tests.
pub open spec fn target_paths(output_dir: Seq<char>, tests: Seq<Seq<char>>) -> Seq<Seq<char>> {
    Seq::new(tests.len(), |i: int| target_path(output_dir, tests[i]))
}

/// Prepares target directories for test runs side by side: the central
/// artifacts directory, and for each test its own cache directory, built
/// from the master cache directory without compiling anything again.
pub fn prepare_target_dirs(
    master_target_dir: &str,
    test_names: &[String],
    output_dir: &str,
    listing: &MasterListing,
) -> (plan: PreparationPlan)
    ensures
        plan_view(plan.steps@) == preparation_steps_upto(
            master_target_dir@,
            output_dir@,
            texts(test_names@),
            *listing,
            test_names@.len() as int,
        ),
        texts(plan.target_dirs@) == target_paths(output_dir@, texts(test_names@)),
{
    let mut steps: Vec<FsStep> = Vec::new();
    let mut target_dirs: Vec<String> = Vec::new();
    let ghost tests = texts(test_names@);
    assert(plan_view(steps@) =~= Seq::<StepView>::empty());
    push_step(&mut steps, FsStep::CreateDirAll { path: artifacts_dir(output_dir) });
    assert(plan_view(steps@) =~= preparation_steps_upto(
        master_target_dir@,
        output_dir@,
        tests,
        *listing,
        0,
    ));
    let mut i: usize = 0;
    while i < test_names.len()
        invariant
            i <= test_names.len(),
            tests == texts(test_names@),
            tests.len() == test_names@.len(),
            plan_view(steps@) == preparation_steps_upto(
                master_target_dir@,
                output_dir@,
                tests,
                *listing,
                i as int,
            ),
            target_dirs@.len() == i,
            forall|k: int| 0 <= k < i ==> (#[trigger] target_dirs@[k])@ == target_path(
                output_dir@,
                tests[k],
            ),
        decreases test_names.len() - i,
    {
        let test_name = &test_names[i];
        assert(tests[i as int] == test_name@);
        let one = prepare_target_dir(master_target_dir, test_name.as_str(), output_dir, listing);
        extend_plan(&mut steps, one);
        target_dirs.push(test_target_dir(output_dir, test_name.as_str()));
        i += 1;
    }
    assert(texts(target_dirs@) =~= target_paths(output_dir@, tests));
    PreparationPlan { steps, target_dirs }
}

/// How the driver fared with one step.
#[derive(Debug)]
pub enum StepResult {
    /// The step was carried out.
    Done,
    /// The step found its destination in place already.
    AlreadyExists,
    /// The step failed for the reason given.
    Failed { reason: String },
}

/// What a failed step was working on, as the error text names it.
pub open spec fn step_subject(step: StepView) -> Seq<char> {
    match step {
        StepView::CreateDirAll { path } => path,
        StepView::CreateEmptyFile { path } => path,
        StepView::RemoveDirAll { path } => path,
        StepView::RemoveDir { path } => path,
        StepView::CopyFile { from, to } => "Failed to copy from '"@ + from + "' to '"@ + to + "'"@,
        StepView::LinkFile { from, to } => "Failed to symlink from '"@ + from + "' to '"@ + to
            + "'"@,
        StepView::Rename { from, to } => "Failed to move from '"@ + from + "' to '"@ + to + "'"@,
    }
}

/// The error for a failure at `path`.
pub open spec fn path_error(reason: Seq<char>, path: Seq<char>) -> ErrorView {
    ErrorView {
        kind: ErrorKind::Io,
        detail: "Error processing path '"@ + path + "': "@ + reason,
    }
}

/// A step that only puts something into place, so that finding it in place
/// is no failure.
pub open spec fn creates(step: StepView) -> bool {
    step is CreateDirAll || step is CreateEmptyFile || step is CopyFile || step is LinkFile
}

/// The error that a step's result amounts to, if it is fatal.
pub open spec fn step_error(step: StepView, result: StepResult) -> Option<ErrorView> {
    match result {
        StepResult::Done => None,
        StepResult::AlreadyExists => if creates(step) {
            None
        } else {
            Some(path_error("destination already exists"@, step_subject(step)))
        },
        StepResult::Failed { reason } => Some(path_error(reason@, step_subject(step))),
    }
}

/// Wraps the reason of an IO failure with the path that was being processed.
pub fn with_path_context(reason: &str, path: &str) -> (error: Error)
    ensures
        error@ == path_error(reason@, path@),
{
    Error::Io(concat4("Error processing path '", path, "': ", reason))
}

/// Names what a step was working on.
fn subject_of(step: &FsStep) -> (subject: String)
    ensures
        subject@ == step_subject(step@),
{
    match step {
        FsStep::CreateDirAll { path } => path.clone(),
        FsStep::CreateEmptyFile { path } => path.clone(),
        FsStep::RemoveDirAll { path } => path.clone(),
        FsStep::RemoveDir { path } => path.clone(),
        FsStep::CopyFile { from, to } => concat5(
            "Failed to copy from '",
            from.as_str(),
            "' to '",
            to.as_str(),
            "'",
        ),
        FsStep::LinkFile { from, to } => concat5(
            "Failed to symlink from '",
            from.as_str(),
            "' to '",
            to.as_str(),
            "'",
        ),
        FsStep::Rename { from, to } => concat5(
            "Failed to move from '",
            from.as_str(),
            "' to '",
            to.as_str(),
            "'",
        ),
    }
}

/// Judges the result of a step: a step that was carried out, or that found
/// in place what it was to put there, is no failure; every other result is
/// an error that names the path involved.
pub fn judge_step(step: &FsStep, result: &StepResult) -> (error: Option<Error>)
    ensures
        match step_error(step@, *result) {
            Some(expected) => error is Some && error->0@ == expected,
            None => error is None,
        },
{
    match result {
        StepResult::Done => None,
        StepResult::AlreadyExists => {
            let ignorable = match step {
                FsStep::CreateDirAll { .. } => true,
                FsStep::CreateEmptyFile { .. } => true,
                FsStep::CopyFile { .. } => true,
                FsStep::LinkFile { .. } => true,
                _ => false,
            };
            if ignorable {
                None
            } else {
                let subject = subject_of(step);
                Some(with_path_context("destination already exists", subject.as_str()))
            }
        },
        StepResult::Failed { reason } => {
            let subject = subject_of(step);
            Some(with_path_context(reason.as_str(), subject.as_str()))
        },
    }
}

} // verus!
