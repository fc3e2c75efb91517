//! File system work as data: the steps that the engine asks its driver to
//! carry out, and a model of what they do.

use crate::text::starts_with;
use vstd::prelude::*;
use vstd::string::*;

verus! {

/// One piece of file system work.
#[derive(Debug, PartialEq, Eq)]
pub enum FsStep {
    /// Create the directory, and its ancestors where they are missing.
    CreateDirAll { path: String },
    /// Create an empty file, unless something is at the path already.
    CreateEmptyFile { path: String },
    /// Copy a file, unless something is at the destination already.
    CopyFile { from: String, to: String },
    /// Link a file into place, or copy it where links are not to be had,
    /// unless something is at the destination already.
    LinkFile { from: String, to: String },
    /// Remove the directory with all that is in it, if it is there.
    RemoveDirAll { path: String },
    /// Remove the directory, which is expected to be empty.
    RemoveDir { path: String },
    /// Move a directory with all that is in it to a free place.
    Rename { from: String, to: String },
}

/// A step as a plain value.
pub enum StepView {
    CreateDirAll { path: Seq<char> },
    CreateEmptyFile { path: Seq<char> },
    CopyFile { from: Seq<char>, to: Seq<char> },
    LinkFile { from: Seq<char>, to: Seq<char> },
    RemoveDirAll { path: Seq<char> },
    RemoveDir { path: Seq<char> },
    Rename { from: Seq<char>, to: Seq<char> },
}

impl View for FsStep {
    type V = StepView;

    open spec fn view(&self) -> StepView {
        match self {
            FsStep::CreateDirAll { path } => StepView::CreateDirAll { path: path@ },
            FsStep::CreateEmptyFile { path } => StepView::CreateEmptyFile { path: path@ },
            FsStep::CopyFile { from, to } => StepView::CopyFile { from: from@, to: to@ },
            FsStep::LinkFile { from, to } => StepView::LinkFile { from: from@, to: to@ },
            FsStep::RemoveDirAll { path } => StepView::RemoveDirAll { path: path@ },
            FsStep::RemoveDir { path } => StepView::RemoveDir { path: path@ },
            FsStep::Rename { from, to } => StepView::Rename { from: from@, to: to@ },
        }
    }
}

/// The views of a sequence of steps.
pub open spec fn plan_view(steps: Seq<FsStep>) -> Seq<StepView> {
    steps.map_values(|step: FsStep| step@)
}

/// The view of a plan with one more step.
pub proof fn lemma_plan_push(steps: Seq<FsStep>, step: FsStep)
    ensures
        plan_view(steps.push(step)) == plan_view(steps).push(step@),
{
    assert(plan_view(steps.push(step)) =~= plan_view(steps).push(step@));
}

/// The view of two plans in a row.
pub proof fn lemma_plan_add(first: Seq<FsStep>, second: Seq<FsStep>)
    ensures
        plan_view(first + second) == plan_view(first) + plan_view(second),
{
    assert(plan_view(first + second) =~= plan_view(first) + plan_view(second));
}

/// The directories and files that exist, by path.
pub struct FsModel {
    pub dirs: Set<Seq<char>>,
    pub files: Set<Seq<char>>,
}

/// `path` is `dir` or lies below it.
pub open spec fn is_within(path: Seq<char>, dir: Seq<char>) -> bool {
    path == dir || starts_with(path, dir + seq!['/'])
}

/// `path`, which lies within `from`, moved along with `from` to `to`.
pub open spec fn moved(path: Seq<char>, from: Seq<char>, to: Seq<char>) -> Seq<char> {
    to + path.skip(from.len() as int)
}

/// The paths of `paths` after the tree at `from` has moved to `to`.
pub open spec fn after_move(paths: Set<Seq<char>>, from: Seq<char>, to: Seq<char>) -> Set<
    Seq<char>,
> {
    Set::new(
        |p: Seq<char>|
            (paths.contains(p) && !is_within(p, from)) || exists|q: Seq<char>|
                #[trigger] paths.contains(q) && is_within(q, from) && p == moved(q, from, to),
    )
}

/// The paths of `paths` outside the tree at `dir`.
pub open spec fn outside(paths: Set<Seq<char>>, dir: Seq<char>) -> Set<Seq<char>> {
    Set::new(|p: Seq<char>| paths.contains(p) && !is_within(p, dir))
}

/// Something exists at `path`.
pub open spec fn exists_at(fs: FsModel, path: Seq<char>) -> bool {
    fs.dirs.contains(path) || fs.files.contains(path)
}

/// The file system after a step that succeeded. Of ancestors that a step
/// creates along the way the model keeps no record.
pub open spec fn after_step(fs: FsModel, step: StepView) -> FsModel {
    match step {
        StepView::CreateDirAll { path } => FsModel { dirs: fs.dirs.insert(path), files: fs.files },
        StepView::CreateEmptyFile { path } => if exists_at(fs, path) {
            fs
        } else {
            FsModel { dirs: fs.dirs, files: fs.files.insert(path) }
        },
        StepView::CopyFile { from, to } => if exists_at(fs, to) {
            fs
        } else {
            FsModel { dirs: fs.dirs, files: fs.files.insert(to) }
        },
        StepView::LinkFile { from, to } => if exists_at(fs, to) {
            fs
        } else {
            FsModel { dirs: fs.dirs, files: fs.files.insert(to) }
        },
        StepView::RemoveDirAll { path } => FsModel {
            dirs: outside(fs.dirs, path),
            files: outside(fs.files, path),
        },
        StepView::RemoveDir { path } => FsModel { dirs: fs.dirs.remove(path), files: fs.files },
        StepView::Rename { from, to } => FsModel {
            dirs: after_move(fs.dirs, from, to),
            files: after_move(fs.files, from, to),
        },
    }
}

/// The file system after the steps of a plan, each of which succeeded.
pub open spec fn after_plan(fs: FsModel, plan: Seq<StepView>) -> FsModel
    decreases plan.len(),
{
    if plan.len() == 0 {
        fs
    } else {
        after_step(after_plan(fs, plan.drop_last()), plan.last())
    }
}

/// Carrying out a plan with one more step.
pub proof fn lemma_after_push(fs: FsModel, plan: Seq<StepView>, step: StepView)
    ensures
        after_plan(fs, plan.push(step)) == after_step(after_plan(fs, plan), step),
{
    assert(plan.push(step).drop_last() =~= plan);
}

/// Carrying out two plans in a row.
pub proof fn lemma_after_add(fs: FsModel, first: Seq<StepView>, second: Seq<StepView>)
    ensures
        after_plan(fs, first + second) == after_plan(after_plan(fs, first), second),
    decreases second.len(),
{
    if second.len() == 0 {
        assert(first + second =~= first);
    } else {
        assert((first + second).drop_last() =~= first + second.drop_last());
        lemma_after_add(fs, first, second.drop_last());
    }
}

/// A step that only creates.
pub open spec fn is_additive(step: StepView) -> bool {
    step is CreateDirAll || step is CreateEmptyFile || step is CopyFile || step is LinkFile
}

/// A plan of steps that only create removes nothing.
pub proof fn lemma_additive_plan_keeps(fs: FsModel, plan: Seq<StepView>)
    requires
        forall|i: int| 0 <= i < plan.len() ==> is_additive(#[trigger] plan[i]),
    ensures
        fs.dirs.subset_of(after_plan(fs, plan).dirs),
        fs.files.subset_of(after_plan(fs, plan).files),
    decreases plan.len(),
{
    if plan.len() > 0 {
        lemma_additive_plan_keeps(fs, plan.drop_last());
        assert(is_additive(plan[plan.len() - 1]));
    }
}

} // verus!
