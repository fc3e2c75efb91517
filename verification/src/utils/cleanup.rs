//! The resource reclaimer: removes the cache directory of a test and the
//! directories above it that are left hollow.
//!
//! The reclaimer plans on a listing of the artifacts directory; its driver
//! lists the directory, parents before what they hold, and carries the
//! steps out. Failures of single steps are for the driver to report as
//! warnings: reclaiming never fails a batch.

use crate::text::{chars_of, starts_with, string_of, texts};
use crate::utils::paths::{target_path, test_target_dir};
use crate::utils::pipeline::{EntryKind, ListedEntry};
use crate::utils::plan::{
    after_plan, is_within, lemma_after_add, lemma_after_push, lemma_plan_add, lemma_plan_push,
    outside, plan_view, FsModel, FsStep, StepView,
};
use vstd::prelude::*;
use vstd::string::*;

verus! {

/// What was found at and below a directory.
#[derive(Debug)]
pub struct TreeListing {
    /// The directory that was listed.
    pub root: String,
    /// Whether the root exists and is a directory.
    pub root_is_dir: bool,
    /// Everything below the root, by full path, each directory before what
    /// it holds.
    pub entries: Vec<ListedEntry>,
}

/// `path` lies strictly below `dir`.
pub open spec fn is_below(path: Seq<char>, dir: Seq<char>) -> bool {
    starts_with(path, dir + seq!['/'])
}

/// `dir` is listed as a directory.
pub open spec fn listed_dir(entries: Seq<ListedEntry>, dir: Seq<char>) -> bool {
    exists|i: int|
        0 <= i < entries.len() && (#[trigger] entries[i]).path@ == dir && entries[i].kind
            == EntryKind::Dir
}

/// `dir` is a directory of the listing: its root or a directory below it.
pub open spec fn is_dir_in(tree: TreeListing, dir: Seq<char>) -> bool {
    (tree.root_is_dir && tree.root@ == dir) || listed_dir(tree.entries@, dir)
}

/// Something is listed at `path`.
pub open spec fn is_listed(entries: Seq<ListedEntry>, path: Seq<char>) -> bool {
    exists|i: int| 0 <= i < entries.len() && (#[trigger] entries[i]).path@ == path
}

/// `dir` is listed as a directory and holds nothing but directories.
pub open spec fn hollow(entries: Seq<ListedEntry>, dir: Seq<char>) -> bool {
    listed_dir(entries, dir) && holds_only_dirs(entries, dir)
}

/// Nothing but directories lies below `dir`.
pub open spec fn holds_only_dirs(entries: Seq<ListedEntry>, dir: Seq<char>) -> bool {
    forall|i: int|
        0 <= i < entries.len() && is_below((#[trigger] entries[i]).path@, dir) ==> entries[i].kind
            == EntryKind::Dir
}

/// `dir` is a directory that is empty or holds nothing but directories
/// that are empty in the same sense.
pub open spec fn effectively_empty(tree: TreeListing, dir: Seq<char>) -> bool {
    is_dir_in(tree, dir) && holds_only_dirs(tree.entries@, dir)
}

/// The removals of the directories below `dir` among the first `n`
/// entries, the entry listed last removed first.
pub open spec fn removals_below(entries: Seq<ListedEntry>, dir: Seq<char>, n: int) -> Seq<StepView>
    decreases n,
{
    if n <= 0 || n > entries.len() {
        Seq::empty()
    } else if is_below(entries[n - 1].path@, dir) {
        seq![StepView::RemoveDir { path: entries[n - 1].path@ }] + removals_below(
            entries,
            dir,
            n - 1,
        )
    } else {
        removals_below(entries, dir, n - 1)
    }
}

/// The steps that remove `dir` with the directories below it, deepest
/// first, where it is effectively empty; no step otherwise.
pub open spec fn hollow_removals(tree: TreeListing, dir: Seq<char>) -> Seq<StepView> {
    if effectively_empty(tree, dir) {
        removals_below(tree.entries@, dir, tree.entries@.len() as int).push(
            StepView::RemoveDir { path: dir },
        )
    } else {
        Seq::empty()
    }
}

/// Whether `path` lies strictly below `dir`.
pub fn lies_below(path: &Vec<char>, dir: &Vec<char>) -> (r: bool)
    ensures
        r == is_below(path@, dir@),
{
    if path.len() <= dir.len() {
        return false;
    }
    let ghost prefix = dir@ + seq!['/'];
    let mut i: usize = 0;
    while i < dir.len()
        invariant
            i <= dir.len(),
            dir.len() < path.len(),
            prefix == dir@ + seq!['/'],
            forall|k: int| 0 <= k < i ==> path@[k] == dir@[k],
        decreases dir.len() - i,
    {
        if path[i] != dir[i] {
            assert(path@.subrange(0, prefix.len() as int)[i as int] != prefix[i as int]);
            return false;
        }
        i += 1;
    }
    if path[dir.len()] == '/' {
        assert(path@.subrange(0, prefix.len() as int) =~= prefix);
        true
    } else {
        assert(path@.subrange(0, prefix.len() as int)[dir.len() as int] != prefix[dir.len() as int]);
        false
    }
}

/// Whether `path` is `dir` or lies below it.
pub fn lies_within(path: &Vec<char>, dir: &Vec<char>) -> (r: bool)
    ensures
        r == is_within(path@, dir@),
{
    if lies_below(path, dir) {
        return true;
    }
    if path.len() != dir.len() {
        return false;
    }
    let mut i: usize = 0;
    while i < dir.len()
        invariant
            i <= dir.len(),
            dir.len() == path.len(),
            forall|k: int| 0 <= k < i ==> path@[k] == dir@[k],
        decreases dir.len() - i,
    {
        if path[i] != dir[i] {
            return false;
        }
        i += 1;
    }
    assert(path@ =~= dir@);
    true
}

/// Whether `dir` is a directory of the listing.
pub fn is_listed_dir(tree: &TreeListing, dir: &str) -> (r: bool)
    ensures
        r == is_dir_in(*tree, dir@),
{
    let wanted = dir.to_owned();
    if tree.root_is_dir && tree.root == wanted {
        return true;
    }
    has_dir(&tree.entries, dir)
}

/// Whether `dir` is listed as a directory.
pub fn has_dir(entries: &Vec<ListedEntry>, dir: &str) -> (r: bool)
    ensures
        r == listed_dir(entries@, dir@),
{
    let wanted = dir.to_owned();
    let mut i: usize = 0;
    while i < entries.len()
        invariant
            i <= entries.len(),
            wanted@ == dir@,
            forall|k: int|
                0 <= k < i ==> !((#[trigger] entries@[k]).path@ == dir@ && entries@[k].kind
                    == EntryKind::Dir),
        decreases entries.len() - i,
    {
        let entry = &entries[i];
        let is_dir = match entry.kind {
            EntryKind::Dir => true,
            _ => false,
        };
        if is_dir && entry.path == wanted {
            return true;
        }
        i += 1;
    }
    false
}

/// Whether something is listed at `path`.
pub fn has_entry(entries: &Vec<ListedEntry>, path: &str) -> (r: bool)
    ensures
        r == is_listed(entries@, path@),
{
    let wanted = path.to_owned();
    let mut i: usize = 0;
    while i < entries.len()
        invariant
            i <= entries.len(),
            wanted@ == path@,
            forall|k: int| 0 <= k < i ==> (#[trigger] entries@[k]).path@ != path@,
        decreases entries.len() - i,
    {
        if entries[i].path == wanted {
            return true;
        }
        i += 1;
    }
    false
}

/// Whether nothing but directories lies below `dir`.
pub fn only_dirs_below(entries: &Vec<ListedEntry>, dir: &str) -> (r: bool)
    ensures
        r == holds_only_dirs(entries@, dir@),
{
    let wanted = chars_of(dir);
    let mut i: usize = 0;
    while i < entries.len()
        invariant
            i <= entries.len(),
            wanted@ == dir@,
            forall|k: int|
                0 <= k < i && is_below((#[trigger] entries@[k]).path@, dir@) ==> entries@[k].kind
                    == EntryKind::Dir,
        decreases entries.len() - i,
    {
        let entry = &entries[i];
        let path = chars_of(entry.path.as_str());
        let is_dir = match entry.kind {
            EntryKind::Dir => true,
            _ => false,
        };
        if !is_dir && lies_below(&path, &wanted) {
            return false;
        }
        i += 1;
    }
    true
}

/// Determines whether a directory is empty or holds only directories that
/// are empty in the same sense. What is no directory, or holds an entry
/// that could not be read, is not empty.
pub fn is_effectively_empty(tree: &TreeListing, dir: &str) -> (r: bool)
    ensures
        r == effectively_empty(*tree, dir@),
{
    is_listed_dir(tree, dir) && only_dirs_below(&tree.entries, dir)
}

/// The removals of `dir` and of the directories listed below it, the
/// entry listed last first and `dir` itself at the end.
pub open spec fn removals_within(entries: Seq<ListedEntry>, dir: Seq<char>) -> Seq<StepView> {
    removals_below(entries, dir, entries.len() as int).push(StepView::RemoveDir { path: dir })
}

/// The steps that remove `dir` and every entry listed below it, deepest first.
fn removal_plan(entries: &Vec<ListedEntry>, dir: &str) -> (steps: Vec<FsStep>)
    ensures
        plan_view(steps@) == removals_within(entries@, dir@),
{
    let mut steps: Vec<FsStep> = Vec::new();
    assert(plan_view(steps@) =~= Seq::<StepView>::empty());
    let wanted = chars_of(dir);
    let n = entries.len();
    let mut i: usize = n;
    while i > 0
        invariant
            i <= n,
            n == entries@.len(),
            wanted@ == dir@,
            plan_view(steps@) + removals_below(entries@, dir@, i as int) == removals_below(
                entries@,
                dir@,
                n as int,
            ),
        decreases i,
    {
        let entry = &entries[i - 1];
        let path = chars_of(entry.path.as_str());
        let ghost before = plan_view(steps@);
        if lies_below(&path, &wanted) {
            let step = FsStep::RemoveDir { path: entry.path.clone() };
            proof {
                lemma_plan_push(steps@, step);
                assert(before.push(step@) + removals_below(entries@, dir@, i - 1) =~= before + (
                seq![step@] + removals_below(entries@, dir@, i - 1)));
            }
            steps.push(step);
        }
        i -= 1;
    }
    proof {
        assert(plan_view(steps@) + Seq::<StepView>::empty() =~= plan_view(steps@));
    }
    let last = FsStep::RemoveDir { path: dir.to_owned() };
    proof {
        lemma_plan_push(steps@, last);
    }
    steps.push(last);
    steps
}

/// The steps that remove a directory that is effectively empty, together
/// with the directories below it, deepest first. A directory that is not
/// effectively empty is left alone.
pub fn remove_empty_directories(tree: &TreeListing, dir: &str) -> (steps: Vec<FsStep>)
    ensures
        plan_view(steps@) == hollow_removals(*tree, dir@),
{
    if !is_effectively_empty(tree, dir) {
        let steps: Vec<FsStep> = Vec::new();
        assert(plan_view(steps@) =~= Seq::<StepView>::empty());
        return steps;
    }
    removal_plan(&tree.entries, dir)
}

/// The index of the last separator of `path`, or -1 where it has none.
pub open spec fn last_slash(path: Seq<char>) -> int
    decreases path.len(),
{
    if path.len() == 0 {
        -1
    } else if path.last() == '/' {
        path.len() - 1
    } else {
        last_slash(path.drop_last())
    }
}

/// The directory that holds `path`: what stands before its last separator.
pub open spec fn enclosing(path: Seq<char>) -> Seq<char> {
    if last_slash(path) < 0 {
        Seq::empty()
    } else {
        path.take(last_slash(path))
    }
}

/// The predicate "lies outside the tree at `dir`".
pub open spec fn outside_of(dir: Seq<char>) -> spec_fn(ListedEntry) -> bool {
    |entry: ListedEntry| !is_within(entry.path@, dir)
}

/// The listing without what lies at and below `dir`.
pub open spec fn without(entries: Seq<ListedEntry>, dir: Seq<char>) -> Seq<ListedEntry> {
    entries.filter(outside_of(dir))
}

/// The highest directory that is hollow, on the way from `cur` upwards and
/// strictly below `root`; `best` where `cur` is not hollow itself.
pub open spec fn highest_hollow(
    entries: Seq<ListedEntry>,
    root: Seq<char>,
    cur: Seq<char>,
    best: Option<Seq<char>>,
) -> Option<Seq<char>>
    decreases cur.len(),
{
    if is_below(cur, root) && hollow(entries, cur) && enclosing(cur).len() < cur.len() {
        highest_hollow(entries, root, enclosing(cur), Some(cur))
    } else {
        best
    }
}

/// The steps that reclaim the tree at `target`: its removal, where
/// something is there, and the removal of the directories above it that are
/// left hollow, up to `root` and not including it.
pub open spec fn cleanup_steps(entries: Seq<ListedEntry>, root: Seq<char>, target: Seq<char>) -> Seq<
    StepView,
> {
    let first = if is_listed(entries, target) {
        seq![StepView::RemoveDirAll { path: target }]
    } else {
        Seq::empty()
    };
    let rest = without(entries, target);
    match highest_hollow(rest, root, enclosing(target), None) {
        Some(top) => first + removals_within(rest, top),
        None => first,
    }
}

/// The listing after the steps of [`cleanup_steps`] have been carried out.
pub open spec fn after_cleanup(entries: Seq<ListedEntry>, root: Seq<char>, target: Seq<char>) -> Seq<
    ListedEntry,
> {
    let rest = without(entries, target);
    match highest_hollow(rest, root, enclosing(target), None) {
        Some(top) => without(rest, top),
        None => rest,
    }
}

/// The separator search of `enclosing` never looks past the end.
proof fn lemma_last_slash_bounds(path: Seq<char>)
    ensures
        -1 <= last_slash(path) < path.len(),
        last_slash(path) >= 0 ==> path[last_slash(path)] == '/',
        forall|k: int| last_slash(path) < k < path.len() ==> path[k] != '/',
    decreases path.len(),
{
    if path.len() > 0 && path.last() != '/' {
        lemma_last_slash_bounds(path.drop_last());
        assert forall|k: int| last_slash(path) < k < path.len() implies path[k] != '/' by {
            if k < path.len() - 1 {
                assert(path.drop_last()[k] == path[k]);
            }
        }
    }
}

/// The directory that holds `path`.
pub fn enclosing_dir(path: &str) -> (dir: String)
    ensures
        dir@ == enclosing(path@),
{
    let chars = chars_of(path);
    let mut i: usize = chars.len();
    proof {
        assert(chars@.take(chars@.len() as int) =~= chars@);
    }
    while i > 0
        invariant
            i <= chars.len(),
            chars@ == path@,
            last_slash(chars@) == last_slash(chars@.take(i as int)),
        decreases i,
    {
        if chars[i - 1] == '/' {
            proof {
                assert(chars@.take(i as int).last() == '/');
                lemma_last_slash_bounds(chars@);
            }
            return string_of(&chars, 0, i - 1);
        }
        proof {
            assert(chars@.take(i as int).drop_last() =~= chars@.take(i - 1));
        }
        i -= 1;
    }
    proof {
        assert(chars@.take(0).len() == 0);
    }
    String::new()
}

/// The listing without what lies at and below `dir`.
pub fn remaining_entries(entries: &Vec<ListedEntry>, dir: &str) -> (rest: Vec<ListedEntry>)
    ensures
        rest@ == without(entries@, dir@),
{
    let wanted = chars_of(dir);
    let ghost pred = outside_of(dir@);
    let mut rest: Vec<ListedEntry> = Vec::new();
    let mut i: usize = 0;
    proof {
        entries@.take(0).lemma_filter_len(pred);
        assert(rest@ =~= entries@.take(0).filter(pred));
    }
    while i < entries.len()
        invariant
            i <= entries.len(),
            wanted@ == dir@,
            pred == outside_of(dir@),
            rest@ == entries@.take(i as int).filter(pred),
        decreases entries.len() - i,
    {
        let entry = &entries[i];
        let path = chars_of(entry.path.as_str());
        proof {
            crate::text::lemma_filter_take_step(entries@, pred, i as int);
        }
        if !lies_within(&path, &wanted) {
            let copy = ListedEntry { path: entry.path.clone(), kind: entry.kind };
            assert(copy == *entry);
            rest.push(copy);
        }
        i += 1;
    }
    proof {
        assert(entries@.take(entries@.len() as int) =~= entries@);
    }
    rest
}

/// A copy of the listing.
fn copy_entries(entries: &Vec<ListedEntry>) -> (copy: Vec<ListedEntry>)
    ensures
        copy@ == entries@,
{
    let mut copy: Vec<ListedEntry> = Vec::new();
    let mut i: usize = 0;
    while i < entries.len()
        invariant
            i <= entries.len(),
            copy@ == entries@.take(i as int),
        decreases entries.len() - i,
    {
        let entry = &entries[i];
        let one = ListedEntry { path: entry.path.clone(), kind: entry.kind };
        assert(one == *entry);
        copy.push(one);
        assert(entries@.take(i + 1) =~= entries@.take(i as int).push(entries@[i as int]));
        i += 1;
    }
    assert(entries@.take(entries@.len() as int) =~= entries@);
    copy
}

/// Plans the reclaiming of the tree at `target`. Returns the steps, and the
/// listing that they leave behind.
fn reclaim(entries: &Vec<ListedEntry>, root_dir: &str, target: &str) -> (result: (
    Vec<FsStep>,
    Vec<ListedEntry>,
))
    ensures
        plan_view(result.0@) == cleanup_steps(entries@, root_dir@, target@),
        result.1@ == after_cleanup(entries@, root_dir@, target@),
{
    let mut steps: Vec<FsStep> = Vec::new();
    assert(plan_view(steps@) =~= Seq::<StepView>::empty());
    if has_entry(entries, target) {
        let step = FsStep::RemoveDirAll { path: target.to_owned() };
        proof {
            lemma_plan_push(steps@, step);
        }
        steps.push(step);
    }
    let rest = remaining_entries(entries, target);
    let root = chars_of(root_dir);
    let mut cur: String = enclosing_dir(target);
    let mut best: Option<String> = None;
    let ghost start = enclosing(target@);
    let mut done: bool = false;
    while !done
        invariant
            root@ == root_dir@,
            rest@ == without(entries@, target@),
            highest_hollow(
                rest@,
                root@,
                cur@,
                match best {
                    Some(b) => Some(b@),
                    None => None,
                },
            ) == highest_hollow(rest@, root@, start, None),
            done ==> highest_hollow(rest@, root@, start, None) == match best {
                Some(b) => Some(b@),
                None => None,
            },
        decreases cur@.len() + if done { 0int } else { 1int },
    {
        let here = chars_of(cur.as_str());
        let above = enclosing_dir(cur.as_str());
        proof {
            lemma_last_slash_bounds(cur@);
        }
        if lies_below(&here, &root) && has_dir(&rest, cur.as_str()) && only_dirs_below(
            &rest,
            cur.as_str(),
        ) && above.as_str().unicode_len() < here.len() {
            best = Some(cur);
            cur = above;
        } else {
            done = true;
        }
    }
    match best {
        Some(top) => {
            let removals = removal_plan(&rest, top.as_str());
            proof {
                lemma_plan_add(steps@, removals@);
            }
            let mut removals = removals;
            steps.append(&mut removals);
            let left = remaining_entries(&rest, top.as_str());
            (steps, left)
        },
        None => (steps, rest),
    }
}

/// Reclaims the tree at `target`: the steps that remove it, where something
/// is there, and the directories above it that are left with nothing but
/// empty directories, up to the root of the listing and not including it.
pub fn cleanup_target(tree: &TreeListing, target: &str) -> (steps: Vec<FsStep>)
    ensures
        plan_view(steps@) == cleanup_steps(tree.entries@, tree.root@, target@),
{
    let (steps, _) = reclaim(&tree.entries, tree.root.as_str(), target);
    steps
}

/// Clean up a single test target directory: the steps that remove the
/// cache directory of the test and the directories above it that are left
/// hollow, below the artifacts directory that was listed.
pub fn cleanup_single_test_dir(output_dir: &str, test_name: &str, tree: &TreeListing) -> (steps:
    Vec<FsStep>)
    ensures
        plan_view(steps@) == cleanup_steps(
            tree.entries@,
            tree.root@,
            target_path(output_dir@, test_name@),
        ),
{
    let target = test_target_dir(output_dir, test_name);
    cleanup_target(tree, target.as_str())
}

/// A sequence whose members all pass a filter is left as it is.
proof fn lemma_filter_all_pass<A>(s: Seq<A>, pred: spec_fn(A) -> bool)
    requires
        forall|i: int| 0 <= i < s.len() ==> pred(#[trigger] s[i]),
    ensures
        s.filter(pred) == s,
    decreases s.len(),
{
    if s.len() == 0 {
        s.lemma_filter_len(pred);
        assert(s.filter(pred) =~= s);
    } else {
        let front = s.drop_last();
        lemma_filter_all_pass(front, pred);
        front.lemma_filter_push(s.last(), pred);
        assert(front.push(s.last()) =~= s);
    }
}

/// What a filter lets through passes it and was there before.
proof fn lemma_filter_passes<A>(s: Seq<A>, pred: spec_fn(A) -> bool)
    ensures
        forall|i: int|
            0 <= i < s.filter(pred).len() ==> pred(#[trigger] s.filter(pred)[i]) && s.contains(
                s.filter(pred)[i],
            ),
{
    let f = s.filter(pred);
    assert forall|i: int| 0 <= i < f.len() implies pred(#[trigger] f[i]) && s.contains(f[i]) by {
        s.lemma_filter_pred(pred, i);
        assert(f.contains(f[i]));
        s.lemma_filter_contains_rev(pred, f[i]);
    }
}

/// What lies below a directory that lies within another lies below that one.
proof fn lemma_below_within(x: Seq<char>, b: Seq<char>, c: Seq<char>)
    requires
        is_within(x, b),
        is_below(b, c),
    ensures
        is_below(x, c),
{
    if x != b {
        let pc = c + seq!['/'];
        let pb = b + seq!['/'];
        assert(x.subrange(0, pb.len() as int) == pb);
        assert(b.subrange(0, pc.len() as int) == pc);
        assert(x.subrange(0, pc.len() as int) =~= pc) by {
            assert forall|k: int| 0 <= k < pc.len() implies x.subrange(0, pc.len() as int)[k]
                == pc[k] by {
                assert(x[k] == x.subrange(0, pb.len() as int)[k]);
                assert(pb[k] == b[k]);
                assert(b[k] == b.subrange(0, pc.len() as int)[k]);
            }
        }
    }
}

/// A path with a separator lies below the directory that holds it.
proof fn lemma_below_enclosing(path: Seq<char>)
    requires
        last_slash(path) >= 0,
    ensures
        is_below(path, enclosing(path)),
{
    lemma_last_slash_bounds(path);
    let k = last_slash(path);
    assert(path.subrange(0, k + 1) =~= path.take(k) + seq!['/']);
}

/// A path that lies below a directory has a separator.
proof fn lemma_below_has_slash(path: Seq<char>, dir: Seq<char>)
    requires
        is_below(path, dir),
    ensures
        last_slash(path) >= 0,
{
    lemma_last_slash_bounds(path);
    let prefix = dir + seq!['/'];
    assert(path.subrange(0, prefix.len() as int)[dir.len() as int] == '/');
    assert(path[dir.len() as int] == '/');
}

/// The directory that the search for hollow directories settles on holds
/// the directory that the search started from.
proof fn lemma_highest_covers(
    entries: Seq<ListedEntry>,
    root: Seq<char>,
    cur: Seq<char>,
    best: Option<Seq<char>>,
    x: Seq<char>,
)
    requires
        best is None ==> x == cur,
        best is Some ==> is_within(x, best->0) && is_below(best->0, cur),
    ensures
        highest_hollow(entries, root, cur, best) is Some ==> is_within(
            x,
            highest_hollow(entries, root, cur, best)->0,
        ),
    decreases cur.len(),
{
    if is_below(cur, root) && hollow(entries, cur) && enclosing(cur).len() < cur.len() {
        lemma_below_has_slash(cur, root);
        lemma_below_enclosing(cur);
        if best is Some {
            lemma_below_within(x, best->0, cur);
        }
        lemma_highest_covers(entries, root, enclosing(cur), Some(cur), x);
    }
}

/// Reclaiming is idempotent: on the listing that the steps of a cleanup
/// leave behind, the same cleanup asks for no step.
pub proof fn lemma_cleanup_idempotent(entries: Seq<ListedEntry>, root: Seq<char>, target: Seq<char>)
    ensures
        cleanup_steps(after_cleanup(entries, root, target), root, target) == Seq::<
            StepView,
        >::empty(),
        after_cleanup(after_cleanup(entries, root, target), root, target) == after_cleanup(
            entries,
            root,
            target,
        ),
{
    let rest = without(entries, target);
    let after = after_cleanup(entries, root, target);
    let start = enclosing(target);
    let top = highest_hollow(rest, root, start, None);
    lemma_filter_passes(entries, outside_of(target));
    assert forall|i: int| 0 <= i < after.len() implies outside_of(target)(#[trigger] after[i]) by {
        if top is Some {
            lemma_filter_passes(rest, outside_of(top->0));
            let e = after[i];
            assert(rest.contains(e));
            let k = choose|k: int| 0 <= k < rest.len() && rest[k] == e;
            assert(outside_of(target)(rest[k]));
        }
    }
    lemma_filter_all_pass(after, outside_of(target));
    assert(without(after, target) == after);
    assert(!is_listed(after, target)) by {
        if is_listed(after, target) {
            let i = choose|i: int| 0 <= i < after.len() && (#[trigger] after[i]).path@ == target;
            assert(outside_of(target)(after[i]));
        }
    }
    if top is Some {
        lemma_highest_covers(rest, root, start, None, start);
        lemma_filter_passes(rest, outside_of(top->0));
        assert(!listed_dir(after, start)) by {
            if listed_dir(after, start) {
                let i = choose|i: int|
                    0 <= i < after.len() && (#[trigger] after[i]).path@ == start && after[i].kind
                        == EntryKind::Dir;
                assert(outside_of(top->0)(after[i]));
            }
        }
        assert(highest_hollow(after, root, start, None) is None);
    }
}

/// The listing after the cache directories of the first `n` tests have
/// been reclaimed, one after the other.
pub open spec fn entries_after_sweep(
    entries: Seq<ListedEntry>,
    root: Seq<char>,
    output_dir: Seq<char>,
    tests: Seq<Seq<char>>,
    n: int,
) -> Seq<ListedEntry>
    decreases n,
{
    if n <= 0 {
        entries
    } else {
        after_cleanup(
            entries_after_sweep(entries, root, output_dir, tests, n - 1),
            root,
            target_path(output_dir, tests[n - 1]),
        )
    }
}

/// The steps that reclaim the cache directories of the first `n` tests,
/// each planned on what the steps before it leave behind.
pub open spec fn sweep_steps(
    entries: Seq<ListedEntry>,
    root: Seq<char>,
    output_dir: Seq<char>,
    tests: Seq<Seq<char>>,
    n: int,
) -> Seq<StepView>
    decreases n,
{
    if n <= 0 {
        Seq::empty()
    } else {
        sweep_steps(entries, root, output_dir, tests, n - 1) + cleanup_steps(
            entries_after_sweep(entries, root, output_dir, tests, n - 1),
            root,
            target_path(output_dir, tests[n - 1]),
        )
    }
}

/// The steps of a whole sweep: the cache directory of every test, and at
/// the end the root itself where it is left hollow.
pub open spec fn batch_cleanup_steps(
    tree: TreeListing,
    output_dir: Seq<char>,
    tests: Seq<Seq<char>>,
) -> Seq<StepView> {
    let n = tests.len() as int;
    let left = entries_after_sweep(tree.entries@, tree.root@, output_dir, tests, n);
    let swept = sweep_steps(tree.entries@, tree.root@, output_dir, tests, n);
    if tree.root_is_dir && holds_only_dirs(left, tree.root@) {
        swept + removals_within(left, tree.root@)
    } else {
        swept
    }
}

/// Clean up target directories to save disk space: the steps that reclaim
/// the cache directory of every test of the batch, and that remove the
/// artifacts directory itself where nothing but empty directories is left
/// in it.
pub fn cleanup_target_dirs(output_dir: &str, test_names: &[String], tree: &TreeListing) -> (steps:
    Vec<FsStep>)
    ensures
        plan_view(steps@) == batch_cleanup_steps(*tree, output_dir@, texts(test_names@)),
{
    let ghost tests = texts(test_names@);
    let mut steps: Vec<FsStep> = Vec::new();
    assert(plan_view(steps@) =~= Seq::<StepView>::empty());
    let mut left: Vec<ListedEntry> = copy_entries(&tree.entries);
    let mut i: usize = 0;
    while i < test_names.len()
        invariant
            i <= test_names.len(),
            tests == texts(test_names@),
            tests.len() == test_names@.len(),
            plan_view(steps@) == sweep_steps(tree.entries@, tree.root@, output_dir@, tests, i as int),
            left@ == entries_after_sweep(tree.entries@, tree.root@, output_dir@, tests, i as int),
        decreases test_names.len() - i,
    {
        let test_name = &test_names[i];
        assert(tests[i as int] == test_name@);
        let target = test_target_dir(output_dir, test_name.as_str());
        let (more, rest) = reclaim(&left, tree.root.as_str(), target.as_str());
        proof {
            lemma_plan_add(steps@, more@);
        }
        let mut more = more;
        steps.append(&mut more);
        left = rest;
        i += 1;
    }
    if tree.root_is_dir && only_dirs_below(&left, tree.root.as_str()) {
        let removals = removal_plan(&left, tree.root.as_str());
        proof {
            lemma_plan_add(steps@, removals@);
        }
        let mut removals = removals;
        steps.append(&mut removals);
    }
    steps
}

/// The paths that are listed as directories.
pub open spec fn listed_dirs(entries: Seq<ListedEntry>) -> Set<Seq<char>> {
    Set::new(
        |path: Seq<char>|
            exists|i: int|
                0 <= i < entries.len() && (#[trigger] entries[i]).path@ == path && entries[i].kind
                    == EntryKind::Dir,
    )
}

/// The paths that are listed as something other than a directory.
pub open spec fn listed_files(entries: Seq<ListedEntry>) -> Set<Seq<char>> {
    Set::new(
        |path: Seq<char>|
            exists|i: int|
                0 <= i < entries.len() && (#[trigger] entries[i]).path@ == path && entries[i].kind
                    != EntryKind::Dir,
    )
}

/// The file system that a listing shows.
pub open spec fn model_of(entries: Seq<ListedEntry>) -> FsModel {
    FsModel { dirs: listed_dirs(entries), files: listed_files(entries) }
}

/// No path is listed both as a directory and as something else.
pub open spec fn consistent(entries: Seq<ListedEntry>) -> bool {
    forall|i: int, j: int|
        0 <= i < entries.len() && 0 <= j < entries.len() && (#[trigger] entries[i]).path@ == (
        #[trigger] entries[j]).path@ ==> entries[i].kind == entries[j].kind
}

/// The paths below `dir` among the first `n` entries.
pub open spec fn paths_below(entries: Seq<ListedEntry>, dir: Seq<char>, n: int) -> Set<Seq<char>> {
    Set::new(
        |path: Seq<char>|
            exists|i: int|
                0 <= i < n && i < entries.len() && (#[trigger] entries[i]).path@ == path
                    && is_below(path, dir),
    )
}

/// What the model shows of a filtered listing.
proof fn lemma_model_of_without(entries: Seq<ListedEntry>, dir: Seq<char>)
    ensures
        listed_dirs(without(entries, dir)) == outside(listed_dirs(entries), dir),
        listed_files(without(entries, dir)) == outside(listed_files(entries), dir),
        consistent(entries) ==> consistent(without(entries, dir)),
{
    let rest = without(entries, dir);
    let pred = outside_of(dir);
    lemma_filter_passes(entries, pred);
    assert forall|path: Seq<char>| listed_dirs(rest).contains(path) <==> outside(
        listed_dirs(entries),
        dir,
    ).contains(path) by {
        if listed_dirs(rest).contains(path) {
            let j = choose|j: int|
                0 <= j < rest.len() && (#[trigger] rest[j]).path@ == path && rest[j].kind
                    == EntryKind::Dir;
            assert(entries.contains(rest[j]));
            let i = choose|i: int| 0 <= i < entries.len() && entries[i] == rest[j];
            assert(entries[i].path@ == path);
            assert(pred(rest[j]));
        }
        if outside(listed_dirs(entries), dir).contains(path) {
            let i = choose|i: int|
                0 <= i < entries.len() && (#[trigger] entries[i]).path@ == path
                    && entries[i].kind == EntryKind::Dir;
            assert(pred(entries[i]));
            entries.lemma_filter_contains(pred, i);
            let j = choose|j: int| 0 <= j < rest.len() && rest[j] == entries[i];
            assert(rest[j].path@ == path);
        }
    }
    assert(listed_dirs(rest) =~= outside(listed_dirs(entries), dir));
    assert forall|path: Seq<char>| listed_files(rest).contains(path) <==> outside(
        listed_files(entries),
        dir,
    ).contains(path) by {
        if listed_files(rest).contains(path) {
            let j = choose|j: int|
                0 <= j < rest.len() && (#[trigger] rest[j]).path@ == path && rest[j].kind
                    != EntryKind::Dir;
            assert(entries.contains(rest[j]));
            let i = choose|i: int| 0 <= i < entries.len() && entries[i] == rest[j];
            assert(entries[i].path@ == path);
            assert(pred(rest[j]));
        }
        if outside(listed_files(entries), dir).contains(path) {
            let i = choose|i: int|
                0 <= i < entries.len() && (#[trigger] entries[i]).path@ == path
                    && entries[i].kind != EntryKind::Dir;
            assert(pred(entries[i]));
            entries.lemma_filter_contains(pred, i);
            let j = choose|j: int| 0 <= j < rest.len() && rest[j] == entries[i];
            assert(rest[j].path@ == path);
        }
    }
    assert(listed_files(rest) =~= outside(listed_files(entries), dir));
    if consistent(entries) {
        assert forall|a: int, b: int|
            0 <= a < rest.len() && 0 <= b < rest.len() && (#[trigger] rest[a]).path@ == (
            #[trigger] rest[b]).path@ implies rest[a].kind == rest[b].kind by {
            assert(entries.contains(rest[a]));
            assert(entries.contains(rest[b]));
            let i = choose|i: int| 0 <= i < entries.len() && entries[i] == rest[a];
            let j = choose|j: int| 0 <= j < entries.len() && entries[j] == rest[b];
            assert(entries[i].path@ == entries[j].path@);
        }
    }
}

/// Removing the directories below `dir` one by one takes their paths out
/// of the directories and leaves the files alone.
proof fn lemma_removals_below_effect(fs: FsModel, entries: Seq<ListedEntry>, dir: Seq<char>, n: int)
    requires
        0 <= n <= entries.len(),
    ensures
        after_plan(fs, removals_below(entries, dir, n)).dirs == fs.dirs.difference(
            paths_below(entries, dir, n),
        ),
        after_plan(fs, removals_below(entries, dir, n)).files == fs.files,
    decreases n,
{
    if n == 0 {
        assert(fs.dirs.difference(paths_below(entries, dir, 0)) =~= fs.dirs);
    } else {
        let path = entries[n - 1].path@;
        if is_below(path, dir) {
            let step = StepView::RemoveDir { path };
            let rest = removals_below(entries, dir, n - 1);
            lemma_after_add(fs, seq![step], rest);
            assert(seq![step] =~= Seq::<StepView>::empty().push(step));
            lemma_after_push(fs, Seq::<StepView>::empty(), step);
            let fs1 = after_plan(fs, seq![step]);
            assert(fs1.dirs == fs.dirs.remove(path));
            lemma_removals_below_effect(fs1, entries, dir, n - 1);
            assert(fs1.dirs.difference(paths_below(entries, dir, n - 1)) =~= fs.dirs.difference(
                paths_below(entries, dir, n),
            )) by {
                assert forall|p: Seq<char>| paths_below(entries, dir, n).contains(p) <==> (p == path
                    || paths_below(entries, dir, n - 1).contains(p)) by {
                    if paths_below(entries, dir, n).contains(p) {
                        let i = choose|i: int|
                            0 <= i < n && i < entries.len() && (#[trigger] entries[i]).path@ == p
                                && is_below(p, dir);
                        if i < n - 1 {
                            assert(paths_below(entries, dir, n - 1).contains(p));
                        }
                    }
                    if p == path {
                        assert(entries[n - 1].path@ == p);
                    }
                }
            }
        } else {
            lemma_removals_below_effect(fs, entries, dir, n - 1);
            assert(paths_below(entries, dir, n) =~= paths_below(entries, dir, n - 1)) by {
                assert forall|p: Seq<char>| paths_below(entries, dir, n).contains(p)
                    <==> paths_below(entries, dir, n - 1).contains(p) by {
                    if paths_below(entries, dir, n).contains(p) {
                        let i = choose|i: int|
                            0 <= i < n && i < entries.len() && (#[trigger] entries[i]).path@ == p
                                && is_below(p, dir);
                        assert(i < n - 1);
                    }
                }
            }
        }
    }
}

/// The steps of a cleanup do to the file system what the listing after the
/// cleanup shows: where the listing is consistent, and shows the target
/// itself if it shows anything in it, carrying the steps out on the file
/// system of the listing gives the file system of the listing that
/// [`after_cleanup`] names.
pub proof fn lemma_cleanup_steps_effect(entries: Seq<ListedEntry>, root: Seq<char>, target: Seq<char>)
    requires
        consistent(entries),
        is_listed(entries, target) || forall|i: int|
            0 <= i < entries.len() ==> !is_within((#[trigger] entries[i]).path@, target),
    ensures
        after_plan(model_of(entries), cleanup_steps(entries, root, target)).dirs == model_of(
            after_cleanup(entries, root, target),
        ).dirs,
        after_plan(model_of(entries), cleanup_steps(entries, root, target)).files == model_of(
            after_cleanup(entries, root, target),
        ).files,
{
    let fs = model_of(entries);
    let rest = without(entries, target);
    let first = if is_listed(entries, target) {
        seq![StepView::RemoveDirAll { path: target }]
    } else {
        Seq::<StepView>::empty()
    };
    lemma_model_of_without(entries, target);
    let fs1 = after_plan(fs, first);
    assert(fs1.dirs == listed_dirs(rest) && fs1.files == listed_files(rest)) by {
        if is_listed(entries, target) {
            assert(first =~= Seq::<StepView>::empty().push(first[0]));
            lemma_after_push(fs, Seq::<StepView>::empty(), first[0]);
        } else {
            assert forall|i: int| 0 <= i < entries.len() implies outside_of(target)(
                #[trigger] entries[i],
            ) by {}
            lemma_filter_all_pass(entries, outside_of(target));
        }
    }
    match highest_hollow(rest, root, enclosing(target), None) {
        Some(top) => {
            let below = removals_below(rest, top, rest.len() as int);
            let last = StepView::RemoveDir { path: top };
            assert(cleanup_steps(entries, root, target) =~= first + below.push(last));
            lemma_after_add(fs, first, below.push(last));
            lemma_after_push(fs1, below, last);
            lemma_removals_below_effect(fs1, rest, top, rest.len() as int);
            lemma_model_of_without(rest, top);
            lemma_highest_is_hollow(rest, root, enclosing(target), None);
            let end = after_plan(fs, cleanup_steps(entries, root, target));
            assert(end.dirs =~= outside(listed_dirs(rest), top)) by {
                assert forall|p: Seq<char>| end.dirs.contains(p) <==> outside(
                    listed_dirs(rest),
                    top,
                ).contains(p) by {
                    if listed_dirs(rest).contains(p) && is_below(p, top) {
                        let i = choose|i: int|
                            0 <= i < rest.len() && (#[trigger] rest[i]).path@ == p && rest[i].kind
                                == EntryKind::Dir;
                        assert(paths_below(rest, top, rest.len() as int).contains(p));
                    }
                }
            }
            assert(end.files =~= outside(listed_files(rest), top)) by {
                assert forall|p: Seq<char>| listed_files(rest).contains(p) implies !is_within(
                    p,
                    top,
                ) by {
                    let i = choose|i: int|
                        0 <= i < rest.len() && (#[trigger] rest[i]).path@ == p && rest[i].kind
                            != EntryKind::Dir;
                    if p == top {
                        let j = choose|j: int|
                            0 <= j < rest.len() && (#[trigger] rest[j]).path@ == top
                                && rest[j].kind == EntryKind::Dir;
                        assert(rest[i].kind == rest[j].kind);
                    }
                }
            }
        },
        None => {},
    }
}

/// The directory that the search for hollow directories settles on is hollow.
proof fn lemma_highest_is_hollow(
    entries: Seq<ListedEntry>,
    root: Seq<char>,
    cur: Seq<char>,
    best: Option<Seq<char>>,
)
    requires
        best is Some ==> hollow(entries, best->0),
    ensures
        highest_hollow(entries, root, cur, best) is Some ==> hollow(
            entries,
            highest_hollow(entries, root, cur, best)->0,
        ),
    decreases cur.len(),
{
    if is_below(cur, root) && hollow(entries, cur) && enclosing(cur).len() < cur.len() {
        lemma_highest_is_hollow(entries, root, enclosing(cur), Some(cur));
    }
}

} // verus!
