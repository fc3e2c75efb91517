//! Where the engine keeps its directories and files.
//!
//! Paths are strings with `/` as separator. Test names are hierarchical, with
//! `::` between segments, and map to nested directories.

use crate::text::{chars_of, concat2, concat3, push_char};
use vstd::prelude::*;
use vstd::string::*;

verus! {

/// The parent of `path` as `std::path::Path::parent` gives it, `None` where
/// the path ends in a root or is empty.
pub uninterp spec fn path_parent(path: Seq<char>) -> Option<Seq<char>>;

/// `std::path::Path::parent`: the path without its final component, if there
/// is one. The result is named by [`path_parent`]; nothing more is claimed.
#[verifier::external_body]
pub(crate) fn parent_of(path: &str) -> (parent: Option<String>)
    ensures
        parent is Some <==> path_parent(path@) is Some,
        parent is Some ==> path_parent(path@) == Some(parent->0@),
{
    match std::path::Path::new(path).parent() {
        Some(p) => Some(p.to_string_lossy().into_owned()),
        None => None,
    }
}

/// `rel` adjoined to `base`: an absolute `rel` replaces `base`, and a
/// separator is put between the two unless `base` is empty or ends in one.
pub open spec fn joined(base: Seq<char>, rel: Seq<char>) -> Seq<char> {
    if rel.len() > 0 && rel[0] == '/' {
        rel
    } else if base.len() > 0 && base.last() != '/' {
        base + seq!['/'] + rel
    } else {
        base + rel
    }
}

/// A test name with every `::`, read from left to right, turned into `/`.
pub open spec fn path_segment(name: Seq<char>) -> Seq<char>
    decreases name.len(),
{
    if name.len() < 2 {
        name
    } else if name[0] == ':' && name[1] == ':' {
        seq!['/'] + path_segment(name.skip(2))
    } else {
        seq![name[0]] + path_segment(name.skip(1))
    }
}

/// Name of the hidden directory that holds every cache directory.
pub open spec fn artifacts_name() -> Seq<char> {
    seq!['.', 'i', 's', 'o', 't', 'a', 'r', 'p', '-', 'a', 'r', 't', 'i', 'f', 'a', 'c', 't', 's']
}

/// Name of a test's cache directory below its artifacts directory.
pub open spec fn target_name() -> Seq<char> {
    seq!['t', 'a', 'r', 'p', 'a', 'u', 'l', 'i', 'n', '-', 't', 'a', 'r', 'g', 'e', 't']
}

/// Name of the coverage report that the executor writes for a test.
pub open spec fn report_name() -> Seq<char> {
    seq![
        't', 'a', 'r', 'p', 'a', 'u', 'l', 'i', 'n', '-', 'r', 'e', 'p', 'o', 'r', 't', '.', 'j',
        's', 'o', 'n',
    ]
}

/// The artifacts directory, given the parent of the output directory.
pub open spec fn artifacts_under(parent: Option<Seq<char>>) -> Seq<char> {
    match parent {
        Some(p) => joined(p, artifacts_name()),
        None => artifacts_name(),
    }
}

/// The artifacts directory that belongs to `output_dir`.
pub open spec fn artifacts_path(output_dir: Seq<char>) -> Seq<char> {
    artifacts_under(path_parent(output_dir))
}

/// The directory for the reports of `test_name`.
pub open spec fn output_path(output_dir: Seq<char>, test_name: Seq<char>) -> Seq<char> {
    joined(output_dir, path_segment(test_name))
}

/// The cache directory of `test_name`.
pub open spec fn target_path(output_dir: Seq<char>, test_name: Seq<char>) -> Seq<char> {
    joined(joined(artifacts_path(output_dir), path_segment(test_name)), target_name())
}

/// The report file of `test_name`.
pub open spec fn report_path(output_dir: Seq<char>, test_name: Seq<char>) -> Seq<char> {
    joined(output_path(output_dir, test_name), report_name())
}

/// Unfolding `path_segment` at position `i` of `name` keeps the whole.
proof fn lemma_path_segment_step(name: Seq<char>, i: int)
    requires
        0 <= i <= name.len(),
    ensures
        name.len() - i < 2 ==> path_segment(name.skip(i)) == name.skip(i),
        i + 2 <= name.len() && name[i] == ':' && name[i + 1] == ':' ==> path_segment(
            name.skip(i),
        ) == seq!['/'] + path_segment(name.skip(i + 2)),
        i + 2 <= name.len() && !(name[i] == ':' && name[i + 1] == ':') ==> path_segment(
            name.skip(i),
        ) == seq![name[i]] + path_segment(name.skip(i + 1)),
{
    let rest = name.skip(i);
    if i + 2 <= name.len() {
        assert(rest.skip(2) =~= name.skip(i + 2));
        assert(rest.skip(1) =~= name.skip(i + 1));
    }
}

/// `rel` adjoined to `base`, with `/` between them where one is needed.
pub fn join_path(base: &str, rel: &str) -> (out: String)
    ensures
        out@ == joined(base@, rel@),
{
    let b = chars_of(base);
    let r = chars_of(rel);
    if r.len() > 0 && r[0] == '/' {
        rel.to_owned()
    } else if b.len() > 0 && b[b.len() - 1] != '/' {
        proof {
            reveal_strlit("/");
            assert("/"@ =~= seq!['/']);
        }
        concat3(base, "/", rel)
    } else {
        concat2(base, rel)
    }
}

/// Converts a test name with `::` separators to the relative path of its
/// directory: `module::submodule::test` becomes `module/submodule/test`.
pub fn test_name_to_path_segment(test_name: &str) -> (out: String)
    ensures
        out@ == path_segment(test_name@),
{
    let name = chars_of(test_name);
    let mut out = String::new();
    let mut i: usize = 0;
    assert(name@.skip(0) =~= name@);
    assert(out@ + path_segment(name@) =~= path_segment(name@));
    while i < name.len()
        invariant
            i <= name.len(),
            out@ + path_segment(name@.skip(i as int)) == path_segment(name@),
        decreases name.len() - i,
    {
        proof {
            lemma_path_segment_step(name@, i as int);
        }
        let ghost before = out@;
        if name.len() - i >= 2 && name[i] == ':' && name[i + 1] == ':' {
            push_char(&mut out, '/');
            assert(out@ + path_segment(name@.skip(i + 2)) =~= before + (seq!['/'] + path_segment(
                name@.skip(i + 2),
            )));
            i += 2;
        } else {
            push_char(&mut out, name[i]);
            if name.len() - i >= 2 {
                assert(out@ + path_segment(name@.skip(i + 1)) =~= before + (seq![name@[i as int]]
                    + path_segment(name@.skip(i + 1))));
            } else {
                assert(name@.skip(i as int) =~= seq![name@[i as int]]);
                assert(name@.skip(i + 1) =~= Seq::<char>::empty());
                assert(out@ + path_segment(name@.skip(i + 1)) =~= before + name@.skip(i as int));
            }
            i += 1;
        }
    }
    assert(name@.skip(name@.len() as int) =~= Seq::<char>::empty());
    assert(out@ + Seq::<char>::empty() =~= out@);
    out
}

/// The artifacts directory for an output directory whose parent is `parent`:
/// a hidden sibling of the output directory, or a relative directory where
/// the output directory has no parent.
pub fn artifacts_dir_under(parent: Option<&str>) -> (out: String)
    ensures
        out@ == artifacts_under(
            match parent {
                Some(p) => Some(p@),
                None => None,
            },
        ),
{
    proof {
        reveal_strlit(".isotarp-artifacts");
        assert(".isotarp-artifacts"@ =~= artifacts_name());
    }
    match parent {
        Some(p) => join_path(p, ".isotarp-artifacts"),
        None => ".isotarp-artifacts".to_owned(),
    }
}

/// Returns the path of the central artifacts directory, a sibling of the
/// output directory.
pub fn artifacts_dir(output_dir: &str) -> (out: String)
    ensures
        out@ == artifacts_path(output_dir@),
{
    match parent_of(output_dir) {
        Some(p) => artifacts_dir_under(Some(p.as_str())),
        None => artifacts_dir_under(None),
    }
}

/// The directory below the output directory that takes the reports of one test.
pub fn test_output_dir(output_dir: &str, test_name: &str) -> (out: String)
    ensures
        out@ == output_path(output_dir@, test_name@),
{
    let segment = test_name_to_path_segment(test_name);
    join_path(output_dir, segment.as_str())
}

/// The cache directory of one test, below the central artifacts directory.
pub fn test_target_dir(output_dir: &str, test_name: &str) -> (out: String)
    ensures
        out@ == target_path(output_dir@, test_name@),
{
    proof {
        reveal_strlit("tarpaulin-target");
        assert("tarpaulin-target"@ =~= target_name());
    }
    let artifacts = artifacts_dir(output_dir);
    let segment = test_name_to_path_segment(test_name);
    let test_dir = join_path(artifacts.as_str(), segment.as_str());
    join_path(test_dir.as_str(), "tarpaulin-target")
}

/// The coverage report file that the executor writes for one test.
pub fn test_report_path(output_dir: &str, test_name: &str) -> (out: String)
    ensures
        out@ == report_path(output_dir@, test_name@),
{
    proof {
        reveal_strlit("tarpaulin-report.json");
        assert("tarpaulin-report.json"@ =~= report_name());
    }
    let dir = test_output_dir(output_dir, test_name);
    join_path(dir.as_str(), "tarpaulin-report.json")
}

/// The artifacts directory has a name that does not end in a separator.
pub proof fn lemma_artifacts_shape(output_dir: Seq<char>)
    ensures
        artifacts_path(output_dir).len() > 0,
        artifacts_path(output_dir).last() != '/',
{
    let name = artifacts_name();
    assert(name.len() == 18 && name[0] == '.' && name[17] == 's');
    match path_parent(output_dir) {
        Some(p) => {
            let a = joined(p, name);
            assert(a.len() >= 18);
            assert(a[a.len() - 1] == name[17]);
        },
        None => {},
    }
}

/// A test name as the build tool lists it: not empty, without a path
/// separator, and with no colon at its start or at its end.
pub open spec fn is_plain_name(name: Seq<char>) -> bool {
    name.len() > 0 && !name.contains('/') && name[0] != ':' && name.last() != ':'
}

/// The directory of a name that is not empty begins as the name does, or
/// with a separator where the name begins with `::`.
proof fn lemma_segment_first(name: Seq<char>)
    requires
        name.len() > 0,
    ensures
        path_segment(name).len() > 0,
        path_segment(name)[0] == if name.len() >= 2 && name[0] == ':' && name[1] == ':' {
            '/'
        } else {
            name[0]
        },
{
}

/// The directory of a name that does not end in a colon ends as the name does.
proof fn lemma_segment_last(name: Seq<char>)
    requires
        name.len() > 0,
        name.last() != ':',
    ensures
        path_segment(name).len() > 0,
        path_segment(name).last() == name.last(),
    decreases name.len(),
{
    if name.len() >= 2 {
        if name[0] == ':' && name[1] == ':' {
            assert(name.len() > 2);
            assert(name.skip(2).last() == name.last());
            lemma_segment_last(name.skip(2));
            let tail = path_segment(name.skip(2));
            assert((seq!['/'] + tail).last() == tail.last());
        } else {
            assert(name.skip(1).last() == name.last());
            lemma_segment_last(name.skip(1));
            let tail = path_segment(name.skip(1));
            assert((seq![name[0]] + tail).last() == tail.last());
        }
    }
}

/// Two names without a path separator that have the same directory are
/// the same name.
pub proof fn lemma_segment_injective(first: Seq<char>, second: Seq<char>)
    requires
        !first.contains('/'),
        !second.contains('/'),
        path_segment(first) == path_segment(second),
    ensures
        first == second,
    decreases first.len(),
{
    let a = path_segment(first);
    let b = path_segment(second);
    if first.len() == 0 {
        if second.len() > 0 {
            lemma_segment_first(second);
        }
        assert(first =~= second);
    } else if second.len() == 0 {
        lemma_segment_first(first);
    } else {
        lemma_segment_first(first);
        lemma_segment_first(second);
        assert(first.contains(first[0]));
        assert(second.contains(second[0]));
        let first_sep = first.len() >= 2 && first[0] == ':' && first[1] == ':';
        let second_sep = second.len() >= 2 && second[0] == ':' && second[1] == ':';
        assert(a[0] == b[0]);
        assert(first_sep == second_sep);
        if first_sep {
            let x = first.skip(2);
            let y = second.skip(2);
            assert(a.skip(1) =~= path_segment(x));
            assert(b.skip(1) =~= path_segment(y));
            assert forall|c: char| x.contains(c) implies first.contains(c) by {
                let k = choose|k: int| 0 <= k < x.len() && x[k] == c;
                assert(first[k + 2] == c);
            }
            assert forall|c: char| y.contains(c) implies second.contains(c) by {
                let k = choose|k: int| 0 <= k < y.len() && y[k] == c;
                assert(second[k + 2] == c);
            }
            lemma_segment_injective(x, y);
            assert(first =~= seq![':', ':'] + x);
            assert(second =~= seq![':', ':'] + y);
        } else if first.len() < 2 || second.len() < 2 {
            if first.len() < 2 && second.len() >= 2 {
                lemma_segment_first(second.skip(1));
                assert(b.len() >= 2);
            } else if second.len() < 2 && first.len() >= 2 {
                lemma_segment_first(first.skip(1));
                assert(a.len() >= 2);
            } else {
                assert(first =~= second);
            }
        } else {
            let x = first.skip(1);
            let y = second.skip(1);
            assert(a.skip(1) =~= path_segment(x));
            assert(b.skip(1) =~= path_segment(y));
            assert forall|c: char| x.contains(c) implies first.contains(c) by {
                let k = choose|k: int| 0 <= k < x.len() && x[k] == c;
                assert(first[k + 1] == c);
            }
            assert forall|c: char| y.contains(c) implies second.contains(c) by {
                let k = choose|k: int| 0 <= k < y.len() && y[k] == c;
                assert(second[k + 1] == c);
            }
            lemma_segment_injective(x, y);
            assert(first =~= seq![first[0]] + x);
            assert(second =~= seq![second[0]] + y);
        }
    }
}

/// No two tests share a cache directory: the cache directories of two
/// different plain test names differ.
pub proof fn lemma_distinct_targets(output_dir: Seq<char>, first: Seq<char>, second: Seq<char>)
    requires
        is_plain_name(first),
        is_plain_name(second),
        first != second,
    ensures
        target_path(output_dir, first) != target_path(output_dir, second),
{
    let artifacts = artifacts_path(output_dir);
    lemma_artifacts_shape(output_dir);
    let a = path_segment(first);
    let b = path_segment(second);
    lemma_segment_first(first);
    lemma_segment_first(second);
    lemma_segment_last(first);
    lemma_segment_last(second);
    assert(first.contains(first[0]) && first.contains(first.last()));
    assert(second.contains(second[0]) && second.contains(second.last()));
    let x = joined(artifacts, a);
    let y = joined(artifacts, b);
    assert(x =~= artifacts + seq!['/'] + a);
    assert(y =~= artifacts + seq!['/'] + b);
    assert(x.last() == a.last());
    assert(y.last() == b.last());
    let name = target_name();
    assert(name.len() == 16 && name[0] == 't');
    let p = joined(x, name);
    let q = joined(y, name);
    assert(p =~= x + seq!['/'] + name);
    assert(q =~= y + seq!['/'] + name);
    if p == q {
        assert(x.len() == y.len());
        assert(x =~= p.take(x.len() as int));
        assert(y =~= q.take(y.len() as int));
        let skip = artifacts.len() + 1;
        assert(a =~= x.skip(skip as int));
        assert(b =~= y.skip(skip as int));
        lemma_segment_injective(first, second);
    }
}

} // verus!
