//! The order in which an analysis is written down, so that the same
//! analysis always gives the same report.

use crate::text::names_ascending;
use crate::types::lines::{ascending, LineSet};
use crate::types::maps::{entry_names, entry_values, NameMap};
use crate::types::models::{FileCoverageAnalysis, IsotarpAnalysis, TestCoverageAnalysis};
use vstd::prelude::*;
use vstd::string::*;

verus! {

/// `sorted` is `file` with its unique lines in ascending order.
pub open spec fn is_sorted_file(file: FileCoverageAnalysis, sorted: FileCoverageAnalysis) -> bool {
    &&& sorted.total_covered_lines == file.total_covered_lines
    &&& sorted.unique_covered_lines == file.unique_covered_lines
    &&& ascending(sorted.unique_lines@)
    &&& sorted.unique_lines@.to_set() == file.unique_lines@.to_set()
}

/// `sorted` is `test` with its files in ascending order of their paths,
/// each with its unique lines in ascending order.
pub open spec fn is_sorted_test(test: TestCoverageAnalysis, sorted: TestCoverageAnalysis) -> bool {
    &&& sorted.total_covered_lines == test.total_covered_lines
    &&& sorted.unique_covered_lines == test.unique_covered_lines
    &&& names_ascending(sorted.files.names())
    &&& sorted.files@.dom() == test.files@.dom()
    &&& forall|path: Seq<char>| #[trigger]
        test.files@.contains_key(path) ==> is_sorted_file(test.files@[path], sorted.files@[path])
}

/// The analysis of a file with its unique lines in ascending order.
pub fn sort_file_analysis(file: FileCoverageAnalysis) -> (sorted: FileCoverageAnalysis)
    ensures
        is_sorted_file(file, sorted),
{
    let lines = LineSet::from_vec(&file.unique_lines);
    FileCoverageAnalysis {
        total_covered_lines: file.total_covered_lines,
        unique_covered_lines: file.unique_covered_lines,
        unique_lines: lines.to_vec(),
    }
}

/// The analysis of a test with its files in ascending order of their
/// paths, each with its unique lines in ascending order.
pub fn sort_test_analysis(test: TestCoverageAnalysis) -> (sorted: TestCoverageAnalysis)
    ensures
        is_sorted_test(test, sorted),
{
    let TestCoverageAnalysis { total_covered_lines, unique_covered_lines, files } = test;
    let ghost names = files.names();
    let ghost values = files.values();
    let mut entries = files.into_entries();
    let mut out: NameMap<FileCoverageAnalysis> = NameMap::new();
    while entries.len() > 0
        invariant
            names.no_duplicates(),
            names.len() == values.len(),
            names == files.names(),
            values == files.values(),
            entries@.len() <= names.len(),
            entry_names(entries@) == names.take(entries@.len() as int),
            entry_values(entries@) == values.take(entries@.len() as int),
            forall|path: Seq<char>|
                out@.contains_key(path) <==> exists|i: int|
                    entries@.len() <= i < names.len() && names[i] == path,
            forall|i: int|
                entries@.len() <= i < names.len() ==> is_sorted_file(
                    values[i],
                    out@[#[trigger] names[i]],
                ),
        decreases entries.len(),
    {
        let ghost k = entries@.len() - 1;
        let ghost before = out;
        let ghost whole = entries@;
        let (path, file) = entries.pop().unwrap();
        proof {
            assert(entry_names(whole)[k] == names[k]);
            assert(entry_values(whole)[k] == values[k]);
            assert(entry_names(entries@) =~= names.take(entries@.len() as int));
            assert(entry_values(entries@) =~= values.take(entries@.len() as int));
        }
        let sorted = sort_file_analysis(file);
        out.insert(path, sorted);
        proof {
            assert forall|p: Seq<char>| out@.contains_key(p) <==> exists|i: int|
                entries@.len() <= i < names.len() && names[i] == p by {
                if before@.contains_key(p) {
                    let i = choose|i: int| k + 1 <= i < names.len() && names[i] == p;
                    assert(entries@.len() <= i < names.len() && names[i] == p);
                }
                if p == names[k] {
                    assert(entries@.len() <= k < names.len() && names[k] == p);
                }
                if exists|i: int| entries@.len() <= i < names.len() && names[i] == p {
                    let i = choose|i: int| entries@.len() <= i < names.len() && names[i] == p;
                    if i > k {
                        assert(k + 1 <= i < names.len() && names[i] == p);
                    }
                }
            }
            assert forall|i: int| entries@.len() <= i < names.len() implies is_sorted_file(
                values[i],
                out@[#[trigger] names[i]],
            ) by {
                if i > k {
                    assert(names[i] != names[k]);
                }
            }
        }
    }
    let sorted_files = out.into_sorted();
    proof {
        assert(sorted_files@.dom() =~= files@.dom()) by {
            assert forall|p: Seq<char>| sorted_files@.contains_key(p) <==> files@.contains_key(
                p,
            ) by {
                if files.names().contains(p) {
                    let i = choose|i: int| 0 <= i < names.len() && names[i] == p;
                    assert(0 <= i < names.len() && names[i] == p);
                }
            }
        }
        assert forall|p: Seq<char>| #[trigger] files@.contains_key(p) implies is_sorted_file(
            files@[p],
            sorted_files@[p],
        ) by {
            let i = files.names().index_of(p);
            assert(names[i] == p);
            files.lemma_entry(i);
        }
    }
    TestCoverageAnalysis { total_covered_lines, unique_covered_lines, files: sorted_files }
}

/// The analysis in the order in which it is written down: the tests in
/// ascending order of their names, the files of each test in ascending
/// order of their paths, the unique lines of each file in ascending order.
/// What the analysis says is left as it is.
pub fn sort_analysis(analysis: IsotarpAnalysis) -> (sorted: IsotarpAnalysis)
    ensures
        sorted.package@ == analysis.package@,
        names_ascending(sorted.tests.names()),
        sorted.tests@.dom() == analysis.tests@.dom(),
        forall|name: Seq<char>| #[trigger]
            analysis.tests@.contains_key(name) ==> is_sorted_test(
                analysis.tests@[name],
                sorted.tests@[name],
            ),
{
    let IsotarpAnalysis { package, tests } = analysis;
    let ghost names = tests.names();
    let ghost values = tests.values();
    let mut entries = tests.into_entries();
    let mut out: NameMap<TestCoverageAnalysis> = NameMap::new();
    while entries.len() > 0
        invariant
            names.no_duplicates(),
            names.len() == values.len(),
            names == tests.names(),
            values == tests.values(),
            entries@.len() <= names.len(),
            entry_names(entries@) == names.take(entries@.len() as int),
            entry_values(entries@) == values.take(entries@.len() as int),
            forall|name: Seq<char>|
                out@.contains_key(name) <==> exists|i: int|
                    entries@.len() <= i < names.len() && names[i] == name,
            forall|i: int|
                entries@.len() <= i < names.len() ==> is_sorted_test(
                    values[i],
                    out@[#[trigger] names[i]],
                ),
        decreases entries.len(),
    {
        let ghost k = entries@.len() - 1;
        let ghost before = out;
        let ghost whole = entries@;
        let (name, test) = entries.pop().unwrap();
        proof {
            assert(entry_names(whole)[k] == names[k]);
            assert(entry_values(whole)[k] == values[k]);
            assert(entry_names(entries@) =~= names.take(entries@.len() as int));
            assert(entry_values(entries@) =~= values.take(entries@.len() as int));
        }
        let sorted = sort_test_analysis(test);
        out.insert(name, sorted);
        proof {
            assert forall|p: Seq<char>| out@.contains_key(p) <==> exists|i: int|
                entries@.len() <= i < names.len() && names[i] == p by {
                if before@.contains_key(p) {
                    let i = choose|i: int| k + 1 <= i < names.len() && names[i] == p;
                    assert(entries@.len() <= i < names.len() && names[i] == p);
                }
                if p == names[k] {
                    assert(entries@.len() <= k < names.len() && names[k] == p);
                }
                if exists|i: int| entries@.len() <= i < names.len() && names[i] == p {
                    let i = choose|i: int| entries@.len() <= i < names.len() && names[i] == p;
                    if i > k {
                        assert(k + 1 <= i < names.len() && names[i] == p);
                    }
                }
            }
            assert forall|i: int| entries@.len() <= i < names.len() implies is_sorted_test(
                values[i],
                out@[#[trigger] names[i]],
            ) by {
                if i > k {
                    assert(names[i] != names[k]);
                }
            }
        }
    }
    let sorted_tests = out.into_sorted();
    proof {
        assert(sorted_tests@.dom() =~= tests@.dom()) by {
            assert forall|p: Seq<char>| sorted_tests@.contains_key(p) <==> tests@.contains_key(
                p,
            ) by {
                if tests.names().contains(p) {
                    let i = choose|i: int| 0 <= i < names.len() && names[i] == p;
                    assert(0 <= i < names.len() && names[i] == p);
                }
            }
        }
        assert forall|p: Seq<char>| #[trigger] tests@.contains_key(p) implies is_sorted_test(
            tests@[p],
            sorted_tests@[p],
        ) by {
            let i = tests.names().index_of(p);
            assert(names[i] == p);
            tests.lemma_entry(i);
        }
    }
    IsotarpAnalysis { package, tests: sorted_tests }
}

} // verus!
