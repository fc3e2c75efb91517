//! The coverage differ: which lines each test of a batch covers alone.

use crate::types::lines::{ascending, LineSet};
use crate::types::maps::NameMap;
use crate::types::models::{
    FileCoverageAnalysis, FileCoverageSet, RawBatchCoverage, TestCoverageAnalysis,
};
use vstd::prelude::*;
use vstd::string::*;

verus! {

/// The lines of `file` that a test with coverage `files` covers.
pub open spec fn file_lines(files: FileCoverageSet, file: Seq<char>) -> Set<u64> {
    if files@.contains_key(file) {
        files@[file]@
    } else {
        Set::empty()
    }
}

/// The lines of `file` that `test` covers; none where the batch does not
/// hold the test or the test does not touch the file.
pub open spec fn lines_of(batch: RawBatchCoverage, test: Seq<char>, file: Seq<char>) -> Set<u64> {
    if batch@.contains_key(test) {
        file_lines(batch@[test], file)
    } else {
        Set::empty()
    }
}

/// Some test of the batch other than `test` covers `line` of `file`.
pub open spec fn covered_by_other(
    batch: RawBatchCoverage,
    test: Seq<char>,
    file: Seq<char>,
    line: u64,
) -> bool {
    exists|other: Seq<char>| other != test && #[trigger] lines_of(batch, other, file).contains(line)
}

/// The lines of `file` that `test` covers and no other test of the batch does.
pub open spec fn unique_lines(batch: RawBatchCoverage, test: Seq<char>, file: Seq<char>) -> Set<
    u64,
> {
    lines_of(batch, test, file).filter(|line: u64| !covered_by_other(batch, test, file, line))
}

/// How many lines of `file` the test covers.
pub open spec fn total_covered(batch: RawBatchCoverage, test: Seq<char>, file: Seq<char>) -> nat {
    lines_of(batch, test, file).len()
}

/// How many lines of `file` the test covers alone.
pub open spec fn unique_covered(batch: RawBatchCoverage, test: Seq<char>, file: Seq<char>) -> nat {
    unique_lines(batch, test, file).len()
}

/// The number of lines in a sequence of line sets.
pub open spec fn count_lines(sets: Seq<LineSet>) -> nat
    decreases sets.len(),
{
    if sets.len() == 0 {
        0
    } else {
        count_lines(sets.drop_last()) + sets.last()@.len()
    }
}

/// The total covered lines of a sequence of file analyses.
pub open spec fn sum_total(files: Seq<FileCoverageAnalysis>) -> nat
    decreases files.len(),
{
    if files.len() == 0 {
        0
    } else {
        sum_total(files.drop_last()) + files.last().total_covered_lines as nat
    }
}

/// The unique covered lines of a sequence of file analyses.
pub open spec fn sum_unique(files: Seq<FileCoverageAnalysis>) -> nat
    decreases files.len(),
{
    if files.len() == 0 {
        0
    } else {
        sum_unique(files.drop_last()) + files.last().unique_covered_lines as nat
    }
}

/// Every test of the batch covers few enough lines for the counters of its analysis.
pub open spec fn counts_fit(batch: RawBatchCoverage) -> bool {
    forall|i: int|
        0 <= i < batch.values().len() ==> count_lines((#[trigger] batch.values()[i]).values())
            <= u32::MAX
}

/// The files among the first `n` of a test's coverage of which the test
/// covers a line, in their order.
pub open spec fn covered_files(files: FileCoverageSet, n: int) -> Seq<Seq<char>>
    decreases n,
{
    if n <= 0 || n > files.names().len() || n > files.values().len() {
        Seq::empty()
    } else if files.values()[n - 1]@.len() > 0 {
        covered_files(files, n - 1).push(files.names()[n - 1])
    } else {
        covered_files(files, n - 1)
    }
}

/// `analysis` is the analysis of `file` for `test` within `batch`.
pub open spec fn is_file_analysis(
    batch: RawBatchCoverage,
    test: Seq<char>,
    file: Seq<char>,
    analysis: FileCoverageAnalysis,
) -> bool {
    &&& analysis.total_covered_lines == total_covered(batch, test, file)
    &&& analysis.unique_covered_lines == unique_covered(batch, test, file)
    &&& ascending(analysis.unique_lines@)
    &&& analysis.unique_lines@.to_set() == unique_lines(batch, test, file)
}

/// `analysis` is the analysis of `test` within `batch`: it lists exactly the
/// files of which the test covers a line, in the order of the test's
/// coverage and each with its analysis, and its counters are the sums over
/// those files.
pub open spec fn is_test_analysis(
    batch: RawBatchCoverage,
    test: Seq<char>,
    analysis: TestCoverageAnalysis,
) -> bool {
    &&& analysis.files.names().no_duplicates()
    &&& batch@.contains_key(test) ==> analysis.files.names() == covered_files(
        batch@[test],
        batch@[test].names().len() as int,
    )
    &&& forall|file: Seq<char>| #[trigger]
        analysis.files@.contains_key(file) <==> total_covered(batch, test, file) > 0
    &&& forall|file: Seq<char>| #[trigger]
        analysis.files@.contains_key(file) ==> is_file_analysis(
            batch,
            test,
            file,
            analysis.files@[file],
        )
    &&& analysis.total_covered_lines == sum_total(analysis.files.values())
    &&& analysis.unique_covered_lines == sum_unique(analysis.files.values())
}

/// A test never has more unique lines in a file than it covers there.
pub proof fn lemma_unique_at_most_total(batch: RawBatchCoverage, test: Seq<char>, file: Seq<char>)
    ensures
        unique_lines(batch, test, file).subset_of(lines_of(batch, test, file)),
        lines_of(batch, test, file).finite(),
        unique_covered(batch, test, file) <= total_covered(batch, test, file),
{
    lemma_lines_finite(batch, test, file);
    let all = lines_of(batch, test, file);
    let unique = unique_lines(batch, test, file);
    assert(unique.subset_of(all));
    vstd::set_lib::lemma_len_subset(unique, all);
}

/// The lines that a test covers in a file are finitely many.
pub proof fn lemma_lines_finite(batch: RawBatchCoverage, test: Seq<char>, file: Seq<char>)
    ensures
        lines_of(batch, test, file).finite(),
{
    if batch@.contains_key(test) && batch@[test]@.contains_key(file) {
        batch@[test]@[file].lemma_view();
    }
}

/// In a batch of one test every covered line is unique.
pub proof fn lemma_single_test_all_unique(
    batch: RawBatchCoverage,
    test: Seq<char>,
    file: Seq<char>,
)
    requires
        forall|other: Seq<char>| batch@.contains_key(other) ==> other == test,
    ensures
        unique_lines(batch, test, file) == lines_of(batch, test, file),
        unique_covered(batch, test, file) == total_covered(batch, test, file),
{
    assert(unique_lines(batch, test, file) =~= lines_of(batch, test, file)) by {
        assert forall|line: u64| lines_of(batch, test, file).contains(line) implies !covered_by_other(
            batch,
            test,
            file,
            line,
        ) by {
            assert forall|other: Seq<char>| other != test implies !lines_of(
                batch,
                other,
                file,
            ).contains(line) by {}
        }
    }
}

/// Two tests that cover the same lines of a file have no unique line there.
pub proof fn lemma_identical_coverage_none_unique(
    batch: RawBatchCoverage,
    first: Seq<char>,
    second: Seq<char>,
    file: Seq<char>,
)
    requires
        first != second,
        lines_of(batch, first, file) == lines_of(batch, second, file),
    ensures
        unique_lines(batch, first, file) == Set::<u64>::empty(),
        unique_lines(batch, second, file) == Set::<u64>::empty(),
        unique_covered(batch, first, file) == 0,
        unique_covered(batch, second, file) == 0,
{
    assert(unique_lines(batch, first, file) =~= Set::<u64>::empty()) by {
        assert forall|line: u64| lines_of(batch, first, file).contains(line) implies covered_by_other(
            batch,
            first,
            file,
            line,
        ) by {
            assert(lines_of(batch, second, file).contains(line));
        }
    }
    assert(unique_lines(batch, second, file) =~= Set::<u64>::empty()) by {
        assert forall|line: u64| lines_of(batch, second, file).contains(line) implies covered_by_other(
            batch,
            second,
            file,
            line,
        ) by {
            assert(lines_of(batch, first, file).contains(line));
        }
    }
}

/// What entry `ti` of the batch covers in `file` is what its own coverage says.
proof fn lemma_lines_of_entry(batch: RawBatchCoverage, ti: int, file: Seq<char>)
    requires
        batch.names().no_duplicates(),
        0 <= ti < batch.names().len(),
    ensures
        lines_of(batch, batch.names()[ti], file) == file_lines(batch.values()[ti], file),
{
    batch.lemma_entry(ti);
}

/// Whether no test of the batch other than entry `ti` covers `line` of `file`.
fn covered_alone(results: &RawBatchCoverage, ti: usize, file: &String, line: u64) -> (alone: bool)
    requires
        ti < results.names().len(),
    ensures
        alone == !covered_by_other(*results, results.names()[ti as int], file@, line),
{
    let n = results.len();
    let ghost test = results.names()[ti as int];
    let mut oj: usize = 0;
    while oj < n
        invariant
            oj <= n,
            n == results.names().len(),
            results.names().no_duplicates(),
            ti < n,
            test == results.names()[ti as int],
            forall|k: int|
                0 <= k < oj && k != ti ==> !lines_of(
                    *results,
                    #[trigger] results.names()[k],
                    file@,
                ).contains(line),
        decreases n - oj,
    {
        if oj != ti {
            let other_files = results.value_at(oj);
            proof {
                lemma_lines_of_entry(*results, oj as int, file@);
            }
            match other_files.get(file) {
                Some(other_lines) => {
                    if other_lines.contains(line) {
                        assert(results.names()[oj as int] != test);
                        assert(lines_of(*results, results.names()[oj as int], file@).contains(
                            line,
                        ));
                        return false;
                    }
                },
                None => {},
            }
        }
        oj += 1;
    }
    proof {
        assert forall|other: Seq<char>| other != test implies !(#[trigger] lines_of(
            *results,
            other,
            file@,
        )).contains(line) by {
            if results@.contains_key(other) {
                let k = choose|k: int|
                    0 <= k < results.names().len() && results.names()[k] == other;
                assert(k != ti);
                assert(!lines_of(*results, results.names()[k], file@).contains(line));
            }
        }
    }
    true
}

/// The analysis of file entry `fi` of test entry `ti`.
fn analyze_file(results: &RawBatchCoverage, ti: usize, fi: usize) -> (analysis:
    FileCoverageAnalysis)
    requires
        ti < results.names().len(),
        fi < results.values()[ti as int].names().len(),
        results.values()[ti as int].values()[fi as int]@.len() <= u32::MAX,
    ensures
        is_file_analysis(
            *results,
            results.names()[ti as int],
            results.values()[ti as int].names()[fi as int],
            analysis,
        ),
        analysis.total_covered_lines == results.values()[ti as int].values()[fi as int]@.len(),
{
    let files = results.value_at(ti);
    let file = files.name_at(fi);
    let lines = files.value_at(fi);
    let total = lines.len();
    let all = lines.to_vec();
    let ghost test = results.names()[ti as int];
    proof {
        lemma_lines_of_entry(*results, ti as int, file@);
        files.lemma_entry(fi as int);
        assert(lines_of(*results, test, file@) == all@.to_set());
    }
    let mut unique: Vec<u64> = Vec::new();
    let mut k: usize = 0;
    while k < all.len()
        invariant
            k <= all.len(),
            ti < results.names().len(),
            test == results.names()[ti as int],
            ascending(all@),
            ascending(unique@),
            unique@.len() <= k,
            forall|x: u64|
                unique@.contains(x) <==> (exists|j: int|
                    0 <= j < k && all@[j] == x && !covered_by_other(*results, test, file@, x)),
        decreases all.len() - k,
    {
        let line = all[k];
        let ghost before = unique@;
        if covered_alone(results, ti, file, line) {
            unique.push(line);
            proof {
                assert forall|a: int, b: int| 0 <= a < b < unique@.len() implies unique@[a]
                    < unique@[b] by {
                    if b == before.len() {
                        assert(before.contains(before[a]));
                        let j = choose|j: int| 0 <= j < k && all@[j] == before[a];
                        assert(all@[j] < all@[k as int]);
                    }
                }
                assert forall|x: u64|
                    unique@.contains(x) <==> (exists|j: int|
                        0 <= j < k + 1 && all@[j] == x && !covered_by_other(
                            *results,
                            test,
                            file@,
                            x,
                        )) by {
                    vstd::seq_lib::lemma_seq_contains_after_push(before, line, x);
                    if before.contains(x) {
                        let j = choose|j: int|
                            0 <= j < k && all@[j] == x && !covered_by_other(
                                *results,
                                test,
                                file@,
                                x,
                            );
                        assert(0 <= j < k + 1 && all@[j] == x);
                    }
                    if x == line {
                        assert(all@[k as int] == x);
                    }
                }
            }
        } else {
            proof {
                assert forall|x: u64|
                    unique@.contains(x) <==> (exists|j: int|
                        0 <= j < k + 1 && all@[j] == x && !covered_by_other(
                            *results,
                            test,
                            file@,
                            x,
                        )) by {
                    if unique@.contains(x) {
                        let j = choose|j: int|
                            0 <= j < k && all@[j] == x && !covered_by_other(
                                *results,
                                test,
                                file@,
                                x,
                            );
                        assert(0 <= j < k + 1 && all@[j] == x);
                    }
                }
            }
        }
        k += 1;
    }
    proof {
        assert(unique@.to_set() =~= unique_lines(*results, test, file@)) by {
            assert forall|x: u64| unique@.to_set().contains(x) <==> unique_lines(
                *results,
                test,
                file@,
            ).contains(x) by {
                if unique@.contains(x) {
                    let j = choose|j: int|
                        0 <= j < all@.len() && all@[j] == x && !covered_by_other(
                            *results,
                            test,
                            file@,
                            x,
                        );
                    assert(all@.contains(x));
                }
                if all@.contains(x) && !covered_by_other(*results, test, file@, x) {
                    let j = choose|j: int| 0 <= j < all@.len() && all@[j] == x;
                    assert(0 <= j < k && all@[j] == x);
                }
            }
        }
        LineSet::lemma_ascending_len(unique@);
    }
    FileCoverageAnalysis {
        total_covered_lines: total as u32,
        unique_covered_lines: unique.len() as u32,
        unique_lines: unique,
    }
}

/// The lines of a prefix of line sets are part of the lines of the whole.
proof fn lemma_count_lines_prefix(sets: Seq<LineSet>, i: int)
    requires
        0 <= i <= sets.len(),
    ensures
        count_lines(sets.take(i)) <= count_lines(sets),
        i < sets.len() ==> count_lines(sets.take(i + 1)) == count_lines(sets.take(i))
            + sets[i]@.len(),
    decreases sets.len() - i,
{
    if i < sets.len() {
        assert(sets.take(i + 1).drop_last() =~= sets.take(i));
        lemma_count_lines_prefix(sets, i + 1);
    } else {
        assert(sets.take(i) =~= sets);
    }
}

/// The analysis of test entry `ti`.
fn analyze_test(results: &RawBatchCoverage, ti: usize) -> (analysis: TestCoverageAnalysis)
    requires
        ti < results.names().len(),
        count_lines(results.values()[ti as int].values()) <= u32::MAX,
    ensures
        is_test_analysis(*results, results.names()[ti as int], analysis),
{
    let files = results.value_at(ti);
    let file_count = files.len();
    let ghost test = results.names()[ti as int];
    let ghost sets = files.values();
    let mut total: u32 = 0;
    let mut unique: u32 = 0;
    let mut out: NameMap<FileCoverageAnalysis> = NameMap::new();
    proof {
        assert(sets.take(0) =~= Seq::<LineSet>::empty());
    }
    let mut fi: usize = 0;
    while fi < file_count
        invariant
            fi <= file_count,
            file_count == files.names().len(),
            file_count == sets.len(),
            files.names().no_duplicates(),
            results.names().no_duplicates(),
            ti < results.names().len(),
            *files == results.values()[ti as int],
            test == results.names()[ti as int],
            sets == files.values(),
            count_lines(sets) <= u32::MAX,
            out.names().no_duplicates(),
            out.names() == covered_files(*files, fi as int),
            forall|f: Seq<char>|
                out.names().contains(f) <==> (exists|j: int|
                    0 <= j < fi && files.names()[j] == f && sets[j]@.len() > 0),
            forall|f: Seq<char>| #[trigger]
                out@.contains_key(f) ==> is_file_analysis(*results, test, f, out@[f]),
            total == sum_total(out.values()),
            total == count_lines(sets.take(fi as int)),
            unique == sum_unique(out.values()),
            unique <= total,
        decreases file_count - fi,
    {
        let lines = files.value_at(fi);
        proof {
            lemma_count_lines_prefix(sets, fi as int);
            lemma_count_lines_prefix(sets, fi + 1);
        }
        if !lines.is_empty() {
            let file = files.name_at(fi).clone();
            let entry = analyze_file(results, ti, fi);
            let ghost before = out;
            proof {
                lemma_unique_at_most_total(*results, test, file@);
                assert(!before.names().contains(file@)) by {
                    if before.names().contains(file@) {
                        let j = choose|j: int|
                            0 <= j < fi && files.names()[j] == file@ && sets[j]@.len() > 0;
                        assert(files.names()[j] == files.names()[fi as int]);
                    }
                }
            }
            total = total + entry.total_covered_lines;
            unique = unique + entry.unique_covered_lines;
            out.insert(file, entry);
            proof {
                assert(out.values().drop_last() =~= before.values());
                assert forall|f: Seq<char>|
                    out.names().contains(f) <==> (exists|j: int|
                        0 <= j < fi + 1 && files.names()[j] == f && sets[j]@.len() > 0) by {
                    vstd::seq_lib::lemma_seq_contains_after_push(before.names(), file@, f);
                    if before.names().contains(f) {
                        let j = choose|j: int|
                            0 <= j < fi && files.names()[j] == f && sets[j]@.len() > 0;
                        assert(0 <= j < fi + 1 && files.names()[j] == f && sets[j]@.len() > 0);
                    }
                    if f == file@ {
                        assert(files.names()[fi as int] == f && sets[fi as int]@.len() > 0);
                    }
                }
                assert forall|f: Seq<char>| #[trigger] out@.contains_key(f) implies is_file_analysis(
                    *results,
                    test,
                    f,
                    out@[f],
                ) by {
                    if f != file@ {
                        assert(before@.contains_key(f));
                    }
                }
            }
        } else {
            proof {
                assert forall|f: Seq<char>|
                    out.names().contains(f) <==> (exists|j: int|
                        0 <= j < fi + 1 && files.names()[j] == f && sets[j]@.len() > 0) by {
                    if out.names().contains(f) {
                        let j = choose|j: int|
                            0 <= j < fi && files.names()[j] == f && sets[j]@.len() > 0;
                        assert(0 <= j < fi + 1 && files.names()[j] == f && sets[j]@.len() > 0);
                    }
                }
            }
        }
        fi += 1;
    }
    proof {
        results.lemma_entry(ti as int);
        assert forall|f: Seq<char>| #[trigger]
            out@.contains_key(f) <==> total_covered(*results, test, f) > 0 by {
            lemma_lines_of_entry(*results, ti as int, f);
            if out.names().contains(f) {
                let j = choose|j: int|
                    0 <= j < file_count && files.names()[j] == f && sets[j]@.len() > 0;
                files.lemma_entry(j);
            }
            if total_covered(*results, test, f) > 0 {
                assert(files@.contains_key(f));
                let j = files.names().index_of(f);
                assert(files.names()[j] == f);
                files.lemma_entry(j);
                assert(0 <= j < file_count && files.names()[j] == f && sets[j]@.len() > 0);
            }
        }
    }
    TestCoverageAnalysis { total_covered_lines: total, unique_covered_lines: unique, files: out }
}

/// Whether every test of the batch covers few enough lines for the counters
/// of its analysis.
pub fn within_count_limit(results: &RawBatchCoverage) -> (fits: bool)
    ensures
        fits == counts_fit(*results),
{
    let n = results.len();
    let mut ti: usize = 0;
    while ti < n
        invariant
            ti <= n,
            n == results.values().len(),
            n == results.names().len(),
            forall|i: int|
                0 <= i < ti ==> count_lines((#[trigger] results.values()[i]).values())
                    <= u32::MAX,
        decreases n - ti,
    {
        let files = results.value_at(ti);
        let file_count = files.len();
        let ghost sets = files.values();
        let mut total: u32 = 0;
        let mut fi: usize = 0;
        proof {
            assert(sets.take(0) =~= Seq::<LineSet>::empty());
        }
        while fi < file_count
            invariant
                fi <= file_count,
                ti < n,
                n == results.values().len(),
                file_count == sets.len(),
                file_count == files.names().len(),
                sets == files.values(),
                *files == results.values()[ti as int],
                total == count_lines(sets.take(fi as int)),
            decreases file_count - fi,
        {
            let count = files.value_at(fi).len();
            proof {
                lemma_count_lines_prefix(sets, fi as int);
                lemma_count_lines_prefix(sets, fi + 1);
            }
            if count > (u32::MAX - total) as usize {
                assert(count_lines(results.values()[ti as int].values()) > u32::MAX);
                return false;
            }
            total = total + count as u32;
            fi += 1;
        }
        proof {
            assert(sets.take(file_count as int) =~= sets);
        }
        ti += 1;
    }
    true
}

/// Analyzes coverage to find the lines that each test covers alone.
///
/// The result holds the tests of the batch in their order. The analysis of a
/// test lists the files of which it covers a line, and for each of them how
/// many lines it covers, how many of them no other test covers, and which.
pub fn analyze_test_coverage(results: &RawBatchCoverage) -> (analysis: NameMap<
    TestCoverageAnalysis,
>)
    requires
        counts_fit(*results),
    ensures
        analysis.names() == results.names(),
        analysis.values().len() == results.names().len(),
        forall|i: int|
            0 <= i < results.names().len() ==> is_test_analysis(
                *results,
                results.names()[i],
                #[trigger] analysis.values()[i],
            ),
{
    let n = results.len();
    let mut analysis: NameMap<TestCoverageAnalysis> = NameMap::new();
    let mut ti: usize = 0;
    while ti < n
        invariant
            ti <= n,
            n == results.names().len(),
            n == results.values().len(),
            counts_fit(*results),
            results.names().no_duplicates(),
            analysis.names() == results.names().take(ti as int),
            analysis.values().len() == ti,
            forall|i: int|
                0 <= i < ti ==> is_test_analysis(
                    *results,
                    results.names()[i],
                    #[trigger] analysis.values()[i],
                ),
        decreases n - ti,
    {
        let name = results.name_at(ti).clone();
        let entry = analyze_test(results, ti);
        let ghost before = analysis;
        proof {
            assert(!before.names().contains(name@)) by {
                if before.names().contains(name@) {
                    let j = choose|j: int| 0 <= j < ti && before.names()[j] == name@;
                    assert(results.names()[j] == results.names()[ti as int]);
                }
            }
        }
        analysis.insert(name, entry);
        proof {
            assert(analysis.names() =~= results.names().take(ti + 1));
        }
        ti += 1;
    }
    proof {
        assert(results.names().take(n as int) =~= results.names());
    }
    analysis
}

/// The counters of an analysis: no file and no test has more unique lines
/// than covered lines.
pub proof fn lemma_analysis_unique_at_most_total(
    batch: RawBatchCoverage,
    test: Seq<char>,
    analysis: TestCoverageAnalysis,
)
    requires
        is_test_analysis(batch, test, analysis),
    ensures
        analysis.unique_covered_lines <= analysis.total_covered_lines,
        forall|i: int|
            0 <= i < analysis.files.values().len() ==> (#[trigger] analysis.files.values()[i]).unique_covered_lines
                <= analysis.files.values()[i].total_covered_lines,
{
    let values = analysis.files.values();
    analysis.files.lemma_same_len();
    assert forall|i: int| 0 <= i < values.len() implies (#[trigger] values[i]).unique_covered_lines
        <= values[i].total_covered_lines by {
        analysis.files.lemma_entry(i);
        let file = analysis.files.names()[i];
        assert(analysis.files@.contains_key(file));
        lemma_unique_at_most_total(batch, test, file);
    }
    lemma_sums_ordered(values);
}

/// Where every file has at most as many unique lines as covered lines, so
/// have the sums.
proof fn lemma_sums_ordered(files: Seq<FileCoverageAnalysis>)
    requires
        forall|i: int|
            0 <= i < files.len() ==> (#[trigger] files[i]).unique_covered_lines
                <= files[i].total_covered_lines,
    ensures
        sum_unique(files) <= sum_total(files),
    decreases files.len(),
{
    if files.len() > 0 {
        let front = files.drop_last();
        assert forall|i: int| 0 <= i < front.len() implies (#[trigger] front[i]).unique_covered_lines
            <= front[i].total_covered_lines by {
            assert(front[i] == files[i]);
        }
        lemma_sums_ordered(front);
        assert(files.last() == files[files.len() - 1]);
    }
}

/// The coverage of a batch as a map from test name to file path to lines.
pub open spec fn batch_view(batch: RawBatchCoverage) -> Map<Seq<char>, Map<Seq<char>, Set<u64>>> {
    batch@.map_values(
        |files: FileCoverageSet| files@.map_values(|lines: crate::types::lines::LineSet| lines@),
    )
}

/// What an analysis says depends on what the tests cover alone, not on the
/// order in which their coverage came in: two batches with the same
/// coverage give every test the same lines, and the same unique lines.
pub proof fn lemma_order_does_not_matter(
    first: RawBatchCoverage,
    second: RawBatchCoverage,
    test: Seq<char>,
    file: Seq<char>,
)
    requires
        batch_view(first) == batch_view(second),
    ensures
        lines_of(first, test, file) == lines_of(second, test, file),
        unique_lines(first, test, file) == unique_lines(second, test, file),
        total_covered(first, test, file) == total_covered(second, test, file),
        unique_covered(first, test, file) == unique_covered(second, test, file),
{
    assert forall|t: Seq<char>, f: Seq<char>| lines_of(first, t, f) == lines_of(second, t, f) by {
        lemma_lines_of_view(first, t, f);
        lemma_lines_of_view(second, t, f);
    }
    assert(unique_lines(first, test, file) =~= unique_lines(second, test, file)) by {
        assert forall|line: u64| covered_by_other(first, test, file, line) <==> covered_by_other(
            second,
            test,
            file,
            line,
        ) by {
            if covered_by_other(first, test, file, line) {
                let other = choose|other: Seq<char>|
                    other != test && #[trigger] lines_of(first, other, file).contains(line);
                assert(lines_of(second, other, file).contains(line));
            }
            if covered_by_other(second, test, file, line) {
                let other = choose|other: Seq<char>|
                    other != test && #[trigger] lines_of(second, other, file).contains(line);
                assert(lines_of(first, other, file).contains(line));
            }
        }
    }
}

/// The lines of a test in a file, read off the view of the batch.
proof fn lemma_lines_of_view(batch: RawBatchCoverage, test: Seq<char>, file: Seq<char>)
    ensures
        lines_of(batch, test, file) == if batch_view(batch).contains_key(test) && batch_view(
            batch,
        )[test].contains_key(file) {
            batch_view(batch)[test][file]
        } else {
            Set::<u64>::empty()
        },
{
}

} // verus!
