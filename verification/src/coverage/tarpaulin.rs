//! The boundary to the coverage executor: what it is asked, and what is
//! kept of its report.

use crate::text::{
    chars_of, concat2, concat4, concat5, contains_chars, contains_text, ends_with, has_substring, matches_at,
    string_of, texts,
};
use crate::utils::paths::{output_path, report_path, test_output_dir, test_report_path};
use crate::types::errors::{Error, ErrorKind, ErrorView};
use crate::types::lines::LineSet;
use crate::types::maps::NameMap;
use crate::types::models::{FileCoverageSet, LineStat, SourceFile, TarpaulinReport, Trace};
use vstd::prelude::*;
use vstd::string::*;

verus! {

/// The path components joined by `/`.
pub open spec fn joined_components(parts: Seq<String>) -> Seq<char>
    decreases parts.len(),
{
    if parts.len() == 0 {
        Seq::empty()
    } else if parts.len() == 1 {
        parts[0]@
    } else {
        joined_components(parts.drop_last()) + seq!['/'] + parts.last()@
    }
}

/// How often the line of a trace was executed.
pub open spec fn hits(trace: Trace) -> u64 {
    match trace.stats {
        LineStat::Line(n) => n,
    }
}

/// The lines of the traces that were executed at least once.
pub open spec fn hit_lines(traces: Seq<Trace>) -> Set<u64> {
    Set::new(
        |line: u64|
            exists|i: int|
                0 <= i < traces.len() && (#[trigger] traces[i]).line == line && hits(traces[i])
                    > 0,
    )
}

/// Whether a file of the report is kept: its path names the package and at
/// least one of its lines was executed.
pub open spec fn is_retained(file: SourceFile, package: Seq<char>) -> bool {
    has_substring(joined_components(file.path@), package) && hit_lines(file.traces@)
        != Set::<u64>::empty()
}

/// The covered lines of the retained files, by path. Of two files with the
/// same path the later one counts.
pub open spec fn extracted(files: Seq<SourceFile>, package: Seq<char>) -> Map<Seq<char>, Set<u64>>
    decreases files.len(),
{
    if files.len() == 0 {
        Map::empty()
    } else {
        let rest = extracted(files.drop_last(), package);
        let file = files.last();
        if is_retained(file, package) {
            rest.insert(joined_components(file.path@), hit_lines(file.traces@))
        } else {
            rest
        }
    }
}

/// The paths of the retained files, each once, in the order in which they
/// first occur.
pub open spec fn extracted_paths(files: Seq<SourceFile>, package: Seq<char>) -> Seq<Seq<char>>
    decreases files.len(),
{
    if files.len() == 0 {
        Seq::empty()
    } else {
        let rest = extracted_paths(files.drop_last(), package);
        let file = files.last();
        if is_retained(file, package) && !rest.contains(joined_components(file.path@)) {
            rest.push(joined_components(file.path@))
        } else {
            rest
        }
    }
}

/// The coverage of one test as a map from file path to the set of its lines.
pub open spec fn cover_view(files: FileCoverageSet) -> Map<Seq<char>, Set<u64>> {
    files@.map_values(|lines: LineSet| lines@)
}

/// The path components joined by `/`.
pub fn join_components(parts: &Vec<String>) -> (out: String)
    ensures
        out@ == joined_components(parts@),
{
    let mut out = String::new();
    let mut i: usize = 0;
    while i < parts.len()
        invariant
            i <= parts.len(),
            out@ == joined_components(parts@.take(i as int)),
        decreases parts.len() - i,
    {
        proof {
            reveal_strlit("/");
            assert("/"@ =~= seq!['/']);
            assert(parts@.take(i + 1).drop_last() =~= parts@.take(i as int));
            if i == 0 {
                assert(out@ + parts@[0]@ =~= parts@[0]@);
            }
        }
        if i > 0 {
            out.append("/");
        }
        out.append(parts[i].as_str());
        i += 1;
    }
    proof {
        assert(parts@.take(parts@.len() as int) =~= parts@);
    }
    out
}

/// The lines of the traces that were executed at least once.
pub fn covered_lines_of(traces: &Vec<Trace>) -> (out: LineSet)
    ensures
        out@ == hit_lines(traces@),
{
    let mut out = LineSet::new();
    let mut i: usize = 0;
    assert(out@ =~= hit_lines(traces@.take(0)));
    while i < traces.len()
        invariant
            i <= traces.len(),
            out@ == hit_lines(traces@.take(i as int)),
        decreases traces.len() - i,
    {
        let ghost before = out@;
        let ghost next = traces@.take(i + 1);
        let ghost prev = traces@.take(i as int);
        let trace = &traces[i];
        let LineStat::Line(count) = trace.stats;
        if count > 0 {
            out.insert(trace.line);
            proof {
                assert(out@ =~= hit_lines(next)) by {
                    assert forall|line: u64| out@.contains(line) <==> hit_lines(next).contains(
                        line,
                    ) by {
                        if before.contains(line) {
                            let k = choose|k: int|
                                0 <= k < prev.len() && (#[trigger] prev[k]).line == line && hits(
                                    prev[k],
                                ) > 0;
                            assert(next[k].line == line && hits(next[k]) > 0);
                        }
                        if line == trace.line {
                            assert(next[i as int].line == line && hits(next[i as int]) > 0);
                        }
                        if hit_lines(next).contains(line) {
                            let k = choose|k: int|
                                0 <= k < next.len() && (#[trigger] next[k]).line == line && hits(
                                    next[k],
                                ) > 0;
                            if k < i {
                                assert(prev[k].line == line && hits(prev[k]) > 0);
                            }
                        }
                    }
                }
            }
        } else {
            proof {
                assert(out@ =~= hit_lines(next)) by {
                    assert forall|line: u64| out@.contains(line) <==> hit_lines(next).contains(
                        line,
                    ) by {
                        if before.contains(line) {
                            let k = choose|k: int|
                                0 <= k < prev.len() && (#[trigger] prev[k]).line == line && hits(
                                    prev[k],
                                ) > 0;
                            assert(next[k].line == line && hits(next[k]) > 0);
                        }
                        if hit_lines(next).contains(line) {
                            let k = choose|k: int|
                                0 <= k < next.len() && (#[trigger] next[k]).line == line && hits(
                                    next[k],
                                ) > 0;
                            assert(prev[k].line == line && hits(prev[k]) > 0);
                        }
                    }
                }
            }
        }
        i += 1;
    }
    proof {
        assert(traces@.take(traces@.len() as int) =~= traces@);
    }
    out
}

/// Extracts the covered lines from a coverage report: for each file whose
/// path names the package, the lines that were executed at least once.
/// Files without such a line are left out.
pub fn extract_covered_lines(report: &TarpaulinReport, package_name: &str) -> (covered:
    FileCoverageSet)
    ensures
        cover_view(covered) == extracted(report.files@, package_name@),
        covered.names() == extracted_paths(report.files@, package_name@),
{
    let mut covered: FileCoverageSet = NameMap::new();
    let mut i: usize = 0;
    assert(cover_view(covered) =~= extracted(report.files@.take(0), package_name@));
    while i < report.files.len()
        invariant
            i <= report.files.len(),
            cover_view(covered) == extracted(report.files@.take(i as int), package_name@),
            covered.names() == extracted_paths(report.files@.take(i as int), package_name@),
        decreases report.files.len() - i,
    {
        let file = &report.files[i];
        let ghost before = covered;
        proof {
            assert(report.files@.take(i + 1).drop_last() =~= report.files@.take(i as int));
        }
        let path_str = join_components(&file.path);
        if contains_text(path_str.as_str(), package_name) {
            let lines = covered_lines_of(&file.traces);
            if !lines.is_empty() {
                covered.insert(path_str, lines);
                proof {
                    assert(cover_view(covered) =~= cover_view(before).insert(path_str@, lines@));
                }
            }
        }
        i += 1;
    }
    proof {
        assert(report.files@.take(report.files@.len() as int) =~= report.files@);
    }
    covered
}

/// The arguments with which the build tool runs the coverage executor for
/// one test.
pub open spec fn executor_args(
    package: Seq<char>,
    test: Seq<char>,
    output_dir: Seq<char>,
    target_dir: Seq<char>,
    skip_clean: bool,
) -> Seq<Seq<char>> {
    seq![
        "tarpaulin"@,
        "-p"@,
        package,
        "--no-fail-fast"@,
        if skip_clean {
            "--skip-clean"@
        } else {
            "--force-clean"@
        },
        "--target-dir"@,
        target_dir,
        "-o"@,
        "Json"@,
        "--output-dir"@,
        output_path(output_dir, test),
        "--"@,
        test,
    ]
}

/// The arguments with which the build tool runs the coverage executor for
/// one test: the package, whether the executor may skip cleaning its cache,
/// the cache directory, the directory for the report, and the test.
pub fn tarpaulin_args(
    package_name: &str,
    test_name: &str,
    output_dir: &str,
    target_dir: &str,
    skip_clean: bool,
) -> (args: Vec<String>)
    ensures
        texts(args@) == executor_args(
            package_name@,
            test_name@,
            output_dir@,
            target_dir@,
            skip_clean,
        ),
{
    let mut args: Vec<String> = Vec::new();
    args.push("tarpaulin".to_owned());
    args.push("-p".to_owned());
    args.push(package_name.to_owned());
    args.push("--no-fail-fast".to_owned());
    if skip_clean {
        args.push("--skip-clean".to_owned());
    } else {
        args.push("--force-clean".to_owned());
    }
    args.push("--target-dir".to_owned());
    args.push(target_dir.to_owned());
    args.push("-o".to_owned());
    args.push("Json".to_owned());
    args.push("--output-dir".to_owned());
    args.push(test_output_dir(output_dir, test_name));
    args.push("--".to_owned());
    args.push(test_name.to_owned());
    assert(texts(args@) =~= executor_args(
        package_name@,
        test_name@,
        output_dir@,
        target_dir@,
        skip_clean,
    ));
    args
}

/// What came of running the coverage executor for one test.
#[derive(Debug)]
pub enum TestRun {
    /// The directory for the test's report could not be created.
    OutputDirFailed { reason: String },
    /// The executor could not be started.
    SpawnFailed { reason: String },
    /// The executor ran and ended unsuccessfully.
    Failed { status: String, stderr: String },
    /// The executor ended successfully, but its report could not be read.
    ReportUnreadable { reason: String },
    /// The executor ended successfully, but what it left is no coverage report.
    ReportMalformed { reason: String },
    /// The executor ended successfully and left this report.
    Completed { report: TarpaulinReport },
}

/// The failure that a test run stands for, if it is one.
pub open spec fn run_failure(test: Seq<char>, output_dir: Seq<char>, run: TestRun) -> Option<
    ErrorView,
> {
    match run {
        TestRun::OutputDirFailed { reason } => Some(
            ErrorView {
                kind: ErrorKind::Io,
                detail: "Failed to create output directory '"@ + output_path(output_dir, test)
                    + "': "@ + reason@,
            },
        ),
        TestRun::SpawnFailed { reason } => Some(
            ErrorView {
                kind: ErrorKind::CommandFailed,
                detail: "Failed to execute cargo command: "@ + reason@,
            },
        ),
        TestRun::Failed { status, stderr } => Some(
            ErrorView {
                kind: ErrorKind::TarpaulinFailed,
                detail: "Tarpaulin failed for test '"@ + test + "' with status: "@ + status@
                    + "\nStderr: "@ + stderr@,
            },
        ),
        TestRun::ReportUnreadable { reason } => Some(
            ErrorView {
                kind: ErrorKind::Io,
                detail: "Failed to read tarpaulin report '"@ + report_path(output_dir, test)
                    + "': "@ + reason@,
            },
        ),
        TestRun::ReportMalformed { reason } => Some(
            ErrorView { kind: ErrorKind::Json, detail: reason@ },
        ),
        TestRun::Completed { report } => None,
    }
}

/// Turns what came of running the executor for one test into the test's
/// coverage, or into the error that ends the batch.
///
/// A run that completed gives the covered lines of its report. Every other
/// run gives an error of the kind that its stage calls for, whose text names
/// the test, the status or the path involved.
pub fn run_isolated_test_coverage(
    package_name: &str,
    test_name: &str,
    output_dir: &str,
    run: &TestRun,
) -> (result: Result<FileCoverageSet, Error>)
    ensures
        match run_failure(test_name@, output_dir@, *run) {
            Some(failure) => result is Err && result->Err_0@ == failure,
            None => result is Ok && run is Completed && cover_view(result->Ok_0) == extracted(
                run->report.files@,
                package_name@,
            ) && result->Ok_0.names() == extracted_paths(run->report.files@, package_name@),
        },
{
    match run {
        TestRun::OutputDirFailed { reason } => {
            let dir = test_output_dir(output_dir, test_name);
            Err(
                Error::Io(
                    concat4(
                        "Failed to create output directory '",
                        dir.as_str(),
                        "': ",
                        reason.as_str(),
                    ),
                ),
            )
        },
        TestRun::SpawnFailed { reason } => Err(
            Error::CommandFailed(concat2("Failed to execute cargo command: ", reason.as_str())),
        ),
        TestRun::Failed { status, stderr } => {
            let head = concat5(
                "Tarpaulin failed for test '",
                test_name,
                "' with status: ",
                status.as_str(),
                "\nStderr: ",
            );
            Err(Error::TarpaulinFailed(concat2(head.as_str(), stderr.as_str())))
        },
        TestRun::ReportUnreadable { reason } => {
            let path = test_report_path(output_dir, test_name);
            Err(
                Error::Io(
                    concat4(
                        "Failed to read tarpaulin report '",
                        path.as_str(),
                        "': ",
                        reason.as_str(),
                    ),
                ),
            )
        },
        TestRun::ReportMalformed { reason } => Err(Error::Json(reason.clone())),
        TestRun::Completed { report } => Ok(extract_covered_lines(report, package_name)),
    }
}

/// Whether `char::is_whitespace` holds of the character.
pub uninterp spec fn is_whitespace(c: char) -> bool;

/// `char::is_whitespace`: whether the character has the Unicode property
/// of white space. The result is named by [`is_whitespace`]; nothing more
/// is claimed.
#[verifier::external_body]
fn char_is_whitespace(c: char) -> (r: bool)
    ensures
        r == is_whitespace(c),
{
    c.is_whitespace()
}

/// `s` without the white space at its end.
pub open spec fn trim_end(s: Seq<char>) -> Seq<char>
    decreases s.len(),
{
    if s.len() > 0 && is_whitespace(s.last()) {
        trim_end(s.drop_last())
    } else {
        s
    }
}

/// `s` without the white space at its start.
pub open spec fn trim_start(s: Seq<char>) -> Seq<char>
    decreases s.len(),
{
    if s.len() > 0 && is_whitespace(s[0]) {
        trim_start(s.skip(1))
    } else {
        s
    }
}

/// `s` without the white space at its start and at its end.
pub open spec fn trimmed(s: Seq<char>) -> Seq<char> {
    trim_end(trim_start(s))
}

/// `s` without the repetitions of `pat` at its end.
pub open spec fn strip_all(s: Seq<char>, pat: Seq<char>) -> Seq<char>
    decreases s.len(),
{
    if pat.len() > 0 && ends_with(s, pat) {
        strip_all(s.take(s.len() - pat.len()), pat)
    } else {
        s
    }
}

/// The mark that follows the name of a test in the listing.
pub open spec fn test_mark() -> Seq<char> {
    seq![':', ' ', 't', 'e', 's', 't']
}

/// The index of the first line feed of `s` at or after `from`, or the
/// length of `s` where there is none.
pub open spec fn first_newline(s: Seq<char>, from: int) -> int
    decreases s.len() - from,
{
    if from < 0 || from >= s.len() {
        s.len() as int
    } else if s[from] == '\n' {
        from
    } else {
        first_newline(s, from + 1)
    }
}

/// The line of `s` that starts at `from`, without its line ending: a line
/// feed, or a carriage return and a line feed.
pub open spec fn line_at(s: Seq<char>, from: int) -> Seq<char> {
    let end = first_newline(s, from);
    let raw = s.subrange(from, end);
    if end < s.len() && raw.len() > 0 && raw.last() == '\r' {
        raw.drop_last()
    } else {
        raw
    }
}

/// Where the line after the one that starts at `from` starts.
pub open spec fn next_line(s: Seq<char>, from: int) -> int {
    if first_newline(s, from) < from {
        from + 1
    } else {
        first_newline(s, from) + 1
    }
}

/// The name of the test that a line of the listing names.
pub open spec fn test_entry(line: Seq<char>) -> Seq<char> {
    strip_all(trimmed(line), test_mark())
}

/// The names of the tests that the lines of `s` from `from` on list: one
/// for each line that holds the mark.
pub open spec fn listed_tests(s: Seq<char>, from: int) -> Seq<Seq<char>>
    decreases s.len() - from,
{
    if from < 0 || from >= s.len() {
        Seq::empty()
    } else {
        let line = line_at(s, from);
        let next = next_line(s, from);
        let rest = if from < next <= s.len() {
            listed_tests(s, next)
        } else {
            Seq::empty()
        };
        if has_substring(line, test_mark()) {
            seq![test_entry(line)] + rest
        } else {
            rest
        }
    }
}

/// The first line feed lies between the start of the search and the end.
proof fn lemma_first_newline(s: Seq<char>, from: int)
    requires
        0 <= from <= s.len(),
    ensures
        from <= first_newline(s, from) <= s.len(),
        first_newline(s, from) < s.len() ==> s[first_newline(s, from)] == '\n',
        forall|k: int| from <= k < first_newline(s, from) ==> s[k] != '\n',
    decreases s.len() - from,
{
    if from < s.len() && s[from] != '\n' {
        lemma_first_newline(s, from + 1);
    }
}

/// A copy of `chars[from..to]`.
fn slice_of(chars: &Vec<char>, from: usize, to: usize) -> (out: Vec<char>)
    requires
        from <= to <= chars.len(),
    ensures
        out@ == chars@.subrange(from as int, to as int),
{
    let mut out: Vec<char> = Vec::new();
    let mut i: usize = from;
    while i < to
        invariant
            from <= i <= to <= chars.len(),
            out@ == chars@.subrange(from as int, i as int),
        decreases to - i,
    {
        out.push(chars[i]);
        assert(chars@.subrange(from as int, i + 1) =~= chars@.subrange(from as int, i as int).push(
            chars@[i as int],
        ));
        i += 1;
    }
    out
}

/// The name of the test that a line of the listing names: the line
/// without the white space around it and without the mark at its end.
pub fn test_entry_of(line: &Vec<char>) -> (name: String)
    ensures
        name@ == test_entry(line@),
{
    let mut start: usize = 0;
    assert(line@.skip(0) =~= line@);
    while start < line.len() && char_is_whitespace(line[start])
        invariant
            start <= line.len(),
            trim_start(line@.skip(start as int)) == trim_start(line@),
        decreases line.len() - start,
    {
        assert(line@.skip(start as int).skip(1) =~= line@.skip(start + 1));
        start += 1;
    }
    let ghost front = line@.skip(start as int);
    assert(trim_start(line@) == front);
    let mut end: usize = line.len();
    assert(line@.subrange(start as int, end as int) =~= front);
    while end > start && char_is_whitespace(line[end - 1])
        invariant
            start <= end <= line.len(),
            trim_end(line@.subrange(start as int, end as int)) == trim_end(front),
        decreases end - start,
    {
        assert(line@.subrange(start as int, end as int).drop_last() =~= line@.subrange(
            start as int,
            end - 1,
        ));
        end -= 1;
    }
    let ghost core = line@.subrange(start as int, end as int);
    assert(trimmed(line@) == core);
    let mut mark: Vec<char> = Vec::new();
    mark.push(':');
    mark.push(' ');
    mark.push('t');
    mark.push('e');
    mark.push('s');
    mark.push('t');
    assert(mark@ =~= test_mark());
    let mut done: bool = false;
    while !done
        invariant
            start <= end <= line.len(),
            mark@ == test_mark(),
            strip_all(line@.subrange(start as int, end as int), test_mark()) == strip_all(
                core,
                test_mark(),
            ),
            done ==> strip_all(core, test_mark()) == line@.subrange(start as int, end as int),
        decreases end - start + if done { 0int } else { 1int },
    {
        let ghost cur = line@.subrange(start as int, end as int);
        if end - start >= 6 && matches_at(line, &mark, end - 6) {
            proof {
                assert(cur.subrange(cur.len() - 6, cur.len() as int) =~= line@.subrange(
                    end - 6,
                    end as int,
                ));
                assert(ends_with(cur, test_mark()));
                assert(cur.take(cur.len() - 6) =~= line@.subrange(start as int, end - 6));
            }
            end -= 6;
        } else {
            proof {
                if cur.len() >= 6 {
                    assert(cur.subrange(cur.len() - 6, cur.len() as int) =~= line@.subrange(
                        end - 6,
                        end as int,
                    ));
                }
                assert(!ends_with(cur, test_mark()));
            }
            done = true;
        }
    }
    string_of(line, start, end)
}

/// The names of the tests that the build tool lists: one for each line of
/// its output that holds the mark `: test`, the line taken without the
/// white space around it and without the mark at its end.
pub fn parse_test_list(output: &str) -> (tests: Vec<String>)
    ensures
        texts(tests@) == listed_tests(output@, 0),
{
    let chars = chars_of(output);
    let mut mark: Vec<char> = Vec::new();
    mark.push(':');
    mark.push(' ');
    mark.push('t');
    mark.push('e');
    mark.push('s');
    mark.push('t');
    assert(mark@ =~= test_mark());
    let mut tests: Vec<String> = Vec::new();
    let mut from: usize = 0;
    assert(texts(tests@) + listed_tests(chars@, 0) =~= listed_tests(chars@, 0));
    while from < chars.len()
        invariant
            from <= chars.len(),
            chars@ == output@,
            mark@ == test_mark(),
            texts(tests@) + listed_tests(chars@, from as int) == listed_tests(chars@, 0),
        decreases chars.len() - from,
    {
        let mut end: usize = from;
        while end < chars.len() && chars[end] != '\n'
            invariant
                from <= end <= chars.len(),
                first_newline(chars@, end as int) == first_newline(chars@, from as int),
            decreases chars.len() - end,
        {
            end += 1;
        }
        proof {
            lemma_first_newline(chars@, from as int);
            assert(first_newline(chars@, from as int) == end);
        }
        let mut line_end: usize = end;
        if end < chars.len() && end > from && chars[end - 1] == '\r' {
            line_end = end - 1;
        }
        let line = slice_of(&chars, from, line_end);
        proof {
            let raw = chars@.subrange(from as int, end as int);
            if end < chars.len() && raw.len() > 0 && raw.last() == '\r' {
                assert(raw.drop_last() =~= chars@.subrange(from as int, line_end as int));
            }
            assert(line@ == line_at(chars@, from as int));
        }
        let ghost before = texts(tests@);
        let ghost rest = if end < chars.len() {
            listed_tests(chars@, end + 1)
        } else {
            Seq::<Seq<char>>::empty()
        };
        if contains_chars(&line, &mark) {
            let name = test_entry_of(&line);
            proof {
                crate::text::lemma_texts_push(tests@, name);
                assert(before.push(name@) + rest =~= before + (seq![name@] + rest));
            }
            tests.push(name);
        }
        if end < chars.len() {
            from = end + 1;
        } else {
            from = end;
        }
    }
    proof {
        assert(texts(tests@) + Seq::<Seq<char>>::empty() =~= texts(tests@));
    }
    tests
}

/// The arguments with which the build tool lists the tests of a package.
pub open spec fn listing_args(package: Seq<char>) -> Seq<Seq<char>> {
    seq!["test"@, "-p"@, package, "--"@, "--quiet"@, "--list"@]
}

/// The arguments with which the build tool lists the tests of a package.
pub fn list_args(package_name: &str) -> (args: Vec<String>)
    ensures
        texts(args@) == listing_args(package_name@),
{
    let mut args: Vec<String> = Vec::new();
    args.push("test".to_owned());
    args.push("-p".to_owned());
    args.push(package_name.to_owned());
    args.push("--".to_owned());
    args.push("--quiet".to_owned());
    args.push("--list".to_owned());
    assert(texts(args@) =~= listing_args(package_name@));
    args
}

/// What came of asking the build tool for the tests of a package.
#[derive(Debug)]
pub enum ListRun {
    /// The tool could not be started.
    SpawnFailed { reason: String },
    /// The tool ran and ended unsuccessfully.
    Failed { status: String, stderr: String },
    /// The tool ended successfully, but its output is no text.
    NotUtf8 { reason: String },
    /// The tool ended successfully with this output.
    Listed { output: String },
}

/// The failure that a listing stands for, if it is one.
pub open spec fn list_failure(run: ListRun) -> Option<ErrorView> {
    match run {
        ListRun::SpawnFailed { reason } => Some(
            ErrorView {
                kind: ErrorKind::CommandFailed,
                detail: "Failed to execute 'cargo test --list': "@ + reason@,
            },
        ),
        ListRun::Failed { status, stderr } => Some(
            ErrorView {
                kind: ErrorKind::CommandFailed,
                detail: "cargo test --list failed: "@ + status@ + "\nStderr: "@ + stderr@,
            },
        ),
        ListRun::NotUtf8 { reason } => Some(ErrorView { kind: ErrorKind::Utf8, detail: reason@ }),
        ListRun::Listed { output } => None,
    }
}

/// Get all test names from the package: the names that the output of the
/// build tool lists, in its order, or the error that the listing ended in.
pub fn list_tests(run: &ListRun) -> (result: Result<Vec<String>, Error>)
    ensures
        match list_failure(*run) {
            Some(failure) => result is Err && result->Err_0@ == failure,
            None => result is Ok && run is Listed && texts(result->Ok_0@) == listed_tests(
                run->output@,
                0,
            ),
        },
{
    match run {
        ListRun::SpawnFailed { reason } => Err(
            Error::CommandFailed(
                concat2("Failed to execute 'cargo test --list': ", reason.as_str()),
            ),
        ),
        ListRun::Failed { status, stderr } => Err(
            Error::CommandFailed(
                concat4(
                    "cargo test --list failed: ",
                    status.as_str(),
                    "\nStderr: ",
                    stderr.as_str(),
                ),
            ),
        ),
        ListRun::NotUtf8 { reason } => Err(Error::Utf8(reason.clone())),
        ListRun::Listed { output } => Ok(parse_test_list(output.as_str())),
    }
}

} // verus!
