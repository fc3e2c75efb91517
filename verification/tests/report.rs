use isotarp::types::{FileCoverageAnalysis, IsotarpAnalysis, NameMap, TestCoverageAnalysis};
use isotarp::utils::io::{sort_analysis, sort_file_analysis, sort_test_analysis};

fn file(total: u32, unique_lines: Vec<u64>) -> FileCoverageAnalysis {
    FileCoverageAnalysis {
        total_covered_lines: total,
        unique_covered_lines: unique_lines.len() as u32,
        unique_lines,
    }
}

fn test(files: Vec<(&str, FileCoverageAnalysis)>) -> TestCoverageAnalysis {
    let mut map = NameMap::new();
    let mut total = 0;
    let mut unique = 0;
    for (path, analysis) in files {
        total += analysis.total_covered_lines;
        unique += analysis.unique_covered_lines;
        map.insert(path.to_string(), analysis);
    }
    TestCoverageAnalysis { total_covered_lines: total, unique_covered_lines: unique, files: map }
}

#[test]
fn unique_lines_are_written_in_ascending_order() {
    let sorted = sort_file_analysis(file(9, vec![8, 2, 5]));
    assert_eq!(sorted.total_covered_lines, 9);
    assert_eq!(sorted.unique_covered_lines, 3);
    assert_eq!(sorted.unique_lines, vec![2, 5, 8]);
}

#[test]
fn files_are_written_in_ascending_order_of_their_paths() {
    let sorted = sort_test_analysis(test(vec![
        ("src/z.rs", file(3, vec![3, 1])),
        ("src/a.rs", file(2, vec![])),
        ("lib.rs", file(1, vec![7])),
    ]));
    assert_eq!(sorted.total_covered_lines, 6);
    assert_eq!(sorted.unique_covered_lines, 3);
    assert_eq!(sorted.files.len(), 3);
    assert_eq!(sorted.files.name_at(0), "lib.rs");
    assert_eq!(sorted.files.name_at(1), "src/a.rs");
    assert_eq!(sorted.files.name_at(2), "src/z.rs");
    assert_eq!(sorted.files.value_at(2).unique_lines, vec![1, 3]);
    assert_eq!(sorted.files.value_at(0), &file(1, vec![7]));
}

#[test]
fn the_same_analysis_is_written_the_same_way() {
    let mut one = NameMap::new();
    one.insert("tests::b".to_string(), test(vec![("y.rs", file(1, vec![4])), ("x.rs", file(2, vec![2, 1]))]));
    one.insert("tests::a".to_string(), test(vec![("x.rs", file(2, vec![]))]));
    one.insert("Tests::c".to_string(), test(vec![]));
    let mut other = NameMap::new();
    other.insert("Tests::c".to_string(), test(vec![]));
    other.insert("tests::a".to_string(), test(vec![("x.rs", file(2, vec![]))]));
    other.insert("tests::b".to_string(), test(vec![("x.rs", file(2, vec![1, 2])), ("y.rs", file(1, vec![4]))]));

    let first = sort_analysis(IsotarpAnalysis { package: "demolib".to_string(), tests: one });
    let second = sort_analysis(IsotarpAnalysis { package: "demolib".to_string(), tests: other });
    assert_eq!(first.package, "demolib");
    assert_eq!(format!("{:?}", first), format!("{:?}", second));

    assert_eq!(first.tests.len(), 3);
    assert_eq!(first.tests.name_at(0), "Tests::c");
    assert_eq!(first.tests.name_at(1), "tests::a");
    assert_eq!(first.tests.name_at(2), "tests::b");
    let b = first.tests.value_at(2);
    assert_eq!(b.files.name_at(0), "x.rs");
    assert_eq!(b.files.value_at(0).unique_lines, vec![1, 2]);
    assert_eq!(b.total_covered_lines, 3);
    assert_eq!(b.unique_covered_lines, 3);
}
