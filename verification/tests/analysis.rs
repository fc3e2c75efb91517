use isotarp::coverage::analysis::{analyze_test_coverage, within_count_limit};
use isotarp::types::{FileCoverageSet, LineSet, NameMap, RawBatchCoverage, TestCoverageAnalysis};

fn coverage(files: &[(&str, &[u64])]) -> FileCoverageSet {
    let mut out: FileCoverageSet = NameMap::new();
    for (path, lines) in files {
        out.insert(path.to_string(), LineSet::from_vec(&lines.to_vec()));
    }
    out
}

fn batch(tests: Vec<(&str, FileCoverageSet)>) -> RawBatchCoverage {
    let mut out: RawBatchCoverage = NameMap::new();
    for (name, files) in tests {
        out.insert(name.to_string(), files);
    }
    out
}

fn of<'a>(analysis: &'a NameMap<TestCoverageAnalysis>, test: &str) -> &'a TestCoverageAnalysis {
    analysis.get(&test.to_string()).unwrap()
}

#[test]
fn overlapping_tests_split_their_lines() {
    let results = batch(vec![
        ("t1", coverage(&[("a.rs", &[1, 2, 3])])),
        ("t2", coverage(&[("a.rs", &[3, 4, 5])])),
    ]);
    assert!(within_count_limit(&results));
    let analysis = analyze_test_coverage(&results);
    assert_eq!(analysis.len(), 2);

    let t1 = of(&analysis, "t1");
    assert_eq!(t1.total_covered_lines, 3);
    assert_eq!(t1.unique_covered_lines, 2);
    let a1 = t1.files.get(&"a.rs".to_string()).unwrap();
    assert_eq!(a1.total_covered_lines, 3);
    assert_eq!(a1.unique_covered_lines, 2);
    assert_eq!(a1.unique_lines, vec![1, 2]);

    let t2 = of(&analysis, "t2");
    assert_eq!(t2.total_covered_lines, 3);
    assert_eq!(t2.unique_covered_lines, 2);
    let a2 = t2.files.get(&"a.rs".to_string()).unwrap();
    assert_eq!(a2.total_covered_lines, 3);
    assert_eq!(a2.unique_covered_lines, 2);
    assert_eq!(a2.unique_lines, vec![4, 5]);
}

#[test]
fn test_without_coverage_leaves_the_other_unique() {
    let results = batch(vec![
        ("t1", coverage(&[("a.rs", &[1, 2, 3]), ("b.rs", &[10])])),
        ("t2", coverage(&[])),
    ]);
    let analysis = analyze_test_coverage(&results);

    let t1 = of(&analysis, "t1");
    assert_eq!(t1.total_covered_lines, 4);
    assert_eq!(t1.unique_covered_lines, 4);
    assert_eq!(t1.files.len(), 2);
    for i in 0..t1.files.len() {
        let file = t1.files.value_at(i);
        assert_eq!(file.unique_covered_lines, file.total_covered_lines);
    }

    let t2 = of(&analysis, "t2");
    assert_eq!(t2.total_covered_lines, 0);
    assert_eq!(t2.unique_covered_lines, 0);
    assert_eq!(t2.files.len(), 0);
}

#[test]
fn unique_never_exceeds_total() {
    let results = batch(vec![
        ("a", coverage(&[("x.rs", &[1, 2, 3, 4]), ("y.rs", &[7, 8])])),
        ("b", coverage(&[("x.rs", &[2, 4, 6]), ("z.rs", &[1])])),
        ("c", coverage(&[("y.rs", &[8, 9]), ("x.rs", &[4])])),
    ]);
    let analysis = analyze_test_coverage(&results);
    for t in 0..analysis.len() {
        let test = analysis.value_at(t);
        assert!(test.unique_covered_lines <= test.total_covered_lines);
        let mut total = 0;
        let mut unique = 0;
        for f in 0..test.files.len() {
            let file = test.files.value_at(f);
            assert!(file.unique_covered_lines <= file.total_covered_lines);
            assert_eq!(file.unique_lines.len() as u32, file.unique_covered_lines);
            total += file.total_covered_lines;
            unique += file.unique_covered_lines;
        }
        assert_eq!(total, test.total_covered_lines);
        assert_eq!(unique, test.unique_covered_lines);
    }
    let a = of(&analysis, "a");
    assert_eq!(a.total_covered_lines, 6);
    assert_eq!(a.unique_covered_lines, 3);
    assert_eq!(a.files.get(&"x.rs".to_string()).unwrap().unique_lines, vec![1, 3]);
    assert_eq!(a.files.get(&"y.rs".to_string()).unwrap().unique_lines, vec![7]);
    let b = of(&analysis, "b");
    assert_eq!(b.files.get(&"x.rs".to_string()).unwrap().unique_lines, vec![6]);
    assert_eq!(b.files.get(&"z.rs".to_string()).unwrap().unique_lines, vec![1]);
    let c = of(&analysis, "c");
    assert_eq!(c.files.get(&"y.rs".to_string()).unwrap().unique_lines, vec![9]);
    assert_eq!(c.files.get(&"x.rs".to_string()).unwrap().unique_lines, Vec::<u64>::new());
    assert_eq!(c.unique_covered_lines, 1);
    assert_eq!(c.total_covered_lines, 3);
}

#[test]
fn single_test_covers_everything_alone() {
    let results = batch(vec![("only", coverage(&[("a.rs", &[5, 1, 3]), ("b.rs", &[2])]))]);
    let analysis = analyze_test_coverage(&results);
    let only = of(&analysis, "only");
    assert_eq!(only.total_covered_lines, 4);
    assert_eq!(only.unique_covered_lines, 4);
    let a = only.files.get(&"a.rs".to_string()).unwrap();
    assert_eq!(a.unique_lines, vec![1, 3, 5]);
    assert_eq!(a.unique_covered_lines, a.total_covered_lines);
    let b = only.files.get(&"b.rs".to_string()).unwrap();
    assert_eq!(b.unique_covered_lines, b.total_covered_lines);
}

#[test]
fn identical_coverage_is_unique_to_neither() {
    let results = batch(vec![
        ("first", coverage(&[("a.rs", &[1, 2, 3])])),
        ("second", coverage(&[("a.rs", &[3, 2, 1])])),
    ]);
    let analysis = analyze_test_coverage(&results);
    for name in ["first", "second"] {
        let test = of(&analysis, name);
        let file = test.files.get(&"a.rs".to_string()).unwrap();
        assert_eq!(file.total_covered_lines, 3);
        assert_eq!(file.unique_covered_lines, 0);
        assert!(file.unique_lines.is_empty());
        assert_eq!(test.unique_covered_lines, 0);
    }
}

#[test]
fn files_without_lines_are_left_out() {
    let results = batch(vec![
        ("t1", coverage(&[("a.rs", &[]), ("b.rs", &[4])])),
        ("t2", coverage(&[("a.rs", &[4])])),
    ]);
    let analysis = analyze_test_coverage(&results);
    let t1 = of(&analysis, "t1");
    assert_eq!(t1.files.len(), 1);
    assert!(t1.files.get(&"a.rs".to_string()).is_none());
    assert_eq!(t1.files.get(&"b.rs".to_string()).unwrap().unique_lines, vec![4]);
    let t2 = of(&analysis, "t2");
    assert_eq!(t2.files.get(&"a.rs".to_string()).unwrap().unique_lines, vec![4]);
}

#[test]
fn empty_batch_has_empty_analysis() {
    let results: RawBatchCoverage = NameMap::new();
    assert!(within_count_limit(&results));
    let analysis = analyze_test_coverage(&results);
    assert_eq!(analysis.len(), 0);
}

#[test]
fn analysis_does_not_depend_on_completion_order() {
    let forward = batch(vec![
        ("t1", coverage(&[("a.rs", &[1, 2, 3])])),
        ("t2", coverage(&[("a.rs", &[3, 4, 5])])),
    ]);
    let backward = batch(vec![
        ("t2", coverage(&[("a.rs", &[5, 4, 3])])),
        ("t1", coverage(&[("a.rs", &[3, 2, 1])])),
    ]);
    let one = analyze_test_coverage(&forward);
    let other = analyze_test_coverage(&backward);
    for name in ["t1", "t2"] {
        let a = of(&one, name);
        let b = of(&other, name);
        assert_eq!(a.total_covered_lines, b.total_covered_lines);
        assert_eq!(a.unique_covered_lines, b.unique_covered_lines);
        assert_eq!(
            a.files.get(&"a.rs".to_string()).unwrap(),
            b.files.get(&"a.rs".to_string()).unwrap()
        );
    }
}

#[test]
fn line_sets_keep_each_line_once_in_order() {
    let mut lines = LineSet::new();
    assert!(lines.is_empty());
    assert!(lines.insert(7));
    assert!(lines.insert(3));
    assert!(!lines.insert(7));
    assert!(lines.insert(5));
    assert_eq!(lines.len(), 3);
    assert!(lines.contains(5));
    assert!(!lines.contains(4));
    assert_eq!(lines.to_vec(), vec![3, 5, 7]);
    assert_eq!(lines.clone().to_vec(), vec![3, 5, 7]);
}

#[test]
fn name_maps_replace_in_place_and_sort() {
    let mut map: NameMap<u32> = NameMap::new();
    map.insert("pear".to_string(), 1);
    map.insert("apple".to_string(), 2);
    map.insert("pear".to_string(), 3);
    assert_eq!(map.len(), 2);
    assert_eq!(map.name_at(0), "pear");
    assert_eq!(*map.value_at(0), 3);
    assert_eq!(map.find(&"apple".to_string()), Some(1));
    assert_eq!(map.find(&"plum".to_string()), None);
    assert_eq!(map.get(&"plum".to_string()), None);
    let sorted = map.into_sorted();
    assert_eq!(sorted.name_at(0), "apple");
    assert_eq!(sorted.name_at(1), "pear");
    assert_eq!(sorted.get(&"pear".to_string()), Some(&3));
    let entries = sorted.into_entries();
    assert_eq!(entries, vec![("apple".to_string(), 2), ("pear".to_string(), 3)]);
}
