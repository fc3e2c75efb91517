use isotarp::utils::paths::{
    artifacts_dir, artifacts_dir_under, join_path, test_name_to_path_segment, test_output_dir,
    test_report_path, test_target_dir,
};

#[test]
fn test_names_become_nested_directories() {
    assert_eq!(test_name_to_path_segment("module::submodule::test_name"), "module/submodule/test_name");
    assert_eq!(test_name_to_path_segment("plain"), "plain");
    assert_eq!(test_name_to_path_segment(""), "");
    assert_eq!(test_name_to_path_segment("a:b"), "a:b");
    assert_eq!(test_name_to_path_segment("a:::b"), "a/:b");
    assert_eq!(test_name_to_path_segment("a::::b"), "a//b");
    assert_eq!(test_name_to_path_segment("::"), "/");
    assert_eq!(test_name_to_path_segment("a:"), "a:");
}

#[test]
fn joining_puts_one_separator_between() {
    assert_eq!(join_path("out", "a/b"), "out/a/b");
    assert_eq!(join_path("out/", "a"), "out/a");
    assert_eq!(join_path("", "a"), "a");
    assert_eq!(join_path("out", "/abs"), "/abs");
    assert_eq!(join_path("out", ""), "out/");
    assert_eq!(join_path("/", "x"), "/x");
}

#[test]
fn joining_agrees_with_std_paths() {
    for (base, rel) in [("out", "a/b"), ("out/", "a"), ("", "a"), ("out", "/abs"), ("/", "x"), ("a/b", "c")] {
        let expected = std::path::Path::new(base).join(rel);
        assert_eq!(join_path(base, rel), expected.to_str().unwrap());
    }
}

#[test]
fn artifacts_are_a_hidden_sibling_of_the_output() {
    assert_eq!(artifacts_dir("/tmp/work/output"), "/tmp/work/.isotarp-artifacts");
    assert_eq!(artifacts_dir("isotarp-output"), ".isotarp-artifacts");
    assert_eq!(artifacts_dir("a/b"), "a/.isotarp-artifacts");
    assert_eq!(artifacts_dir("/"), ".isotarp-artifacts");
    assert_eq!(artifacts_dir(""), ".isotarp-artifacts");
    assert_eq!(artifacts_dir_under(Some("/x")), "/x/.isotarp-artifacts");
    assert_eq!(artifacts_dir_under(Some("")), ".isotarp-artifacts");
    assert_eq!(artifacts_dir_under(None), ".isotarp-artifacts");
}

#[test]
fn directories_of_a_test() {
    assert_eq!(test_output_dir("/w/out", "tests::test_foo"), "/w/out/tests/test_foo");
    assert_eq!(
        test_target_dir("/w/out", "tests::test_foo"),
        "/w/.isotarp-artifacts/tests/test_foo/tarpaulin-target"
    );
    assert_eq!(
        test_report_path("/w/out", "tests::test_foo"),
        "/w/out/tests/test_foo/tarpaulin-report.json"
    );
    assert_eq!(test_target_dir("out", "t"), ".isotarp-artifacts/t/tarpaulin-target");
}
