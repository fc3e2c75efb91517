use isotarp::types::Error;
use isotarp::utils::pipeline::{EntryKind, ListedEntry};
use isotarp::utils::plan::FsStep;
use isotarp::utils::target_symlink::{
    judge_step, prepare_target_dir, prepare_target_dirs, with_path_context, MasterListing,
    StepResult,
};

fn dir(path: &str) -> FsStep {
    FsStep::CreateDirAll { path: path.to_string() }
}

fn file(path: &str) -> ListedEntry {
    ListedEntry { path: path.to_string(), kind: EntryKind::File }
}

const TARGET: &str = "/w/.isotarp-artifacts/tests/test_foo/tarpaulin-target";

fn bare_steps(output: &str, target: &str) -> Vec<FsStep> {
    vec![
        dir(output),
        dir(target),
        dir(&format!("{}/debug", target)),
        FsStep::CreateEmptyFile { path: format!("{}/debug/.cargo-lock", target) },
        dir(&format!("{}/debug/.fingerprint", target)),
        dir(&format!("{}/debug/deps", target)),
        dir(&format!("{}/debug/build", target)),
        dir(&format!("{}/debug/incremental", target)),
    ]
}

#[test]
fn an_empty_master_gives_the_bare_structure() {
    let listing = MasterListing { deps: None, examples: None, build_src: None };
    let steps = prepare_target_dir("target", "tests::test_foo", "/w/out", &listing);
    assert_eq!(steps, bare_steps("/w/out/tests/test_foo", TARGET));
}

#[test]
fn artifacts_are_copied_and_reference_data_is_linked() {
    let listing = MasterListing {
        deps: Some(vec![
            file("demolib-1a2b"),
            ListedEntry { path: "sub".to_string(), kind: EntryKind::Dir },
            file("libdep.rlib"),
        ]),
        examples: Some(Vec::new()),
        build_src: Some(vec![file("gen/out.rs")]),
    };
    let steps = prepare_target_dir("target", "tests::test_foo", "/w/out", &listing);
    let expected = vec![
        dir("/w/out/tests/test_foo"),
        dir(TARGET),
        dir(&format!("{}/debug", TARGET)),
        FsStep::CreateEmptyFile { path: format!("{}/debug/.cargo-lock", TARGET) },
        dir(&format!("{}/debug/.fingerprint", TARGET)),
        dir(&format!("{}/debug/deps", TARGET)),
        FsStep::CopyFile {
            from: "target/debug/deps/demolib-1a2b".to_string(),
            to: format!("{}/debug/deps/demolib-1a2b", TARGET),
        },
        FsStep::CopyFile {
            from: "target/debug/deps/libdep.rlib".to_string(),
            to: format!("{}/debug/deps/libdep.rlib", TARGET),
        },
        dir(&format!("{}/debug/build", TARGET)),
        dir(&format!("{}/debug/incremental", TARGET)),
        dir(&format!("{}/debug/examples", TARGET)),
        dir(&format!("{}/debug/build/src", TARGET)),
        dir(&format!("{}/debug/build/src/gen", TARGET)),
        FsStep::LinkFile {
            from: "target/debug/build/src/gen/out.rs".to_string(),
            to: format!("{}/debug/build/src/gen/out.rs", TARGET),
        },
    ];
    assert_eq!(steps, expected);
}

#[test]
fn every_test_gets_a_directory_of_its_own() {
    let listing = MasterListing { deps: Some(vec![file("bin")]), examples: None, build_src: None };
    let names = vec!["a".to_string(), "m::b".to_string()];
    let plan = prepare_target_dirs("target", &names, "/w/out", &listing);
    assert_eq!(
        plan.target_dirs,
        vec![
            "/w/.isotarp-artifacts/a/tarpaulin-target".to_string(),
            "/w/.isotarp-artifacts/m/b/tarpaulin-target".to_string(),
        ]
    );
    assert_eq!(plan.steps[0], dir("/w/.isotarp-artifacts"));
    assert_eq!(plan.steps.len(), 1 + 2 * 9);
    let mut expected = vec![dir("/w/.isotarp-artifacts")];
    expected.extend(prepare_target_dir("target", "a", "/w/out", &listing));
    expected.extend(prepare_target_dir("target", "m::b", "/w/out", &listing));
    assert_eq!(plan.steps, expected);
    assert_ne!(plan.target_dirs[0], plan.target_dirs[1]);

    let none = prepare_target_dirs("target", &Vec::new(), "/w/out", &listing);
    assert_eq!(none.steps, vec![dir("/w/.isotarp-artifacts")]);
    assert!(none.target_dirs.is_empty());
}

#[test]
fn failures_name_the_path() {
    assert_eq!(
        with_path_context("Permission denied", "/w/x"),
        Error::Io("Error processing path '/w/x': Permission denied".to_string())
    );
    let failed = StepResult::Failed { reason: "Permission denied".to_string() };
    assert_eq!(
        judge_step(&dir("/w/x"), &failed),
        Some(Error::Io("Error processing path '/w/x': Permission denied".to_string()))
    );
    let copy = FsStep::CopyFile { from: "/m/a".to_string(), to: "/t/a".to_string() };
    assert_eq!(
        judge_step(&copy, &failed),
        Some(Error::Io(
            "Error processing path 'Failed to copy from '/m/a' to '/t/a'': Permission denied"
                .to_string()
        ))
    );
    let link = FsStep::LinkFile { from: "/m/a".to_string(), to: "/t/a".to_string() };
    assert_eq!(
        judge_step(&link, &failed),
        Some(Error::Io(
            "Error processing path 'Failed to symlink from '/m/a' to '/t/a'': Permission denied"
                .to_string()
        ))
    );
    let rename = FsStep::Rename { from: "/s".to_string(), to: "/t".to_string() };
    assert_eq!(
        judge_step(&rename, &failed),
        Some(Error::Io(
            "Error processing path 'Failed to move from '/s' to '/t'': Permission denied".to_string()
        ))
    );
}

#[test]
fn what_is_in_place_already_is_no_failure() {
    let exists = StepResult::AlreadyExists;
    let copy = FsStep::CopyFile { from: "/m/a".to_string(), to: "/t/a".to_string() };
    let link = FsStep::LinkFile { from: "/m/a".to_string(), to: "/t/a".to_string() };
    let lock = FsStep::CreateEmptyFile { path: "/t/debug/.cargo-lock".to_string() };
    assert_eq!(judge_step(&copy, &exists), None);
    assert_eq!(judge_step(&link, &exists), None);
    assert_eq!(judge_step(&lock, &exists), None);
    assert_eq!(judge_step(&dir("/t"), &exists), None);
    assert_eq!(judge_step(&copy, &StepResult::Done), None);
    let rename = FsStep::Rename { from: "/s".to_string(), to: "/t".to_string() };
    assert_eq!(
        judge_step(&rename, &exists),
        Some(Error::Io(
            "Error processing path 'Failed to move from '/s' to '/t'': destination already exists"
                .to_string()
        ))
    );
    let remove = FsStep::RemoveDir { path: "/t".to_string() };
    assert_eq!(
        judge_step(&remove, &exists),
        Some(Error::Io("Error processing path '/t': destination already exists".to_string()))
    );
    assert_eq!(judge_step(&FsStep::RemoveDirAll { path: "/t".to_string() }, &StepResult::Done), None);
}
