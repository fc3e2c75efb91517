use isotarp::types::ErrorKind;
use isotarp::utils::pipeline::{
    carries_payload, copy_plan, setup_minimal_target_dir, EntryKind, ListedEntry, PipelinePhase, TargetPipeline,
    WorkerOutcome,
};
use isotarp::utils::plan::FsStep;

fn dir(path: &str) -> FsStep {
    FsStep::CreateDirAll { path: path.to_string() }
}

fn minimal(target: &str) -> Vec<FsStep> {
    vec![
        dir(&format!("{}/debug", target)),
        dir(&format!("{}/debug/.fingerprint", target)),
        dir(&format!("{}/debug/deps", target)),
        dir(&format!("{}/debug/build", target)),
        dir(&format!("{}/debug/incremental", target)),
        FsStep::CreateEmptyFile { path: format!("{}/debug/.cargo-lock", target) },
    ]
}

const SHARED: &str = "/w/.isotarp-artifacts/shared_target";
const STAGING: &str = "/w/.isotarp-artifacts/staging_target";

#[test]
fn minimal_structure_has_the_writable_directories_and_a_lock() {
    assert_eq!(setup_minimal_target_dir("/t"), minimal("/t"));
}

#[test]
fn test_pipeline_initialization() {
    let pipeline = TargetPipeline::new("/w/master", "/w/output");
    assert_eq!(pipeline.current_phase(), PipelinePhase::Idle);
    let mut expected = vec![dir("/w/.isotarp-artifacts"), dir(SHARED), dir(STAGING)];
    expected.extend(minimal(SHARED));
    assert_eq!(pipeline.setup_plan(), expected);
}

#[test]
fn test_pipeline_prepare_next() {
    let mut pipeline = TargetPipeline::new("/w/master", "/w/output");
    let order = pipeline.prepare_next("test_example").unwrap();
    assert!(!order.cancel_running);
    assert_eq!(order.test, "test_example");
    let mut expected = vec![FsStep::RemoveDirAll { path: STAGING.to_string() }, dir(STAGING)];
    expected.extend(minimal(STAGING));
    assert_eq!(order.reset, expected);
    assert_eq!(order.copy_from, "/w/master/debug/deps");
    assert_eq!(order.copy_to, format!("{}/debug/deps", STAGING));
    assert_eq!(pipeline.current_phase(), PipelinePhase::Preparing);
}

#[test]
fn a_second_preparation_cancels_the_first() {
    let mut pipeline = TargetPipeline::new("/w/master", "/w/output");
    assert!(!pipeline.prepare_next("one").unwrap().cancel_running);
    let order = pipeline.prepare_next("two").unwrap();
    assert!(order.cancel_running);
    assert_eq!(order.test, "two");
    assert_eq!(pipeline.current_phase(), PipelinePhase::Preparing);
}

#[test]
fn test_pipeline_get_ready_dir() {
    let mut pipeline = TargetPipeline::new("/w/master", "/w/output");
    pipeline.prepare_next("test_example").unwrap();
    let ready = pipeline.get_ready_target_dir(Some(WorkerOutcome::Completed)).unwrap();
    assert_eq!(ready.dir, SHARED);
    assert_eq!(
        ready.steps,
        vec![
            FsStep::RemoveDirAll { path: SHARED.to_string() },
            FsStep::Rename { from: STAGING.to_string(), to: SHARED.to_string() },
            dir(STAGING),
        ]
    );
    assert_eq!(pipeline.current_phase(), PipelinePhase::Swapped);
}

#[test]
fn the_first_test_gets_the_shared_directory_as_it_is() {
    let mut pipeline = TargetPipeline::new("/w/master", "/w/output");
    let ready = pipeline.get_ready_target_dir(None).unwrap();
    assert_eq!(ready.dir, SHARED);
    assert!(ready.steps.is_empty());
    assert_eq!(pipeline.current_phase(), PipelinePhase::Idle);
}

#[test]
fn a_failed_preparation_is_never_promoted() {
    for outcome in [
        Some(WorkerOutcome::Failed),
        Some(WorkerOutcome::Panicked),
        Some(WorkerOutcome::Stopped),
        None,
    ] {
        let mut pipeline = TargetPipeline::new("/w/master", "/w/output");
        pipeline.prepare_next("test_example").unwrap();
        let ready = pipeline.get_ready_target_dir(outcome).unwrap();
        assert_eq!(ready.dir, SHARED);
        assert!(ready.steps.is_empty());
        assert_eq!(pipeline.current_phase(), PipelinePhase::Idle);
        let again = pipeline.get_ready_target_dir(Some(WorkerOutcome::Completed)).unwrap();
        assert!(again.steps.is_empty());
    }
}

#[test]
fn test_pipeline_cleanup() {
    let mut pipeline = TargetPipeline::new("/w/master", "/w/output");
    pipeline.prepare_next("test_example").unwrap();
    let order = pipeline.cleanup();
    assert!(order.cancel_running);
    assert_eq!(
        order.steps,
        vec![
            FsStep::RemoveDirAll { path: SHARED.to_string() },
            FsStep::RemoveDirAll { path: STAGING.to_string() },
        ]
    );
    assert_eq!(pipeline.current_phase(), PipelinePhase::TornDown);

    let again = pipeline.cleanup();
    assert!(!again.cancel_running);
    assert!(again.steps.is_empty());
    assert_eq!(pipeline.current_phase(), PipelinePhase::TornDown);
}

#[test]
fn a_torn_down_pipeline_hands_out_nothing() {
    let mut pipeline = TargetPipeline::new("/w/master", "/w/output");
    pipeline.cleanup();
    let error = pipeline.get_ready_target_dir(Some(WorkerOutcome::Completed)).unwrap_err();
    assert_eq!(error.kind(), ErrorKind::Io);
    assert_eq!(error.message(), "IO error: target pipeline has been torn down");
    let error = pipeline.prepare_next("late").unwrap_err();
    assert_eq!(error.detail(), "target pipeline has been torn down");
    assert_eq!(pipeline.current_phase(), PipelinePhase::TornDown);
}

#[test]
fn test_pipeline_full_workflow() {
    let mut pipeline = TargetPipeline::new("/w/master", "/w/output");
    let test_names = ["test1", "test2", "test3"];
    pipeline.prepare_next(test_names[0]).unwrap();
    for i in 0..test_names.len() {
        let ready = pipeline.get_ready_target_dir(Some(WorkerOutcome::Completed)).unwrap();
        assert_eq!(ready.dir, SHARED);
        assert_eq!(ready.steps.len(), 3);
        assert_eq!(pipeline.current_phase(), PipelinePhase::Swapped);
        if i + 1 < test_names.len() {
            let order = pipeline.prepare_next(test_names[i + 1]).unwrap();
            assert!(!order.cancel_running);
            assert_eq!(order.test, test_names[i + 1]);
        }
    }
    let order = pipeline.cleanup();
    assert!(!order.cancel_running);
    assert_eq!(order.steps.len(), 2);
}

#[test]
fn stopping_gives_up_a_pending_preparation() {
    let mut pipeline = TargetPipeline::new("/w/master", "/w/output");
    assert!(!pipeline.stop_preparation());
    pipeline.prepare_next("one").unwrap();
    assert!(pipeline.stop_preparation());
    assert_eq!(pipeline.current_phase(), PipelinePhase::Idle);
    assert!(!pipeline.stop_preparation());
}

#[test]
fn only_regular_files_are_copied() {
    let listing = vec![
        ListedEntry { path: "test_binary1".to_string(), kind: EntryKind::File },
        ListedEntry { path: "nested".to_string(), kind: EntryKind::Dir },
        ListedEntry { path: "socket".to_string(), kind: EntryKind::Other },
        ListedEntry { path: "broken".to_string(), kind: EntryKind::Unreadable },
        ListedEntry { path: ".cargo-lock".to_string(), kind: EntryKind::File },
        ListedEntry { path: "sub/.cargo-lock".to_string(), kind: EntryKind::File },
        ListedEntry { path: "test_binary2".to_string(), kind: EntryKind::File },
    ];
    assert_eq!(
        copy_plan("/m/debug/deps", "/s/debug/deps", &listing),
        vec![
            FsStep::CopyFile {
                from: "/m/debug/deps/test_binary1".to_string(),
                to: "/s/debug/deps/test_binary1".to_string(),
            },
            FsStep::CopyFile {
                from: "/m/debug/deps/test_binary2".to_string(),
                to: "/s/debug/deps/test_binary2".to_string(),
            },
        ]
    );
    assert!(copy_plan("/m", "/s", &Vec::new()).is_empty());
}

#[test]
fn lock_markers_are_told_from_other_files() {
    for (path, payload) in [
        ("demo-1a2b", true),
        (".cargo-lock", false),
        ("a/.cargo-lock", false),
        ("/.cargo-lock", false),
        ("x.cargo-lock", true),
        (".cargo-lock2", true),
        (".cargo-loc", true),
        ("a/b.cargo-lock", true),
        ("", true),
    ] {
        let entry = ListedEntry { path: path.to_string(), kind: EntryKind::File };
        assert_eq!(carries_payload(&entry), payload, "{:?}", path);
    }
    let dir = ListedEntry { path: "deps".to_string(), kind: EntryKind::Dir };
    assert!(!carries_payload(&dir));
}
