use isotarp::utils::cleanup::{
    cleanup_single_test_dir, cleanup_target, cleanup_target_dirs, enclosing_dir, has_dir,
    has_entry, is_effectively_empty, is_listed_dir, only_dirs_below, remaining_entries,
    remove_empty_directories, TreeListing,
};
use isotarp::utils::paths::test_target_dir;
use isotarp::utils::pipeline::{EntryKind, ListedEntry};
use isotarp::utils::plan::FsStep;

const ROOT: &str = "/w/.isotarp-artifacts";

fn entry(path: &str, kind: EntryKind) -> ListedEntry {
    ListedEntry { path: format!("{}/{}", ROOT, path), kind }
}

fn tree(entries: Vec<ListedEntry>) -> TreeListing {
    TreeListing { root: ROOT.to_string(), root_is_dir: true, entries }
}

fn remove_dir(path: &str) -> FsStep {
    FsStep::RemoveDir { path: format!("{}/{}", ROOT, path) }
}

fn remove_all(path: &str) -> FsStep {
    FsStep::RemoveDirAll { path: format!("{}/{}", ROOT, path) }
}

fn prepared(test_dirs: &[&str]) -> Vec<ListedEntry> {
    let mut entries = Vec::new();
    for test_dir in test_dirs {
        let mut at = String::new();
        for part in test_dir.split('/') {
            if !at.is_empty() {
                at.push('/');
            }
            at.push_str(part);
            let found = entry(&at, EntryKind::Dir);
            if !entries.contains(&found) {
                entries.push(found);
            }
        }
        entries.push(entry(&format!("{}/tarpaulin-target", test_dir), EntryKind::Dir));
        entries.push(entry(&format!("{}/tarpaulin-target/debug", test_dir), EntryKind::Dir));
        entries.push(entry(
            &format!("{}/tarpaulin-target/debug/.cargo-lock", test_dir),
            EntryKind::File,
        ));
    }
    entries
}

#[test]
fn a_directory_of_empty_directories_is_empty() {
    let listing = tree(vec![
        entry("a", EntryKind::Dir),
        entry("a/b", EntryKind::Dir),
        entry("a/b/c", EntryKind::Dir),
        entry("x", EntryKind::Dir),
        entry("x/file", EntryKind::File),
        entry("y", EntryKind::File),
        entry("z", EntryKind::Dir),
        entry("z/lost", EntryKind::Unreadable),
    ]);
    assert!(is_effectively_empty(&listing, &format!("{}/a", ROOT)));
    assert!(is_effectively_empty(&listing, &format!("{}/a/b/c", ROOT)));
    assert!(!is_effectively_empty(&listing, &format!("{}/x", ROOT)));
    assert!(!is_effectively_empty(&listing, &format!("{}/y", ROOT)));
    assert!(!is_effectively_empty(&listing, &format!("{}/z", ROOT)));
    assert!(!is_effectively_empty(&listing, &format!("{}/missing", ROOT)));
    assert!(!is_effectively_empty(&listing, ROOT));
    assert!(is_listed_dir(&listing, ROOT));
    assert!(has_dir(&listing.entries, &format!("{}/x", ROOT)));
    assert!(!has_dir(&listing.entries, &format!("{}/y", ROOT)));
    assert!(has_entry(&listing.entries, &format!("{}/y", ROOT)));
    assert!(!has_entry(&listing.entries, &format!("{}/ab", ROOT)));
    assert!(only_dirs_below(&listing.entries, &format!("{}/a", ROOT)));
    assert!(!only_dirs_below(&listing.entries, &format!("{}/x", ROOT)));
    assert!(is_effectively_empty(&tree(Vec::new()), ROOT));
    let absent = TreeListing { root: ROOT.to_string(), root_is_dir: false, entries: Vec::new() };
    assert!(!is_effectively_empty(&absent, ROOT));
}

#[test]
fn a_name_that_only_starts_alike_is_not_below() {
    let listing = tree(vec![
        entry("a", EntryKind::Dir),
        entry("ab", EntryKind::Dir),
        entry("ab/file", EntryKind::File),
    ]);
    assert!(is_effectively_empty(&listing, &format!("{}/a", ROOT)));
    assert_eq!(remove_empty_directories(&listing, &format!("{}/a", ROOT)), vec![remove_dir("a")]);
}

#[test]
fn hollow_directories_are_removed_deepest_first() {
    let listing = tree(vec![
        entry("a", EntryKind::Dir),
        entry("a/b", EntryKind::Dir),
        entry("a/b/c", EntryKind::Dir),
        entry("a/d", EntryKind::Dir),
        entry("x", EntryKind::Dir),
        entry("x/file", EntryKind::File),
    ]);
    assert_eq!(
        remove_empty_directories(&listing, &format!("{}/a", ROOT)),
        vec![remove_dir("a/d"), remove_dir("a/b/c"), remove_dir("a/b"), remove_dir("a")]
    );
    assert!(remove_empty_directories(&listing, &format!("{}/x", ROOT)).is_empty());
    assert!(remove_empty_directories(&listing, ROOT).is_empty());
}

#[test]
fn enclosing_directory_is_what_stands_before_the_last_separator() {
    assert_eq!(enclosing_dir("/a/b/c"), "/a/b");
    assert_eq!(enclosing_dir("a/b"), "a");
    assert_eq!(enclosing_dir("a"), "");
    assert_eq!(enclosing_dir("/a"), "");
    assert_eq!(enclosing_dir(""), "");
    assert_eq!(enclosing_dir("a/"), "a");
}

#[test]
fn cleanup_removes_the_cache_directory_and_its_hollow_parents() {
    let listing = tree(prepared(&["tests/test_foo", "tests/test_bar"]));
    assert_eq!(
        test_target_dir("/w/out", "tests::test_foo"),
        format!("{}/tests/test_foo/tarpaulin-target", ROOT)
    );
    let steps = cleanup_single_test_dir("/w/out", "tests::test_foo", &listing);
    assert_eq!(
        steps,
        vec![remove_all("tests/test_foo/tarpaulin-target"), remove_dir("tests/test_foo")]
    );
}

#[test]
fn cleanup_prunes_up_to_the_root_and_not_the_root() {
    let listing = tree(prepared(&["a/b/c"]));
    let steps = cleanup_single_test_dir("/w/out", "a::b::c", &listing);
    assert_eq!(
        steps,
        vec![
            remove_all("a/b/c/tarpaulin-target"),
            remove_dir("a/b/c"),
            remove_dir("a/b"),
            remove_dir("a"),
        ]
    );
}

#[test]
fn cleanup_leaves_directories_that_hold_files() {
    let mut entries = prepared(&["tests/test_foo"]);
    entries.push(entry("tests/test_foo/notes.txt", EntryKind::File));
    let steps = cleanup_single_test_dir("/w/out", "tests::test_foo", &tree(entries));
    assert_eq!(steps, vec![remove_all("tests/test_foo/tarpaulin-target")]);
}

#[test]
fn cleanup_twice_asks_for_nothing_the_second_time() {
    let first = tree(prepared(&["tests/test_foo", "tests/test_bar"]));
    let target = test_target_dir("/w/out", "tests::test_foo");
    let steps = cleanup_target(&first, &target);
    assert_eq!(steps.len(), 2);

    let after_removal = remaining_entries(&first.entries, &target);
    let left = remaining_entries(&after_removal, &format!("{}/tests/test_foo", ROOT));
    assert_eq!(left, prepared(&["tests/test_bar"]));
    let second = tree(left);
    assert!(cleanup_target(&second, &target).is_empty());
    assert!(cleanup_single_test_dir("/w/out", "tests::test_foo", &second).is_empty());

    let nothing = tree(Vec::new());
    assert!(cleanup_single_test_dir("/w/out", "tests::test_foo", &nothing).is_empty());
    assert!(cleanup_single_test_dir("/w/out", "never::prepared", &first).is_empty());
}

#[test]
fn sweep_removes_every_cache_directory_and_the_hollow_root() {
    let listing = tree(prepared(&["tests/t1", "tests/t2", "other/t3"]));
    let names = vec!["tests::t1".to_string(), "tests::t2".to_string(), "other::t3".to_string()];
    let steps = cleanup_target_dirs("/w/out", &names, &listing);
    assert_eq!(
        steps,
        vec![
            remove_all("tests/t1/tarpaulin-target"),
            remove_dir("tests/t1"),
            remove_all("tests/t2/tarpaulin-target"),
            remove_dir("tests/t2"),
            remove_dir("tests"),
            remove_all("other/t3/tarpaulin-target"),
            remove_dir("other/t3"),
            remove_dir("other"),
            FsStep::RemoveDir { path: ROOT.to_string() },
        ]
    );
}

#[test]
fn sweep_keeps_a_root_that_holds_files() {
    let mut entries = prepared(&["t1"]);
    entries.push(entry("shared_target", EntryKind::Dir));
    entries.push(entry("shared_target/keep", EntryKind::File));
    let names = vec!["t1".to_string()];
    let steps = cleanup_target_dirs("/w/out", &names, &tree(entries));
    assert_eq!(steps, vec![remove_all("t1/tarpaulin-target"), remove_dir("t1")]);

    let absent = TreeListing { root: ROOT.to_string(), root_is_dir: false, entries: Vec::new() };
    assert!(cleanup_target_dirs("/w/out", &names, &absent).is_empty());
}
