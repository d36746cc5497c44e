use fs_provision::fs_model::FsModel;
use fs_provision::semantics::{Cause, EntryKind, Step};

#[test]
fn directory_creation_is_idempotent() {
    let mut fs = FsModel::new();
    assert!(fs.ensure_directory("a/b/c").is_ok());
    let records_after_first = fs.record_count();
    assert!(fs.ensure_directory("a/b/c").is_ok());
    assert_eq!(fs.record_count(), records_after_first);
    assert_eq!(fs.entry("a/b/c"), Some(EntryKind::Directory));
}

#[test]
fn ancestors_are_created_as_directories() {
    let mut fs = FsModel::new();
    assert!(fs.ensure_directory("a/b/c").is_ok());
    assert_eq!(fs.entry("a"), Some(EntryKind::Directory));
    assert_eq!(fs.entry("a/b"), Some(EntryKind::Directory));
    assert_eq!(fs.entry("a/b/c"), Some(EntryKind::Directory));
}

#[test]
fn file_without_parent_creates_no_directory() {
    let mut fs = FsModel::new();
    assert!(fs.ensure_file("name.txt").is_ok());
    assert_eq!(fs.entry("name.txt"), Some(EntryKind::File { len: 0 }));
    assert_eq!(fs.record_count(), 1);
}

#[test]
fn conflicting_file_fails_directory_creation() {
    let mut fs = FsModel::new();
    fs.add_file("a", 3);
    let err = fs.ensure_directory("a/b").unwrap_err();
    assert_eq!(err.cause, Cause::Conflict);
    assert_eq!(err.step, Step::CreateDirectory);
    assert_eq!(err.path, "a");
    assert_eq!(fs.entry("a"), Some(EntryKind::File { len: 3 }));
    assert_eq!(fs.entry("a/b"), None);
}

#[test]
fn existing_file_is_truncated() {
    let mut fs = FsModel::new();
    fs.add_dir("a");
    fs.add_file("a/data.txt", 42);
    assert!(fs.ensure_file("a/data.txt").is_ok());
    assert_eq!(fs.entry("a/data.txt"), Some(EntryKind::File { len: 0 }));
}

#[test]
fn nested_file_creation_builds_the_chain() {
    let mut fs = FsModel::new();
    assert!(fs.ensure_file("/tmp/app/data/out.txt").is_ok());
    assert_eq!(fs.entry("/tmp"), Some(EntryKind::Directory));
    assert_eq!(fs.entry("/tmp/app"), Some(EntryKind::Directory));
    assert_eq!(fs.entry("/tmp/app/data"), Some(EntryKind::Directory));
    assert_eq!(fs.entry("/tmp/app/data/out.txt"), Some(EntryKind::File { len: 0 }));
}

#[test]
fn denied_parent_fails_directory_creation() {
    let mut fs = FsModel::new();
    fs.add_dir("/root");
    fs.deny("/root");
    let records_before = fs.record_count();
    let err = fs.ensure_directory("/root/forbidden").unwrap_err();
    assert_eq!(err.cause, Cause::PermissionDenied);
    assert_eq!(err.step, Step::CreateDirectory);
    assert_eq!(err.path, "/root/forbidden");
    assert_eq!(fs.entry("/root/forbidden"), None);
    assert_eq!(fs.record_count(), records_before);
}

#[test]
fn denied_parent_still_accepts_existing_directory() {
    let mut fs = FsModel::new();
    fs.add_dir("/root");
    fs.add_dir("/root/present");
    fs.deny("/root");
    assert!(fs.ensure_directory("/root/present").is_ok());
}

#[test]
fn denied_parent_fails_file_creation() {
    let mut fs = FsModel::new();
    fs.add_dir("locked");
    fs.deny("locked");
    let err = fs.ensure_file("locked/note.txt").unwrap_err();
    assert_eq!(err.cause, Cause::PermissionDenied);
    assert_eq!(err.step, Step::CreateFile);
    assert_eq!(err.path, "locked/note.txt");
    assert_eq!(fs.entry("locked/note.txt"), None);
}

#[test]
fn directory_in_the_way_fails_file_creation() {
    let mut fs = FsModel::new();
    fs.add_dir("x");
    let err = fs.ensure_file("x").unwrap_err();
    assert_eq!(err.cause, Cause::Conflict);
    assert_eq!(err.step, Step::CreateFile);
    assert_eq!(err.path, "x");
    assert_eq!(fs.entry("x"), Some(EntryKind::Directory));
}

#[test]
fn file_creation_is_idempotent_in_outcome() {
    let mut fs = FsModel::new();
    assert!(fs.ensure_file("d/e/f.txt").is_ok());
    assert!(fs.ensure_file("d/e/f.txt").is_ok());
    assert_eq!(fs.entry("d/e/f.txt"), Some(EntryKind::File { len: 0 }));
    assert_eq!(fs.entry("d"), Some(EntryKind::Directory));
    assert_eq!(fs.entry("d/e"), Some(EntryKind::Directory));
}

#[test]
fn empty_path_directory_creation_is_a_no_op() {
    let mut fs = FsModel::new();
    assert!(fs.ensure_directory("").is_ok());
    assert_eq!(fs.record_count(), 0);
}

#[test]
fn messages_name_the_step_and_the_cause() {
    let mut fs = FsModel::new();
    fs.add_dir("/root");
    fs.deny("/root");
    let dir_err = fs.ensure_directory("/root/forbidden").unwrap_err();
    assert_eq!(
        dir_err.message(),
        "could not create directory /root/forbidden: permission denied"
    );

    let mut fs2 = FsModel::new();
    fs2.add_dir("x");
    let file_err = fs2.ensure_file("x").unwrap_err();
    assert_eq!(
        file_err.message(),
        "could not create file x: an entry of another kind is in the way"
    );
}

#[test]
fn partial_creation_survives_a_failure() {
    let mut fs = FsModel::new();
    fs.add_file("a/b/stop", 1);
    let err = fs.ensure_directory("a/b/stop/deeper").unwrap_err();
    assert_eq!(err.cause, Cause::Conflict);
    assert_eq!(err.path, "a/b/stop");
    assert_eq!(fs.entry("a"), Some(EntryKind::Directory));
    assert_eq!(fs.entry("a/b"), Some(EntryKind::Directory));
    assert_eq!(fs.entry("a/b/stop/deeper"), None);
}
