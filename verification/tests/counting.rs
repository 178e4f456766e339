use path_cleaner::counter::{count_entries, count_files_in_directory};
use path_cleaner::error::Error;
use path_cleaner::model::{Entry, EntryKind};

fn file(path: &str) -> Entry {
    Entry { path: String::from(path), kind: EntryKind::File }
}

fn dir(path: &str, children: Vec<Entry>) -> Entry {
    Entry { path: String::from(path), kind: EntryKind::Dir(children) }
}

fn missing(path: &str) -> Entry {
    Entry { path: String::from(path), kind: EntryKind::Missing }
}

fn other(path: &str) -> Entry {
    Entry { path: String::from(path), kind: EntryKind::Other }
}

#[test]
fn count_single_file_is_one() {
    assert_eq!(count_entries(&file("/tmp/f")).unwrap(), 1);
}

#[test]
fn count_empty_directory_is_one() {
    assert_eq!(count_entries(&dir("/tmp/empty", vec![])).unwrap(), 1);
}

#[test]
fn count_directory_sums_children() {
    // Two files and one subdirectory whose own count is 2: 1 + 2 + 2 == 5.
    let sub = dir("/tmp/d/s", vec![file("/tmp/d/s/g")]);
    let d = dir("/tmp/d", vec![file("/tmp/d/a"), file("/tmp/d/b"), sub]);
    assert_eq!(count_entries(&d).unwrap(), 5);
}

#[test]
fn count_file_and_empty_subdir_is_three() {
    let d = dir("/tmp/d", vec![file("/tmp/d/f"), dir("/tmp/d/s", vec![])]);
    assert_eq!(count_entries(&d).unwrap(), 3);
}

#[test]
fn count_unrecognized_root_fails() {
    match count_entries(&other("/dev/odd")) {
        Err(Error::UnrecognizedPathType(p)) => assert_eq!(p, "/dev/odd"),
        r => panic!("expected UnrecognizedPathType, got {:?}", r),
    }
}

#[test]
fn count_names_first_unrecognized_node() {
    // The first offender in depth-first pre-order is reported.
    let d = dir(
        "/tmp/d",
        vec![
            file("/tmp/d/a"),
            dir("/tmp/d/s", vec![other("/tmp/d/s/dev"), missing("/tmp/d/s/gone")]),
            other("/tmp/d/late"),
        ],
    );
    match count_entries(&d) {
        Err(Error::UnrecognizedPathType(p)) => assert_eq!(p, "/tmp/d/s/dev"),
        r => panic!("expected UnrecognizedPathType, got {:?}", r),
    }
}

#[test]
fn count_missing_child_is_unrecognized() {
    let d = dir("/tmp/d", vec![missing("/tmp/d/gone")]);
    match count_entries(&d) {
        Err(Error::UnrecognizedPathType(p)) => assert_eq!(p, "/tmp/d/gone"),
        r => panic!("expected UnrecognizedPathType, got {:?}", r),
    }
}

#[test]
fn count_files_in_directory_counts_a_directory() {
    let d = dir("/tmp/d", vec![file("/tmp/d/f"), dir("/tmp/d/s", vec![])]);
    assert_eq!(count_files_in_directory(&d).unwrap(), 3);
}

#[test]
fn count_files_in_directory_missing_path() {
    match count_files_in_directory(&missing("/tmp/gone")) {
        Err(Error::PathNotFound(p)) => assert_eq!(p, "/tmp/gone"),
        r => panic!("expected PathNotFound, got {:?}", r),
    }
}

#[test]
fn count_files_in_directory_rejects_a_file() {
    match count_files_in_directory(&file("/tmp/f")) {
        Err(Error::UnrecognizedPathType(p)) => assert_eq!(p, "/tmp/f"),
        r => panic!("expected UnrecognizedPathType, got {:?}", r),
    }
}
