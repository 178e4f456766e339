use path_cleaner::deleter::{delete_paths_with_progress, DeleteStep};
use path_cleaner::error::Error;
use path_cleaner::model::{Entry, EntryKind};

fn file(path: &str) -> Entry {
    Entry { path: String::from(path), kind: EntryKind::File }
}

fn dir(path: &str, children: Vec<Entry>) -> Entry {
    Entry { path: String::from(path), kind: EntryKind::Dir(children) }
}

fn missing(path: &str) -> Entry {
    Entry { path: String::from(path), kind: EntryKind::Missing }
}

fn other(path: &str) -> Entry {
    Entry { path: String::from(path), kind: EntryKind::Other }
}

fn percent(step: &DeleteStep) -> f64 {
    step.deleted as f64 / step.total as f64 * 100.0
}

#[test]
fn delete_emits_one_notification_per_entry() {
    // Combined count: file (1) + tree of 4 == 5.
    let tree = dir(
        "/tmp/t",
        vec![file("/tmp/t/a"), dir("/tmp/t/s", vec![file("/tmp/t/s/b")])],
    );
    let plan = delete_paths_with_progress(&vec![file("/tmp/lone"), tree]).unwrap();
    assert_eq!(plan.len(), 5);
    let mut last = 0.0_f64;
    for (k, step) in plan.iter().enumerate() {
        assert_eq!(step.deleted, k + 1);
        assert_eq!(step.total, 5);
        let p = percent(step);
        assert_eq!(p, 100.0 * (k + 1) as f64 / 5.0);
        assert!(p >= last);
        last = p;
    }
    assert_eq!(last, 100.0);
}

#[test]
fn delete_file_and_empty_subdir_scenario() {
    let d = dir("/tmp/d", vec![file("/tmp/d/f"), dir("/tmp/d/s", vec![])]);
    let plan = delete_paths_with_progress(&vec![d]).unwrap();
    assert_eq!(plan.len(), 3);
    // Children in supplied order, the directory itself last.
    assert_eq!(plan[0].path, "/tmp/d/f");
    assert!(!plan[0].is_dir);
    assert_eq!(plan[1].path, "/tmp/d/s");
    assert!(plan[1].is_dir);
    assert_eq!(plan[2].path, "/tmp/d");
    assert!(plan[2].is_dir);
    assert!((percent(&plan[0]) - 33.33).abs() < 0.01);
    assert!((percent(&plan[1]) - 66.67).abs() < 0.01);
    assert_eq!(percent(&plan[2]), 100.0);
}

#[test]
fn delete_empty_input_plans_nothing() {
    let plan = delete_paths_with_progress(&vec![]).unwrap();
    assert!(plan.is_empty());
}

#[test]
fn delete_missing_root_aborts_before_any_removal() {
    let roots = vec![file("/tmp/a"), missing("/tmp/missing")];
    match delete_paths_with_progress(&roots) {
        Err(Error::PathNotFound(p)) => assert_eq!(p, "/tmp/missing"),
        r => panic!("expected PathNotFound, got {:?}", r),
    }
    // The error carries no plan: nothing under any root is slated for removal.
}

#[test]
fn delete_unrecognized_root_fails_without_a_plan() {
    match delete_paths_with_progress(&vec![other("/dev/odd")]) {
        Err(Error::UnrecognizedPathType(p)) => assert_eq!(p, "/dev/odd"),
        r => panic!("expected UnrecognizedPathType, got {:?}", r),
    }
}

#[test]
fn delete_unrecognized_descendant_fails_without_a_plan() {
    let d = dir("/tmp/d", vec![file("/tmp/d/a"), other("/tmp/d/dev")]);
    match delete_paths_with_progress(&vec![d]) {
        Err(Error::UnrecognizedPathType(p)) => assert_eq!(p, "/tmp/d/dev"),
        r => panic!("expected UnrecognizedPathType, got {:?}", r),
    }
}

#[test]
fn delete_plan_covers_every_path_once() {
    let tree = dir(
        "/tmp/r",
        vec![
            dir("/tmp/r/x", vec![file("/tmp/r/x/1"), file("/tmp/r/x/2")]),
            file("/tmp/r/y"),
        ],
    );
    let plan = delete_paths_with_progress(&vec![tree]).unwrap();
    let mut planned: Vec<&str> = plan.iter().map(|s| s.path.as_str()).collect();
    planned.sort();
    let mut expected = vec!["/tmp/r", "/tmp/r/x", "/tmp/r/x/1", "/tmp/r/x/2", "/tmp/r/y"];
    expected.sort();
    assert_eq!(planned, expected);
}

#[test]
fn delete_removes_children_before_their_directory() {
    let tree = dir(
        "/tmp/r",
        vec![dir("/tmp/r/x", vec![file("/tmp/r/x/1")]), file("/tmp/r/y")],
    );
    let plan = delete_paths_with_progress(&vec![tree]).unwrap();
    let pos = |p: &str| plan.iter().position(|s| s.path == p).unwrap();
    assert!(pos("/tmp/r/x/1") < pos("/tmp/r/x"));
    assert!(pos("/tmp/r/x") < pos("/tmp/r"));
    assert!(pos("/tmp/r/y") < pos("/tmp/r"));
}
