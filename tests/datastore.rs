use coursedata::course::{default_color, default_optimize, default_weight, Course, Textbook};
use coursedata::datastore::{
    batches, collect_identifiers, record_identifier, DataManager, DataStore, EntryKind, EntryPlan, Error, FsStep,
    IoKind, ResourceManager, ScanOutcome, MAX_FS_CONCURRENCY, settle_scan,
};
use coursedata::paths::{into_relative_path, resolve_components, PathComponent};

const ID: u128 = 0x0123_4567_89ab_cdef_0123_4567_89ab_cdef;

fn manager() -> DataManager {
    DataManager::new("/data/Course Maps".to_string(), Some("TOML".to_string()))
}

#[test]
fn extension_is_kept_in_lower_case() {
    assert_eq!(manager().extension, Some("toml".to_string()));
}

#[test]
fn path_of_identifier_is_canonical() {
    assert_eq!(manager().get(ID), "/data/Course Maps/0123456789abcdef0123456789abcdef.toml");
    let bare = DataManager::new("/r".to_string(), None);
    assert_eq!(bare.get(1), "/r/00000000000000000000000000000001");
    let folders = ResourceManager::new("/data/Courses".to_string());
    assert_eq!(folders.get(u128::MAX), "/data/Courses/ffffffffffffffffffffffffffffffff");
}

#[test]
fn distinct_identifiers_have_distinct_paths() {
    let m = manager();
    let ids = [0u128, 1, 16, ID, u128::MAX];
    for a in ids {
        for b in ids {
            if a != b {
                assert_ne!(m.get(a), m.get(b));
            }
        }
    }
}

#[test]
fn upper_case_name_is_renamed_to_lower_case() {
    let o = manager()
        .handle_scanned_path(EntryKind::File, "0123456789ABCDEF0123456789ABCDEF", &Some("toml".to_string()), 99)
        .unwrap();
    assert_eq!(o.id, ID);
    assert_eq!(o.rename_to, Some("0123456789abcdef0123456789abcdef.toml".to_string()));
}

#[test]
fn hyphenated_name_is_renamed() {
    let o = manager()
        .handle_scanned_path(EntryKind::File, "01234567-89ab-cdef-0123-456789abcdef", &Some("toml".to_string()), 99)
        .unwrap();
    assert_eq!(o.id, ID);
    assert_eq!(o.rename_to, Some("0123456789abcdef0123456789abcdef.toml".to_string()));
}

#[test]
fn malformed_name_gets_fresh_identifier() {
    let o = manager().handle_scanned_path(EntryKind::File, "notes", &Some("toml".to_string()), 255).unwrap();
    assert_eq!(o.id, 255);
    assert_eq!(o.rename_to, Some("000000000000000000000000000000ff.toml".to_string()));
}

#[test]
fn canonical_name_is_kept() {
    let o = manager()
        .handle_scanned_path(EntryKind::File, "0123456789abcdef0123456789abcdef", &Some("toml".to_string()), 1)
        .unwrap();
    assert_eq!(o.id, ID);
    assert_eq!(o.rename_to, None);
    let upper_ext = manager()
        .handle_scanned_path(EntryKind::File, "0123456789abcdef0123456789abcdef", &Some("TOML".to_string()), 1)
        .unwrap();
    assert_eq!(upper_ext.rename_to, Some("0123456789abcdef0123456789abcdef.toml".to_string()));
}

#[test]
fn other_entries_are_skipped() {
    let m = manager();
    assert!(m.handle_scanned_path(EntryKind::File, "x", &Some("txt".to_string()), 1).is_none());
    assert!(m.handle_scanned_path(EntryKind::File, "x", &None, 1).is_none());
    assert!(m.handle_scanned_path(EntryKind::Directory, "x", &Some("toml".to_string()), 1).is_none());
    assert!(m.handle_scanned_path(EntryKind::Missing, "x", &Some("toml".to_string()), 1).is_none());
}

#[test]
fn folder_plans() {
    let r = ResourceManager::new("/c".to_string());
    match r.handle_scanned_path(EntryKind::Directory, "0123456789ABCDEF0123456789ABCDEF", "0123456789ABCDEF0123456789ABCDEF", &None, 3) {
        EntryPlan::Index(o) => {
            assert_eq!(o.id, ID);
            assert_eq!(o.rename_to, Some("0123456789abcdef0123456789abcdef".to_string()));
        }
        other => panic!("unexpected plan {:?}", other),
    }
    match r.handle_scanned_path(EntryKind::File, "bundle.ZIP", "bundle", &Some("ZIP".to_string()), 3) {
        EntryPlan::Extract { temp_name, dest_name } => {
            assert_eq!(temp_name, "bundle.temp");
            assert_eq!(dest_name, "bundle");
        }
        other => panic!("unexpected plan {:?}", other),
    }
    assert!(matches!(
        r.handle_scanned_path(EntryKind::Directory, "x.temp", "x", &Some("temp".to_string()), 3),
        EntryPlan::RemoveLeftover { directory: true }
    ));
    assert!(matches!(
        r.handle_scanned_path(EntryKind::File, "x.temp", "x", &Some("temp".to_string()), 3),
        EntryPlan::RemoveLeftover { directory: false }
    ));
    assert!(matches!(r.handle_scanned_path(EntryKind::File, "x.txt", "x", &Some("txt".to_string()), 3), EntryPlan::Ignore));
    assert!(matches!(r.handle_scanned_path(EntryKind::Missing, "x", "x", &None, 3), EntryPlan::Ignore));
}

#[test]
fn failed_extraction_keeps_archive() {
    let steps = ResourceManager::finish_extraction(false, "a.zip", "a.temp", "a");
    assert_eq!(steps.len(), 1);
    assert!(matches!(&steps[0], FsStep::RemoveDirAll(p) if p == "a.temp"));
    let steps = ResourceManager::finish_extraction(true, "a.zip", "a.temp", "a");
    assert_eq!(steps.len(), 2);
    assert!(matches!(&steps[0], FsStep::Rename { from, to } if from == "a.temp" && to == "a"));
    assert!(matches!(&steps[1], FsStep::RemoveFile(p) if p == "a.zip"));
}

#[test]
fn collisions_are_errors() {
    let ok = collect_identifiers(&vec![3, 1, 2]).unwrap();
    assert_eq!(ok, vec![3, 1, 2]);
    let err = collect_identifiers(&vec![3, 1, 3]).unwrap_err();
    assert!(matches!(err, Error::Io(IoKind::AlreadyExists, _)));
    let mut found = vec![1];
    assert!(record_identifier(&mut found, 2).is_ok());
    assert!(record_identifier(&mut found, 1).is_err());
    assert_eq!(found, vec![1, 2]);
    assert!(collect_identifiers(&vec![]).unwrap().is_empty());
}

#[test]
fn not_found_is_told_apart() {
    assert!(Error::Io(IoKind::NotFound, String::new()).is_not_found());
    assert!(!Error::Io(IoKind::Other, String::new()).is_not_found());
    assert!(!Error::AlreadyLocked.is_not_found());
}

#[test]
fn batches_cover_in_order() {
    assert_eq!(batches(0, MAX_FS_CONCURRENCY), vec![]);
    assert_eq!(batches(8, 8), vec![(0, 8)]);
    assert_eq!(batches(19, 8), vec![(0, 8), (8, 16), (16, 19)]);
    assert_eq!(batches(3, 1), vec![(0, 1), (1, 2), (2, 3)]);
}

#[test]
fn resource_paths_stay_inside_the_bundle() {
    assert_eq!(into_relative_path("/data/c", "../a/./b/../book.epub"), "/data/c/a/book.epub");
    assert_eq!(into_relative_path("/data/c", "/etc/passwd"), "/data/c/etc/passwd");
    assert_eq!(into_relative_path("/data/c", "../../x"), "/data/c/x");
    assert_eq!(into_relative_path("/data/c", ""), "/data/c");
    let cs = vec![
        PathComponent::Normal("a".to_string()),
        PathComponent::Parent,
        PathComponent::Parent,
        PathComponent::Normal("b".to_string()),
        PathComponent::Current,
        PathComponent::Root,
    ];
    assert_eq!(resolve_components(&cs), vec!["b".to_string()]);
}

#[test]
fn datastore_paths_and_stamping() {
    let store = DataStore { root: "/d".to_string() };
    assert_eq!(store.course_root(ID), "/d/0123456789abcdef0123456789abcdef");
    assert_eq!(store.course_index_path(ID), "/d/0123456789abcdef0123456789abcdef/course.toml");
    assert_eq!(store.course_map_path(ID), "/d/0123456789abcdef0123456789abcdef.toml");
    let mut course = Course {
        uuid: 0,
        title: "t".to_string(),
        description: None,
        books: vec![Textbook { label: "b".to_string(), file: "../books/x.epub".to_string(), chapters: vec![] }],
    };
    store.stamp_course(&mut course, ID);
    assert_eq!(course.uuid, ID);
    assert_eq!(course.books[0].file, "/d/0123456789abcdef0123456789abcdef/books/x.epub");
}

#[test]
fn document_defaults() {
    assert_eq!(default_color(), "black");
    assert!(default_optimize());
    assert_eq!(default_weight(), 1000);
}

fn outcome(id: u128, rename_to: Option<&str>) -> Option<ScanOutcome> {
    Some(ScanOutcome { id, rename_to: rename_to.map(|s| s.to_string()) })
}

#[test]
fn scan_settles_before_renaming() {
    let plan = settle_scan(&vec![outcome(ID, Some("x")), None, outcome(2, None), outcome(3, Some("y"))]).unwrap();
    assert_eq!(plan.ids, vec![ID, 2, 3]);
    assert_eq!(plan.renames, vec![(0, "x".to_string()), (3, "y".to_string())]);
}

#[test]
fn upper_and_lower_names_of_one_identifier_collide() {
    let m = manager();
    let ext = Some("toml".to_string());
    let upper = m.handle_scanned_path(EntryKind::File, "0123456789ABCDEF0123456789ABCDEF", &ext, 1);
    let lower = m.handle_scanned_path(EntryKind::File, "0123456789abcdef0123456789abcdef", &ext, 2);
    let err = settle_scan(&vec![upper, lower]).unwrap_err();
    assert!(matches!(err, Error::Io(IoKind::AlreadyExists, _)));
    let r = ResourceManager::new("/c".to_string());
    let plans = [
        r.handle_scanned_path(EntryKind::Directory, "0123456789ABCDEF0123456789ABCDEF", "0123456789ABCDEF0123456789ABCDEF", &None, 1),
        r.handle_scanned_path(EntryKind::Directory, "0123456789abcdef0123456789abcdef", "0123456789abcdef0123456789abcdef", &None, 2),
    ];
    let outcomes: Vec<Option<ScanOutcome>> = plans
        .into_iter()
        .map(|p| match p {
            EntryPlan::Index(o) => Some(o),
            _ => None,
        })
        .collect();
    assert!(matches!(settle_scan(&outcomes), Err(Error::Io(IoKind::AlreadyExists, _))));
}

#[test]
fn extension_lower_casing_keeps_other_characters() {
    let m = DataManager::new("/r".to_string(), Some("ÉZ-1a".to_string()));
    assert_eq!(m.extension, Some("Éz-1a".to_string()));
}
