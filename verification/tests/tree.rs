use fileshare_client::error::SyncError;
use fileshare_client::filesystem::{is_cur_dir, Filesystem, LocalFilesystem};
use fileshare_client::item::{Item, Link, LocalItem};
use fileshare_client::scan::{is_control_dir, ScanEntry};

fn path(segments: &[&str]) -> Vec<String> {
    segments.iter().map(|s| s.to_string()).collect()
}

fn file(id: u64, name: &str, timestamp: u64) -> LocalItem {
    LocalItem::new(id, name.to_string(), timestamp, true)
}

fn dir(id: u64, name: &str, timestamp: u64) -> LocalItem {
    LocalItem::new(id, name.to_string(), timestamp, false)
}

fn entry(directory: Option<usize>, id: u64, name: &str, timestamp: u64, is_file: bool) -> ScanEntry {
    ScanEntry { directory, id, name: name.to_string(), timestamp, is_regular_file: is_file }
}

/// docs/ { a.txt, sub/ { b.txt } }, top.txt
fn sample() -> (LocalFilesystem, usize, usize, usize, usize, usize) {
    let mut fs = LocalFilesystem::new();
    let docs = fs.add_to_root(dir(1, "docs", 100));
    let a = fs.add_child(docs, file(2, "a.txt", 10)).unwrap();
    let sub = fs.add_child(docs, dir(3, "sub", 50)).unwrap();
    let b = fs.add_child(sub, file(4, "b.txt", 20)).unwrap();
    let top = fs.add_to_root(file(5, "top.txt", 30));
    (fs, docs, a, sub, b, top)
}

#[test]
fn new_tree_is_empty() {
    let fs = LocalFilesystem::new();
    assert_eq!(fs.len(), 0);
    assert_eq!(fs.get_roots(), Ok(vec![]));
    assert!(fs.item(0).is_none());
}

#[test]
fn handles_are_arena_positions() {
    let (fs, docs, a, sub, b, top) = sample();
    assert_eq!((docs, a, sub, b, top), (0, 1, 2, 3, 4));
    assert_eq!(fs.len(), 5);
    assert_eq!(fs.get_roots(), Ok(vec![docs, top]));
    assert_eq!(fs.children(docs).unwrap(), &vec![a, sub]);
    assert_eq!(fs.children(sub).unwrap(), &vec![b]);
}

#[test]
fn item_accessors_report_what_was_stored() {
    let (fs, _, a, sub, _, _) = sample();
    let item = fs.item(a).unwrap();
    assert_eq!(item.id(), 2);
    assert_eq!(item.name(), "a.txt");
    assert_eq!(item.timestamp(), 10);
    assert!(item.is_regular_file());
    assert_eq!(item.link(), Link::Child(0));
    assert_eq!(item.get_parent(), Ok(Some(0)));
    assert!(!fs.item(sub).unwrap().is_regular_file());
}

#[test]
fn children_of_a_file_are_empty() {
    let (fs, _, a, _, _, top) = sample();
    assert!(fs.children(a).unwrap().is_empty());
    assert!(fs.children(top).unwrap().is_empty());
    assert_eq!(fs.children(99), Err(SyncError::NotFound));
}

#[test]
fn get_parent_of_root_child_and_unknown() {
    let (fs, docs, _, sub, b, _) = sample();
    assert_eq!(fs.get_parent(docs), Ok(None));
    assert_eq!(fs.get_parent(sub), Ok(Some(docs)));
    assert_eq!(fs.get_parent(b), Ok(Some(sub)));
    assert_eq!(fs.get_parent(77), Err(SyncError::NotFound));
}

#[test]
fn path_from_root_walks_the_parent_links() {
    let (fs, docs, a, _, b, top) = sample();
    assert_eq!(fs.path_from_root(docs), Ok(path(&["docs"])));
    assert_eq!(fs.path_from_root(a), Ok(path(&["docs", "a.txt"])));
    assert_eq!(fs.path_from_root(b), Ok(path(&["docs", "sub", "b.txt"])));
    assert_eq!(fs.path_from_root(top), Ok(path(&["top.txt"])));
    assert_eq!(fs.path_from_root(5), Err(SyncError::NotFound));
}

#[test]
fn find_from_path_descends_by_exact_name() {
    let (fs, docs, a, sub, b, top) = sample();
    assert_eq!(fs.find_from_path(&path(&["docs"])), Ok(Some(docs)));
    assert_eq!(fs.find_from_path(&path(&["docs", "a.txt"])), Ok(Some(a)));
    assert_eq!(fs.find_from_path(&path(&["docs", "sub"])), Ok(Some(sub)));
    assert_eq!(fs.find_from_path(&path(&["docs", "sub", "b.txt"])), Ok(Some(b)));
    assert_eq!(fs.find_from_path(&path(&["top.txt"])), Ok(Some(top)));
}

#[test]
fn find_from_path_reports_absence_as_none() {
    let (fs, ..) = sample();
    assert_eq!(fs.find_from_path(&path(&["nope"])), Ok(None));
    assert_eq!(fs.find_from_path(&path(&["docs", "nope"])), Ok(None));
    assert_eq!(fs.find_from_path(&path(&["docs", "A.TXT"])), Ok(None));
    assert_eq!(fs.find_from_path(&path(&["top.txt", "below"])), Ok(None));
    assert_eq!(fs.find_from_path(&path(&["nope", "."])), Ok(None));
}

#[test]
fn find_from_path_rejects_empty_and_dot_only_paths() {
    let (fs, ..) = sample();
    assert_eq!(fs.find_from_path(&path(&[])), Err(SyncError::InvalidPath));
    assert_eq!(fs.find_from_path(&path(&["."])), Err(SyncError::InvalidPath));
    assert_eq!(fs.find_from_path(&path(&[".", "."])), Err(SyncError::InvalidPath));
    assert_eq!(fs.find_from_path(&path(&["docs", "."])), Err(SyncError::InvalidPath));
}

#[test]
fn find_from_path_skips_current_directory_segments() {
    let (fs, docs, a, _, b, _) = sample();
    assert_eq!(fs.find_from_path(&path(&[".", "docs"])), Ok(Some(docs)));
    assert_eq!(fs.find_from_path(&path(&[".", ".", "docs", "a.txt"])), Ok(Some(a)));
    assert_eq!(fs.find_from_path(&path(&["docs", ".", "sub", "b.txt"])), Ok(Some(b)));
}

#[test]
fn path_round_trip_finds_every_item() {
    let (fs, ..) = sample();
    for handle in 0..fs.len() {
        let p = fs.path_from_root(handle).unwrap();
        assert_eq!(fs.find_from_path(&p), Ok(Some(handle)));
    }
}

#[test]
fn path_round_trip_misses_a_shadowed_top_level_item() {
    let mut fs = LocalFilesystem::new();
    let first = fs.add_to_root(file(1, "same", 1));
    let second = fs.add_to_root(file(2, "same", 2));
    let p = fs.path_from_root(second).unwrap();
    assert_eq!(p, path(&["same"]));
    assert_eq!(fs.find_from_path(&p), Ok(Some(first)));
}

#[test]
fn path_round_trip_misses_an_item_named_as_the_current_directory() {
    let mut fs = LocalFilesystem::new();
    let dot = fs.add_to_root(dir(1, ".", 1));
    let below = fs.add_child(dot, file(2, "x", 2)).unwrap();
    assert_eq!(fs.path_from_root(below), Ok(path(&[".", "x"])));
    assert_eq!(fs.find_from_path(&path(&[".", "x"])), Ok(None));
}

#[test]
fn add_child_refuses_a_duplicate_name() {
    let (mut fs, docs, ..) = sample();
    assert_eq!(fs.add_child(docs, file(9, "a.txt", 99)), Err(SyncError::DuplicateName));
    assert_eq!(fs.len(), 5);
    assert_eq!(fs.children(docs).unwrap().len(), 2);
}

#[test]
fn add_child_refuses_a_file_as_parent() {
    let (mut fs, _, a, ..) = sample();
    assert_eq!(fs.add_child(a, file(9, "x", 1)), Err(SyncError::NotADirectory));
    assert_eq!(fs.len(), 5);
}

#[test]
fn add_child_refuses_an_unknown_parent() {
    let (mut fs, ..) = sample();
    assert_eq!(fs.add_child(5, file(9, "x", 1)), Err(SyncError::MissingParent));
    assert_eq!(fs.add_child(1000, file(9, "x", 1)), Err(SyncError::MissingParent));
}

#[test]
fn add_to_root_accepts_duplicate_names() {
    let mut fs = LocalFilesystem::new();
    let one = fs.add_to_root(file(1, "n", 1));
    let two = fs.add_to_root(file(2, "n", 2));
    assert_eq!(fs.get_roots(), Ok(vec![one, two]));
}

#[test]
fn add_to_root_overrides_the_declared_parent() {
    let mut fs = LocalFilesystem::new();
    let d = fs.add_to_root(dir(1, "d", 1));
    let mut item = file(2, "f", 2);
    item.set_parent(Some(d));
    let f = fs.add_to_root(item);
    assert_eq!(fs.get_parent(f), Ok(None));
    assert!(fs.children(d).unwrap().is_empty());
}

#[test]
fn update_item_from_filesystem_attaches_to_the_declared_parent() {
    let (mut fs, docs, ..) = sample();
    let mut item = file(10, "new.txt", 7);
    item.set_parent(Some(docs));
    let h = fs.update_item_from_filesystem(item).unwrap();
    assert_eq!(h, 5);
    assert_eq!(fs.get_parent(h), Ok(Some(docs)));
    assert_eq!(fs.children(docs).unwrap().last(), Some(&h));
    assert_eq!(fs.path_from_root(h), Ok(path(&["docs", "new.txt"])));
}

#[test]
fn update_item_from_filesystem_attaches_to_the_top_level() {
    let (mut fs, docs, _, _, _, top) = sample();
    let h = fs.update_item_from_filesystem(file(10, "new.txt", 7)).unwrap();
    assert_eq!(fs.get_roots(), Ok(vec![docs, top, h]));
}

#[test]
fn update_item_from_filesystem_reports_tree_shape_violations() {
    let (mut fs, docs, a, ..) = sample();
    let mut dup = file(10, "a.txt", 7);
    dup.set_parent(Some(docs));
    assert_eq!(fs.update_item_from_filesystem(dup), Err(SyncError::DuplicateName));
    let mut under_file = file(11, "x", 7);
    under_file.set_parent(Some(a));
    assert_eq!(fs.update_item_from_filesystem(under_file), Err(SyncError::NotADirectory));
    let mut orphan = file(12, "y", 7);
    orphan.set_parent(Some(500));
    assert_eq!(fs.update_item_from_filesystem(orphan), Err(SyncError::MissingParent));
    assert_eq!(fs.len(), 5);
}

#[test]
fn remove_item_detaches_a_child_with_its_subtree() {
    let (mut fs, docs, a, sub, b, _) = sample();
    assert_eq!(fs.remove_item(sub), Ok(()));
    assert_eq!(fs.children(docs).unwrap(), &vec![a]);
    assert_eq!(fs.get_parent(sub), Err(SyncError::MissingParent));
    assert_eq!(fs.path_from_root(sub), Err(SyncError::MissingParent));
    assert_eq!(fs.path_from_root(b), Err(SyncError::MissingParent));
    assert_eq!(fs.find_from_path(&path(&["docs", "sub"])), Ok(None));
    assert_eq!(fs.find_from_path(&path(&["docs", "sub", "b.txt"])), Ok(None));
    assert_eq!(fs.len(), 5);
}

#[test]
fn remove_item_detaches_a_top_level_item() {
    let (mut fs, docs, _, _, _, top) = sample();
    assert_eq!(fs.remove_item(docs), Ok(()));
    assert_eq!(fs.get_roots(), Ok(vec![top]));
    assert_eq!(fs.find_from_path(&path(&["docs", "a.txt"])), Ok(None));
}

#[test]
fn remove_item_removes_the_item_itself_among_equal_names() {
    let mut fs = LocalFilesystem::new();
    let one = fs.add_to_root(file(1, "n", 1));
    let two = fs.add_to_root(file(2, "n", 2));
    assert_eq!(fs.remove_item(two), Ok(()));
    assert_eq!(fs.get_roots(), Ok(vec![one]));
}

#[test]
fn remove_item_fails_on_unknown_or_detached_items() {
    let (mut fs, _, a, ..) = sample();
    assert_eq!(fs.remove_item(42), Err(SyncError::NotFound));
    assert_eq!(fs.remove_item(a), Ok(()));
    assert_eq!(fs.remove_item(a), Err(SyncError::MissingParent));
}

#[test]
fn remove_child_finds_the_child_by_name() {
    let (mut fs, docs, a, sub, _, _) = sample();
    assert_eq!(fs.remove_child(docs, &"a.txt".to_string()), Ok(a));
    assert_eq!(fs.children(docs).unwrap(), &vec![sub]);
    assert_eq!(fs.remove_child(docs, &"a.txt".to_string()), Err(SyncError::NotFound));
    assert_eq!(fs.remove_child(99, &"a.txt".to_string()), Err(SyncError::NotFound));
}

#[test]
fn a_removed_name_can_be_added_again() {
    let (mut fs, docs, a, ..) = sample();
    fs.remove_item(a).unwrap();
    let again = fs.add_child(docs, file(20, "a.txt", 11)).unwrap();
    assert_eq!(fs.find_from_path(&path(&["docs", "a.txt"])), Ok(Some(again)));
    assert_ne!(again, a);
}

#[test]
fn set_timestamp_changes_only_the_time() {
    let (mut fs, _, a, ..) = sample();
    assert_eq!(fs.set_timestamp(a, 77), Ok(()));
    let item = fs.item(a).unwrap();
    assert_eq!(item.timestamp(), 77);
    assert_eq!(item.name(), "a.txt");
    assert_eq!(item.id(), 2);
    assert_eq!(fs.set_timestamp(50, 1), Err(SyncError::NotFound));
}

#[test]
fn track_updates_the_time_of_a_held_item() {
    let (mut fs, _, a, ..) = sample();
    assert_eq!(fs.track(&path(&["docs", "a.txt"]), 999, 55, true), Ok(a));
    assert_eq!(fs.item(a).unwrap().timestamp(), 55);
    assert_eq!(fs.item(a).unwrap().id(), 2);
    assert_eq!(fs.len(), 5);
}

#[test]
fn track_adds_a_missing_item_under_its_parent() {
    let (mut fs, _, _, sub, _, _) = sample();
    let h = fs.track(&path(&["docs", "sub", "c.txt"]), 30, 8, true).unwrap();
    assert_eq!(h, 5);
    assert_eq!(fs.get_parent(h), Ok(Some(sub)));
    let item = fs.item(h).unwrap();
    assert_eq!((item.id(), item.timestamp(), item.is_regular_file()), (30, 8, true));
    assert_eq!(item.name(), "c.txt");
}

#[test]
fn track_adds_a_missing_top_level_item() {
    let mut fs = LocalFilesystem::new();
    let h = fs.track(&path(&["b.txt"]), 7, 5, true).unwrap();
    assert_eq!(fs.get_roots(), Ok(vec![h]));
    assert_eq!(fs.item(h).unwrap().timestamp(), 5);
}

#[test]
fn track_fails_without_a_parent() {
    let (mut fs, ..) = sample();
    assert_eq!(fs.track(&path(&["none", "c.txt"]), 1, 1, true), Err(SyncError::MissingParent));
    assert_eq!(fs.track(&path(&["top.txt", "c.txt"]), 1, 1, true), Err(SyncError::NotADirectory));
    assert_eq!(fs.track(&path(&[]), 1, 1, true), Err(SyncError::InvalidPath));
    assert_eq!(fs.len(), 5);
}

#[test]
fn forget_detaches_the_item_at_the_path() {
    let (mut fs, _, a, ..) = sample();
    assert_eq!(fs.forget(&path(&["docs", "a.txt"])), Ok(a));
    assert_eq!(fs.find_from_path(&path(&["docs", "a.txt"])), Ok(None));
    assert_eq!(fs.forget(&path(&["docs", "a.txt"])), Err(SyncError::NotFound));
    assert_eq!(fs.forget(&path(&[])), Err(SyncError::InvalidPath));
}

#[test]
fn local_item_declares_and_reports_its_parent() {
    let mut item = file(1, "f", 1);
    assert_eq!(item.get_parent(), Ok(None));
    item.set_parent(Some(4));
    assert_eq!(item.get_parent(), Ok(Some(4)));
    assert_eq!(item.link(), Link::Child(4));
    item.set_parent(None);
    assert_eq!(item.link(), Link::Root);
    let copy = item.duplicate();
    assert_eq!(copy.name(), "f");
    assert_eq!(copy.id(), 1);
}

#[test]
fn current_directory_segment_is_a_single_dot() {
    assert!(is_cur_dir(&".".to_string()));
    assert!(!is_cur_dir(&"..".to_string()));
    assert!(!is_cur_dir(&"".to_string()));
    assert!(!is_cur_dir(&"a".to_string()));
}

#[test]
fn control_directory_name_is_dot_fileshare() {
    assert!(is_control_dir(&".fileshare".to_string()));
    assert!(!is_control_dir(&"fileshare".to_string()));
    assert!(!is_control_dir(&".fileshare2".to_string()));
    assert!(!is_control_dir(&".".to_string()));
}

#[test]
fn scan_of_only_the_control_directory_yields_no_item() {
    let listing = vec![entry(None, 1, ".fileshare", 1, false)];
    let fs = LocalFilesystem::from_fileshare_root(&listing).unwrap();
    assert_eq!(fs.len(), 0);
    assert_eq!(fs.get_roots(), Ok(vec![]));
}

#[test]
fn scan_passes_over_everything_inside_the_control_directory() {
    let listing = vec![
        entry(None, 1, ".fileshare", 1, false),
        entry(Some(0), 2, "baseline", 1, true),
        entry(Some(0), 3, "cache", 1, false),
        entry(Some(2), 4, "blob", 1, true),
    ];
    let mut fs = LocalFilesystem::new();
    assert_eq!(fs.scan_dir(&listing, None), Ok(vec![None, None, None, None]));
    assert_eq!(fs.len(), 0);
}

#[test]
fn scan_builds_the_tree_of_the_listing() {
    let listing = vec![
        entry(None, 1, "docs", 100, false),
        entry(Some(0), 2, "a.txt", 10, true),
        entry(None, 3, ".fileshare", 1, false),
        entry(Some(2), 4, "state", 1, true),
        entry(Some(0), 5, "sub", 50, false),
        entry(Some(4), 6, "b.txt", 20, true),
        entry(None, 7, "top.txt", 30, true),
    ];
    let fs = LocalFilesystem::from_fileshare_root(&listing).unwrap();
    assert_eq!(fs.len(), 5);
    assert_eq!(fs.get_roots(), Ok(vec![0, 4]));
    assert_eq!(fs.find_from_path(&path(&["docs", "sub", "b.txt"])), Ok(Some(3)));
    assert_eq!(fs.find_from_path(&path(&[".fileshare"])), Ok(None));
    assert_eq!(fs.item(3).unwrap().timestamp(), 20);
    assert_eq!(fs.item(3).unwrap().id(), 6);
}

#[test]
fn scan_dir_returns_the_handle_of_each_entry() {
    let (mut fs, docs, ..) = sample();
    let listing = vec![
        entry(None, 50, "more", 1, false),
        entry(Some(0), 51, "x", 2, true),
        entry(Some(0), 52, ".fileshare", 2, false),
        entry(Some(0), 53, "y", 3, true),
    ];
    assert_eq!(fs.scan_dir(&listing, Some(docs)), Ok(vec![Some(5), Some(6), None, Some(7)]));
    assert_eq!(fs.path_from_root(7), Ok(path(&["docs", "more", "y"])));
}

#[test]
fn scan_dir_fails_on_a_malformed_listing() {
    let mut fs = LocalFilesystem::new();
    let forward = vec![entry(Some(1), 1, "x", 1, true), entry(None, 2, "d", 1, false)];
    assert_eq!(fs.scan_dir(&forward, None), Err(SyncError::MissingParent));
    let mut fs = LocalFilesystem::new();
    let under_file = vec![entry(None, 1, "f", 1, true), entry(Some(0), 2, "x", 1, true)];
    assert_eq!(fs.scan_dir(&under_file, None), Err(SyncError::NotADirectory));
    let mut fs = LocalFilesystem::new();
    let twice = vec![
        entry(None, 1, "d", 1, false),
        entry(Some(0), 2, "x", 1, true),
        entry(Some(0), 3, "x", 1, true),
    ];
    assert_eq!(fs.scan_dir(&twice, None), Err(SyncError::DuplicateName));
    assert_eq!(fs.len(), 2);
    let mut fs = LocalFilesystem::new();
    assert_eq!(
        fs.scan_dir(&vec![entry(None, 1, "x", 1, true)], Some(3)),
        Err(SyncError::MissingParent)
    );
}

#[test]
fn post_deserialize_rebuilds_the_parent_links() {
    let items = vec![dir(1, "docs", 100), file(2, "a.txt", 10), dir(3, "sub", 50), file(4, "b.txt", 20)];
    let children = vec![vec![1, 2], vec![], vec![3], vec![]];
    let mut fs = LocalFilesystem::from_saved(items, children, vec![0]);
    assert_eq!(fs.post_deserialize(), Ok(()));
    assert_eq!(fs.get_parent(0), Ok(None));
    assert_eq!(fs.get_parent(1), Ok(Some(0)));
    assert_eq!(fs.get_parent(2), Ok(Some(0)));
    assert_eq!(fs.get_parent(3), Ok(Some(2)));
    assert_eq!(fs.path_from_root(3), Ok(path(&["docs", "sub", "b.txt"])));
    assert_eq!(fs.find_from_path(&path(&["docs", "sub", "b.txt"])), Ok(Some(3)));
}

#[test]
fn post_deserialize_overwrites_stale_links() {
    let mut stale = file(2, "a.txt", 10);
    stale.set_parent(Some(7));
    let mut fs = LocalFilesystem::from_saved(vec![dir(1, "d", 1), stale], vec![vec![1], vec![]], vec![0]);
    assert_eq!(fs.post_deserialize(), Ok(()));
    assert_eq!(fs.get_parent(1), Ok(Some(0)));
}

#[test]
fn post_deserialize_leaves_unlisted_items_detached() {
    let mut fs = LocalFilesystem::from_saved(
        vec![dir(1, "d", 1), dir(2, "gone", 1), file(3, "x", 1)],
        vec![vec![], vec![2], vec![]],
        vec![0],
    );
    assert_eq!(fs.post_deserialize(), Ok(()));
    assert_eq!(fs.get_parent(1), Err(SyncError::MissingParent));
    assert_eq!(fs.get_parent(2), Ok(Some(1)));
    assert_eq!(fs.path_from_root(2), Err(SyncError::MissingParent));
}

#[test]
fn post_deserialize_rejects_broken_parts() {
    let bad = |items: Vec<LocalItem>, children: Vec<Vec<usize>>, roots: Vec<usize>| {
        let mut fs = LocalFilesystem::from_saved(items, children, roots);
        fs.post_deserialize()
    };
    let inconsistent = Err(SyncError::StateInconsistency);
    // a child list is missing
    assert_eq!(bad(vec![dir(1, "d", 1)], vec![], vec![0]), inconsistent);
    // a top-level handle names no item
    assert_eq!(bad(vec![dir(1, "d", 1)], vec![vec![]], vec![1]), inconsistent);
    // a top-level handle is listed twice
    assert_eq!(bad(vec![dir(1, "d", 1)], vec![vec![]], vec![0, 0]), inconsistent);
    // a child handle names no item
    assert_eq!(bad(vec![dir(1, "d", 1)], vec![vec![4]], vec![0]), inconsistent);
    // a child that does not come after its parent
    assert_eq!(
        bad(vec![dir(1, "d", 1), dir(2, "e", 1)], vec![vec![], vec![0]], vec![1]),
        inconsistent
    );
    // a child of itself
    assert_eq!(bad(vec![dir(1, "d", 1)], vec![vec![0]], vec![]), inconsistent);
    // a child of two parents
    assert_eq!(
        bad(
            vec![dir(1, "d", 1), dir(2, "e", 1), file(3, "f", 1)],
            vec![vec![2], vec![2], vec![]],
            vec![0, 1]
        ),
        inconsistent
    );
    // a child that is also a top-level item
    assert_eq!(
        bad(vec![dir(1, "d", 1), file(2, "f", 1)], vec![vec![1], vec![]], vec![0, 1]),
        inconsistent
    );
    // a child listed twice
    assert_eq!(
        bad(vec![dir(1, "d", 1), file(2, "f", 1)], vec![vec![1, 1], vec![]], vec![0]),
        inconsistent
    );
    // two children of one name
    assert_eq!(
        bad(
            vec![dir(1, "d", 1), file(2, "f", 1), file(3, "f", 1)],
            vec![vec![1, 2], vec![], vec![]],
            vec![0]
        ),
        inconsistent
    );
    // a file with a child
    assert_eq!(
        bad(vec![file(1, "d", 1), file(2, "f", 1)], vec![vec![1], vec![]], vec![0]),
        inconsistent
    );
}

#[test]
fn post_deserialize_keeps_names_times_and_lists() {
    let mut fs = LocalFilesystem::from_saved(
        vec![dir(1, "d", 5), file(2, "f", 6)],
        vec![vec![1], vec![]],
        vec![0],
    );
    fs.post_deserialize().unwrap();
    assert_eq!(fs.item(1).unwrap().name(), "f");
    assert_eq!(fs.item(1).unwrap().timestamp(), 6);
    assert_eq!(fs.item(1).unwrap().id(), 2);
    assert_eq!(fs.children(0).unwrap(), &vec![1]);
    assert_eq!(fs.get_roots(), Ok(vec![0]));
}

#[test]
fn error_messages_are_distinct() {
    let all = [
        SyncError::NotFound,
        SyncError::InvalidPath,
        SyncError::DuplicateName,
        SyncError::MissingParent,
        SyncError::NotADirectory,
        SyncError::LockPoisoned,
        SyncError::IoFailure,
        SyncError::StateInconsistency,
    ];
    for (i, a) in all.iter().enumerate() {
        assert!(!a.message().is_empty());
        for b in all.iter().skip(i + 1) {
            assert_ne!(a.message(), b.message());
        }
    }
    assert_eq!(SyncError::InvalidPath.message(), "invalid path");
}

#[test]
fn track_then_find_gives_the_same_item() {
    let (mut fs, ..) = sample();
    for p in [path(&["docs", "a.txt"]), path(&["docs", "sub", "new"]), path(&["fresh"]), path(&[".", "docs"])] {
        let h = fs.track(&p, 1, 42, true).unwrap();
        assert_eq!(fs.find_from_path(&p), Ok(Some(h)));
        assert_eq!(fs.item(h).unwrap().timestamp(), 42);
    }
}

#[test]
fn scan_failure_keeps_the_entries_before_it() {
    let mut fs = LocalFilesystem::new();
    let listing = vec![
        entry(None, 1, "a", 1, true),
        entry(None, 2, "d", 1, false),
        entry(Some(0), 3, "under-a-file", 1, true),
        entry(None, 4, "never", 1, true),
    ];
    assert_eq!(fs.scan_dir(&listing, None), Err(SyncError::NotADirectory));
    assert_eq!(fs.len(), 2);
    assert_eq!(fs.find_from_path(&path(&["d"])), Ok(Some(1)));
    assert_eq!(fs.find_from_path(&path(&["never"])), Ok(None));
}

#[test]
fn every_item_hangs_in_one_place() {
    let (mut fs, _, a, ..) = sample();
    fs.remove_item(a).unwrap();
    let roots = fs.get_roots().unwrap();
    for h in 0..fs.len() {
        let listed_by: Vec<usize> =
            (0..fs.len()).filter(|p| fs.children(*p).unwrap().contains(&h)).collect();
        match fs.item(h).unwrap().link() {
            Link::Root => {
                assert!(roots.contains(&h));
                assert!(listed_by.is_empty());
            }
            Link::Child(p) => {
                assert!(p < h);
                assert_eq!(listed_by, vec![p]);
                assert!(!roots.contains(&h));
            }
            Link::Detached => {
                assert!(!roots.contains(&h));
                assert!(listed_by.is_empty());
            }
        }
    }
}
