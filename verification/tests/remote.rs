use fileshare_client::error::SyncError;
use fileshare_client::filesystem::Filesystem;
use fileshare_client::item::{Item, RemoteItem};
use fileshare_client::remote::RemoteFilesystem;

fn path(segments: &[&str]) -> Vec<String> {
    segments.iter().map(|s| s.to_string()).collect()
}

fn remote_file(id: u64, parent: Option<u64>, name: &str, timestamp: u64) -> RemoteItem {
    RemoteItem::new(id, parent, name.to_string(), timestamp, true)
}

fn remote_dir(id: u64, parent: Option<u64>, name: &str, timestamp: u64) -> RemoteItem {
    RemoteItem::new(id, parent, name.to_string(), timestamp, false)
}

/// docs(10)/ { a.txt(11), sub(12)/ { b.txt(13) } }, top.txt(14)
fn sample_remote() -> RemoteFilesystem {
    let mut fs = RemoteFilesystem::new();
    fs.add_item(remote_dir(10, None, "docs", 100));
    fs.add_item(remote_file(11, Some(10), "a.txt", 10));
    fs.add_item(remote_dir(12, Some(10), "sub", 50));
    fs.add_item(remote_file(13, Some(12), "b.txt", 20));
    fs.add_item(remote_file(14, None, "top.txt", 30));
    fs
}

#[test]
fn remote_item_accessors_report_what_was_stored() {
    let mut item = remote_file(7, Some(3), "f", 9);
    assert_eq!(item.id(), 7);
    assert_eq!(item.name(), "f");
    assert_eq!(item.timestamp(), 9);
    assert!(item.is_regular_file());
    assert_eq!(item.get_parent(), Some(3));
    item.set_parent(None);
    assert_eq!(item.get_parent(), None);
    let copy = item.duplicate();
    assert_eq!((copy.id(), copy.timestamp(), copy.get_parent()), (7, 9, None));
}

#[test]
fn new_remote_index_is_empty() {
    let fs = RemoteFilesystem::new();
    assert_eq!(fs.get_roots(), Ok(vec![]));
    assert!(fs.find_item(1).is_none());
    assert_eq!(fs.get_children(1), Ok(vec![]));
    assert!(fs.ids().is_empty());
}

#[test]
fn add_item_indexes_by_identity_and_declared_parent() {
    let fs = sample_remote();
    assert_eq!(fs.get_roots(), Ok(vec![10, 14]));
    assert_eq!(fs.get_children(10), Ok(vec![11, 12]));
    assert_eq!(fs.get_children(12), Ok(vec![13]));
    assert_eq!(fs.get_children(13), Ok(vec![]));
    assert_eq!(fs.find_item(13).unwrap().name(), "b.txt");
    assert_eq!(fs.find_item(13).unwrap().timestamp(), 20);
    assert!(fs.find_item(99).is_none());
    assert_eq!(fs.ids(), &vec![10, 11, 12, 13, 14]);
}

#[test]
fn add_item_accepts_children_before_their_parent() {
    let mut fs = RemoteFilesystem::new();
    fs.add_item(remote_file(2, Some(1), "f", 5));
    assert_eq!(fs.get_children(1), Ok(vec![2]));
    assert_eq!(fs.path_from_root(2), Err(SyncError::MissingParent));
    fs.add_item(remote_dir(1, None, "d", 5));
    assert_eq!(fs.path_from_root(2), Ok(path(&["d", "f"])));
    assert_eq!(fs.find_from_path(&path(&["d", "f"])), Ok(Some(2)));
}

#[test]
fn add_item_twice_replaces_the_item_and_lists_it_once() {
    let mut fs = sample_remote();
    fs.add_item(remote_file(11, Some(10), "a.txt", 77));
    fs.add_item(remote_dir(10, None, "docs", 101));
    assert_eq!(fs.get_children(10), Ok(vec![11, 12]));
    assert_eq!(fs.get_roots(), Ok(vec![10, 14]));
    assert_eq!(fs.find_item(11).unwrap().timestamp(), 77);
    assert_eq!(fs.ids(), &vec![10, 11, 12, 13, 14]);
}

#[test]
fn an_item_that_moves_stays_listed_where_it_was() {
    let mut fs1 = RemoteFilesystem::new();
    fs1.add_item(remote_file(2, Some(1), "f", 5));
    fs1.add_item(remote_dir(1, None, "d", 5));
    assert_eq!(fs1.get_children(1), Ok(vec![2]));
    // an item that moved leaves its old listing behind; all listed items still exist
    fs1.add_item(remote_file(2, None, "f", 6));
    assert_eq!(fs1.get_children(1), Ok(vec![2]));
    assert_eq!(fs1.get_roots(), Ok(vec![1, 2]));
}

#[test]
fn remote_find_from_path_descends_by_exact_name() {
    let fs = sample_remote();
    assert_eq!(fs.find_from_path(&path(&["docs"])), Ok(Some(10)));
    assert_eq!(fs.find_from_path(&path(&["docs", "a.txt"])), Ok(Some(11)));
    assert_eq!(fs.find_from_path(&path(&["docs", "sub", "b.txt"])), Ok(Some(13)));
    assert_eq!(fs.find_from_path(&path(&[".", "top.txt"])), Ok(Some(14)));
    assert_eq!(fs.find_from_path(&path(&["docs", ".", "sub"])), Ok(Some(12)));
}

#[test]
fn remote_find_from_path_fails_with_not_found() {
    let fs = sample_remote();
    assert_eq!(fs.find_from_path(&path(&["nope"])), Err(SyncError::NotFound));
    assert_eq!(fs.find_from_path(&path(&["docs", "nope"])), Err(SyncError::NotFound));
    assert_eq!(fs.find_from_path(&path(&["top.txt", "x"])), Err(SyncError::NotFound));
    assert_eq!(fs.find_from_path(&path(&["docs", "a.txt", "x"])), Err(SyncError::NotFound));
}

#[test]
fn remote_find_from_path_rejects_empty_and_dot_only_paths() {
    let fs = sample_remote();
    assert_eq!(fs.find_from_path(&path(&[])), Err(SyncError::InvalidPath));
    assert_eq!(fs.find_from_path(&path(&["."])), Err(SyncError::InvalidPath));
    assert_eq!(fs.find_from_path(&path(&["docs", "."])), Err(SyncError::InvalidPath));
}

#[test]
fn remote_find_from_path_tries_the_next_item_of_the_same_name() {
    let mut fs = RemoteFilesystem::new();
    fs.add_item(remote_file(1, None, "n", 1));
    fs.add_item(remote_dir(2, None, "n", 2));
    fs.add_item(remote_file(3, Some(2), "x", 3));
    // the first "n" has no children recorded, so the descent goes on with the second
    assert_eq!(fs.find_from_path(&path(&["n", "x"])), Ok(Some(3)));
    assert_eq!(fs.find_from_path(&path(&["n"])), Ok(Some(1)));
}

#[test]
fn remote_path_from_root_follows_parent_identities() {
    let fs = sample_remote();
    assert_eq!(fs.path_from_root(10), Ok(path(&["docs"])));
    assert_eq!(fs.path_from_root(13), Ok(path(&["docs", "sub", "b.txt"])));
    assert_eq!(fs.path_from_root(99), Err(SyncError::NotFound));
}

#[test]
fn remote_path_from_root_detects_a_circle() {
    let mut fs = RemoteFilesystem::new();
    fs.add_item(remote_dir(1, Some(2), "a", 1));
    fs.add_item(remote_dir(2, Some(1), "b", 1));
    assert_eq!(fs.path_from_root(1), Err(SyncError::StateInconsistency));
}

#[test]
fn remote_path_round_trip() {
    let fs = sample_remote();
    for id in fs.ids().clone() {
        let p = fs.path_from_root(id).unwrap();
        assert_eq!(fs.find_from_path(&p), Ok(Some(id)));
    }
}
