use disk_cache::{
    cache_disk, classify, index_walk, record, CacheError, CacheStore, CachedEntry, FileKind,
    NameIndex, WalkItem,
};

fn visited(name: &str, path: &str, is_dir: bool) -> WalkItem {
    WalkItem::Visited { file_name: name.to_string(), file_path: path.to_string(), is_dir }
}

fn file(path: &str) -> CachedEntry {
    CachedEntry { file_path: path.to_string(), file_type: FileKind::File }
}

fn directory(path: &str) -> CachedEntry {
    CachedEntry { file_path: path.to_string(), file_type: FileKind::Directory }
}

fn sorted_paths(entries: &[CachedEntry]) -> Vec<String> {
    let mut paths: Vec<String> = entries.iter().map(|e| e.file_path.clone()).collect();
    paths.sort();
    paths
}

#[test]
fn classify_tells_directories_from_files() {
    assert_eq!(classify(true), FileKind::Directory);
    assert_eq!(classify(false), FileKind::File);
}

#[test]
fn new_entry_takes_path_and_kind() {
    assert_eq!(CachedEntry::new("/a/y".to_string(), true), directory("/a/y"));
    assert_eq!(CachedEntry::new("/a/x.txt".to_string(), false), file("/a/x.txt"));
}

#[test]
fn entries_differ_by_path_or_kind() {
    assert_ne!(file("/a"), directory("/a"));
    assert_ne!(file("/a"), file("/b"));
    assert_eq!(file("/a").clone(), file("/a"));
}

#[test]
fn new_index_is_empty() {
    let index = NameIndex::new();
    assert!(index.is_empty());
    assert_eq!(index.len(), 0);
    assert!(index.names().is_empty());
    assert!(!index.contains_name("x.txt"));
    assert!(index.get("x.txt").is_none());
    assert_eq!(index.entries_named("x.txt"), Vec::<CachedEntry>::new());
}

#[test]
fn insert_appends_under_the_name() {
    let mut index = NameIndex::new();
    index.insert("x.txt".to_string(), file("/a/x.txt"));
    index.insert("y".to_string(), directory("/a/y"));
    index.insert("x.txt".to_string(), file("/b/x.txt"));
    assert!(!index.is_empty());
    assert_eq!(index.len(), 2);
    assert_eq!(index.names(), vec!["x.txt".to_string(), "y".to_string()]);
    assert!(index.contains_name("y"));
    assert!(!index.contains_name("z"));
    assert_eq!(index.entries_named("x.txt"), vec![file("/a/x.txt"), file("/b/x.txt")]);
    assert_eq!(index.entries_named("y"), vec![directory("/a/y")]);
    assert_eq!(index.get("y"), Some(&vec![directory("/a/y")]));
}

#[test]
fn extend_appends_all_and_ignores_nothing_to_add() {
    let mut index = NameIndex::new();
    index.extend("x".to_string(), Vec::new());
    assert!(index.is_empty());
    index.extend("x".to_string(), vec![file("/1/x"), file("/2/x")]);
    index.extend("x".to_string(), vec![directory("/3/x")]);
    index.extend("x".to_string(), Vec::new());
    assert_eq!(index.len(), 1);
    assert_eq!(index.entries_named("x"), vec![file("/1/x"), file("/2/x"), directory("/3/x")]);
}

#[test]
fn same_entry_inserted_twice_stands_twice() {
    let mut index = NameIndex::new();
    index.insert("x".to_string(), file("/x"));
    index.insert("x".to_string(), file("/x"));
    assert_eq!(index.entries_named("x"), vec![file("/x"), file("/x")]);
}

#[test]
fn record_keeps_visited_and_drops_unreadable() {
    let mut index = NameIndex::new();
    assert!(record(&mut index, &visited("y", "/a/y", true)));
    assert!(!record(&mut index, &WalkItem::Unreadable));
    assert_eq!(index.len(), 1);
    assert_eq!(index.entries_named("y"), vec![directory("/a/y")]);
}

#[test]
fn walk_of_three_objects_gives_the_expected_index() {
    let mut store = CacheStore::new();
    let items = vec![
        visited("x.txt", "/a/x.txt", false),
        visited("x.txt", "/b/x.txt", false),
        visited("y", "/a/y", true),
    ];
    let report = cache_disk(&mut store, &items, "/");
    assert_eq!(report, None);
    let index = store.bucket("/").unwrap();
    assert_eq!(index.len(), 2);
    assert_eq!(
        sorted_paths(&index.entries_named("x.txt")),
        vec!["/a/x.txt".to_string(), "/b/x.txt".to_string()]
    );
    assert!(index.entries_named("x.txt").iter().all(|e| e.file_type == FileKind::File));
    assert_eq!(index.entries_named("y"), vec![directory("/a/y")]);
    assert_eq!(store.lookup("/", "y"), vec![directory("/a/y")]);
}

#[test]
fn empty_root_gives_an_empty_index_and_no_error() {
    let mut store = CacheStore::new();
    let report = cache_disk(&mut store, &Vec::new(), "/mnt/empty");
    assert_eq!(report, None);
    assert!(store.contains_volume("/mnt/empty"));
    assert!(store.bucket("/mnt/empty").unwrap().is_empty());
    assert_eq!(store.lookup("/mnt/empty", "anything"), Vec::<CachedEntry>::new());
}

#[test]
fn unreadable_objects_are_skipped_and_reported() {
    let mut store = CacheStore::new();
    let items = vec![
        visited("a", "/a", true),
        WalkItem::Unreadable,
        visited("b", "/b", false),
        WalkItem::Unreadable,
    ];
    let report = cache_disk(&mut store, &items, "/");
    assert_eq!(report, Some(CacheError::VolumeWalkPartial));
    let index = store.bucket("/").unwrap();
    assert_eq!(index.len(), 2);
    assert_eq!(index.entries_named("a"), vec![directory("/a")]);
    assert_eq!(index.entries_named("b"), vec![file("/b")]);
}

#[test]
fn walk_with_only_unreadable_objects_leaves_an_empty_index() {
    let mut index = NameIndex::new();
    let report = index_walk(&mut index, &vec![WalkItem::Unreadable]);
    assert_eq!(report, Some(CacheError::VolumeWalkPartial));
    assert!(index.is_empty());
}

#[test]
fn second_walk_of_a_volume_adds_to_its_index() {
    let mut store = CacheStore::new();
    cache_disk(&mut store, &vec![visited("a", "/1/a", false)], "/");
    cache_disk(&mut store, &vec![visited("a", "/2/a", false)], "/");
    assert_eq!(store.lookup("/", "a"), vec![file("/1/a"), file("/2/a")]);
    assert_eq!(store.volume_ids(), vec!["/".to_string()]);
}

#[test]
fn walks_of_two_volumes_keep_apart() {
    let mut store = CacheStore::new();
    cache_disk(&mut store, &vec![visited("a", "/a", false)], "/");
    cache_disk(&mut store, &vec![visited("a", "D:/a", true)], "D:");
    assert_eq!(store.volume_ids(), vec!["/".to_string(), "D:".to_string()]);
    assert_eq!(store.lookup("/", "a"), vec![file("/a")]);
    assert_eq!(store.lookup("D:", "a"), vec![directory("D:/a")]);
    assert_eq!(store.lookup("E:", "a"), Vec::<CachedEntry>::new());
    assert_eq!(store.lookup("/", "b"), Vec::<CachedEntry>::new());
}

#[test]
fn two_builds_in_different_order_are_set_equal() {
    let forward = vec![
        visited("x", "/1/x", false),
        visited("y", "/y", true),
        visited("x", "/2/x", false),
        visited("x", "/3/x", true),
    ];
    let backward = vec![
        visited("x", "/3/x", true),
        visited("x", "/2/x", false),
        visited("y", "/y", true),
        visited("x", "/1/x", false),
    ];
    let mut one = NameIndex::new();
    let mut other = NameIndex::new();
    index_walk(&mut one, &forward);
    index_walk(&mut other, &backward);
    let mut names_one = one.names();
    let mut names_other = other.names();
    names_one.sort();
    names_other.sort();
    assert_eq!(names_one, names_other);
    for name in names_one {
        assert_eq!(
            sorted_paths(&one.entries_named(&name)),
            sorted_paths(&other.entries_named(&name))
        );
    }
    assert_eq!(one.entries_named("x"), vec![file("/1/x"), file("/2/x"), directory("/3/x")]);
    assert_eq!(other.entries_named("x"), vec![directory("/3/x"), file("/2/x"), file("/1/x")]);
}

#[test]
fn interleaved_insertions_are_all_present_once() {
    let workers = 4;
    let per_worker = 25;
    let mut index = NameIndex::new();
    for round in 0..per_worker {
        for worker in 0..workers {
            let name = format!("n{}", round % 5);
            let path = format!("/w{}/{}", worker, round);
            assert!(record(&mut index, &visited(&name, &path, false)));
        }
    }
    let mut total = 0;
    let mut seen: Vec<String> = Vec::new();
    for name in index.names() {
        for entry in index.entries_named(&name) {
            total += 1;
            assert!(!seen.contains(&entry.file_path));
            seen.push(entry.file_path);
        }
    }
    assert_eq!(total, workers * per_worker);
    assert_eq!(index.len(), 5);
    assert_eq!(index.entries_named("n0").len(), 20);
}

#[test]
fn get_or_create_bucket_creates_once() {
    let mut store = CacheStore::new();
    assert!(store.is_empty());
    assert!(store.bucket("/").is_none());
    assert!(store.get_or_create_bucket("/").is_empty());
    assert!(!store.is_empty());
    store.get_or_create_bucket("/").insert("a".to_string(), file("/a"));
    assert_eq!(store.get_or_create_bucket("/").len(), 1);
    assert_eq!(store.volume_ids(), vec!["/".to_string()]);
    assert_eq!(store.lookup("/", "a"), vec![file("/a")]);
}

#[test]
fn replace_puts_another_cache_in_place() {
    let mut store = CacheStore::new();
    store.get_or_create_bucket("/").insert("a".to_string(), file("/a"));
    let mut other = CacheStore::new();
    other.get_or_create_bucket("D:").insert("b".to_string(), file("D:/b"));
    store.replace(other);
    assert!(!store.contains_volume("/"));
    assert_eq!(store.lookup("D:", "b"), vec![file("D:/b")]);
}

#[test]
fn buckets_list_each_name_with_its_entries() {
    let mut index = NameIndex::new();
    index.insert("x".to_string(), file("/1/x"));
    index.insert("y".to_string(), directory("/y"));
    index.insert("x".to_string(), file("/2/x"));
    let mut listed: Vec<(String, Vec<CachedEntry>)> =
        index.buckets().into_iter().map(|(name, entries)| (name.clone(), entries.clone())).collect();
    listed.sort_by(|a, b| a.0.cmp(&b.0));
    assert_eq!(
        listed,
        vec![
            ("x".to_string(), vec![file("/1/x"), file("/2/x")]),
            ("y".to_string(), vec![directory("/y")]),
        ]
    );
    assert!(NameIndex::new().buckets().is_empty());
}

#[test]
fn volumes_list_each_volume_with_its_index() {
    let mut store = CacheStore::new();
    cache_disk(&mut store, &vec![visited("a", "/a", false)], "/");
    cache_disk(&mut store, &Vec::new(), "D:");
    let mut listed: Vec<(String, usize)> =
        store.volumes().into_iter().map(|(id, index)| (id.clone(), index.len())).collect();
    listed.sort();
    assert_eq!(listed, vec![("/".to_string(), 1), ("D:".to_string(), 0)]);
    assert!(CacheStore::new().volumes().is_empty());
}
