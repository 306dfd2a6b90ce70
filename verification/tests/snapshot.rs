use disk_cache::{
    decode_snapshot, install_snapshot, load_cache, save_cache_to_disk, snapshot_document,
    snapshot_text, CacheError, CacheStore, CachedEntry, FileKind, Json,
};

fn file(path: &str) -> CachedEntry {
    CachedEntry { file_path: path.to_string(), file_type: FileKind::File }
}

fn directory(path: &str) -> CachedEntry {
    CachedEntry { file_path: path.to_string(), file_type: FileKind::Directory }
}

fn sample() -> CacheStore {
    let mut store = CacheStore::new();
    let root = store.get_or_create_bucket("/");
    root.insert("x.txt".to_string(), file("/a/x.txt"));
    root.insert("x.txt".to_string(), file("/b/x.txt"));
    root.insert("y".to_string(), directory("/a/y"));
    store.get_or_create_bucket("/mnt/empty");
    store
}

fn entry_doc(path: &str, word: &str) -> Json {
    Json::Object(vec![
        ("file_path".to_string(), Json::Str(path.to_string())),
        ("file_type".to_string(), Json::Str(word.to_string())),
    ])
}

fn one_name_doc(entries: Json) -> Json {
    Json::Object(vec![(
        "/".to_string(),
        Json::Object(vec![("x".to_string(), entries)]),
    )])
}

#[test]
fn document_of_a_cache_lists_volumes_names_and_entries() {
    let expected = Json::Object(vec![
        (
            "/".to_string(),
            Json::Object(vec![
                (
                    "x.txt".to_string(),
                    Json::Array(vec![entry_doc("/a/x.txt", "file"), entry_doc("/b/x.txt", "file")]),
                ),
                ("y".to_string(), Json::Array(vec![entry_doc("/a/y", "directory")])),
            ]),
        ),
        ("/mnt/empty".to_string(), Json::Object(Vec::new())),
    ]);
    assert_eq!(snapshot_document(&sample()), expected);
}

#[test]
fn saved_text_is_the_json_of_the_cache() {
    let mut store = CacheStore::new();
    store.get_or_create_bucket("/").insert("x.txt".to_string(), file("/a/x.txt"));
    assert_eq!(
        save_cache_to_disk(&store),
        Ok("{\"/\":{\"x.txt\":[{\"file_path\":\"/a/x.txt\",\"file_type\":\"file\"}]}}".to_string())
    );
    assert_eq!(save_cache_to_disk(&CacheStore::new()), Ok("{}".to_string()));
}

#[test]
fn load_after_save_gives_the_cache_back() {
    let saved = sample();
    let text = save_cache_to_disk(&saved).unwrap();
    let mut loaded = CacheStore::new();
    loaded.get_or_create_bucket("stale").insert("old".to_string(), file("/old"));
    assert_eq!(load_cache(&mut loaded, Some(text)), Ok(()));
    let mut ids = loaded.volume_ids();
    ids.sort();
    assert_eq!(ids, vec!["/".to_string(), "/mnt/empty".to_string()]);
    assert_eq!(loaded.lookup("/", "x.txt"), vec![file("/a/x.txt"), file("/b/x.txt")]);
    assert_eq!(loaded.lookup("/", "y"), vec![directory("/a/y")]);
    assert!(loaded.bucket("/mnt/empty").unwrap().is_empty());
    assert_eq!(loaded.bucket("/").unwrap().len(), 2);
    assert!(!loaded.contains_volume("stale"));
}

#[test]
fn load_of_a_snapshot_written_by_hand() {
    let text = r#" { "C:": { "notes.md": [ { "file_type": "file", "file_path": "C:/notes.md" } ],
                           "src": [ { "file_path": "C:/src", "file_type": "directory" } ] } } "#;
    let mut store = CacheStore::new();
    assert_eq!(load_cache(&mut store, Some(text.to_string())), Ok(()));
    assert_eq!(store.lookup("C:", "notes.md"), vec![file("C:/notes.md")]);
    assert_eq!(store.lookup("C:", "src"), vec![directory("C:/src")]);
}

#[test]
fn unreadable_file_is_an_io_failure() {
    let mut store = sample();
    assert_eq!(load_cache(&mut store, None), Err(CacheError::IoFailure));
    assert_eq!(store.lookup("/", "y"), vec![directory("/a/y")]);
}

#[test]
fn corrupt_snapshot_is_surfaced_and_leaves_the_cache() {
    let texts = [
        "",
        "{",
        "not json",
        "[]",
        "null",
        "{\"/\": []}",
        "{\"/\": {\"x\": {}}}",
        "{\"/\": {\"x\": [1]}}",
        "{\"/\": {\"x\": [{\"file_path\": \"/x\"}]}}",
        "{\"/\": {\"x\": [{\"file_path\": \"/x\", \"file_type\": \"socket\"}]}}",
        "{\"/\": {\"x\": [{\"file_path\": 1, \"file_type\": \"file\"}]}}",
        "{\"/\": {\"x\": [{\"file_path\": \"/x\", \"file_type\": \"file\", \"size\": 1}]}}",
        "{\"/\": {\"ok\": [{\"file_path\": \"/ok\", \"file_type\": \"file\"}], \"x\": [null]}}",
    ];
    for text in texts {
        let mut store = sample();
        assert_eq!(
            load_cache(&mut store, Some(text.to_string())),
            Err(CacheError::CorruptSnapshot),
            "{}",
            text
        );
        assert_eq!(store.lookup("/", "x.txt"), vec![file("/a/x.txt"), file("/b/x.txt")]);
        assert!(store.contains_volume("/mnt/empty"));
        assert!(!store.bucket("/").unwrap().contains_name("ok"));
    }
}

#[test]
fn empty_snapshot_loads_an_empty_cache() {
    let mut store = sample();
    assert_eq!(load_cache(&mut store, Some("{}".to_string())), Ok(()));
    assert!(store.is_empty());
}

#[test]
fn decode_reads_the_document_of_a_snapshot() {
    let doc = one_name_doc(Json::Array(vec![entry_doc("/x", "file"), entry_doc("/d/x", "directory")]));
    let store = decode_snapshot(&doc).unwrap();
    assert_eq!(store.lookup("/", "x"), vec![file("/x"), directory("/d/x")]);
    assert_eq!(store.volume_ids(), vec!["/".to_string()]);
}

#[test]
fn decode_adds_up_members_of_the_same_key() {
    let doc = Json::Object(vec![
        (
            "/".to_string(),
            Json::Object(vec![
                ("x".to_string(), Json::Array(vec![entry_doc("/1/x", "file")])),
                ("x".to_string(), Json::Array(vec![entry_doc("/2/x", "file")])),
            ]),
        ),
        (
            "/".to_string(),
            Json::Object(vec![("x".to_string(), Json::Array(vec![entry_doc("/3/x", "file")]))]),
        ),
    ]);
    let store = decode_snapshot(&doc).unwrap();
    assert_eq!(store.lookup("/", "x"), vec![file("/1/x"), file("/2/x"), file("/3/x")]);
}

#[test]
fn decode_drops_a_name_without_entries() {
    let store = decode_snapshot(&one_name_doc(Json::Array(Vec::new()))).unwrap();
    assert!(store.contains_volume("/"));
    assert!(store.bucket("/").unwrap().is_empty());
}

#[test]
fn decode_refuses_other_shapes() {
    let wrong = [
        Json::Null,
        Json::Bool(true),
        Json::Str("{}".to_string()),
        Json::Array(Vec::new()),
        Json::Object(vec![("/".to_string(), Json::Array(Vec::new()))]),
        one_name_doc(Json::Null),
        one_name_doc(Json::Array(vec![Json::Str("/x".to_string())])),
        one_name_doc(Json::Array(vec![entry_doc("/x", "File")])),
        one_name_doc(Json::Array(vec![entry_doc("/x", "")])),
        one_name_doc(Json::Array(vec![Json::Object(vec![
            ("file_type".to_string(), Json::Str("file".to_string())),
            ("file_path".to_string(), Json::Str("/x".to_string())),
        ])])),
        one_name_doc(Json::Array(vec![Json::Object(vec![
            ("file_path".to_string(), Json::Str("/x".to_string())),
            ("file_type".to_string(), Json::Bool(false)),
        ])])),
    ];
    for doc in wrong {
        assert!(matches!(decode_snapshot(&doc), Err(CacheError::CorruptSnapshot)));
    }
}

#[test]
fn install_takes_the_parsed_document_or_leaves_the_cache() {
    let mut store = sample();
    let broken = serde_json::from_str::<serde_json::Value>("{").map(|_| Json::Null);
    assert!(broken.is_err());
    assert_eq!(install_snapshot(&mut store, broken), Err(CacheError::CorruptSnapshot));
    assert!(store.contains_volume("/"));
    assert_eq!(install_snapshot(&mut store, Ok(Json::Null)), Err(CacheError::CorruptSnapshot));
    assert!(store.contains_volume("/"));
    let doc = one_name_doc(Json::Array(vec![entry_doc("/x", "file")]));
    assert_eq!(install_snapshot(&mut store, Ok(doc)), Ok(()));
    assert_eq!(store.lookup("/", "x"), vec![file("/x")]);
    assert!(!store.contains_volume("/mnt/empty"));
}

#[test]
fn snapshot_text_maps_a_failed_writing() {
    assert_eq!(snapshot_text(Ok("{}".to_string())), Ok("{}".to_string()));
    let failed = serde_json::from_str::<String>("1");
    assert!(failed.is_err());
    assert_eq!(snapshot_text(failed), Err(CacheError::SerializationFailure));
}

#[test]
fn paths_with_quotes_and_unicode_round_trip() {
    let mut store = CacheStore::new();
    let path = "/tmp/\"quoted\"\\back\u{e9}\u{4e2d}\n";
    store.get_or_create_bucket("/").insert("weird \"name\"".to_string(), file(path));
    let text = save_cache_to_disk(&store).unwrap();
    let mut loaded = CacheStore::new();
    assert_eq!(load_cache(&mut loaded, Some(text)), Ok(()));
    assert_eq!(loaded.lookup("/", "weird \"name\""), vec![file(path)]);
}

#[test]
fn order_of_members_does_not_change_the_cache() {
    let x = ("x".to_string(), Json::Array(vec![entry_doc("/1/x", "file"), entry_doc("/2/x", "file")]));
    let y = ("y".to_string(), Json::Array(vec![entry_doc("/y", "directory")]));
    let x_again = ("x".to_string(), Json::Array(vec![entry_doc("/1/x", "file"), entry_doc("/2/x", "file")]));
    let y_again = ("y".to_string(), Json::Array(vec![entry_doc("/y", "directory")]));
    let one = Json::Object(vec![
        ("/".to_string(), Json::Object(vec![x, y])),
        ("D:".to_string(), Json::Object(Vec::new())),
    ]);
    let other = Json::Object(vec![
        ("D:".to_string(), Json::Object(Vec::new())),
        ("/".to_string(), Json::Object(vec![y_again, x_again])),
    ]);
    let first = decode_snapshot(&one).unwrap();
    let second = decode_snapshot(&other).unwrap();
    for store in [&first, &second] {
        let mut ids = store.volume_ids();
        ids.sort();
        assert_eq!(ids, vec!["/".to_string(), "D:".to_string()]);
        assert_eq!(store.lookup("/", "x"), vec![file("/1/x"), file("/2/x")]);
        assert_eq!(store.lookup("/", "y"), vec![directory("/y")]);
        assert_eq!(store.bucket("/").unwrap().len(), 2);
        assert!(store.bucket("D:").unwrap().is_empty());
    }
}

#[test]
fn saved_text_does_not_depend_on_the_order_of_insertion() {
    let mut one = CacheStore::new();
    one.get_or_create_bucket("b").insert("n".to_string(), file("b/n"));
    one.get_or_create_bucket("a").insert("z".to_string(), file("a/z"));
    one.get_or_create_bucket("a").insert("m".to_string(), file("a/m"));
    let mut other = CacheStore::new();
    other.get_or_create_bucket("a").insert("m".to_string(), file("a/m"));
    other.get_or_create_bucket("a").insert("z".to_string(), file("a/z"));
    other.get_or_create_bucket("b").insert("n".to_string(), file("b/n"));
    let text = save_cache_to_disk(&one).unwrap();
    assert_eq!(save_cache_to_disk(&other).unwrap(), text);
    assert_eq!(
        text,
        "{\"a\":{\"m\":[{\"file_path\":\"a/m\",\"file_type\":\"file\"}],\
         \"z\":[{\"file_path\":\"a/z\",\"file_type\":\"file\"}]},\
         \"b\":{\"n\":[{\"file_path\":\"b/n\",\"file_type\":\"file\"}]}}"
    );
}
