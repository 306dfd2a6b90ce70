use vstd::prelude::*;
use crate::cache_store::{bucket_of, CacheStore, StoreMap};
use crate::entry::{entry_views, CacheError, CachedEntry, EntryView, FileKind};
use crate::json::{
    json_parse, json_text, json_views, lemma_array_view, lemma_object_view, member_views,
    parse_json, render_json, Json, JsonView, Members,
};
use crate::name_index::{extended, NameIndex, NameMap};

verus! {

/// Whether each key of `members` stands once.
pub open spec fn keys_distinct(members: Members) -> bool {
    forall|i: int, j: int|
        0 <= i < members.len() && 0 <= j < members.len() && (#[trigger] members[i]).0 == (
        #[trigger] members[j]).0 ==> i == j
}

/// Whether a snapshot holds each volume once, and for each volume each name
/// once.
pub open spec fn keys_once(doc: JsonView) -> bool {
    &&& doc is Object
    &&& keys_distinct(doc->Object_0)
    &&& forall|i: int|
        0 <= i < doc->Object_0.len() ==> (#[trigger] doc->Object_0[i]).1 is Object
            && keys_distinct(doc->Object_0[i].1->Object_0)
}

/// The word that stands for a kind in a snapshot.
pub open spec fn kind_text(kind: FileKind) -> Seq<char> {
    match kind {
        FileKind::File => "file"@,
        FileKind::Directory => "directory"@,
    }
}

/// The kind that a word of a snapshot stands for.
pub open spec fn decode_kind(text: Seq<char>) -> Option<FileKind> {
    if text == "file"@ {
        Some(FileKind::File)
    } else if text == "directory"@ {
        Some(FileKind::Directory)
    } else {
        None
    }
}

/// The object that stands for an entry in a snapshot: its path, then its kind.
pub open spec fn entry_document(entry: EntryView) -> JsonView {
    JsonView::Object(
        seq![
            ("file_path"@, JsonView::Str(entry.file_path)),
            ("file_type"@, JsonView::Str(kind_text(entry.file_type))),
        ],
    )
}

/// The entry that a document stands for: the document is an object of exactly
/// two members, `file_path` with a string and `file_type` with the word of a kind.
pub open spec fn decode_entry(doc: JsonView) -> Option<EntryView> {
    match doc {
        JsonView::Object(members) => {
            if members.len() == 2 && members[0].0 == "file_path"@ && members[1].0 == "file_type"@ {
                match (members[0].1, members[1].1) {
                    (JsonView::Str(file_path), JsonView::Str(word)) => match decode_kind(word) {
                        Some(file_type) => Some(EntryView { file_path, file_type }),
                        None => None,
                    },
                    _ => None,
                }
            } else {
                None
            }
        },
        _ => None,
    }
}

/// The entries that a list of documents stands for, where each stands for one.
pub open spec fn decode_entries(items: Seq<JsonView>) -> Option<Seq<EntryView>> {
    if forall|i: int| 0 <= i < items.len() ==> (#[trigger] decode_entry(items[i])) is Some {
        Some(Seq::new(items.len(), |i: int| decode_entry(items[i])->Some_0))
    } else {
        None
    }
}

/// `index` after the members of a volume's object were read into it, in their
/// order: each member is a base name with an array of entries, which are
/// recorded under that name.
pub open spec fn decode_names(index: NameMap, members: Members) -> Option<NameMap>
    decreases members.len(),
{
    if members.len() == 0 {
        Some(index)
    } else {
        match (decode_names(index, members.drop_last()), members.last().1) {
            (Some(front), JsonView::Array(items)) => match decode_entries(items) {
                Some(entries) => Some(extended(front, members.last().0, entries)),
                None => None,
            },
            _ => None,
        }
    }
}

/// The cache that the members of a snapshot's object stand for, read in their
/// order: each member is a volume identifier with the object of that volume.
pub open spec fn decode_volumes(members: Members) -> Option<StoreMap>
    decreases members.len(),
{
    if members.len() == 0 {
        Some(StoreMap::empty())
    } else {
        match (decode_volumes(members.drop_last()), members.last().1) {
            (Some(front), JsonView::Object(names)) => match decode_names(
                bucket_of(front, members.last().0),
                names,
            ) {
                Some(index) => Some(front.insert(members.last().0, index)),
                None => None,
            },
            _ => None,
        }
    }
}

/// The cache that a document stands for, where it is a snapshot.
pub open spec fn decode_document(doc: JsonView) -> Option<StoreMap> {
    match doc {
        JsonView::Object(members) => decode_volumes(members),
        _ => None,
    }
}

/// The cache that a text stands for, where it is the text of a snapshot.
pub open spec fn snapshot_meaning(text: Seq<char>) -> Option<StoreMap> {
    match json_parse(text) {
        Some(doc) => decode_document(doc),
        None => None,
    }
}

/// Whether `text` is what a document that stands for `store` is written as.
pub open spec fn is_snapshot_of(text: Seq<char>, store: StoreMap) -> bool {
    exists|doc: JsonView| #[trigger]
        decode_document(doc) == Some(store) && json_text(doc) == Some(text)
}

/// The kind that a word of a snapshot stands for.
pub fn kind_from_word(word: &String) -> (kind: Option<FileKind>)
    ensures
        kind == decode_kind(word@),
{
    let file = "file".to_owned();
    let directory = "directory".to_owned();
    if *word == file {
        Some(FileKind::File)
    } else if *word == directory {
        Some(FileKind::Directory)
    } else {
        None
    }
}

/// Reads one entry from its document.
pub fn entry_from_json(doc: &Json) -> (entry: Option<CachedEntry>)
    ensures
        match entry {
            Some(entry) => decode_entry(doc@) == Some(entry@),
            None => decode_entry(doc@) is None,
        },
{
    match doc {
        Json::Object(members) => {
            proof {
                lemma_object_view(*members);
            }
            if members.len() != 2 {
                return None;
            }
            let path_key = "file_path".to_owned();
            let kind_key = "file_type".to_owned();
            if !(members[0].0 == path_key && members[1].0 == kind_key) {
                return None;
            }
            match (&members[0].1, &members[1].1) {
                (Json::Str(file_path), Json::Str(word)) => {
                    match kind_from_word(word) {
                        Some(file_type) => Some(
                            CachedEntry { file_path: file_path.clone(), file_type },
                        ),
                        None => None,
                    }
                },
                _ => None,
            }
        },
        _ => None,
    }
}

/// Reads the entries of an array, all or none.
pub fn entries_from_json(items: &Vec<Json>) -> (entries: Option<Vec<CachedEntry>>)
    ensures
        match entries {
            Some(entries) => decode_entries(json_views(items@)) == Some(entry_views(entries@)),
            None => decode_entries(json_views(items@)) is None,
        },
{
    let ghost views = json_views(items@);
    let mut entries: Vec<CachedEntry> = Vec::new();
    let mut i: usize = 0;
    while i < items.len()
        invariant
            i <= items.len(),
            views == json_views(items@),
            entries.len() == i,
            forall|k: int| 0 <= k < i ==> decode_entry(views[k]) == Some(#[trigger] entries[k]@),
        decreases items.len() - i,
    {
        match entry_from_json(&items[i]) {
            Some(entry) => {
                entries.push(entry);
            },
            None => {
                assert(decode_entry(views[i as int]) is None);
                return None;
            },
        }
        i += 1;
    }
    proof {
        assert forall|k: int| 0 <= k < views.len() implies (#[trigger] decode_entry(
            views[k],
        )) is Some by {
            assert(decode_entry(views[k]) == Some(entries[k]@));
        }
        assert(decode_entries(views)->Some_0 =~= entry_views(entries@));
    }
    Some(entries)
}

/// Reads the members of a volume's object into `index`, and says whether all of
/// them could be read. Where one could not, `index` is left with what came
/// before it.
fn names_from_json(index: &mut NameIndex, members: &Vec<(String, Json)>) -> (complete: bool)
    ensures
        complete ==> decode_names(old(index)@, member_views(members@)) == Some(final(index)@),
        !complete ==> decode_names(old(index)@, member_views(members@)) is None,
{
    let ghost views = member_views(members@);
    let mut i: usize = 0;
    while i < members.len()
        invariant
            i <= members.len(),
            views == member_views(members@),
            decode_names(old(index)@, views.subrange(0, i as int)) == Some(index@),
        decreases members.len() - i,
    {
        proof {
            assert(views.subrange(0, i + 1).drop_last() =~= views.subrange(0, i as int));
            assert(views.subrange(0, i + 1).last() == views[i as int]);
            lemma_decode_names_fails_on(old(index)@, views, i + 1);
        }
        match &members[i].1 {
            Json::Array(items) => {
                proof {
                    lemma_array_view(*items);
                }
                match entries_from_json(items) {
                    Some(entries) => {
                        index.extend(members[i].0.clone(), entries);
                    },
                    None => {
                        return false;
                    },
                }
            },
            _ => {
                return false;
            },
        }
        i += 1;
    }
    assert(views.subrange(0, i as int) =~= views);
    true
}

/// Where the first `upto` members cannot be read, the whole cannot.
proof fn lemma_decode_names_fails_on(index: NameMap, members: Members, upto: int)
    requires
        0 <= upto <= members.len(),
    ensures
        decode_names(index, members.subrange(0, upto)) is None ==> decode_names(index, members)
            is None,
    decreases members.len() - upto,
{
    if upto < members.len() {
        assert(members.subrange(0, upto + 1).drop_last() =~= members.subrange(0, upto));
        lemma_decode_names_fails_on(index, members, upto + 1);
    } else {
        assert(members.subrange(0, upto) =~= members);
    }
}

/// Where the first `upto` members cannot be read, the whole cannot.
proof fn lemma_decode_volumes_fails_on(members: Members, upto: int)
    requires
        0 <= upto <= members.len(),
    ensures
        decode_volumes(members.subrange(0, upto)) is None ==> decode_volumes(members) is None,
    decreases members.len() - upto,
{
    if upto < members.len() {
        assert(members.subrange(0, upto + 1).drop_last() =~= members.subrange(0, upto));
        lemma_decode_volumes_fails_on(members, upto + 1);
    } else {
        assert(members.subrange(0, upto) =~= members);
    }
}

/// Reads a cache from the document of a snapshot. A document of another shape
/// is a corrupt snapshot.
pub fn decode_snapshot(doc: &Json) -> (decoded: Result<CacheStore, CacheError>)
    ensures
        match decoded {
            Ok(store) => decode_document(doc@) == Some(store@),
            Err(error) => error == CacheError::CorruptSnapshot && decode_document(doc@) is None,
        },
{
    match doc {
        Json::Object(members) => {
            proof {
                lemma_object_view(*members);
            }
            let ghost views = member_views(members@);
            let mut store = CacheStore::new();
            let mut i: usize = 0;
            while i < members.len()
                invariant
                    i <= members.len(),
                    views == member_views(members@),
                    doc@ == JsonView::Object(views),
                    decode_volumes(views.subrange(0, i as int)) == Some(store@),
                decreases members.len() - i,
            {
                proof {
                    assert(views.subrange(0, i + 1).drop_last() =~= views.subrange(0, i as int));
                    assert(views.subrange(0, i + 1).last() == views[i as int]);
                    lemma_decode_volumes_fails_on(views, i + 1);
                }
                match &members[i].1 {
                    Json::Object(names) => {
                        proof {
                            lemma_object_view(*names);
                        }
                        let bucket = store.get_or_create_bucket(members[i].0.as_str());
                        let complete = names_from_json(bucket, names);
                        if !complete {
                            return Err(CacheError::CorruptSnapshot);
                        }
                    },
                    _ => {
                        return Err(CacheError::CorruptSnapshot);
                    },
                }
                i += 1;
            }
            assert(views.subrange(0, i as int) =~= views);
            Ok(store)
        },
        _ => Err(CacheError::CorruptSnapshot),
    }
}

/// The documents that stand for a sequence of entries, in order.
pub open spec fn entry_documents(entries: Seq<EntryView>) -> Seq<JsonView> {
    Seq::new(entries.len(), |i: int| entry_document(entries[i]))
}

/// An entry is read back from its document as it was.
pub proof fn lemma_entry_round_trip(entry: EntryView)
    ensures
        decode_entry(entry_document(entry)) == Some(entry),
{
    reveal_strlit("file");
    reveal_strlit("directory");
    assert("file"@.len() != "directory"@.len());
}

/// Entries are read back from their documents as they were, and in their order.
pub proof fn lemma_entries_round_trip(entries: Seq<EntryView>)
    ensures
        decode_entries(entry_documents(entries)) == Some(entries),
{
    let items = entry_documents(entries);
    assert forall|i: int| 0 <= i < items.len() implies (#[trigger] decode_entry(items[i]))
        == Some(entries[i]) by {
        lemma_entry_round_trip(entries[i]);
    }
    assert(decode_entries(items)->Some_0 =~= entries);
}

/// The word that stands for a kind in a snapshot.
pub fn kind_word(kind: FileKind) -> (word: String)
    ensures
        word@ == kind_text(kind),
{
    match kind {
        FileKind::File => "file".to_owned(),
        FileKind::Directory => "directory".to_owned(),
    }
}

/// The document that stands for an entry.
pub fn entry_to_json(entry: &CachedEntry) -> (doc: Json)
    ensures
        doc@ == entry_document(entry@),
{
    let mut members: Vec<(String, Json)> = Vec::new();
    members.push(("file_path".to_owned(), Json::Str(entry.file_path.clone())));
    members.push(("file_type".to_owned(), Json::Str(kind_word(entry.file_type))));
    proof {
        lemma_object_view(members);
        assert(member_views(members@) =~= entry_document(entry@)->Object_0);
    }
    Json::Object(members)
}

/// The array that stands for the entries of one name, in their order.
pub fn entries_to_json(entries: &Vec<CachedEntry>) -> (doc: Json)
    ensures
        doc@ == JsonView::Array(entry_documents(entry_views(entries@))),
{
    let mut items: Vec<Json> = Vec::new();
    let mut i: usize = 0;
    while i < entries.len()
        invariant
            i <= entries.len(),
            items.len() == i,
            forall|k: int| 0 <= k < i ==> (#[trigger] items[k])@ == entry_document(entries[k]@),
        decreases entries.len() - i,
    {
        items.push(entry_to_json(&entries[i]));
        i += 1;
    }
    proof {
        lemma_array_view(items);
        assert(json_views(items@) =~= entry_documents(entry_views(entries@)));
    }
    Json::Array(items)
}

/// The part of `index` that lies under the first `count` names of `buckets`.
spec fn names_upto(
    index: NameMap,
    buckets: Seq<(&String, &Vec<CachedEntry>)>,
    count: int,
) -> NameMap {
    Map::new(
        |name: Seq<char>| exists|j: int| 0 <= j < count && (#[trigger] buckets[j]).0@ == name,
        |name: Seq<char>| index[name],
    )
}

/// The part of `store` that lies under the first `count` volumes of `volumes`.
spec fn volumes_upto(store: StoreMap, volumes: Seq<(&String, &NameIndex)>, count: int)
    -> StoreMap {
    Map::new(
        |volume_id: Seq<char>|
            exists|j: int| 0 <= j < count && (#[trigger] volumes[j]).0@ == volume_id,
        |volume_id: Seq<char>| store[volume_id],
    )
}

/// The object that stands for the index of one volume: a member for each name,
/// with the array of its entries. Read back into an empty index, it gives the
/// index.
pub fn index_to_json(index: &NameIndex) -> (doc: Json)
    ensures
        doc@ is Object,
        decode_names(NameMap::empty(), doc@->Object_0) == Some(index@),
        keys_distinct(doc@->Object_0),
{
    let buckets = index.buckets();
    let mut members: Vec<(String, Json)> = Vec::new();
    let mut i: usize = 0;
    assert(names_upto(index@, buckets@, 0) =~= NameMap::empty());
    while i < buckets.len()
        invariant
            i <= buckets.len(),
            forall|k: int|
                0 <= k < buckets.len() ==> index@.contains_key((#[trigger] buckets[k]).0@)
                    && entry_views(buckets[k].1@) == index@[buckets[k].0@] && buckets[k].1.len()
                    > 0,
            forall|a: int, b: int|
                0 <= a < buckets.len() && 0 <= b < buckets.len() && (#[trigger] buckets[a]).0@ == (
                #[trigger] buckets[b]).0@ ==> a == b,
            decode_names(NameMap::empty(), member_views(members@)) == Some(
                names_upto(index@, buckets@, i as int),
            ),
            members.len() == i,
            forall|k: int| 0 <= k < i ==> (#[trigger] members[k]).0@ == buckets[k].0@,
        decreases buckets.len() - i,
    {
        let ghost before = member_views(members@);
        let (name, entries) = buckets[i];
        members.push((name.clone(), entries_to_json(entries)));
        proof {
            let after = member_views(members@);
            let held = index@[name@];
            assert(after.drop_last() =~= before);
            assert(after.last() == (name@, JsonView::Array(entry_documents(held))));
            lemma_entries_round_trip(held);
            let front = names_upto(index@, buckets@, i as int);
            assert(!front.contains_key(name@));
            assert(Seq::<EntryView>::empty() + held =~= held);
            assert(extended(front, name@, held) =~= names_upto(index@, buckets@, i + 1));
        }
        i += 1;
    }
    proof {
        lemma_object_view(members);
        assert(names_upto(index@, buckets@, buckets.len() as int) =~= index@);
        let views = member_views(members@);
        assert forall|a: int, b: int|
            0 <= a < views.len() && 0 <= b < views.len() && (#[trigger] views[a]).0 == (
            #[trigger] views[b]).0 implies a == b by {
            assert(members[a].0@ == buckets[a].0@);
            assert(members[b].0@ == buckets[b].0@);
        }
    }
    Json::Object(members)
}

/// The document of a snapshot of the cache: a member for each volume, with the
/// object of its index. Read back, it gives the cache.
pub fn snapshot_document(store: &CacheStore) -> (doc: Json)
    ensures
        decode_document(doc@) == Some(store@),
        keys_once(doc@),
{
    let volumes = store.volumes();
    let mut members: Vec<(String, Json)> = Vec::new();
    let mut i: usize = 0;
    assert(volumes_upto(store@, volumes@, 0) =~= StoreMap::empty());
    while i < volumes.len()
        invariant
            i <= volumes.len(),
            forall|k: int|
                0 <= k < volumes.len() ==> store@.contains_key((#[trigger] volumes[k]).0@)
                    && volumes[k].1@ == store@[volumes[k].0@],
            forall|a: int, b: int|
                0 <= a < volumes.len() && 0 <= b < volumes.len() && (#[trigger] volumes[a]).0@ == (
                #[trigger] volumes[b]).0@ ==> a == b,
            decode_volumes(member_views(members@)) == Some(
                volumes_upto(store@, volumes@, i as int),
            ),
            members.len() == i,
            forall|k: int|
                0 <= k < i ==> (#[trigger] members[k]).0@ == volumes[k].0@ && members[k].1@
                    is Object && keys_distinct(members[k].1@->Object_0),
        decreases volumes.len() - i,
    {
        let ghost before = member_views(members@);
        let (volume_id, index) = volumes[i];
        let object = index_to_json(index);
        members.push((volume_id.clone(), object));
        proof {
            let after = member_views(members@);
            assert(after.drop_last() =~= before);
            assert(after.last() == (volume_id@, object@));
            let front = volumes_upto(store@, volumes@, i as int);
            assert(!front.contains_key(volume_id@));
            assert(front.insert(volume_id@, store@[volume_id@]) =~= volumes_upto(
                store@,
                volumes@,
                i + 1,
            ));
        }
        i += 1;
    }
    proof {
        lemma_object_view(members);
        assert(volumes_upto(store@, volumes@, volumes.len() as int) =~= store@);
        let views = member_views(members@);
        assert forall|a: int, b: int|
            0 <= a < views.len() && 0 <= b < views.len() && (#[trigger] views[a]).0 == (
            #[trigger] views[b]).0 implies a == b by {
            assert(members[a].0@ == volumes[a].0@);
            assert(members[b].0@ == volumes[b].0@);
        }
        assert forall|k: int| 0 <= k < views.len() implies (#[trigger] views[k]).1 is Object
            && keys_distinct(views[k].1->Object_0) by {
            assert(members[k].1@ is Object);
        }
    }
    Json::Object(members)
}

/// Whether a document that stands for `store` is one that cannot be written.
pub open spec fn has_unwritable_document(store: StoreMap) -> bool {
    exists|doc: JsonView| #[trigger] decode_document(doc) == Some(store) && json_text(doc) is None
}

/// What a load makes of the contents of the snapshot file, `None` standing for
/// a file that could not be read: the cache that the text stands for, or the
/// error of the load.
pub open spec fn load_outcome(file_contents: Option<Seq<char>>) -> Result<StoreMap, CacheError> {
    match file_contents {
        None => Err(CacheError::IoFailure),
        Some(text) => match snapshot_meaning(text) {
            Some(cache) => Ok(cache),
            None => Err(CacheError::CorruptSnapshot),
        },
    }
}

/// What a save makes of the writing of its document: the text, or a
/// serialization failure where there is none.
pub fn snapshot_text(rendered: Result<String, serde_json::Error>) -> (saved: Result<
    String,
    CacheError,
>)
    ensures
        match rendered {
            Ok(text) => saved is Ok && saved->Ok_0 == text,
            Err(_) => saved is Err && saved->Err_0 == CacheError::SerializationFailure,
        },
{
    match rendered {
        Ok(text) => Ok(text),
        Err(_) => Err(CacheError::SerializationFailure),
    }
}

/// Encodes the whole cache as the text of a snapshot, for the caller to write to
/// the snapshot file in one piece.
pub fn save_cache_to_disk(store: &CacheStore) -> (saved: Result<String, CacheError>)
    ensures
        match saved {
            Ok(text) => is_snapshot_of(text@, store@),
            Err(error) => error == CacheError::SerializationFailure && has_unwritable_document(
                store@,
            ),
        },
{
    let doc = snapshot_document(store);
    let rendered = render_json(&doc);
    proof {
        assert(decode_document(doc@) == Some(store@));
    }
    snapshot_text(rendered)
}

/// Puts the cache that a parsed snapshot stands for in the place of the whole
/// cache. Where the text was not read, or the document is no snapshot, the
/// snapshot is corrupt and the cache stays as it is.
pub fn install_snapshot(store: &mut CacheStore, parsed: Result<Json, serde_json::Error>) -> (installed:
    Result<(), CacheError>)
    ensures
        match parsed {
            Ok(doc) => match decode_document(doc@) {
                Some(cache) => installed is Ok && final(store)@ == cache,
                None => installed == Err::<(), CacheError>(CacheError::CorruptSnapshot) && final(store)@ == old(store)@,
            },
            Err(_) => installed == Err::<(), CacheError>(CacheError::CorruptSnapshot) && final(store)@ == old(store)@,
        },
{
    match parsed {
        Ok(doc) => match decode_snapshot(&doc) {
            Ok(cache) => {
                store.replace(cache);
                Ok(())
            },
            Err(error) => Err(error),
        },
        Err(_) => Err(CacheError::CorruptSnapshot),
    }
}

/// Decodes the contents of the snapshot file and puts the cache that they stand
/// for in the place of the whole cache. `None` stands for a file that could not
/// be read. On an error the cache stays as it is.
pub fn load_cache(store: &mut CacheStore, file_contents: Option<String>) -> (loaded: Result<
    (),
    CacheError,
>)
    ensures
        match load_outcome(
            match file_contents {
                Some(text) => Some(text@),
                None => None,
            },
        ) {
            Ok(cache) => loaded is Ok && final(store)@ == cache,
            Err(error) => loaded == Err::<(), CacheError>(error) && final(store)@ == old(store)@,
        },
{
    match file_contents {
        Some(text) => {
            let parsed = parse_json(text.as_str());
            install_snapshot(store, parsed)
        },
        None => Err(CacheError::IoFailure),
    }
}

} // verus!
