use vstd::prelude::*;
use crate::cache_store::{bucket_of, CacheStore};
use crate::entry::{CacheError, CachedEntry, EntryView, FileKind};
use crate::name_index::{recorded, NameIndex, NameMap};

verus! {

/// What a walk hands over for one object that it came to.
#[derive(Debug)]
pub enum WalkItem {
    /// The object was read: its base name, its full path, and whether it is a
    /// container. A symbolic link is what the walk takes it for: a walk that does
    /// not follow links hands it over as no container.
    Visited { file_name: String, file_path: String, is_dir: bool },
    /// The object could not be read.
    Unreadable,
}

/// The mathematical value of a `WalkItem`.
pub enum WalkItemView {
    Visited { file_name: Seq<char>, file_path: Seq<char>, is_dir: bool },
    Unreadable,
}

impl View for WalkItem {
    type V = WalkItemView;

    open spec fn view(&self) -> WalkItemView {
        match self {
            WalkItem::Visited { file_name, file_path, is_dir } => WalkItemView::Visited {
                file_name: file_name@,
                file_path: file_path@,
                is_dir: *is_dir,
            },
            WalkItem::Unreadable => WalkItemView::Unreadable,
        }
    }
}

/// The views of a sequence of items, in order.
pub open spec fn item_views(items: Seq<WalkItem>) -> Seq<WalkItemView> {
    Seq::new(items.len(), |i: int| items[i]@)
}

/// The entry that stands for an object at `file_path`: a directory exactly if the
/// object is a container.
pub open spec fn entry_of(file_path: Seq<char>, is_dir: bool) -> EntryView {
    EntryView {
        file_path,
        file_type: if is_dir {
            FileKind::Directory
        } else {
            FileKind::File
        },
    }
}

/// `index` after one item of a walk: a visited object is recorded under its base
/// name, an unreadable one leaves no trace.
pub open spec fn record_item(index: NameMap, item: WalkItemView) -> NameMap {
    match item {
        WalkItemView::Visited { file_name, file_path, is_dir } => recorded(
            index,
            file_name,
            entry_of(file_path, is_dir),
        ),
        WalkItemView::Unreadable => index,
    }
}

/// `index` after the items of a walk, taken in their order.
pub open spec fn record_all(index: NameMap, items: Seq<WalkItemView>) -> NameMap
    decreases items.len(),
{
    if items.len() == 0 {
        index
    } else {
        record_item(record_all(index, items.drop_last()), items.last())
    }
}

/// Whether the walk came to an object that it could not read.
pub open spec fn any_unreadable(items: Seq<WalkItemView>) -> bool {
    exists|i: int| 0 <= i < items.len() && items[i] is Unreadable
}

/// Records one item of a walk in `index`, and says whether it left an entry.
pub fn record(index: &mut NameIndex, item: &WalkItem) -> (kept: bool)
    ensures
        final(index)@ == record_item(old(index)@, item@),
        kept == (item@ is Visited),
{
    match item {
        WalkItem::Visited { file_name, file_path, is_dir } => {
            index.insert(file_name.clone(), CachedEntry::new(file_path.clone(), *is_dir));
            true
        },
        WalkItem::Unreadable => false,
    }
}

/// Records the items of a walk in `index`, in their order. Objects that could
/// not be read are left out; the report says whether there were any.
pub fn index_walk(index: &mut NameIndex, items: &Vec<WalkItem>) -> (report: Option<CacheError>)
    ensures
        final(index)@ == record_all(old(index)@, item_views(items@)),
        report == (if any_unreadable(item_views(items@)) {
            Some(CacheError::VolumeWalkPartial)
        } else {
            None
        }),
{
    let ghost views = item_views(items@);
    let mut skipped = false;
    let mut i: usize = 0;
    while i < items.len()
        invariant
            i <= items.len(),
            views == item_views(items@),
            index@ == record_all(old(index)@, views.subrange(0, i as int)),
            skipped == any_unreadable(views.subrange(0, i as int)),
        decreases items.len() - i,
    {
        let kept = record(index, &items[i]);
        proof {
            let before = views.subrange(0, i as int);
            let after = views.subrange(0, i + 1);
            assert(after.drop_last() =~= before);
            assert(after.last() == items[i as int]@);
            if any_unreadable(before) {
                let k = choose|k: int| 0 <= k < before.len() && before[k] is Unreadable;
                assert(after[k] is Unreadable);
            }
            if any_unreadable(after) && kept {
                let k = choose|k: int| 0 <= k < after.len() && after[k] is Unreadable;
                assert(before[k] is Unreadable);
            }
            if !kept {
                assert(after[i as int] is Unreadable);
            }
        }
        if !kept {
            skipped = true;
        }
        i += 1;
    }
    assert(views.subrange(0, i as int) =~= views);
    if skipped {
        Some(CacheError::VolumeWalkPartial)
    } else {
        None
    }
}

/// Adds the file structure that a walk of a disk found to the cache: the items
/// are recorded, in their order, in the index of `fs_root`, which is created
/// empty where the cache had none. The other volumes stay as they are. A walk
/// that came to nothing is no error: it leaves the index of a new volume empty.
pub fn cache_disk(store: &mut CacheStore, items: &Vec<WalkItem>, fs_root: &str) -> (report: Option<
    CacheError,
>)
    ensures
        final(store)@ == old(store)@.insert(
            fs_root@,
            record_all(bucket_of(old(store)@, fs_root@), item_views(items@)),
        ),
        report == (if any_unreadable(item_views(items@)) {
            Some(CacheError::VolumeWalkPartial)
        } else {
            None
        }),
        items.len() == 0 ==> report is None && final(store)@[fs_root@] == bucket_of(
            old(store)@,
            fs_root@,
        ),
{
    proof {
        if items.len() == 0 {
            assert(item_views(items@) =~= Seq::<WalkItemView>::empty());
        }
    }
    let bucket = store.get_or_create_bucket(fs_root);
    index_walk(bucket, items)
}

} // verus!
