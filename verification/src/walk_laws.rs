use vstd::prelude::*;
use vstd::seq_lib::{lemma_multiset_commutative, to_multiset_build};
use crate::entry::{EntryView, FileKind};
use crate::indexer::{entry_of, record_all, WalkItemView};
use crate::name_index::{entries_under, NameMap};

verus! {

/// The entries that a walk leaves under `name`, in the order of the walk.
pub open spec fn named_entries(items: Seq<WalkItemView>, name: Seq<char>) -> Seq<EntryView>
    decreases items.len(),
{
    if items.len() == 0 {
        Seq::empty()
    } else {
        let front = named_entries(items.drop_last(), name);
        match items.last() {
            WalkItemView::Visited { file_name, file_path, is_dir } => if file_name == name {
                front.push(entry_of(file_path, is_dir))
            } else {
                front
            },
            WalkItemView::Unreadable => front,
        }
    }
}

/// The item that a walk hands over for the object that `entry` stands for, found
/// under the base name `name`.
pub open spec fn visit_of(name: Seq<char>, entry: EntryView) -> WalkItemView {
    WalkItemView::Visited {
        file_name: name,
        file_path: entry.file_path,
        is_dir: entry.file_type == FileKind::Directory,
    }
}

/// How often `entry` stands under `name` in `index`.
pub open spec fn occurrences(index: NameMap, name: Seq<char>, entry: EntryView) -> nat {
    entries_under(index, name).to_multiset().count(entry)
}

/// After a walk, a name holds what it held before, followed by the visited
/// objects of that name in the order of the walk; and the index has exactly the
/// names that it had or that a visited object bears.
pub proof fn lemma_walk_fills_buckets(index: NameMap, items: Seq<WalkItemView>, name: Seq<char>)
    ensures
        entries_under(record_all(index, items), name) == entries_under(index, name)
            + named_entries(items, name),
        record_all(index, items).contains_key(name) <==> index.contains_key(name)
            || named_entries(items, name).len() > 0,
    decreases items.len(),
{
    if items.len() == 0 {
        assert(entries_under(index, name) + Seq::<EntryView>::empty() =~= entries_under(
            index,
            name,
        ));
    } else {
        let front = items.drop_last();
        lemma_walk_fills_buckets(index, front, name);
        let before = record_all(index, front);
        match items.last() {
            WalkItemView::Visited { file_name, file_path, is_dir } => {
                if file_name == name {
                    assert((entries_under(index, name) + named_entries(front, name)).push(
                        entry_of(file_path, is_dir),
                    ) =~= entries_under(index, name) + named_entries(front, name).push(
                        entry_of(file_path, is_dir),
                    ));
                }
            },
            WalkItemView::Unreadable => {},
        }
    }
}

/// Under a name, an entry stands as often as the walk came to its object.
pub proof fn lemma_named_entries_count(
    items: Seq<WalkItemView>,
    name: Seq<char>,
    entry: EntryView,
)
    ensures
        named_entries(items, name).to_multiset().count(entry) == items.to_multiset().count(
            visit_of(name, entry),
        ),
    decreases items.len(),
{
    broadcast use vstd::multiset::group_multiset_axioms;

    if items.len() == 0 {
        assert(items =~= Seq::<WalkItemView>::empty());
        assert(named_entries(items, name) =~= Seq::<EntryView>::empty());
        Seq::<WalkItemView>::empty().to_multiset_ensures();
        Seq::<EntryView>::empty().to_multiset_ensures();
        assert(items.to_multiset().len() == 0);
        assert(named_entries(items, name).to_multiset().len() == 0);
    } else {
        let front = items.drop_last();
        lemma_named_entries_count(front, name, entry);
        assert(items =~= front.push(items.last()));
        to_multiset_build(front, items.last());
        match items.last() {
            WalkItemView::Visited { file_name, file_path, is_dir } => {
                if file_name == name {
                    to_multiset_build(named_entries(front, name), entry_of(file_path, is_dir));
                    if entry_of(file_path, is_dir) == entry {
                        assert(items.last() == visit_of(name, entry));
                    } else {
                        assert(items.last() != visit_of(name, entry));
                    }
                } else {
                    assert(items.last() != visit_of(name, entry));
                }
            },
            WalkItemView::Unreadable => {},
        }
    }
}

/// A walk adds to an index, for every object, as many entries as it came to the
/// object: none is lost and none is made twice.
pub proof fn lemma_walk_counts(
    index: NameMap,
    items: Seq<WalkItemView>,
    name: Seq<char>,
    entry: EntryView,
)
    ensures
        occurrences(record_all(index, items), name, entry) == occurrences(index, name, entry)
            + items.to_multiset().count(visit_of(name, entry)),
{
    broadcast use vstd::multiset::group_multiset_axioms;

    lemma_walk_fills_buckets(index, items, name);
    lemma_named_entries_count(items, name, entry);
    lemma_multiset_commutative(entries_under(index, name), named_entries(items, name));
}

/// After a fresh build, every object that the walk read stands in the index
/// under its base name, with its path and its kind, once for each time that the
/// walk came to it: exactly once where the walk came to it once.
pub proof fn lemma_fresh_build_holds_each_visit(items: Seq<WalkItemView>, k: int)
    requires
        0 <= k < items.len(),
        items[k] is Visited,
    ensures
        ({
            let built = record_all(NameMap::empty(), items);
            let name = items[k]->file_name;
            let entry = entry_of(items[k]->file_path, items[k]->is_dir);
            &&& built.contains_key(name)
            &&& built[name].contains(entry)
            &&& occurrences(built, name, entry) == items.to_multiset().count(items[k])
            &&& items.to_multiset().count(items[k]) >= 1
        }),
{
    broadcast use vstd::multiset::group_multiset_axioms;

    let built = record_all(NameMap::empty(), items);
    let name = items[k]->file_name;
    let entry = entry_of(items[k]->file_path, items[k]->is_dir);
    assert(visit_of(name, entry) == items[k]);
    lemma_walk_counts(NameMap::empty(), items, name, entry);
    lemma_walk_fills_buckets(NameMap::empty(), items, name);
    items.to_multiset_ensures();
    assert(items.contains(items[k]));
    Seq::<EntryView>::empty().to_multiset_ensures();
    assert(occurrences(built, name, entry) >= 1);
    entries_under(built, name).to_multiset_ensures();
    assert(entries_under(built, name).contains(entry));
}

/// After a fresh build, the index holds nothing but what the walk read: an entry
/// under a name stands for an object of that name that the walk came to.
pub proof fn lemma_fresh_build_holds_only_visits(
    items: Seq<WalkItemView>,
    name: Seq<char>,
    entry: EntryView,
)
    requires
        entries_under(record_all(NameMap::empty(), items), name).contains(entry),
    ensures
        items.contains(visit_of(name, entry)),
{
    broadcast use vstd::multiset::group_multiset_axioms;

    let built = record_all(NameMap::empty(), items);
    lemma_walk_counts(NameMap::empty(), items, name, entry);
    entries_under(built, name).to_multiset_ensures();
    Seq::<EntryView>::empty().to_multiset_ensures();
    items.to_multiset_ensures();
}

/// A walk that came to nothing leaves an index as it was: the index of a fresh
/// volume whose root is empty is empty.
pub proof fn lemma_empty_walk(index: NameMap)
    ensures
        record_all(index, Seq::<WalkItemView>::empty()) == index,
        record_all(NameMap::empty(), Seq::<WalkItemView>::empty()) == NameMap::empty(),
{
}

/// Two builds that came to the same objects, in whatever order, give indexes
/// with the same names that hold, name by name, the same entries as often.
pub proof fn lemma_rebuild_is_set_equal(
    first: Seq<WalkItemView>,
    second: Seq<WalkItemView>,
    name: Seq<char>,
)
    requires
        first.to_multiset() == second.to_multiset(),
    ensures
        ({
            let one = record_all(NameMap::empty(), first);
            let other = record_all(NameMap::empty(), second);
            &&& one.contains_key(name) <==> other.contains_key(name)
            &&& entries_under(one, name).to_multiset() == entries_under(other, name).to_multiset()
            &&& entries_under(one, name).len() == entries_under(other, name).len()
        }),
{
    broadcast use vstd::multiset::group_multiset_axioms;

    let one = record_all(NameMap::empty(), first);
    let other = record_all(NameMap::empty(), second);
    assert forall|entry: EntryView|
        entries_under(one, name).to_multiset().count(entry) == entries_under(
            other,
            name,
        ).to_multiset().count(entry) by {
        lemma_walk_counts(NameMap::empty(), first, name, entry);
        lemma_walk_counts(NameMap::empty(), second, name, entry);
    }
    assert(entries_under(one, name).to_multiset() =~= entries_under(other, name).to_multiset());
    entries_under(one, name).to_multiset_ensures();
    entries_under(other, name).to_multiset_ensures();
    lemma_walk_fills_buckets(NameMap::empty(), first, name);
    lemma_walk_fills_buckets(NameMap::empty(), second, name);
}

/// The number of entries that `index` holds under the names of `names`, each
/// name counted where it is listed.
pub open spec fn entries_in(index: NameMap, names: Seq<Seq<char>>) -> nat
    decreases names.len(),
{
    if names.len() == 0 {
        0
    } else {
        entries_in(index, names.drop_last()) + entries_under(index, names.last()).len()
    }
}

/// Whether `names` lists, each once, at least the base names of the objects
/// that the walk read.
pub open spec fn lists_names_of(names: Seq<Seq<char>>, items: Seq<WalkItemView>) -> bool {
    &&& names.no_duplicates()
    &&& forall|k: int|
        0 <= k < items.len() && #[trigger] items[k] is Visited ==> names.contains(
            items[k]->file_name,
        )
}

/// The number of objects that the walk read.
pub open spec fn visited_count(items: Seq<WalkItemView>) -> nat
    decreases items.len(),
{
    if items.len() == 0 {
        0
    } else {
        visited_count(items.drop_last()) + if items.last() is Visited {
            1nat
        } else {
            0nat
        }
    }
}

proof fn lemma_entries_in_other_names(
    index: NameMap,
    names: Seq<Seq<char>>,
    name: Seq<char>,
    entries: Seq<EntryView>,
)
    requires
        !names.contains(name),
    ensures
        entries_in(index.insert(name, entries), names) == entries_in(index, names),
    decreases names.len(),
{
    if names.len() > 0 {
        let front = names.drop_last();
        assert(names[names.len() - 1] == names.last());
        assert forall|i: int| 0 <= i < front.len() implies front[i] != name by {
            assert(names[i] == front[i]);
        }
        lemma_entries_in_other_names(index, front, name, entries);
    }
}

proof fn lemma_entries_in_grows(
    index: NameMap,
    names: Seq<Seq<char>>,
    name: Seq<char>,
    entry: EntryView,
)
    requires
        names.no_duplicates(),
        names.contains(name),
    ensures
        entries_in(crate::name_index::recorded(index, name, entry), names) == entries_in(
            index,
            names,
        ) + 1,
    decreases names.len(),
{
    let front = names.drop_last();
    let grown = entries_under(index, name).push(entry);
    assert(front.no_duplicates());
    if names.last() == name {
        assert forall|i: int| 0 <= i < front.len() implies front[i] != name by {
            assert(names[i] == front[i]);
            assert(names[names.len() - 1] == name);
        }
        lemma_entries_in_other_names(index, front, name, grown);
    } else {
        let at = choose|i: int| 0 <= i < names.len() && names[i] == name;
        assert(front[at] == name);
        lemma_entries_in_grows(index, front, name, entry);
    }
}

/// Counted over a list of the names, an index that was built afresh holds as
/// many entries as the walk read objects.
pub proof fn lemma_fresh_build_total(items: Seq<WalkItemView>, names: Seq<Seq<char>>)
    requires
        lists_names_of(names, items),
    ensures
        entries_in(record_all(NameMap::empty(), items), names) == visited_count(items),
    decreases items.len(),
{
    if items.len() == 0 {
        lemma_entries_in_empty(names);
    } else {
        let front = items.drop_last();
        assert forall|k: int| 0 <= k < front.len() && #[trigger] front[k] is Visited implies names.contains(
            front[k]->file_name,
        ) by {
            assert(items[k] == front[k]);
        }
        lemma_fresh_build_total(front, names);
        match items.last() {
            WalkItemView::Visited { file_name, file_path, is_dir } => {
                assert(items[items.len() - 1] is Visited);
                lemma_entries_in_grows(
                    record_all(NameMap::empty(), front),
                    names,
                    file_name,
                    entry_of(file_path, is_dir),
                );
            },
            WalkItemView::Unreadable => {},
        }
    }
}

proof fn lemma_entries_in_empty(names: Seq<Seq<char>>)
    ensures
        entries_in(NameMap::empty(), names) == 0,
    decreases names.len(),
{
    if names.len() > 0 {
        lemma_entries_in_empty(names.drop_last());
    }
}

proof fn lemma_all_visited_count(items: Seq<WalkItemView>)
    requires
        forall|k: int| 0 <= k < items.len() ==> #[trigger] items[k] is Visited,
    ensures
        visited_count(items) == items.len(),
    decreases items.len(),
{
    if items.len() > 0 {
        let front = items.drop_last();
        assert forall|k: int| 0 <= k < front.len() implies #[trigger] front[k] is Visited by {
            assert(items[k] == front[k]);
        }
        lemma_all_visited_count(front);
        assert(items[items.len() - 1] is Visited);
    }
}

/// Insertions of distinct entries into one fresh bucket, made by any number of
/// workers: in whatever order `arrival` the lock lets the insertions of
/// `inserted` in, the bucket then holds as many entries as were inserted, and
/// each of them exactly once.
pub proof fn lemma_insertions_survive_any_order(
    inserted: Seq<WalkItemView>,
    arrival: Seq<WalkItemView>,
    names: Seq<Seq<char>>,
)
    requires
        arrival.to_multiset() == inserted.to_multiset(),
        forall|k: int| 0 <= k < inserted.len() ==> #[trigger] inserted[k] is Visited,
        inserted.no_duplicates(),
        lists_names_of(names, inserted),
    ensures
        entries_in(record_all(NameMap::empty(), arrival), names) == inserted.len(),
        forall|k: int|
            0 <= k < inserted.len() ==> occurrences(
                record_all(NameMap::empty(), arrival),
                (#[trigger] inserted[k])->file_name,
                entry_of(inserted[k]->file_path, inserted[k]->is_dir),
            ) == 1,
{
    broadcast use vstd::multiset::group_multiset_axioms;

    inserted.to_multiset_ensures();
    arrival.to_multiset_ensures();
    assert forall|j: int| 0 <= j < arrival.len() implies #[trigger] arrival[j] is Visited
        && names.contains(arrival[j]->file_name) by {
        assert(arrival.contains(arrival[j]));
        assert(arrival.to_multiset().count(arrival[j]) > 0);
        assert(inserted.to_multiset().count(arrival[j]) > 0);
        assert(inserted.contains(arrival[j]));
        let k = choose|k: int| 0 <= k < inserted.len() && inserted[k] == arrival[j];
        assert(inserted[k] is Visited);
    }
    lemma_all_visited_count(arrival);
    lemma_fresh_build_total(arrival, names);
    inserted.lemma_multiset_has_no_duplicates();
    assert forall|k: int| 0 <= k < inserted.len() implies occurrences(
        record_all(NameMap::empty(), arrival),
        (#[trigger] inserted[k])->file_name,
        entry_of(inserted[k]->file_path, inserted[k]->is_dir),
    ) == 1 by {
        let name = inserted[k]->file_name;
        let entry = entry_of(inserted[k]->file_path, inserted[k]->is_dir);
        assert(visit_of(name, entry) == inserted[k]);
        lemma_walk_counts(NameMap::empty(), arrival, name, entry);
        Seq::<EntryView>::empty().to_multiset_ensures();
        assert(inserted.contains(inserted[k]));
        assert(inserted.to_multiset().count(inserted[k]) > 0);
    }
}

} // verus!
