use vstd::prelude::*;
use crate::cache_store::StoreMap;
use crate::entry::EntryView;
use crate::json::{JsonView, Members};
use crate::name_index::{entries_under, NameMap};
use crate::snapshot::{
    decode_document, decode_entries, decode_names, decode_volumes, keys_distinct, keys_once,
};

verus! {

/// The entries that the value of a name stands for, where it is an array of
/// entries.
pub open spec fn bucket_entries(value: JsonView) -> Option<Seq<EntryView>> {
    match value {
        JsonView::Array(items) => decode_entries(items),
        _ => None,
    }
}

/// The index that the value of a volume stands for, where it is an object of
/// names.
pub open spec fn volume_index(value: JsonView) -> Option<NameMap> {
    match value {
        JsonView::Object(names) => decode_names(NameMap::empty(), names),
        _ => None,
    }
}

/// The entries that the members with the key `name` stand for, one member after
/// the other.
pub open spec fn gathered(members: Members, name: Seq<char>) -> Seq<EntryView>
    decreases members.len(),
{
    if members.len() == 0 {
        Seq::empty()
    } else {
        let front = gathered(members.drop_last(), name);
        if members.last().0 == name {
            match bucket_entries(members.last().1) {
                Some(entries) => front + entries,
                None => front,
            }
        } else {
            front
        }
    }
}

/// Whether the value of every name is an array of entries.
pub open spec fn all_buckets_readable(members: Members) -> bool {
    forall|i: int| 0 <= i < members.len() ==> bucket_entries((#[trigger] members[i]).1) is Some
}

/// Whether the value of every volume is an object of names with arrays of
/// entries.
pub open spec fn all_volumes_readable(members: Members) -> bool {
    forall|i: int| 0 <= i < members.len() ==> volume_index((#[trigger] members[i]).1) is Some
}

/// Whether two objects hold the same members, each key once, in whatever order.
pub open spec fn reordered_object(one: JsonView, other: JsonView) -> bool {
    &&& one is Object
    &&& other is Object
    &&& keys_distinct(one->Object_0)
    &&& keys_distinct(other->Object_0)
    &&& one->Object_0.to_multiset() == other->Object_0.to_multiset()
}

/// Whether `members` has, under the key of `wanted`, an object with the members
/// of `wanted`'s in whatever order.
pub open spec fn volume_among(members: Members, wanted: (Seq<char>, JsonView)) -> bool {
    exists|j: int|
        0 <= j < members.len() && (#[trigger] members[j]).0 == wanted.0 && reordered_object(
            wanted.1,
            members[j].1,
        )
}

/// Whether `members` has such an object for each member of `wanted`.
pub open spec fn covers_volumes(members: Members, wanted: Members) -> bool {
    forall|i: int| 0 <= i < wanted.len() ==> volume_among(members, #[trigger] wanted[i])
}

/// Whether two snapshots hold the same volumes with the same names and
/// entries, each key once, the members of every object in whatever order.
pub open spec fn reordered_snapshot(one: JsonView, other: JsonView) -> bool {
    &&& one is Object
    &&& other is Object
    &&& keys_distinct(one->Object_0)
    &&& keys_distinct(other->Object_0)
    &&& covers_volumes(other->Object_0, one->Object_0)
    &&& covers_volumes(one->Object_0, other->Object_0)
}

/// The members of a volume's object are read exactly where the value of every
/// name is an array of entries; a name then holds what it held, followed by the
/// entries of the members with that key.
pub proof fn lemma_decode_names_pointwise(start: NameMap, members: Members, name: Seq<char>)
    ensures
        decode_names(start, members) is Some <==> all_buckets_readable(members),
        decode_names(start, members) is Some ==> {
            let index = decode_names(start, members)->Some_0;
            &&& entries_under(index, name) == entries_under(start, name) + gathered(members, name)
            &&& index.contains_key(name) <==> start.contains_key(name) || gathered(
                members,
                name,
            ).len() > 0
        },
    decreases members.len(),
{
    if members.len() == 0 {
        assert(entries_under(start, name) + Seq::<EntryView>::empty() =~= entries_under(
            start,
            name,
        ));
    } else {
        let front = members.drop_last();
        lemma_decode_names_pointwise(start, front, name);
        lemma_decode_names_pointwise(start, front, members.last().0);
        assert(members[members.len() - 1] == members.last());
        if all_buckets_readable(members) {
            assert forall|i: int| 0 <= i < front.len() implies bucket_entries(
                (#[trigger] front[i]).1,
            ) is Some by {
                assert(members[i] == front[i]);
            }
        }
        if all_buckets_readable(front) && bucket_entries(members.last().1) is Some {
            assert forall|i: int| 0 <= i < members.len() implies bucket_entries(
                (#[trigger] members[i]).1,
            ) is Some by {
                if i < front.len() {
                    assert(members[i] == front[i]);
                }
            }
        }
        if decode_names(start, members) is Some {
            let before = decode_names(start, front)->Some_0;
            let entries = bucket_entries(members.last().1)->Some_0;
            let key = members.last().0;
            if key == name && entries.len() > 0 {
                assert((entries_under(start, name) + gathered(front, name)) + entries
                    =~= entries_under(start, name) + (gathered(front, name) + entries));
            }
            if key == name && entries.len() == 0 {
                assert(gathered(front, name) + entries =~= gathered(front, name));
            }
        }
    }
}

/// Members without the key `name` gather nothing under it.
pub proof fn lemma_gathered_none(members: Members, name: Seq<char>)
    requires
        forall|i: int| 0 <= i < members.len() ==> (#[trigger] members[i]).0 != name,
    ensures
        gathered(members, name) == Seq::<EntryView>::empty(),
    decreases members.len(),
{
    if members.len() > 0 {
        let front = members.drop_last();
        assert forall|i: int| 0 <= i < front.len() implies (#[trigger] front[i]).0 != name by {
            assert(members[i] == front[i]);
        }
        lemma_gathered_none(front, name);
        assert(members[members.len() - 1].0 != name);
    }
}

/// Where each key stands once, a key gathers the entries of its one member.
pub proof fn lemma_gathered_single(members: Members, at: int)
    requires
        keys_distinct(members),
        0 <= at < members.len(),
        bucket_entries(members[at].1) is Some,
    ensures
        gathered(members, members[at].0) == bucket_entries(members[at].1)->Some_0,
    decreases members.len(),
{
    let front = members.drop_last();
    let name = members[at].0;
    let entries = bucket_entries(members[at].1)->Some_0;
    assert(members[members.len() - 1] == members.last());
    if at == members.len() - 1 {
        assert forall|i: int| 0 <= i < front.len() implies (#[trigger] front[i]).0 != name by {
            assert(members[i] == front[i]);
        }
        lemma_gathered_none(front, name);
        assert(Seq::<EntryView>::empty() + entries =~= entries);
    } else {
        assert(front[at] == members[at]);
        assert(keys_distinct(front)) by {
            assert forall|i: int, j: int|
                0 <= i < front.len() && 0 <= j < front.len() && (#[trigger] front[i]).0 == (
                #[trigger] front[j]).0 implies i == j by {
                assert(members[i] == front[i]);
                assert(members[j] == front[j]);
            }
        }
        lemma_gathered_single(front, at);
    }
}

/// Sequences with the same members hold each other's members.
proof fn lemma_same_members(one: Members, other: Members, at: int)
    requires
        one.to_multiset() == other.to_multiset(),
        0 <= at < one.len(),
    ensures
        exists|j: int| 0 <= j < other.len() && #[trigger] other[j] == one[at],
{
    one.to_multiset_ensures();
    other.to_multiset_ensures();
    assert(one.contains(one[at]));
    assert(one.to_multiset().count(one[at]) > 0);
    assert(other.to_multiset().count(one[at]) > 0);
    assert(other.contains(one[at]));
    let j = choose|j: int| 0 <= j < other.len() && other[j] == one[at];
    assert(other[j] == one[at]);
}

proof fn lemma_gathered_order_free(one: Members, other: Members, name: Seq<char>)
    requires
        keys_distinct(one),
        keys_distinct(other),
        one.to_multiset() == other.to_multiset(),
        all_buckets_readable(one),
        all_buckets_readable(other),
    ensures
        gathered(one, name) == gathered(other, name),
{
    if exists|i: int| 0 <= i < one.len() && (#[trigger] one[i]).0 == name {
        let i = choose|i: int| 0 <= i < one.len() && (#[trigger] one[i]).0 == name;
        lemma_same_members(one, other, i);
        let j = choose|j: int| 0 <= j < other.len() && #[trigger] other[j] == one[i];
        lemma_gathered_single(one, i);
        lemma_gathered_single(other, j);
    } else {
        assert forall|j: int| 0 <= j < other.len() implies (#[trigger] other[j]).0 != name by {
            lemma_same_members(other, one, j);
            let i = choose|i: int| 0 <= i < one.len() && #[trigger] one[i] == other[j];
            assert(one[i].0 != name);
        }
        lemma_gathered_none(one, name);
        lemma_gathered_none(other, name);
    }
}

/// The members of a volume's object, each key once, stand for the same index
/// in whatever order they are listed.
pub proof fn lemma_names_order_free(start: NameMap, one: Members, other: Members)
    requires
        keys_distinct(one),
        keys_distinct(other),
        one.to_multiset() == other.to_multiset(),
    ensures
        decode_names(start, one) == decode_names(start, other),
{
    lemma_decode_names_pointwise(start, one, Seq::empty());
    lemma_decode_names_pointwise(start, other, Seq::empty());
    if all_buckets_readable(one) {
        assert forall|j: int| 0 <= j < other.len() implies bucket_entries(
            (#[trigger] other[j]).1,
        ) is Some by {
            lemma_same_members(other, one, j);
            let i = choose|i: int| 0 <= i < one.len() && #[trigger] one[i] == other[j];
            assert(bucket_entries(one[i].1) is Some);
        }
    }
    if all_buckets_readable(other) {
        assert forall|i: int| 0 <= i < one.len() implies bucket_entries((#[trigger] one[i]).1)
            is Some by {
            lemma_same_members(one, other, i);
            let j = choose|j: int| 0 <= j < other.len() && #[trigger] other[j] == one[i];
            assert(bucket_entries(other[j].1) is Some);
        }
    }
    if decode_names(start, one) is Some {
        let first = decode_names(start, one)->Some_0;
        let second = decode_names(start, other)->Some_0;
        assert forall|name: Seq<char>|
            (#[trigger] first.dom().contains(name)) == second.dom().contains(name) && (
            first.dom().contains(name) ==> first[name] == second[name]) by {
            lemma_decode_names_pointwise(start, one, name);
            lemma_decode_names_pointwise(start, other, name);
            lemma_gathered_order_free(one, other, name);
        }
        assert(first.dom() =~= second.dom());
        assert(first =~= second);
    }
}

/// Where each volume stands once, the members of a snapshot are read exactly
/// where the value of every volume is readable; the cache then has the volumes
/// of the members, each with the index that its value stands for.
pub proof fn lemma_decode_volumes_pointwise(members: Members)
    requires
        keys_distinct(members),
    ensures
        decode_volumes(members) is Some <==> all_volumes_readable(members),
        decode_volumes(members) is Some ==> {
            let store = decode_volumes(members)->Some_0;
            &&& forall|volume_id: Seq<char>|
                store.contains_key(volume_id) <==> exists|i: int|
                    0 <= i < members.len() && (#[trigger] members[i]).0 == volume_id
            &&& forall|i: int|
                0 <= i < members.len() ==> store[(#[trigger] members[i]).0] == volume_index(
                    members[i].1,
                )->Some_0
        },
    decreases members.len(),
{
    if members.len() > 0 {
        let front = members.drop_last();
        let last = members.last();
        assert(members[members.len() - 1] == last);
        assert(keys_distinct(front)) by {
            assert forall|i: int, j: int|
                0 <= i < front.len() && 0 <= j < front.len() && (#[trigger] front[i]).0 == (
                #[trigger] front[j]).0 implies i == j by {
                assert(members[i] == front[i]);
                assert(members[j] == front[j]);
            }
        }
        lemma_decode_volumes_pointwise(front);
        if all_volumes_readable(members) {
            assert forall|i: int| 0 <= i < front.len() implies volume_index(
                (#[trigger] front[i]).1,
            ) is Some by {
                assert(members[i] == front[i]);
            }
        }
        if decode_volumes(front) is Some {
            let before = decode_volumes(front)->Some_0;
            assert(!before.contains_key(last.0)) by {
                if before.contains_key(last.0) {
                    let i = choose|i: int| 0 <= i < front.len() && (#[trigger] front[i]).0 == last.0;
                    assert(members[i] == front[i]);
                }
            }
            if volume_index(last.1) is Some {
                assert forall|i: int| 0 <= i < members.len() implies volume_index(
                    (#[trigger] members[i]).1,
                ) is Some by {
                    if i < front.len() {
                        assert(members[i] == front[i]);
                    }
                }
                let store = decode_volumes(members)->Some_0;
                assert(store == before.insert(last.0, volume_index(last.1)->Some_0));
                assert forall|volume_id: Seq<char>|
                    store.contains_key(volume_id) <==> exists|i: int|
                        0 <= i < members.len() && (#[trigger] members[i]).0 == volume_id by {
                    if store.contains_key(volume_id) && volume_id != last.0 {
                        let i = choose|i: int|
                            0 <= i < front.len() && (#[trigger] front[i]).0 == volume_id;
                        assert(members[i] == front[i]);
                    }
                    if exists|i: int|
                        0 <= i < members.len() && (#[trigger] members[i]).0 == volume_id {
                        let i = choose|i: int|
                            0 <= i < members.len() && (#[trigger] members[i]).0 == volume_id;
                        if i < front.len() {
                            assert(members[i] == front[i]);
                        }
                    }
                }
                assert forall|i: int| 0 <= i < members.len() implies store[(
                #[trigger] members[i]).0] == volume_index(members[i].1)->Some_0 by {
                    if i < front.len() {
                        assert(members[i] == front[i]);
                        assert(front[i].0 != last.0);
                    }
                }
            }
        }
    }
}

proof fn lemma_covered_volumes_readable(members: Members, wanted: Members)
    requires
        covers_volumes(members, wanted),
        all_volumes_readable(members),
    ensures
        all_volumes_readable(wanted),
{
    assert forall|i: int| 0 <= i < wanted.len() implies volume_index((#[trigger] wanted[i]).1)
        is Some by {
        assert(volume_among(members, wanted[i]));
        let j = choose|j: int|
            0 <= j < members.len() && (#[trigger] members[j]).0 == wanted[i].0
                && reordered_object(wanted[i].1, members[j].1);
        lemma_names_order_free(
            NameMap::empty(),
            wanted[i].1->Object_0,
            members[j].1->Object_0,
        );
        assert(volume_index(members[j].1) is Some);
    }
}

/// Two snapshots that hold the same volumes with the same names and entries,
/// each key once, stand for the same cache, in whatever order the members of
/// their objects are listed.
pub proof fn lemma_snapshot_order_free(one: JsonView, other: JsonView)
    requires
        reordered_snapshot(one, other),
    ensures
        decode_document(one) == decode_document(other),
{
    let first = one->Object_0;
    let second = other->Object_0;
    lemma_decode_volumes_pointwise(first);
    lemma_decode_volumes_pointwise(second);
    if all_volumes_readable(first) {
        lemma_covered_volumes_readable(first, second);
    }
    if all_volumes_readable(second) {
        lemma_covered_volumes_readable(second, first);
    }
    if decode_volumes(first) is Some {
        let left = decode_volumes(first)->Some_0;
        let right = decode_volumes(second)->Some_0;
        assert forall|volume_id: Seq<char>|
            (#[trigger] left.dom().contains(volume_id)) == right.dom().contains(volume_id) && (
            left.dom().contains(volume_id) ==> left[volume_id] == right[volume_id]) by {
            if left.contains_key(volume_id) {
                let i = choose|i: int| 0 <= i < first.len() && (#[trigger] first[i]).0 == volume_id;
                assert(volume_among(second, first[i]));
                let j = choose|j: int|
                    0 <= j < second.len() && (#[trigger] second[j]).0 == first[i].0
                        && reordered_object(first[i].1, second[j].1);
                lemma_names_order_free(
                    NameMap::empty(),
                    first[i].1->Object_0,
                    second[j].1->Object_0,
                );
                assert(right.contains_key(volume_id));
            }
            if right.contains_key(volume_id) {
                let j = choose|j: int|
                    0 <= j < second.len() && (#[trigger] second[j]).0 == volume_id;
                assert(volume_among(first, second[j]));
                let i = choose|i: int|
                    0 <= i < first.len() && (#[trigger] first[i]).0 == second[j].0
                        && reordered_object(second[j].1, first[i].1);
                assert(left.contains_key(volume_id));
            }
        }
        assert(left.dom() =~= right.dom());
        assert(left =~= right);
    }
}

/// A snapshot that holds each key once holds the same as itself.
pub proof fn lemma_reordered_snapshot_reflexive(doc: JsonView)
    requires
        keys_once(doc),
    ensures
        reordered_snapshot(doc, doc),
{
    let members = doc->Object_0;
    assert forall|i: int| 0 <= i < members.len() implies volume_among(
        members,
        #[trigger] members[i],
    ) by {
        assert(reordered_object(members[i].1, members[i].1));
    }
}

/// A snapshot that is read back with the members that were written, in
/// whatever order, gives the cache that was saved: every volume, every name, and
/// under each name the same entries in the same order.
pub proof fn lemma_reread_snapshot_gives_cache(store: StoreMap, written: JsonView, reread: JsonView)
    requires
        decode_document(written) == Some(store),
        reordered_snapshot(written, reread),
    ensures
        decode_document(reread) == Some(store),
{
    lemma_snapshot_order_free(written, reread);
}

} // verus!
