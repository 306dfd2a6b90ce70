use vstd::prelude::*;
use crate::entry::{entry_views, CachedEntry, EntryView};
use crate::name_index::{entries_under, NameIndex, NameMap};

verus! {

/// The whole cache: volume identifier to the index of that volume.
pub struct CacheStore {
    ids: Vec<String>,
    indexes: Vec<NameIndex>,
}

/// The mathematical value of a `CacheStore`.
pub type StoreMap = Map<Seq<char>, NameMap>;

spec fn ids_distinct(ids: Seq<String>) -> bool {
    forall|i: int, j: int|
        0 <= i < ids.len() && 0 <= j < ids.len() && #[trigger] ids[i]@ == #[trigger] ids[j]@
            ==> i == j
}

spec fn has_volume(ids: Seq<String>, volume_id: Seq<char>) -> bool {
    exists|i: int| 0 <= i < ids.len() && #[trigger] ids[i]@ == volume_id
}

spec fn slot_of(ids: Seq<String>, volume_id: Seq<char>) -> int {
    choose|i: int| 0 <= i < ids.len() && #[trigger] ids[i]@ == volume_id
}

spec fn volumes_map(ids: Seq<String>, indexes: Seq<NameIndex>) -> StoreMap {
    Map::new(
        |volume_id: Seq<char>| has_volume(ids, volume_id),
        |volume_id: Seq<char>| indexes[slot_of(ids, volume_id)]@,
    )
}

/// The index that `store` holds for `volume_id`: an empty one where the volume is
/// absent.
pub open spec fn bucket_of(store: StoreMap, volume_id: Seq<char>) -> NameMap {
    if store.contains_key(volume_id) {
        store[volume_id]
    } else {
        NameMap::empty()
    }
}

proof fn lemma_slot_of(ids: Seq<String>, i: int)
    requires
        ids_distinct(ids),
        0 <= i < ids.len(),
    ensures
        has_volume(ids, ids[i]@),
        slot_of(ids, ids[i]@) == i,
{
}

proof fn lemma_push_volume(ids: Seq<String>, indexes: Seq<NameIndex>, id: String, index: NameIndex)
    requires
        ids_distinct(ids),
        ids.len() == indexes.len(),
        !has_volume(ids, id@),
    ensures
        ids_distinct(ids.push(id)),
        volumes_map(ids.push(id), indexes.push(index)) == volumes_map(ids, indexes).insert(
            id@,
            index@,
        ),
{
    let grown = ids.push(id);
    assert(ids_distinct(grown)) by {
        assert forall|i: int, j: int|
            0 <= i < grown.len() && 0 <= j < grown.len() && #[trigger] grown[i]@
                == #[trigger] grown[j]@ implies i == j by {
            if i < ids.len() && j < ids.len() {
                assert(ids[i]@ == ids[j]@);
            } else if i < ids.len() {
                assert(ids[i]@ == id@);
            } else if j < ids.len() {
                assert(ids[j]@ == id@);
            }
        }
    }
    let target = volumes_map(ids, indexes).insert(id@, index@);
    assert forall|v: Seq<char>| has_volume(grown, v) <==> target.contains_key(v) by {
        if has_volume(grown, v) {
            let j = slot_of(grown, v);
            if j < ids.len() {
                assert(ids[j]@ == v);
            }
        }
        if target.contains_key(v) {
            if v == id@ {
                assert(grown[ids.len() as int]@ == v);
            } else {
                let j = slot_of(ids, v);
                assert(grown[j]@ == v);
            }
        }
    }
    assert forall|v: Seq<char>| has_volume(grown, v) implies volumes_map(
        grown,
        indexes.push(index),
    )[v] == target[v] by {
        let j = slot_of(grown, v);
        if j < ids.len() {
            assert(ids[j]@ == v);
            lemma_slot_of(ids, j);
        }
    }
    assert(volumes_map(grown, indexes.push(index)) =~= target);
}

proof fn lemma_update_volume(ids: Seq<String>, indexes: Seq<NameIndex>, i: int, index: NameIndex)
    requires
        ids_distinct(ids),
        ids.len() == indexes.len(),
        0 <= i < ids.len(),
    ensures
        volumes_map(ids, indexes.update(i, index)) == volumes_map(ids, indexes).insert(
            ids[i]@,
            index@,
        ),
{
    lemma_slot_of(ids, i);
    let target = volumes_map(ids, indexes).insert(ids[i]@, index@);
    assert forall|v: Seq<char>| has_volume(ids, v) implies volumes_map(
        ids,
        indexes.update(i, index),
    )[v] == target[v] by {
        let j = slot_of(ids, v);
        lemma_slot_of(ids, j);
    }
    assert(volumes_map(ids, indexes.update(i, index)) =~= target);
}

impl View for CacheStore {
    type V = StoreMap;

    closed spec fn view(&self) -> StoreMap {
        volumes_map(self.ids@, self.indexes@)
    }
}

impl CacheStore {
    #[verifier::type_invariant]
    spec fn inv(self) -> bool {
        &&& ids_distinct(self.ids@)
        &&& self.ids.len() == self.indexes.len()
    }

    /// A cache without volumes.
    pub fn new() -> (store: Self)
        ensures
            store@ == StoreMap::empty(),
    {
        let store = CacheStore { ids: Vec::new(), indexes: Vec::new() };
        assert(store@ =~= StoreMap::empty());
        store
    }

    fn find(&self, volume_id: &String) -> (found: Option<usize>)
        ensures
            match found {
                Some(i) => i < self.ids.len() && self.ids[i as int]@ == volume_id@,
                None => !has_volume(self.ids@, volume_id@),
            },
    {
        let mut i: usize = 0;
        while i < self.ids.len()
            invariant
                i <= self.ids.len(),
                forall|k: int| 0 <= k < i ==> self.ids[k]@ != volume_id@,
            decreases self.ids.len() - i,
        {
            if self.ids[i] == *volume_id {
                return Some(i);
            }
            i += 1;
        }
        None
    }

    /// The index of `volume_id`, to read and to fill: the one that the cache holds,
    /// or an empty one that this call adds to the cache.
    pub fn get_or_create_bucket(&mut self, volume_id: &str) -> (bucket: &mut NameIndex)
        ensures
            bucket@ == bucket_of(old(self)@, volume_id@),
            final(self)@ == old(self)@.insert(volume_id@, final(bucket)@),
    {
        proof {
            use_type_invariant(&*self);
        }
        let id = volume_id.to_owned();
        let found = self.find(&id);
        let at = match found {
            Some(i) => {
                proof {
                    lemma_slot_of(self.ids@, i as int);
                }
                i
            },
            None => {
                let mut taken = CacheStore::new();
                core::mem::swap(self, &mut taken);
                let CacheStore { ids, indexes } = taken;
                let mut ids = ids;
                let mut indexes = indexes;
                let at = ids.len();
                let fresh = NameIndex::new();
                proof {
                    lemma_push_volume(ids@, indexes@, id, fresh);
                    lemma_slot_of(ids@.push(id), at as int);
                }
                ids.push(id);
                indexes.push(fresh);
                *self = CacheStore { ids, indexes };
                at
            },
        };
        proof {
            assert forall|index: NameIndex|
                volumes_map(self.ids@, self.indexes@.update(at as int, index)) == old(self)@.insert(volume_id@, #[trigger] index@) by {
                lemma_update_volume(self.ids@, self.indexes@, at as int, index);
                assert(volumes_map(self.ids@, self.indexes@).insert(volume_id@, index@) =~= old(self)@.insert(volume_id@, index@));
            }
        }
        &mut self.indexes[at]
    }

    /// Whether the cache holds an index for `volume_id`.
    pub fn contains_volume(&self, volume_id: &str) -> (present: bool)
        ensures
            present == self@.contains_key(volume_id@),
    {
        let id = volume_id.to_owned();
        self.find(&id).is_some()
    }

    /// The index of `volume_id`, where the cache holds one.
    pub fn bucket(&self, volume_id: &str) -> (found: Option<&NameIndex>)
        ensures
            match found {
                Some(index) => self@.contains_key(volume_id@) && index@ == self@[volume_id@],
                None => !self@.contains_key(volume_id@),
            },
    {
        proof {
            use_type_invariant(self);
        }
        let id = volume_id.to_owned();
        match self.find(&id) {
            Some(i) => {
                proof {
                    lemma_slot_of(self.ids@, i as int);
                }
                Some(&self.indexes[i])
            },
            None => None,
        }
    }

    /// All cached entries of `volume_id` with the base name `name`, in the order of
    /// their insertion: none where the volume or the name is absent.
    pub fn lookup(&self, volume_id: &str, name: &str) -> (entries: Vec<CachedEntry>)
        ensures
            entry_views(entries@) == entries_under(bucket_of(self@, volume_id@), name@),
    {
        match self.bucket(volume_id) {
            Some(index) => index.entries_named(name),
            None => {
                let none: Vec<CachedEntry> = Vec::new();
                assert(entry_views(none@) =~= Seq::<EntryView>::empty());
                none
            },
        }
    }

    /// Whether the cache has no volume.
    pub fn is_empty(&self) -> (empty: bool)
        ensures
            empty == (self@ == StoreMap::empty()),
    {
        proof {
            use_type_invariant(self);
        }
        let empty = self.ids.len() == 0;
        proof {
            if empty {
                assert(self@ =~= StoreMap::empty());
            } else {
                lemma_slot_of(self.ids@, 0);
                assert(self@.contains_key(self.ids[0]@));
            }
        }
        empty
    }

    /// The identifiers of the cached volumes, each once.
    pub fn volume_ids(&self) -> (ids: Vec<String>)
        ensures
            forall|i: int| 0 <= i < ids.len() ==> self@.contains_key(#[trigger] ids[i]@),
            forall|i: int, j: int|
                0 <= i < ids.len() && 0 <= j < ids.len() && #[trigger] ids[i]@
                    == #[trigger] ids[j]@ ==> i == j,
            forall|volume_id: Seq<char>| #[trigger]
                self@.contains_key(volume_id) ==> exists|i: int|
                    0 <= i < ids.len() && #[trigger] ids[i]@ == volume_id,
    {
        proof {
            use_type_invariant(self);
        }
        let mut ids: Vec<String> = Vec::new();
        let mut i: usize = 0;
        while i < self.ids.len()
            invariant
                i <= self.ids.len(),
                ids.len() == i,
                forall|k: int| 0 <= k < i ==> #[trigger] ids[k]@ == self.ids[k]@,
            decreases self.ids.len() - i,
        {
            ids.push(self.ids[i].clone());
            i += 1;
        }
        proof {
            assert forall|k: int| 0 <= k < ids.len() implies self@.contains_key(
                #[trigger] ids[k]@,
            ) by {
                lemma_slot_of(self.ids@, k);
            }
            assert forall|a: int, b: int|
                0 <= a < ids.len() && 0 <= b < ids.len() && #[trigger] ids[a]@
                    == #[trigger] ids[b]@ implies a == b by {
                assert(self.ids[a]@ == self.ids[b]@);
            }
            assert forall|volume_id: Seq<char>| #[trigger]
                self@.contains_key(volume_id) implies exists|k: int|
                0 <= k < ids.len() && #[trigger] ids[k]@ == volume_id by {
                let k = slot_of(self.ids@, volume_id);
                assert(ids[k]@ == volume_id);
            }
        }
        ids
    }

    /// The cached volumes, each once and with its index.
    pub fn volumes(&self) -> (volumes: Vec<(&String, &NameIndex)>)
        ensures
            forall|i: int|
                0 <= i < volumes.len() ==> self@.contains_key((#[trigger] volumes[i]).0@)
                    && volumes[i].1@ == self@[volumes[i].0@],
            forall|i: int, j: int|
                0 <= i < volumes.len() && 0 <= j < volumes.len() && (#[trigger] volumes[i]).0@ == (
                #[trigger] volumes[j]).0@ ==> i == j,
            forall|volume_id: Seq<char>| #[trigger]
                self@.contains_key(volume_id) ==> exists|i: int|
                    0 <= i < volumes.len() && (#[trigger] volumes[i]).0@ == volume_id,
    {
        proof {
            use_type_invariant(self);
        }
        let mut volumes: Vec<(&String, &NameIndex)> = Vec::new();
        let mut i: usize = 0;
        while i < self.ids.len()
            invariant
                i <= self.ids.len(),
                self.ids.len() == self.indexes.len(),
                volumes.len() == i,
                forall|k: int|
                    0 <= k < i ==> (#[trigger] volumes[k]).0 == self.ids[k] && volumes[k].1
                        == self.indexes[k],
            decreases self.ids.len() - i,
        {
            volumes.push((&self.ids[i], &self.indexes[i]));
            i += 1;
        }
        proof {
            assert forall|k: int| 0 <= k < volumes.len() implies self@.contains_key(
                (#[trigger] volumes[k]).0@,
            ) && volumes[k].1@ == self@[volumes[k].0@] by {
                lemma_slot_of(self.ids@, k);
            }
            assert forall|a: int, b: int|
                0 <= a < volumes.len() && 0 <= b < volumes.len() && (#[trigger] volumes[a]).0@ == (
                #[trigger] volumes[b]).0@ implies a == b by {
                assert(self.ids[a]@ == self.ids[b]@);
            }
            assert forall|volume_id: Seq<char>| #[trigger]
                self@.contains_key(volume_id) implies exists|k: int|
                0 <= k < volumes.len() && (#[trigger] volumes[k]).0@ == volume_id by {
                let k = slot_of(self.ids@, volume_id);
                assert(volumes[k].0@ == volume_id);
            }
        }
        volumes
    }

    /// Puts `other` in the place of the whole cache.
    pub fn replace(&mut self, other: CacheStore)
        ensures
            final(self)@ == other@,
    {
        *self = other;
    }
}

} // verus!
