use vstd::prelude::*;
use vstd::hash_map::StringHashMap;
use crate::entry::{entry_views, CachedEntry, EntryView};

verus! {

/// The entries recorded under one base name.
struct NameSlot {
    name: String,
    entries: Vec<CachedEntry>,
}

/// The index of one volume: base name to the entries recorded under it, in the
/// order of their insertion. A name is in the index only with at least one entry.
pub struct NameIndex {
    slots: Vec<NameSlot>,
    positions: StringHashMap<usize>,
}

/// The mathematical value of a `NameIndex`.
pub type NameMap = Map<Seq<char>, Seq<EntryView>>;

/// `positions` gives for each name the slot that holds it, and for nothing else.
spec fn positions_match(slots: Seq<NameSlot>, positions: Map<Seq<char>, usize>) -> bool {
    &&& forall|i: int|
        0 <= i < slots.len() ==> positions.contains_key(#[trigger] slots[i].name@)
            && positions[slots[i].name@] == i
    &&& forall|name: Seq<char>| #[trigger]
        positions.contains_key(name) ==> positions[name] < slots.len()
            && slots[positions[name] as int].name@ == name
}

spec fn slots_filled(slots: Seq<NameSlot>) -> bool {
    forall|i: int| 0 <= i < slots.len() ==> (#[trigger] slots[i]).entries.len() > 0
}

spec fn slots_map(slots: Seq<NameSlot>, positions: Map<Seq<char>, usize>) -> NameMap {
    Map::new(
        |name: Seq<char>| positions.contains_key(name),
        |name: Seq<char>| entry_views(slots[positions[name] as int].entries@),
    )
}

/// The entries that `index` holds under `name`: none where the name is absent.
pub open spec fn entries_under(index: NameMap, name: Seq<char>) -> Seq<EntryView> {
    if index.contains_key(name) {
        index[name]
    } else {
        Seq::empty()
    }
}

/// `index` after `entries` were recorded under `name`, behind the entries that the
/// name had. Recording nothing leaves the index as it was.
pub open spec fn extended(index: NameMap, name: Seq<char>, entries: Seq<EntryView>) -> NameMap {
    if entries.len() == 0 {
        index
    } else {
        index.insert(name, entries_under(index, name) + entries)
    }
}

/// `index` after `entry` was recorded under `name`: appended to the entries of that
/// name, which is new to the index where it had none.
pub open spec fn recorded(index: NameMap, name: Seq<char>, entry: EntryView) -> NameMap {
    index.insert(name, entries_under(index, name).push(entry))
}

/// No name of `index` is without entries.
pub open spec fn every_name_filled(index: NameMap) -> bool {
    forall|name: Seq<char>| #[trigger] index.contains_key(name) ==> index[name].len() > 0
}

/// Recording one entry is recording a sequence of one.
pub proof fn lemma_recorded_is_extended(index: NameMap, name: Seq<char>, entry: EntryView)
    ensures
        recorded(index, name, entry) == extended(index, name, seq![entry]),
{
    assert(entries_under(index, name).push(entry) =~= entries_under(index, name) + seq![entry]);
}

proof fn lemma_entry_views_add(front: Seq<CachedEntry>, back: Seq<CachedEntry>)
    ensures
        entry_views(front + back) == entry_views(front) + entry_views(back),
{
    assert(entry_views(front + back) =~= entry_views(front) + entry_views(back));
}

proof fn lemma_push_slot(slots: Seq<NameSlot>, positions: Map<Seq<char>, usize>, slot: NameSlot)
    requires
        positions_match(slots, positions),
        !positions.contains_key(slot.name@),
        slots.len() <= usize::MAX,
    ensures
        positions_match(slots.push(slot), positions.insert(slot.name@, slots.len() as usize)),
        slots_map(slots.push(slot), positions.insert(slot.name@, slots.len() as usize))
            == slots_map(slots, positions).insert(slot.name@, entry_views(slot.entries@)),
{
    let grown = slots.push(slot);
    let placed = positions.insert(slot.name@, slots.len() as usize);
    assert forall|i: int| 0 <= i < grown.len() implies placed.contains_key(
        #[trigger] grown[i].name@,
    ) && placed[grown[i].name@] == i by {
        if i < slots.len() {
            assert(positions.contains_key(slots[i].name@));
        }
    }
    assert(slots_map(grown, placed) =~= slots_map(slots, positions).insert(
        slot.name@,
        entry_views(slot.entries@),
    ));
}

proof fn lemma_grow_slot(
    slots: Seq<NameSlot>,
    grown: Seq<NameSlot>,
    positions: Map<Seq<char>, usize>,
    i: int,
    added: Seq<CachedEntry>,
)
    requires
        positions_match(slots, positions),
        0 <= i < slots.len(),
        grown.len() == slots.len(),
        forall|k: int| 0 <= k < slots.len() && k != i ==> grown[k] == slots[k],
        grown[i].name@ == slots[i].name@,
        grown[i].entries@ == slots[i].entries@ + added,
    ensures
        positions_match(grown, positions),
        slots_map(grown, positions) == slots_map(slots, positions).insert(
            slots[i].name@,
            entries_under(slots_map(slots, positions), slots[i].name@) + entry_views(added),
        ),
{
    assert forall|k: int| 0 <= k < slots.len() implies #[trigger] grown[k].name@
        == slots[k].name@ by {}
    assert(positions_match(grown, positions)) by {
        assert forall|k: int| 0 <= k < grown.len() implies positions.contains_key(
            #[trigger] grown[k].name@,
        ) && positions[grown[k].name@] == k by {
            assert(positions.contains_key(slots[k].name@));
        }
    }
    lemma_entry_views_add(slots[i].entries@, added);
    assert(positions.contains_key(slots[i].name@));
    assert(slots_map(grown, positions) =~= slots_map(slots, positions).insert(
        slots[i].name@,
        entries_under(slots_map(slots, positions), slots[i].name@) + entry_views(added),
    ));
}

impl View for NameIndex {
    type V = NameMap;

    closed spec fn view(&self) -> NameMap {
        slots_map(self.slots@, self.positions@)
    }
}

impl NameIndex {
    #[verifier::type_invariant]
    spec fn inv(self) -> bool {
        &&& positions_match(self.slots@, self.positions@)
        &&& slots_filled(self.slots@)
    }

    /// An index without names.
    pub fn new() -> (index: Self)
        ensures
            index@ == NameMap::empty(),
    {
        let index = NameIndex { slots: Vec::new(), positions: StringHashMap::new() };
        assert(index@ =~= NameMap::empty());
        index
    }

    fn find(&self, name: &str) -> (found: Option<usize>)
        ensures
            match found {
                Some(i) => self.positions@.contains_key(name@) && self.positions@[name@] == i
                    && i < self.slots.len(),
                None => !self.positions@.contains_key(name@),
            },
    {
        proof {
            use_type_invariant(self);
        }
        match self.positions.get(name) {
            Some(i) => Some(*i),
            None => None,
        }
    }

    /// Records `entries` under `name`, behind the entries that the name already
    /// has, and in their order.
    pub fn extend(&mut self, name: String, entries: Vec<CachedEntry>)
        ensures
            final(self)@ == extended(old(self)@, name@, entry_views(entries@)),
    {
        proof {
            use_type_invariant(&*self);
        }
        if entries.len() == 0 {
            return ;
        }
        let found = self.find(name.as_str());
        let mut taken = NameIndex::new();
        core::mem::swap(self, &mut taken);
        let NameIndex { slots, positions } = taken;
        let mut slots = slots;
        let mut positions = positions;
        let mut entries = entries;
        match found {
            Some(i) => {
                let ghost added = entries@;
                slots[i].entries.append(&mut entries);
                proof {
                    lemma_grow_slot(old(self).slots@, slots@, positions@, i as int, added);
                }
            },
            None => {
                let slot = NameSlot { name: name.clone(), entries };
                let count = slots.len();
                proof {
                    lemma_push_slot(slots@, positions@, slot);
                    assert(entry_views(slot.entries@) =~= entries_under(old(self)@, name@)
                        + entry_views(slot.entries@));
                }
                positions.insert(name, count);
                slots.push(slot);
            },
        }
        *self = NameIndex { slots, positions };
    }

    /// Records `entry` under `name`, behind the entries that the name already has.
    pub fn insert(&mut self, name: String, entry: CachedEntry)
        ensures
            final(self)@ == recorded(old(self)@, name@, entry@),
    {
        let mut entries: Vec<CachedEntry> = Vec::new();
        entries.push(entry);
        proof {
            lemma_recorded_is_extended(old(self)@, name@, entry@);
            assert(entry_views(entries@) =~= seq![entry@]);
        }
        self.extend(name, entries);
    }

    /// The entries recorded under `name`, where the index has the name.
    pub fn get(&self, name: &str) -> (found: Option<&Vec<CachedEntry>>)
        ensures
            match found {
                Some(entries) => self@.contains_key(name@) && entry_views(entries@) == self@[name@]
                    && entries.len() > 0,
                None => !self@.contains_key(name@),
            },
    {
        proof {
            use_type_invariant(self);
        }
        match self.find(name) {
            Some(i) => Some(&self.slots[i].entries),
            None => None,
        }
    }

    /// Whether anything is recorded under `name`.
    pub fn contains_name(&self, name: &str) -> (present: bool)
        ensures
            present == self@.contains_key(name@),
    {
        self.positions.contains_key(name)
    }

    /// A copy of the entries recorded under `name`, in the order of their insertion;
    /// empty where the index does not have the name.
    pub fn entries_named(&self, name: &str) -> (entries: Vec<CachedEntry>)
        ensures
            entry_views(entries@) == entries_under(self@, name@),
    {
        match self.get(name) {
            Some(found) => {
                let copy = copy_entries(found);
                copy
            },
            None => {
                let none: Vec<CachedEntry> = Vec::new();
                assert(entry_views(none@) =~= Seq::<EntryView>::empty());
                none
            },
        }
    }

    /// The number of names.
    pub fn len(&self) -> (count: usize)
        ensures
            count == self@.len(),
    {
        broadcast use vstd::hash_map::group_hash_map_axioms;

        assert(self@.dom() =~= self.positions@.dom());
        self.positions.len()
    }

    /// Whether the index has no name.
    pub fn is_empty(&self) -> (empty: bool)
        ensures
            empty == (self@ == NameMap::empty()),
    {
        proof {
            use_type_invariant(self);
        }
        let empty = self.slots.len() == 0;
        proof {
            if empty {
                assert(self@ =~= NameMap::empty());
            } else {
                assert(self.positions@.contains_key(self.slots[0].name@));
                assert(self@.contains_key(self.slots[0].name@));
            }
        }
        empty
    }

    /// The names of the index, each once.
    pub fn names(&self) -> (names: Vec<String>)
        ensures
            names@.len() == self@.len(),
            forall|i: int| 0 <= i < names.len() ==> self@.contains_key(#[trigger] names[i]@),
            forall|i: int, j: int|
                0 <= i < names.len() && 0 <= j < names.len() && #[trigger] names[i]@
                    == #[trigger] names[j]@ ==> i == j,
            forall|name: Seq<char>| #[trigger]
                self@.contains_key(name) ==> exists|i: int|
                    0 <= i < names.len() && #[trigger] names[i]@ == name,
            every_name_filled(self@),
    {
        proof {
            use_type_invariant(self);
        }
        let mut names: Vec<String> = Vec::new();
        let mut i: usize = 0;
        while i < self.slots.len()
            invariant
                i <= self.slots.len(),
                names.len() == i,
                forall|k: int| 0 <= k < i ==> #[trigger] names[k]@ == self.slots[k].name@,
            decreases self.slots.len() - i,
        {
            names.push(self.slots[i].name.clone());
            i += 1;
        }
        proof {
            assert forall|k: int| 0 <= k < names.len() implies self@.contains_key(
                #[trigger] names[k]@,
            ) by {
                assert(self.positions@.contains_key(self.slots[k].name@));
            }
            assert forall|a: int, b: int|
                0 <= a < names.len() && 0 <= b < names.len() && #[trigger] names[a]@
                    == #[trigger] names[b]@ implies a == b by {
                assert(self.positions@[self.slots[a].name@] == a);
                assert(self.positions@[self.slots[b].name@] == b);
            }
            assert forall|name: Seq<char>| #[trigger] self@.contains_key(name) implies exists|
                k: int,
            |
                0 <= k < names.len() && #[trigger] names[k]@ == name by {
                let k = self.positions@[name] as int;
                assert(names[k]@ == name);
            }
            assert(every_name_filled(self@)) by {
                assert forall|name: Seq<char>| #[trigger] self@.contains_key(name) implies self@[name].len()
                    > 0 by {
                    let k = self.positions@[name] as int;
                    assert(self.slots[k].entries.len() > 0);
                }
            }
            lemma_names_count(self.slots@, self.positions@);
        }
        names
    }

    /// The names of the index, each once and with its entries.
    pub fn buckets(&self) -> (buckets: Vec<(&String, &Vec<CachedEntry>)>)
        ensures
            buckets@.len() == self@.len(),
            forall|i: int|
                0 <= i < buckets.len() ==> self@.contains_key((#[trigger] buckets[i]).0@)
                    && entry_views(buckets[i].1@) == self@[buckets[i].0@] && buckets[i].1.len()
                    > 0,
            forall|i: int, j: int|
                0 <= i < buckets.len() && 0 <= j < buckets.len() && (#[trigger] buckets[i]).0@ == (
                #[trigger] buckets[j]).0@ ==> i == j,
            forall|name: Seq<char>| #[trigger]
                self@.contains_key(name) ==> exists|i: int|
                    0 <= i < buckets.len() && (#[trigger] buckets[i]).0@ == name,
    {
        proof {
            use_type_invariant(self);
        }
        let mut buckets: Vec<(&String, &Vec<CachedEntry>)> = Vec::new();
        let mut i: usize = 0;
        while i < self.slots.len()
            invariant
                i <= self.slots.len(),
                buckets.len() == i,
                forall|k: int|
                    0 <= k < i ==> (#[trigger] buckets[k]).0 == self.slots[k].name
                        && buckets[k].1 == self.slots[k].entries,
            decreases self.slots.len() - i,
        {
            buckets.push((&self.slots[i].name, &self.slots[i].entries));
            i += 1;
        }
        proof {
            assert forall|k: int| 0 <= k < buckets.len() implies self@.contains_key(
                (#[trigger] buckets[k]).0@,
            ) && entry_views(buckets[k].1@) == self@[buckets[k].0@] && buckets[k].1.len()
                > 0 by {
                assert(self.positions@.contains_key(self.slots[k].name@));
                assert(self.slots[k].entries.len() > 0);
            }
            assert forall|a: int, b: int|
                0 <= a < buckets.len() && 0 <= b < buckets.len() && (#[trigger] buckets[a]).0@ == (
                #[trigger] buckets[b]).0@ implies a == b by {
                assert(self.positions@[self.slots[a].name@] == a);
                assert(self.positions@[self.slots[b].name@] == b);
            }
            assert forall|name: Seq<char>| #[trigger] self@.contains_key(name) implies exists|
                k: int,
            |
                0 <= k < buckets.len() && (#[trigger] buckets[k]).0@ == name by {
                let k = self.positions@[name] as int;
                assert(buckets[k].0@ == name);
            }
            lemma_names_count(self.slots@, self.positions@);
        }
        buckets
    }
}

/// A map that matches the slots has as many keys as there are slots.
proof fn lemma_names_count(slots: Seq<NameSlot>, positions: Map<Seq<char>, usize>)
    requires
        positions_match(slots, positions),
    ensures
        positions.dom().finite(),
        positions.dom().len() == slots.len(),
        slots_map(slots, positions).len() == slots.len(),
    decreases slots.len(),
{
    if slots.len() == 0 {
        assert(positions.dom() =~= Set::<Seq<char>>::empty());
    } else {
        let last = slots.last();
        let front = slots.drop_last();
        let fewer = positions.remove(last.name@);
        assert(positions.contains_key(slots[slots.len() - 1].name@));
        assert(positions_match(front, fewer)) by {
            assert forall|i: int| 0 <= i < front.len() implies fewer.contains_key(
                #[trigger] front[i].name@,
            ) && fewer[front[i].name@] == i by {
                assert(positions.contains_key(slots[i].name@));
            }
            assert forall|name: Seq<char>| #[trigger] fewer.contains_key(name) implies fewer[name]
                < front.len() && front[fewer[name] as int].name@ == name by {
                assert(positions.contains_key(name));
            }
        }
        lemma_names_count(front, fewer);
        assert(positions.dom() =~= fewer.dom().insert(last.name@));
    }
    assert(slots_map(slots, positions).dom() =~= positions.dom());
}

/// A copy of `entries`, entry by entry.
pub fn copy_entries(entries: &Vec<CachedEntry>) -> (copy: Vec<CachedEntry>)
    ensures
        copy@ == entries@,
{
    let mut copy: Vec<CachedEntry> = Vec::new();
    let mut i: usize = 0;
    while i < entries.len()
        invariant
            i <= entries.len(),
            copy@ == entries@.subrange(0, i as int),
        decreases entries.len() - i,
    {
        copy.push(entries[i].clone());
        assert(copy@ =~= entries@.subrange(0, i + 1));
        i += 1;
    }
    assert(copy@ =~= entries@);
    copy
}

} // verus!
