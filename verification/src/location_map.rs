//! A map from locations to values, kept in the order of the locations' text.

use crate::location::Location;
use crate::text::{
    lemma_precedes_asymmetric, lemma_precedes_total, lemma_precedes_transitive, precedes,
    text_precedes,
};
use vstd::prelude::*;

verus! {

/// A location and the value that belongs to it.
#[derive(Debug)]
pub struct Entry<V> {
    pub location: Location,
    pub value: V,
}

/// The entry at position `i` is the one for `text`.
pub open spec fn entry_at<V>(entries: Seq<Entry<V>>, text: Seq<char>, i: int) -> bool {
    0 <= i < entries.len() && entries[i].location@ == text
}

/// Some entry is for `text`.
pub open spec fn has_entry<V>(entries: Seq<Entry<V>>, text: Seq<char>) -> bool {
    exists|i: int| entry_at(entries, text, i)
}

/// The map that `entries` lists, where no location is listed twice.
pub open spec fn map_of<V>(entries: Seq<Entry<V>>) -> Map<Seq<char>, V> {
    Map::new(
        |text: Seq<char>| has_entry(entries, text),
        |text: Seq<char>| entries[choose|i: int| entry_at(entries, text, i)].value,
    )
}

/// The entries stand in the strict order of their locations' text.
pub open spec fn in_order<V>(entries: Seq<Entry<V>>) -> bool {
    forall|i: int, j: int|
        0 <= i < j < entries.len() ==> precedes(
            #[trigger] entries[i].location@,
            #[trigger] entries[j].location@,
        )
}

/// The texts of a sequence of locations.
pub open spec fn texts(locations: Seq<Location>) -> Seq<Seq<char>> {
    locations.map_values(|location: Location| location@)
}

/// The texts stand in strict lexicographic order.
pub open spec fn ascending(texts: Seq<Seq<char>>) -> bool {
    forall|i: int, j: int| 0 <= i < j < texts.len() ==> precedes(#[trigger] texts[i], #[trigger] texts[j])
}

pub(crate) proof fn lemma_entry<V>(entries: Seq<Entry<V>>, i: int)
    requires
        in_order(entries),
        0 <= i < entries.len(),
    ensures
        map_of(entries).contains_key(entries[i].location@),
        map_of(entries)[entries[i].location@] == entries[i].value,
{
    let text = entries[i].location@;
    assert(entry_at(entries, text, i));
    let j = choose|j: int| entry_at(entries, text, j);
    if i < j {
        lemma_precedes_asymmetric(entries[i].location@, entries[j].location@);
    } else if j < i {
        lemma_precedes_asymmetric(entries[j].location@, entries[i].location@);
    }
}

/// A map from locations to values.
#[derive(Debug)]
pub struct LocationMap<V> {
    entries: Vec<Entry<V>>,
}

impl<V> View for LocationMap<V> {
    type V = Map<Seq<char>, V>;

    closed spec fn view(&self) -> Map<Seq<char>, V> {
        map_of(self.entries@)
    }
}

impl<V> LocationMap<V> {
    #[verifier::type_invariant]
    spec fn is_ordered(self) -> bool {
        in_order(self.entries@)
    }

    /// An empty map.
    pub fn new() -> (map: Self)
        ensures
            map@ == Map::<Seq<char>, V>::empty(),
    {
        let map = LocationMap { entries: Vec::new() };
        proof {
            assert(map@ =~= Map::<Seq<char>, V>::empty()) by {
                assert forall|text: Seq<char>| !map@.contains_key(text) by {}
            }
        }
        map
    }

    /// How many entries come before `location`.
    fn rank(&self, location: &Location) -> (rank: usize)
        ensures
            rank <= self.entries@.len(),
            forall|i: int|
                0 <= i < rank ==> precedes(#[trigger] self.entries@[i].location@, location@),
            forall|i: int|
                rank <= i < self.entries@.len() ==> !precedes(
                    #[trigger] self.entries@[i].location@,
                    location@,
                ),
    {
        proof {
            use_type_invariant(self);
        }
        let mut low: usize = 0;
        let mut high: usize = self.entries.len();
        while low < high
            invariant
                in_order(self.entries@),
                low <= high <= self.entries@.len(),
                forall|i: int|
                    0 <= i < low ==> precedes(#[trigger] self.entries@[i].location@, location@),
                forall|i: int|
                    high <= i < self.entries@.len() ==> !precedes(
                        #[trigger] self.entries@[i].location@,
                        location@,
                    ),
            decreases high - low,
        {
            let middle: usize = low + (high - low) / 2;
            let ghost pivot = self.entries@[middle as int].location@;
            if text_precedes(self.entries[middle].location.as_str(), location.as_str()) {
                proof {
                    assert forall|i: int| 0 <= i < middle + 1 implies precedes(
                        #[trigger] self.entries@[i].location@,
                        location@,
                    ) by {
                        if i < middle {
                            lemma_precedes_transitive(
                                self.entries@[i].location@,
                                pivot,
                                location@,
                            );
                        }
                    }
                }
                low = middle + 1;
            } else {
                proof {
                    assert forall|i: int| middle <= i < self.entries@.len() implies !precedes(
                        #[trigger] self.entries@[i].location@,
                        location@,
                    ) by {
                        if middle < i && precedes(self.entries@[i].location@, location@) {
                            lemma_precedes_transitive(
                                pivot,
                                self.entries@[i].location@,
                                location@,
                            );
                        }
                    }
                }
                high = middle;
            }
        }
        low
    }

    /// The position of the entry for `location`.
    fn position(&self, location: &Location) -> (position: Option<usize>)
        ensures
            match position {
                Some(i) => entry_at(self.entries@, location@, i as int),
                None => !has_entry(self.entries@, location@),
            },
    {
        proof {
            use_type_invariant(self);
        }
        let rank = self.rank(location);
        if rank < self.entries.len() && self.entries[rank].location.is_same(location) {
            Some(rank)
        } else {
            proof {
                if has_entry(self.entries@, location@) {
                    let i = choose|i: int| entry_at(self.entries@, location@, i);
                    if i < rank {
                        lemma_precedes_asymmetric(self.entries@[i].location@, location@);
                    } else if rank < i {
                        assert(precedes(self.entries@[rank as int].location@, self.entries@[i].location@));
                    }
                }
            }
            None
        }
    }

    /// The value for `location`, if there is one.
    pub fn get(&self, location: &Location) -> (value: Option<&V>)
        ensures
            match value {
                Some(value) => self@.contains_key(location@) && self@[location@] == *value,
                None => !self@.contains_key(location@),
            },
    {
        proof {
            use_type_invariant(self);
        }
        match self.position(location) {
            Some(i) => {
                proof {
                    lemma_entry(self.entries@, i as int);
                }
                Some(&self.entries[i].value)
            },
            None => None,
        }
    }

    /// Whether there is a value for `location`.
    pub fn contains_key(&self, location: &Location) -> (present: bool)
        ensures
            present == self@.contains_key(location@),
    {
        self.position(location).is_some()
    }

    /// Sets the value for `location`, in place of the one that was there.
    pub fn insert(&mut self, location: Location, value: V)
        ensures
            final(self)@ == old(self)@.insert(location@, value),
    {
        proof {
            use_type_invariant(&*self);
        }
        let rank = self.rank(&location);
        let present = self.position(&location);
        let ghost before = self.entries@;
        let ghost text = location@;
        let mut entries: Vec<Entry<V>> = Vec::new();
        std::mem::swap(&mut entries, &mut self.entries);
        match present {
            Some(i) => {
                let entry = Entry { location, value };
                entries.set(i, entry);
                proof {
                    lemma_replaced(before, i as int, entry);
                }
            },
            None => {
                let entry = Entry { location, value };
                entries.insert(rank, entry);
                proof {
                    lemma_inserted(before, rank as int, entry);
                }
            },
        }
        self.entries = entries;
    }

    /// Removes the value for `location`, if there is one.
    pub fn remove(&mut self, location: &Location)
        ensures
            final(self)@ == old(self)@.remove(location@),
    {
        proof {
            use_type_invariant(&*self);
        }
        let present = self.position(location);
        let ghost before = self.entries@;
        let mut entries: Vec<Entry<V>> = Vec::new();
        std::mem::swap(&mut entries, &mut self.entries);
        match present {
            Some(i) => {
                entries.remove(i);
                proof {
                    lemma_removed(before, i as int);
                }
            },
            None => {
                proof {
                    assert(map_of(before) =~= map_of(before).remove(location@));
                }
            },
        }
        self.entries = entries;
    }

    /// The locations that have a value, in the order of their text.
    pub fn keys(&self) -> (keys: Vec<Location>)
        ensures
            ascending(texts(keys@)),
            forall|text: Seq<char>| #[trigger]
                texts(keys@).contains(text) <==> self@.contains_key(text),
    {
        proof {
            use_type_invariant(self);
        }
        let mut keys: Vec<Location> = Vec::new();
        for i in 0..self.entries.len()
            invariant
                in_order(self.entries@),
                keys@.len() == i,
                forall|j: int| 0 <= j < i ==> #[trigger] keys@[j]@ == self.entries@[j].location@,
        {
            keys.push(self.entries[i].location.clone());
        }
        proof {
            assert forall|i: int, j: int| 0 <= i < j < keys@.len() implies precedes(
                #[trigger] texts(keys@)[i],
                #[trigger] texts(keys@)[j],
            ) by {
                assert(keys@[i]@ == self.entries@[i].location@);
                assert(keys@[j]@ == self.entries@[j].location@);
            }
            assert forall|text: Seq<char>| #[trigger]
                texts(keys@).contains(text) <==> self@.contains_key(text) by {
                if texts(keys@).contains(text) {
                    let i = choose|i: int| 0 <= i < keys@.len() && texts(keys@)[i] == text;
                    assert(keys@[i]@ == self.entries@[i].location@);
                    assert(entry_at(self.entries@, text, i));
                }
                if self@.contains_key(text) {
                    let i = choose|i: int| entry_at(self.entries@, text, i);
                    assert(texts(keys@)[i] == text);
                }
            }
        }
        keys
    }

    /// The locations and their values, in the order of the locations' text.
    pub fn into_entries(self) -> (entries: Vec<Entry<V>>)
        ensures
            in_order(entries@),
            map_of(entries@) == self@,
    {
        proof {
            use_type_invariant(&self);
        }
        self.entries
    }
}

impl LocationMap<u64> {
    /// A copy of the map.
    pub fn snapshot(&self) -> (copy: Self)
        ensures
            copy@ == self@,
    {
        proof {
            use_type_invariant(self);
        }
        let mut entries: Vec<Entry<u64>> = Vec::new();
        for i in 0..self.entries.len()
            invariant
                in_order(self.entries@),
                entries@.len() == i,
                forall|j: int|
                    0 <= j < i ==> (#[trigger] entries@[j]).location@ == self.entries@[j].location@
                        && entries@[j].value == self.entries@[j].value,
        {
            entries.push(
                Entry { location: self.entries[i].location.clone(), value: self.entries[i].value },
            );
        }
        proof {
            lemma_same_map(entries@, self.entries@);
        }
        LocationMap { entries }
    }

    /// Drops every entry that `other` holds with the same value.
    pub fn drop_shared(&mut self, other: &LocationMap<u64>)
        ensures
            final(self)@ == without_shared(old(self)@, other@),
    {
        proof {
            use_type_invariant(&*self);
        }
        let ghost before = self.entries@;
        let mut entries: Vec<Entry<u64>> = Vec::new();
        let mut i: usize = 0;
        proof {
            assert(before.take(0) =~= Seq::empty());
        }
        while i < self.entries.len()
            invariant
                self.entries@ == before,
                in_order(before),
                i <= before.len(),
                in_order(entries@),
                map_of(entries@) =~= without_shared(map_of(before.take(i as int)), other@),
                forall|j: int, k: int|
                    0 <= j < entries@.len() && i <= k < before.len() ==> precedes(
                        #[trigger] entries@[j].location@,
                        #[trigger] before[k].location@,
                    ),
            decreases before.len() - i,
        {
            let location = self.entries[i].location.clone();
            let value: u64 = self.entries[i].value;
            let shared = match other.get(&location) {
                Some(committed) => *committed == value,
                None => false,
            };
            let ghost kept = entries@;
            let entry = Entry { location, value };
            proof {
                assert(before.take(i + 1) =~= before.take(i as int).push(before[i as int]));
                lemma_pushed(before.take(i as int), before[i as int]);
            }
            if !shared {
                proof {
                    lemma_pushed(kept, entry);
                }
                entries.push(entry);
            }
            i = i + 1;
        }
        proof {
            assert(before.take(before.len() as int) =~= before);
        }
        self.entries = entries;
    }
}

/// The entries of `map` that `other` does not hold with the same value.
pub open spec fn without_shared(
    map: Map<Seq<char>, u64>,
    other: Map<Seq<char>, u64>,
) -> Map<Seq<char>, u64> {
    Map::new(
        |text: Seq<char>|
            map.contains_key(text) && !(other.contains_key(text) && other[text] == map[text]),
        |text: Seq<char>| map[text],
    )
}

proof fn lemma_same_map<V>(a: Seq<Entry<V>>, b: Seq<Entry<V>>)
    requires
        in_order(b),
        a.len() == b.len(),
        forall|i: int|
            0 <= i < a.len() ==> (#[trigger] a[i]).location@ == b[i].location@ && a[i].value
                == b[i].value,
    ensures
        in_order(a),
        map_of(a) == map_of(b),
{
    assert forall|i: int, j: int| 0 <= i < j < a.len() implies precedes(
        #[trigger] a[i].location@,
        #[trigger] a[j].location@,
    ) by {
        assert(precedes(b[i].location@, b[j].location@));
    }
    assert forall|text: Seq<char>| has_entry(a, text) == has_entry(b, text) by {
        if has_entry(a, text) {
            let i = choose|i: int| entry_at(a, text, i);
            assert(entry_at(b, text, i));
        }
        if has_entry(b, text) {
            let i = choose|i: int| entry_at(b, text, i);
            assert(a[i].location@ == b[i].location@);
            assert(entry_at(a, text, i));
        }
    }
    assert forall|text: Seq<char>| has_entry(a, text) implies map_of(a)[text] == map_of(b)[text] by {
        let i = choose|i: int| entry_at(a, text, i);
        lemma_entry(a, i);
        lemma_entry(b, i);
    }
    assert(map_of(a) =~= map_of(b));
}

proof fn lemma_replaced<V>(entries: Seq<Entry<V>>, at: int, entry: Entry<V>)
    requires
        in_order(entries),
        entry_at(entries, entry.location@, at),
    ensures
        in_order(entries.update(at, entry)),
        map_of(entries.update(at, entry)) == map_of(entries).insert(entry.location@, entry.value),
{
    let after = entries.update(at, entry);
    assert forall|i: int, j: int| 0 <= i < j < after.len() implies precedes(
        #[trigger] after[i].location@,
        #[trigger] after[j].location@,
    ) by {
        assert(precedes(entries[i].location@, entries[j].location@));
    }
    lemma_entry(after, at);
    assert forall|text: Seq<char>| has_entry(after, text) == has_entry(entries, text) by {
        if has_entry(after, text) {
            let i = choose|i: int| entry_at(after, text, i);
            assert(entry_at(entries, text, i));
        }
        if has_entry(entries, text) {
            let i = choose|i: int| entry_at(entries, text, i);
            assert(entry_at(after, text, i));
        }
    }
    assert forall|text: Seq<char>| has_entry(after, text) && text != entry.location@ implies map_of(
        after,
    )[text] == map_of(entries)[text] by {
        let i = choose|i: int| entry_at(after, text, i);
        lemma_entry(after, i);
        lemma_entry(entries, i);
    }
    assert(map_of(after) =~= map_of(entries).insert(entry.location@, entry.value));
}

proof fn lemma_inserted<V>(entries: Seq<Entry<V>>, at: int, entry: Entry<V>)
    requires
        in_order(entries),
        0 <= at <= entries.len(),
        !has_entry(entries, entry.location@),
        forall|i: int| 0 <= i < at ==> precedes(#[trigger] entries[i].location@, entry.location@),
        forall|i: int|
            at <= i < entries.len() ==> !precedes(
                #[trigger] entries[i].location@,
                entry.location@,
            ),
    ensures
        in_order(entries.insert(at, entry)),
        map_of(entries.insert(at, entry)) == map_of(entries).insert(entry.location@, entry.value),
{
    let after = entries.insert(at, entry);
    assert forall|i: int, j: int| 0 <= i < j < after.len() implies precedes(
        #[trigger] after[i].location@,
        #[trigger] after[j].location@,
    ) by {
        if i == at {
            assert(entries[j - 1].location@ != entry.location@) by {
                assert(!entry_at(entries, entry.location@, j - 1));
            }
            assert(!precedes(entries[j - 1].location@, entry.location@));
            lemma_precedes_total(entry.location@, entries[j - 1].location@);
        } else if j == at {
            assert(precedes(entries[i].location@, entry.location@));
        } else {
            let p = if i < at { i } else { i - 1 };
            let q = if j < at { j } else { j - 1 };
            assert(precedes(entries[p].location@, entries[q].location@));
        }
    }
    lemma_entry(after, at);
    assert forall|text: Seq<char>| text != entry.location@ implies has_entry(after, text)
        == has_entry(entries, text) && (has_entry(after, text) ==> map_of(after)[text]
        == map_of(entries)[text]) by {
        if has_entry(after, text) {
            let i = choose|i: int| entry_at(after, text, i);
            let p = if i < at { i } else { i - 1 };
            assert(entry_at(entries, text, p));
            lemma_entry(after, i);
            lemma_entry(entries, p);
        }
        if has_entry(entries, text) {
            let i = choose|i: int| entry_at(entries, text, i);
            let p = if i < at { i } else { i + 1 };
            assert(entry_at(after, text, p));
        }
    }
    assert(map_of(after) =~= map_of(entries).insert(entry.location@, entry.value));
}

proof fn lemma_removed<V>(entries: Seq<Entry<V>>, at: int)
    requires
        in_order(entries),
        0 <= at < entries.len(),
    ensures
        in_order(entries.remove(at)),
        map_of(entries.remove(at)) == map_of(entries).remove(entries[at].location@),
{
    let after = entries.remove(at);
    let gone = entries[at].location@;
    assert forall|i: int, j: int| 0 <= i < j < after.len() implies precedes(
        #[trigger] after[i].location@,
        #[trigger] after[j].location@,
    ) by {
        let p = if i < at { i } else { i + 1 };
        let q = if j < at { j } else { j + 1 };
        assert(precedes(entries[p].location@, entries[q].location@));
    }
    assert(!has_entry(after, gone)) by {
        if has_entry(after, gone) {
            let i = choose|i: int| entry_at(after, gone, i);
            let p = if i < at { i } else { i + 1 };
            if p < at {
                lemma_precedes_asymmetric(entries[p].location@, entries[at].location@);
            } else {
                lemma_precedes_asymmetric(entries[at].location@, entries[p].location@);
            }
        }
    }
    assert forall|text: Seq<char>| text != gone implies has_entry(after, text) == has_entry(
        entries,
        text,
    ) && (has_entry(after, text) ==> map_of(after)[text] == map_of(entries)[text]) by {
        if has_entry(after, text) {
            let i = choose|i: int| entry_at(after, text, i);
            let p = if i < at { i } else { i + 1 };
            assert(entry_at(entries, text, p));
            lemma_entry(after, i);
            lemma_entry(entries, p);
        }
        if has_entry(entries, text) {
            let i = choose|i: int| entry_at(entries, text, i);
            let p = if i < at { i } else { i - 1 };
            assert(entry_at(after, text, p));
        }
    }
    assert(map_of(after) =~= map_of(entries).remove(gone));
}

proof fn lemma_pushed<V>(entries: Seq<Entry<V>>, entry: Entry<V>)
    requires
        in_order(entries),
        forall|i: int|
            0 <= i < entries.len() ==> precedes(#[trigger] entries[i].location@, entry.location@),
    ensures
        in_order(entries.push(entry)),
        map_of(entries.push(entry)) == map_of(entries).insert(entry.location@, entry.value),
{
    assert(!has_entry(entries, entry.location@)) by {
        if has_entry(entries, entry.location@) {
            let i = choose|i: int| entry_at(entries, entry.location@, i);
            lemma_precedes_asymmetric(entries[i].location@, entry.location@);
        }
    }
    lemma_inserted(entries, entries.len() as int, entry);
    assert(entries.insert(entries.len() as int, entry) =~= entries.push(entry));
}

} // verus!
