//! A map from text to values that keeps the order in which keys came in.

use vstd::prelude::*;

use crate::text::same_text;

verus! {

/// The place of the entry `key` among `entries[from..]`.
pub open spec fn entry_from<T>(entries: Seq<(Seq<char>, T)>, key: Seq<char>, from: int) -> Option<
    int,
>
    decreases entries.len() - from,
{
    if from < 0 || from >= entries.len() {
        None
    } else if entries[from].0 == key {
        Some(from)
    } else {
        entry_from(entries, key, from + 1)
    }
}

/// The value that stands under `key`.
pub open spec fn lookup<T>(entries: Seq<(Seq<char>, T)>, key: Seq<char>) -> Option<T> {
    match entry_from(entries, key, 0) {
        Some(i) => Some(entries[i].1),
        None => None,
    }
}

/// The entries with `value` under `key`: in the place of the old value, or at the
/// end where the key is new.
pub open spec fn upsert<T>(entries: Seq<(Seq<char>, T)>, key: Seq<char>, value: T) -> Seq<
    (Seq<char>, T),
> {
    match entry_from(entries, key, 0) {
        Some(i) => entries.update(i, (key, value)),
        None => entries.push((key, value)),
    }
}

/// No key occurs twice.
pub open spec fn distinct_keys<T>(entries: Seq<(Seq<char>, T)>) -> bool {
    forall|i: int, j: int|
        0 <= i < j < entries.len() ==> #[trigger] entries[i].0 != #[trigger] entries[j].0
}

proof fn lemma_entry_from<T>(entries: Seq<(Seq<char>, T)>, key: Seq<char>, from: int)
    requires
        0 <= from,
    ensures
        match entry_from(entries, key, from) {
            Some(i) => {
                &&& from <= i < entries.len()
                &&& entries[i].0 == key
                &&& forall|j: int| from <= j < i ==> (#[trigger] entries[j]).0 != key
            },
            None => forall|j: int| from <= j < entries.len() ==> (#[trigger] entries[j]).0 != key,
        },
    decreases entries.len() - from,
{
    if from < entries.len() && entries[from].0 != key {
        lemma_entry_from(entries, key, from + 1);
    }
}

/// Putting a value under a key leaves every other entry where it is.
pub proof fn lemma_upsert_entry<T>(entries: Seq<(Seq<char>, T)>, key: Seq<char>, value: T, i: int)
    requires
        0 <= i < upsert(entries, key, value).len(),
    ensures
        upsert(entries, key, value)[i] == (key, value) || (i < entries.len() && upsert(
            entries,
            key,
            value,
        )[i] == entries[i]),
{
    lemma_entry_from(entries, key, 0);
}

/// After a value was put under a key, the key leads to it, every other key leads
/// where it led before, and keys stay distinct.
pub proof fn law_upsert<T>(entries: Seq<(Seq<char>, T)>, key: Seq<char>, value: T, other: Seq<char>)
    requires
        distinct_keys(entries),
    ensures
        lookup(upsert(entries, key, value), key) == Some(value),
        other != key ==> lookup(upsert(entries, key, value), other) == lookup(entries, other),
        distinct_keys(upsert(entries, key, value)),
{
    let new = upsert(entries, key, value);
    lemma_entry_from(entries, key, 0);
    lemma_entry_from(new, key, 0);
    lemma_entry_from(entries, other, 0);
    lemma_entry_from(new, other, 0);
    if entry_from(entries, key, 0) is None {
        assert(new.last() == (key, value));
    } else {
        assert(new[entry_from(entries, key, 0)->0] == (key, value));
    }
    if other != key {
        if let Some(i) = entry_from(entries, other, 0) {
            assert(new[i] == entries[i]);
        }
        if let Some(i) = entry_from(new, other, 0) {
            assert(new[i] == entries[i]);
        }
    }
}

/// A map from text to values. No key occurs twice.
pub struct StringMap<V: View> {
    entries: Vec<(String, V)>,
}

impl<V: View> View for StringMap<V> {
    type V = Seq<(Seq<char>, V::V)>;

    closed spec fn view(&self) -> Seq<(Seq<char>, V::V)> {
        self.entries@.map_values(|e: (String, V)| (e.0@, e.1@))
    }
}

impl<V: View> StringMap<V> {
    #[verifier::type_invariant]
    spec fn well_formed(self) -> bool {
        distinct_keys(self@)
    }

    pub fn new() -> (map: Self)
        ensures
            map@ == Seq::<(Seq<char>, V::V)>::empty(),
    {
        let entries: Vec<(String, V)> = Vec::new();
        assert(entries@.map_values(|e: (String, V)| (e.0@, e.1@)) =~= Seq::<
            (Seq<char>, V::V),
        >::empty());
        StringMap { entries }
    }

    /// The number of entries, each with a key of its own.
    pub fn len(&self) -> (count: usize)
        ensures
            count == self@.len(),
            distinct_keys(self@),
    {
        proof {
            use_type_invariant(&*self);
        }
        self.entries.len()
    }

    /// The key of the entry `i`.
    pub fn key(&self, i: usize) -> (key: &String)
        requires
            i < self@.len(),
        ensures
            key@ == self@[i as int].0,
    {
        &self.entries[i].0
    }

    /// The value of the entry `i`.
    pub fn value(&self, i: usize) -> (value: &V)
        requires
            i < self@.len(),
        ensures
            value@ == self@[i as int].1,
    {
        &self.entries[i].1
    }

    fn position(&self, key: &str) -> (place: Option<usize>)
        ensures
            match place {
                Some(i) => entry_from(self@, key@, 0) == Some(i as int) && i < self@.len(),
                None => entry_from(self@, key@, 0) is None,
            },
    {
        let mut i: usize = 0;
        while i < self.entries.len()
            invariant
                i <= self.entries@.len(),
                entry_from(self@, key@, 0) == entry_from(self@, key@, i as int),
            decreases self.entries@.len() - i,
        {
            assert(self@[i as int].0 == self.entries@[i as int].0@);
            if same_text(self.entries[i].0.as_str(), key) {
                return Some(i);
            }
            i += 1;
        }
        None
    }

    /// The value under `key`.
    pub fn get(&self, key: &str) -> (value: Option<&V>)
        ensures
            match value {
                Some(v) => lookup(self@, key@) == Some(v@),
                None => lookup(self@, key@) is None,
            },
    {
        match self.position(key) {
            Some(i) => Some(&self.entries[i].1),
            None => None,
        }
    }

    /// Puts `value` under `key`.
    pub fn insert(&mut self, key: String, value: V)
        ensures
            final(self)@ == upsert(old(self)@, key@, value@),
    {
        proof {
            use_type_invariant(&*self);
            law_upsert(self@, key@, value@, key@);
        }
        let ghost before = self@;
        let ghost target = upsert(before, key@, value@);
        let place = self.position(key.as_str());
        let mut entries: Vec<(String, V)> = Vec::new();
        std::mem::swap(&mut entries, &mut self.entries);
        match place {
            Some(i) => {
                entries.set(i, (key, value));
            },
            None => {
                entries.push((key, value));
            },
        }
        assert(entries@.map_values(|e: (String, V)| (e.0@, e.1@)) =~= target);
        self.entries = entries;
    }
}

/// A key leads to the value of the entry that has it, and nowhere where none has.
pub proof fn law_lookup_finds_the_entry<T>(entries: Seq<(Seq<char>, T)>, key: Seq<char>, i: int)
    requires
        distinct_keys(entries),
    ensures
        0 <= i < entries.len() && entries[i].0 == key ==> lookup(entries, key) == Some(
            entries[i].1,
        ),
        lookup(entries, key) is None <==> (forall|j: int|
            0 <= j < entries.len() ==> (#[trigger] entries[j]).0 != key),
{
    lemma_entry_from(entries, key, 0);
}

/// A value under a new key comes behind all others; one under an old key takes the place
/// of the old value.
pub proof fn law_entries_keep_their_places<T>(
    entries: Seq<(Seq<char>, T)>,
    key: Seq<char>,
    value: T,
    i: int,
)
    requires
        distinct_keys(entries),
        0 <= i < entries.len(),
    ensures
        upsert(entries, key, value)[i] == if entries[i].0 == key {
            (key, value)
        } else {
            entries[i]
        },
        upsert(entries, key, value).len() == if lookup(entries, key) is Some {
            entries.len()
        } else {
            entries.len() + 1
        },
{
    lemma_entry_from(entries, key, 0);
}

} // verus!
