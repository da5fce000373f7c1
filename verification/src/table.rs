//! A small table keyed by text.
//!
//! Entries keep the order in which their keys first came; a key occurs once.
use crate::text::{find_entry, same_text};
use vstd::prelude::*;

verus! {

/// Whether no key occurs twice.
pub open spec fn unique_keys<V>(entries: Seq<(Seq<char>, V)>) -> bool {
    forall|i: int, j: int|
        0 <= i < j < entries.len() ==> (#[trigger] entries[i]).0 != (#[trigger] entries[j]).0
}

/// The map that a list of entries stands for.
pub open spec fn map_of<V>(entries: Seq<(Seq<char>, V)>) -> Map<Seq<char>, V> {
    Map::new(
        |key: Seq<char>| find_entry(entries, key) is Some,
        |key: Seq<char>| find_entry(entries, key)->Some_0,
    )
}

/// Where keys are unique, every entry is the one found under its key, and a key
/// that is not found stands nowhere.
pub proof fn lemma_unique_find<V>(entries: Seq<(Seq<char>, V)>, key: Seq<char>)
    requires
        unique_keys(entries),
    ensures
        match find_entry(entries, key) {
            Some(value) => exists|i: int|
                0 <= i < entries.len() && entries[i] == (key, value),
            None => forall|i: int| 0 <= i < entries.len() ==> (#[trigger] entries[i]).0 != key,
        },
        forall|i: int|
            0 <= i < entries.len() && (#[trigger] entries[i]).0 == key ==> find_entry(entries, key)
                == Some(entries[i].1),
    decreases entries.len(),
{
    if entries.len() > 0 {
        let before = entries.drop_last();
        assert forall|i: int, j: int| 0 <= i < j < before.len() implies (#[trigger] before[i]).0 != (
        #[trigger] before[j]).0 by {
            assert(before[i] == entries[i] && before[j] == entries[j]);
        }
        lemma_unique_find(before, key);
        match find_entry(before, key) {
            Some(value) => {
                let i = choose|i: int| 0 <= i < before.len() && before[i] == (key, value);
                assert(entries[i] == (key, value));
                assert forall|j: int| 0 <= j < entries.len() && (#[trigger] entries[j]).0
                    == key implies find_entry(entries, key) == Some(entries[j].1) by {
                    if i < j {
                        assert(entries[i].0 != entries[j].0);
                    } else if j < i {
                        assert(entries[j].0 != entries[i].0);
                    }
                }
            },
            None => {
                assert forall|j: int| 0 <= j < entries.len() - 1 implies (#[trigger] entries[j]).0
                    != key by {
                    assert(before[j] == entries[j]);
                }
                assert(entries.last() == entries[entries.len() - 1]);
                if entries.last().0 == key {
                    assert(entries[entries.len() - 1] == (key, entries.last().1));
                }
            },
        }
    }
}

/// Two lists with unique keys that hold the same entries stand for one map.
proof fn lemma_map_of_set<V>(entries: Seq<(Seq<char>, V)>, at: int, value: V)
    requires
        unique_keys(entries),
        0 <= at < entries.len(),
    ensures
        unique_keys(entries.update(at, (entries[at].0, value))),
        map_of(entries.update(at, (entries[at].0, value))) == map_of(entries).insert(
            entries[at].0,
            value,
        ),
{
    let after = entries.update(at, (entries[at].0, value));
    assert forall|i: int, j: int| 0 <= i < j < after.len() implies (#[trigger] after[i]).0 != (
    #[trigger] after[j]).0 by {
        assert(after[i].0 == entries[i].0 && after[j].0 == entries[j].0);
    }
    assert forall|key: Seq<char>| #[trigger]
        find_entry(after, key) == (if key == entries[at].0 {
            Some(value)
        } else {
            find_entry(entries, key)
        }) by {
        lemma_unique_find(entries, key);
        lemma_unique_find(after, key);
        if key == entries[at].0 {
            assert(after[at].0 == key);
        } else {
            match find_entry(entries, key) {
                Some(v) => {
                    let i = choose|i: int| 0 <= i < entries.len() && entries[i] == (key, v);
                    assert(after[i].0 == key);
                },
                None => {
                    assert forall|i: int| 0 <= i < after.len() implies (#[trigger] after[i]).0 != key by {
                        assert(entries[i].0 != key);
                    }
                },
            }
        }
    }
    assert(map_of(after) =~= map_of(entries).insert(entries[at].0, value));
}

proof fn lemma_map_of_push<V>(entries: Seq<(Seq<char>, V)>, key: Seq<char>, value: V)
    requires
        unique_keys(entries),
        find_entry(entries, key) is None,
    ensures
        unique_keys(entries.push((key, value))),
        map_of(entries.push((key, value))) == map_of(entries).insert(key, value),
{
    let after = entries.push((key, value));
    lemma_unique_find(entries, key);
    assert forall|i: int, j: int| 0 <= i < j < after.len() implies (#[trigger] after[i]).0 != (
    #[trigger] after[j]).0 by {
        assert(after[i] == entries[i]);
        if j < entries.len() {
            assert(after[j] == entries[j]);
        }
    }
    assert(after.drop_last() =~= entries);
    assert forall|other: Seq<char>| #[trigger]
        find_entry(after, other) == (if other == key {
            Some(value)
        } else {
            find_entry(entries, other)
        }) by {
        assert(after.last() == (key, value));
    }
    assert(map_of(after) =~= map_of(entries).insert(key, value));
}

proof fn lemma_map_of_remove<V>(entries: Seq<(Seq<char>, V)>, at: int)
    requires
        unique_keys(entries),
        0 <= at < entries.len(),
    ensures
        unique_keys(entries.remove(at)),
        map_of(entries.remove(at)) == map_of(entries).remove(entries[at].0),
{
    let after = entries.remove(at);
    let gone = entries[at].0;
    let origin = |i: int| if i < at { i } else { i + 1 };
    assert forall|i: int| 0 <= i < after.len() implies #[trigger] after[i] == entries[origin(i)] by {}
    assert forall|i: int, j: int| 0 <= i < j < after.len() implies (#[trigger] after[i]).0 != (
    #[trigger] after[j]).0 by {
        assert(after[i] == entries[origin(i)] && after[j] == entries[origin(j)]);
    }
    assert forall|key: Seq<char>| #[trigger]
        find_entry(after, key) == (if key == gone {
            None
        } else {
            find_entry(entries, key)
        }) by {
        lemma_unique_find(entries, key);
        lemma_unique_find(after, key);
        if key == gone {
            if let Some(v) = find_entry(after, key) {
                let i = choose|i: int| 0 <= i < after.len() && after[i] == (key, v);
                assert(entries[origin(i)].0 == gone);
                if origin(i) < at {
                    assert(entries[origin(i)].0 != entries[at].0);
                } else {
                    assert(entries[at].0 != entries[origin(i)].0);
                }
            }
        } else {
            match find_entry(entries, key) {
                Some(v) => {
                    let i = choose|i: int| 0 <= i < entries.len() && entries[i] == (key, v);
                    let k = if i < at {
                        i
                    } else {
                        i - 1
                    };
                    assert(after[k] == entries[i]);
                },
                None => {
                    if let Some(v) = find_entry(after, key) {
                        let i = choose|i: int| 0 <= i < after.len() && after[i] == (key, v);
                        assert(entries[origin(i)].0 == key);
                    }
                },
            }
        }
    }
    assert(map_of(after) =~= map_of(entries).remove(gone));
}

/// A table holds as many keys as it has entries.
pub proof fn lemma_map_len<V>(entries: Seq<(Seq<char>, V)>)
    requires
        unique_keys(entries),
    ensures
        map_of(entries).dom().finite(),
        map_of(entries).dom().len() == entries.len(),
    decreases entries.len(),
{
    if entries.len() == 0 {
        assert(map_of(entries).dom() =~= Set::empty());
    } else {
        let before = entries.drop_last();
        let last = entries.last();
        assert forall|i: int, j: int| 0 <= i < j < before.len() implies (#[trigger] before[i]).0 != (
        #[trigger] before[j]).0 by {
            assert(before[i] == entries[i] && before[j] == entries[j]);
        }
        lemma_map_len(before);
        lemma_unique_find(before, last.0);
        if find_entry(before, last.0) is Some {
            let v = find_entry(before, last.0)->Some_0;
            let i = choose|i: int| 0 <= i < before.len() && before[i] == (last.0, v);
            assert(entries[i].0 != entries[entries.len() - 1].0);
        }
        assert(before.push(last) =~= entries);
        lemma_map_of_push(before, last.0, last.1);
        assert(map_of(entries).dom() =~= map_of(before).dom().insert(last.0));
    }
}

/// A table from text to `V`.
#[derive(Debug)]
pub struct Table<V> {
    entries: Vec<(String, V)>,
}

impl<V> View for Table<V> {
    type V = Map<Seq<char>, V>;

    open spec fn view(&self) -> Map<Seq<char>, V> {
        map_of(self.entries())
    }
}

impl<V> Table<V> {
    /// The entries, in order.
    pub closed spec fn entries(&self) -> Seq<(Seq<char>, V)> {
        Seq::new(self.entries@.len(), |i: int| (self.entries@[i].0@, self.entries@[i].1))
    }

    #[verifier::type_invariant]
    spec fn keyed(self) -> bool {
        unique_keys(self.entries())
    }

    pub fn new() -> (table: Self)
        ensures
            table.entries() == Seq::<(Seq<char>, V)>::empty(),
            table@ == Map::<Seq<char>, V>::empty(),
    {
        let table = Table { entries: Vec::new() };
        assert(table.entries() =~= Seq::<(Seq<char>, V)>::empty());
        assert(table@ =~= Map::<Seq<char>, V>::empty());
        table
    }

    pub fn len(&self) -> (len: usize)
        ensures
            len == self.entries().len(),
            unique_keys(self.entries()),
            self@.dom().finite(),
            len == self@.dom().len(),
    {
        proof {
            use_type_invariant(self);
            lemma_map_len(self.entries());
        }
        self.entries.len()
    }

    /// Where the entry under `key` stands.
    pub fn position(&self, key: &str) -> (position: Option<usize>)
        ensures
            match position {
                Some(i) => i < self.entries().len() && self.entries()[i as int].0 == key@
                    && self@.contains_key(key@) && self@[key@] == self.entries()[i as int].1,
                None => !self@.contains_key(key@),
            },
            position is Some <==> find_entry(self.entries(), key@) is Some,
    {
        proof {
            use_type_invariant(self);
            lemma_unique_find(self.entries(), key@);
        }
        let mut i: usize = 0;
        while i < self.entries.len()
            invariant
                0 <= i <= self.entries@.len(),
                forall|j: int| 0 <= j < i ==> (#[trigger] self.entries()[j]).0 != key@,
            decreases self.entries@.len() - i,
        {
            if same_text(self.entries[i].0.as_str(), key) {
                proof {
                    use_type_invariant(self);
                    lemma_unique_find(self.entries(), key@);
                    assert(self.entries()[i as int].0 == key@);
                }
                return Some(i);
            }
            assert(self.entries()[i as int].0 != key@);
            i += 1;
        }
        proof {
            if let Some(value) = find_entry(self.entries(), key@) {
                let k = choose|k: int|
                    0 <= k < self.entries().len() && self.entries()[k] == (key@, value);
                assert(self.entries()[k].0 == key@);
            }
        }
        None
    }

    /// The value under `key`.
    pub fn get(&self, key: &str) -> (found: Option<&V>)
        ensures
            match found {
                Some(value) => self@.contains_key(key@) && *value == self@[key@],
                None => !self@.contains_key(key@),
            },
    {
        match self.position(key) {
            Some(i) => Some(&self.entries[i].1),
            None => None,
        }
    }

    /// The key of an entry.
    pub fn key_at(&self, i: usize) -> (key: &String)
        requires
            i < self.entries().len(),
        ensures
            key@ == self.entries()[i as int].0,
    {
        &self.entries[i].0
    }

    /// The value of an entry.
    pub fn value_at(&self, i: usize) -> (value: &V)
        requires
            i < self.entries().len(),
        ensures
            *value == self.entries()[i as int].1,
    {
        &self.entries[i].1
    }

    /// Replace the value of an entry.
    pub fn set_at(&mut self, i: usize, value: V)
        requires
            i < old(self).entries().len(),
        ensures
            final(self).entries() == old(self).entries().update(
                i as int,
                (old(self).entries()[i as int].0, value),
            ),
            final(self)@ == old(self)@.insert(old(self).entries()[i as int].0, value),
    {
        proof {
            use_type_invariant(&*self);
            lemma_map_of_set(self.entries(), i as int, value);
        }
        let ghost before = self.entries();
        let mut entries: Vec<(String, V)> = Vec::new();
        std::mem::swap(&mut entries, &mut self.entries);
        let key = entries[i].0.clone();
        entries[i] = (key, value);
        let ghost after = before.update(i as int, (before[i as int].0, value));
        proof {
            let table = Table { entries };
            assert(table.entries() =~= after);
        }
        self.entries = entries;
        assert(self.entries() =~= after);
    }

    /// Drop an entry; the ones after it move up.
    pub fn remove_at(&mut self, i: usize) -> (value: V)
        requires
            i < old(self).entries().len(),
        ensures
            value == old(self).entries()[i as int].1,
            final(self).entries() == old(self).entries().remove(i as int),
            final(self)@ == old(self)@.remove(old(self).entries()[i as int].0),
    {
        proof {
            use_type_invariant(&*self);
            lemma_map_of_remove(self.entries(), i as int);
        }
        let ghost before = self.entries();
        let mut entries: Vec<(String, V)> = Vec::new();
        std::mem::swap(&mut entries, &mut self.entries);
        let (_, value) = entries.remove(i);
        proof {
            let table = Table { entries };
            assert(table.entries() =~= before.remove(i as int));
        }
        self.entries = entries;
        assert(self.entries() =~= before.remove(i as int));
        value
    }

    /// Put `value` under `key`.
    pub fn insert(&mut self, key: String, value: V)
        ensures
            final(self)@ == old(self)@.insert(key@, value),
            old(self)@.contains_key(key@) ==> final(self).entries().len() == old(
                self,
            ).entries().len(),
            !old(self)@.contains_key(key@) ==> final(self).entries() == old(self).entries().push(
                (key@, value),
            ),
    {
        match self.position(key.as_str()) {
            Some(i) => self.set_at(i, value),
            None => {
                proof {
                    use_type_invariant(&*self);
                    lemma_map_of_push(self.entries(), key@, value);
                }
                let ghost before = self.entries();
                let ghost key_view = key@;
                let mut entries: Vec<(String, V)> = Vec::new();
                std::mem::swap(&mut entries, &mut self.entries);
                entries.push((key, value));
                proof {
                    let table = Table { entries };
                    assert(table.entries() =~= before.push((key_view, value)));
                }
                self.entries = entries;
                assert(self.entries() =~= before.push((key_view, value)));
            },
        }
    }

    /// Take the entry under `key` out.
    pub fn remove(&mut self, key: &str) -> (removed: Option<V>)
        ensures
            final(self)@ == old(self)@.remove(key@),
            match removed {
                Some(value) => old(self)@.contains_key(key@) && value == old(self)@[key@],
                None => !old(self)@.contains_key(key@) && final(self).entries() == old(
                    self,
                ).entries(),
            },
            final(self).entries().len() <= old(self).entries().len(),
    {
        match self.position(key) {
            Some(i) => Some(self.remove_at(i)),
            None => {
                assert(self@ =~= self@.remove(key@));
                None
            },
        }
    }
}

} // verus!
