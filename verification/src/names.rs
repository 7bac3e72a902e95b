//! Maps keyed by name, walked in the order in which the names first came.
use vstd::prelude::*;

use crate::text::same_text;

verus! {

/// A name and what is stored under it.
pub struct NameEntry<V> {
    pub name: String,
    pub value: V,
}

/// A map keyed by name. What the library stores holds each name once; where a name occurs
/// twice, the first entry counts.
pub struct NameMap<V> {
    pub entries: Vec<NameEntry<V>>,
}

impl<V> NameMap<V> {
    /// Whether the entry at `i` is the one that counts for `key`.
    pub open spec fn first(self, key: Seq<char>, i: int) -> bool {
        &&& 0 <= i < self.entries@.len()
        &&& self.entries@[i].name@ == key
        &&& forall|j: int| 0 <= j < i ==> (#[trigger] self.entries@[j]).name@ != key
    }

    /// Whether no name occurs twice.
    pub open spec fn distinct(self) -> bool {
        forall|i: int, j: int|
            0 <= i < j < self.entries@.len() ==> (#[trigger] self.entries@[i]).name@ != (
            #[trigger] self.entries@[j]).name@
    }

    /// The names, in the order in which they first came.
    pub open spec fn names(self) -> Seq<Seq<char>> {
        self.entries@.map_values(|e: NameEntry<V>| e.name@)
    }

    /// Whether something is stored under `key`.
    pub open spec fn has(self, key: Seq<char>) -> bool {
        exists|i: int| self.first(key, i)
    }

    /// What is stored under `key`.
    pub open spec fn value(self, key: Seq<char>) -> V {
        self.entries@[choose|i: int| self.first(key, i)].value
    }

    /// The position of the entry that counts decides what is stored.
    pub proof fn first_decides(self, key: Seq<char>, i: int)
        requires
            self.first(key, i),
        ensures
            self.has(key),
            self.value(key) == self.entries@[i].value,
    {
        let j = choose|j: int| self.first(key, j);
        assert(self.first(key, j));
        assert(!(i < j) && !(j < i));
    }

    /// Where no name occurs twice, every entry is the one that counts for its name.
    pub proof fn entry_counts(self, i: int)
        requires
            self.distinct(),
            0 <= i < self.entries@.len(),
        ensures
            self.has(self.entries@[i].name@),
            self.value(self.entries@[i].name@) == self.entries@[i].value,
    {
        self.first_decides(self.entries@[i].name@, i);
    }

    /// A name that occurs somewhere has something stored under it.
    pub proof fn occurring_has(self, i: int)
        requires
            0 <= i < self.entries@.len(),
        ensures
            self.has(self.entries@[i].name@),
        decreases i,
    {
        let key = self.entries@[i].name@;
        if self.first(key, i) {
        } else {
            let j = choose|j: int| 0 <= j < i && (#[trigger] self.entries@[j]).name@ == key;
            self.occurring_has(j);
        }
    }

    /// The names that occur are those that something is stored under.
    pub proof fn named_has(self, key: Seq<char>)
        ensures
            self.names().contains(key) <==> self.has(key),
    {
        if self.names().contains(key) {
            let i = choose|i: int| 0 <= i < self.names().len() && self.names()[i] == key;
            self.occurring_has(i);
        }
        if self.has(key) {
            let i = choose|i: int| self.first(key, i);
            assert(self.names()[i] == key);
        }
    }

    /// Maps with the same names in the same places store under the same positions.
    pub proof fn same_names(self, other: Self)
        requires
            self.entries@.len() == other.entries@.len(),
            forall|i: int|
                0 <= i < self.entries@.len() ==> (#[trigger] self.entries@[i]).name
                    == other.entries@[i].name,
        ensures
            forall|key: Seq<char>, i: int| self.first(key, i) == #[trigger] other.first(key, i),
            forall|key: Seq<char>| self.has(key) == #[trigger] other.has(key),
    {
        assert forall|key: Seq<char>, i: int| self.first(key, i) == #[trigger] other.first(
            key,
            i,
        ) by {
            if 0 <= i < self.entries@.len() {
                assert(self.entries@[i].name == other.entries@[i].name);
                assert forall|j: int| 0 <= j < i implies self.entries@[j].name@ != key
                    == (other.entries@[j].name@ != key) by {
                    assert(self.entries@[j].name == other.entries@[j].name);
                }
            }
        }
        assert forall|key: Seq<char>| self.has(key) == #[trigger] other.has(key) by {
            if self.has(key) {
                let i = choose|i: int| self.first(key, i);
                assert(other.first(key, i));
            }
            if other.has(key) {
                let i = choose|i: int| other.first(key, i);
                assert(self.first(key, i));
            }
        }
    }

    /// An empty map.
    pub fn new() -> (r: NameMap<V>)
        ensures
            r.entries@ == Seq::<NameEntry<V>>::empty(),
            r.distinct(),
            forall|key: Seq<char>| !r.has(key),
    {
        NameMap { entries: Vec::new() }
    }

    /// The position of the entry that counts for `key`.
    pub fn find(&self, key: &str) -> (r: Option<usize>)
        ensures
            r is Some == self.has(key@),
            r is Some ==> self.first(key@, r->0 as int) && self.value(key@)
                == self.entries@[r->0 as int].value,
            r is None ==> forall|j: int|
                0 <= j < self.entries.len() ==> (#[trigger] self.entries@[j]).name@ != key@,
    {
        let mut i: usize = 0;
        while i < self.entries.len()
            invariant
                i <= self.entries.len(),
                forall|j: int| 0 <= j < i ==> (#[trigger] self.entries@[j]).name@ != key@,
            decreases self.entries.len() - i,
        {
            if same_text(self.entries[i].name.as_str(), key) {
                proof {
                    self.first_decides(key@, i as int);
                }
                return Some(i);
            }
            i = i + 1;
        }
        None
    }

    /// What is stored under `key`.
    pub fn get(&self, key: &str) -> (r: Option<&V>)
        ensures
            r is Some == self.has(key@),
            r is Some ==> *r->0 == self.value(key@),
    {
        match self.find(key) {
            Some(i) => Some(&self.entries[i].value),
            None => None,
        }
    }

    /// The place of what is stored under `key`, filled with `default` if empty.
    pub fn entry(&mut self, key: &str, default: V) -> (r: &mut V)
        ensures
            *r == if old(self).has(key@) {
                old(self).value(key@)
            } else {
                default
            },
            Self::replaced(*old(self), *final(self), key@, *final(r)),
    {
        let ghost before = *self;
        let i: usize = match self.find(key) {
            Some(i) => i,
            None => {
                self.entries.push(NameEntry { name: key.to_owned(), value: default });
                self.entries.len() - 1
            },
        };
        let ghost filled = *self;
        proof {
            assert forall|j: int| 0 <= j < i implies (#[trigger] filled.entries@[j]).name@ != key@ by {
                assert(filled.entries@[j] == before.entries@[j]);
            }
            assert(filled.first(key@, i as int));
            filled.first_decides(key@, i as int);
            Self::after_entry(before, filled, key@, i as int);
        }
        &mut self.entries[i].value
    }

    /// What changes when the value at `i`, the entry for `key`, is replaced.
    proof fn after_entry(before: Self, filled: Self, key: Seq<char>, i: int)
        requires
            filled.first(key, i),
            before.entries@ == filled.entries@ || (i == before.entries@.len() && filled.entries@
                == before.entries@.push(filled.entries@[i]) && !before.has(key)),
        ensures
            forall|after: Self, value: V|
                {
                    &&& after.entries@ == filled.entries@.update(i, after.entries@[i])
                    &&& after.entries@[i].name == filled.entries@[i].name
                    &&& after.entries@[i].value == value
                } ==> #[trigger] Self::replaced(before, after, key, value),
    {
        if before.entries@ == filled.entries@ {
            assert(before.first(key, i));
        }
        assert forall|after: Self, value: V|
            {
                &&& after.entries@ == filled.entries@.update(i, after.entries@[i])
                &&& after.entries@[i].name == filled.entries@[i].name
                &&& after.entries@[i].value == value
            } implies #[trigger] Self::replaced(before, after, key, value) by {
            filled.same_names(after);
            assert(after.first(key, i));
            assert(after.names() =~= filled.names());
            assert(filled.names() =~= if before.has(key) {
                before.names()
            } else {
                before.names().push(key)
            });
            if before.distinct() {
                assert forall|j: int, k: int| 0 <= j < k < after.entries@.len() implies (
                #[trigger] after.entries@[j]).name@ != (#[trigger] after.entries@[k]).name@ by {
                    assert(after.entries@[j].name == filled.entries@[j].name);
                    assert(after.entries@[k].name == filled.entries@[k].name);
                    if k < before.entries@.len() {
                        assert(before.entries@[j] == filled.entries@[j]);
                        assert(before.entries@[k] == filled.entries@[k]);
                    }
                }
            }
            after.first_decides(key, i);
            assert forall|other: Seq<char>| other != key implies {
                &&& after.has(other) == before.has(other)
                &&& before.has(other) ==> after.value(other) == before.value(other)
            } by {
                if before.has(other) {
                    let j = choose|j: int| before.first(other, j);
                    assert(filled.first(other, j));
                    assert(after.first(other, j));
                    before.first_decides(other, j);
                    after.first_decides(other, j);
                }
                if after.has(other) {
                    let j = choose|j: int| after.first(other, j);
                    assert(filled.first(other, j));
                    assert(j != i);
                    assert forall|k: int| 0 <= k < j implies (
                    #[trigger] before.entries@[k]).name@ != other by {
                        assert(filled.entries@[k] == before.entries@[k]);
                    }
                    assert(before.first(other, j));
                }
            }
        }
    }

    /// Whether `after` is `before` with `value` stored under `key`: a new name comes last, and
    /// no name comes twice that did not before.
    pub open spec fn replaced(before: Self, after: Self, key: Seq<char>, value: V) -> bool {
        &&& after.names() == if before.has(key) {
            before.names()
        } else {
            before.names().push(key)
        }
        &&& before.distinct() ==> after.distinct()
        &&& after.has(key)
        &&& after.value(key) == value
        &&& forall|other: Seq<char>|
            other != key ==> #[trigger] after.has(other) == before.has(other)
        &&& forall|other: Seq<char>|
            other != key && before.has(other) ==> #[trigger] after.value(other) == before.value(
                other,
            )
    }
}

} // verus!
