//! A mapping from names to values that keeps the order of its entries.

use vstd::prelude::*;

verus! {

/// No name occurs twice among the entries.
pub open spec fn names_distinct<T>(entries: Seq<(Seq<char>, T)>) -> bool {
    forall|i: int, j: int|
        0 <= i < j < entries.len() ==> (#[trigger] entries[i]).0 != (#[trigger] entries[j]).0
}

/// Some entry carries the name.
pub open spec fn has_name<T>(entries: Seq<(Seq<char>, T)>, name: Seq<char>) -> bool {
    exists|i: int| 0 <= i < entries.len() && (#[trigger] entries[i]).0 == name
}

/// The place of an entry that carries the name, where there is one.
pub open spec fn place_of<T>(entries: Seq<(Seq<char>, T)>, name: Seq<char>) -> int {
    choose|i: int| 0 <= i < entries.len() && (#[trigger] entries[i]).0 == name
}

/// The mapping that a list of entries stands for.
pub open spec fn entries_map<T>(entries: Seq<(Seq<char>, T)>) -> Map<Seq<char>, T> {
    Map::new(
        |name: Seq<char>| has_name(entries, name),
        |name: Seq<char>| entries[place_of(entries, name)].1,
    )
}

/// The entries after a value is stored under a name: the entry that carries
/// the name gets the value and keeps its place; a new name goes to the end.
pub open spec fn entries_insert<T>(entries: Seq<(Seq<char>, T)>, name: Seq<char>, value: T) -> Seq<
    (Seq<char>, T),
> {
    if has_name(entries, name) {
        entries.update(place_of(entries, name), (name, value))
    } else {
        entries.push((name, value))
    }
}

/// The entries after a name is taken out; the others keep their order.
pub open spec fn entries_remove<T>(entries: Seq<(Seq<char>, T)>, name: Seq<char>) -> Seq<
    (Seq<char>, T),
> {
    if has_name(entries, name) {
        entries.remove(place_of(entries, name))
    } else {
        entries
    }
}

/// In a list without repeated names, an entry is found at its own place.
pub proof fn lemma_place_of_unique<T>(entries: Seq<(Seq<char>, T)>, i: int)
    requires
        names_distinct(entries),
        0 <= i < entries.len(),
    ensures
        has_name(entries, entries[i].0),
        place_of(entries, entries[i].0) == i,
        entries_map(entries).contains_key(entries[i].0),
        entries_map(entries)[entries[i].0] == entries[i].1,
{
    let name = entries[i].0;
    let p = place_of(entries, name);
    assert(0 <= p < entries.len() && entries[p].0 == name);
    if p < i {
        assert(entries[p].0 != entries[i].0);
    } else if i < p {
        assert(entries[i].0 != entries[p].0);
    }
}

/// Storing a value keeps the names distinct and acts on the mapping as
/// `Map::insert` does.
pub proof fn lemma_entries_insert<T>(entries: Seq<(Seq<char>, T)>, name: Seq<char>, value: T)
    requires
        names_distinct(entries),
    ensures
        names_distinct(entries_insert(entries, name, value)),
        entries_map(entries_insert(entries, name, value)) == entries_map(entries).insert(
            name,
            value,
        ),
{
    let after = entries_insert(entries, name, value);
    if has_name(entries, name) {
        let p = place_of(entries, name);
        assert(0 <= p < entries.len() && entries[p].0 == name);
        assert forall|i: int| 0 <= i < after.len() implies (#[trigger] after[i]).0
            == entries[i].0 by {}
        assert(names_distinct(after)) by {
            assert forall|i: int, j: int| 0 <= i < j < after.len() implies (#[trigger] after[i]).0
                != (#[trigger] after[j]).0 by {
                assert(entries[i].0 != entries[j].0);
            }
        }
        assert forall|other: Seq<char>| has_name(after, other) == has_name(entries, other) by {
            if has_name(after, other) {
                let q = place_of(after, other);
                assert(entries[q].0 == other);
            }
            if has_name(entries, other) {
                let q = place_of(entries, other);
                assert(after[q].0 == other);
            }
        }
        assert forall|other: Seq<char>| has_name(after, other) implies #[trigger] entries_map(
            after,
        )[other] == entries_map(entries).insert(name, value)[other] by {
            let q = place_of(after, other);
            assert(0 <= q < after.len() && after[q].0 == other);
            assert(entries[q].0 == other);
            lemma_place_of_unique(entries, q);
            if other == name {
                lemma_place_of_unique(entries, p);
                assert(q == p);
            }
        }
        assert(entries_map(after) =~= entries_map(entries).insert(name, value));
    } else {
        let last = entries.len() as int;
        assert forall|i: int, j: int| 0 <= i < j < after.len() implies (#[trigger] after[i]).0 != (
        #[trigger] after[j]).0 by {
            if j < last {
                assert(entries[i].0 != entries[j].0);
            } else {
                assert(entries[i].0 != name);
            }
        }
        assert(after[last].0 == name);
        assert forall|other: Seq<char>| has_name(after, other) == (other == name || has_name(
            entries,
            other,
        )) by {
            if has_name(after, other) {
                let q = place_of(after, other);
                if q < last {
                    assert(entries[q].0 == other);
                }
            }
            if has_name(entries, other) {
                let q = place_of(entries, other);
                assert(after[q].0 == other);
            }
        }
        assert forall|other: Seq<char>| has_name(after, other) implies #[trigger] entries_map(
            after,
        )[other] == entries_map(entries).insert(name, value)[other] by {
            let q = place_of(after, other);
            assert(0 <= q < after.len() && after[q].0 == other);
            lemma_place_of_unique(after, q);
            if other != name {
                assert(q < last);
                assert(entries[q].0 == other);
                lemma_place_of_unique(entries, q);
            } else {
                lemma_place_of_unique(after, last);
            }
        }
        assert(entries_map(after) =~= entries_map(entries).insert(name, value));
    }
}

/// Taking a name out keeps the names distinct and acts on the mapping as
/// `Map::remove` does.
pub proof fn lemma_entries_remove<T>(entries: Seq<(Seq<char>, T)>, name: Seq<char>)
    requires
        names_distinct(entries),
    ensures
        names_distinct(entries_remove(entries, name)),
        entries_map(entries_remove(entries, name)) == entries_map(entries).remove(name),
{
    let after = entries_remove(entries, name);
    if has_name(entries, name) {
        let p = place_of(entries, name);
        assert(0 <= p < entries.len() && entries[p].0 == name);
        lemma_place_of_unique(entries, p);
        assert forall|i: int| 0 <= i < after.len() implies #[trigger] after[i] == entries[if i
            < p {
            i
        } else {
            i + 1
        }] by {}
        assert forall|i: int, j: int| 0 <= i < j < after.len() implies (#[trigger] after[i]).0 != (
        #[trigger] after[j]).0 by {
            let i0 = if i < p {
                i
            } else {
                i + 1
            };
            let j0 = if j < p {
                j
            } else {
                j + 1
            };
            assert(entries[i0].0 != entries[j0].0);
        }
        assert forall|other: Seq<char>| has_name(after, other) == (other != name && has_name(
            entries,
            other,
        )) by {
            if has_name(after, other) {
                let q = place_of(after, other);
                let q0 = if q < p {
                    q
                } else {
                    q + 1
                };
                assert(entries[q0].0 == other);
                if other == name {
                    lemma_place_of_unique(entries, q0);
                }
            }
            if other != name && has_name(entries, other) {
                let q = place_of(entries, other);
                let q1 = if q < p {
                    q
                } else {
                    q - 1
                };
                assert(after[q1].0 == other);
            }
        }
        assert forall|other: Seq<char>| has_name(after, other) implies #[trigger] entries_map(
            after,
        )[other] == entries_map(entries)[other] by {
            let q = place_of(after, other);
            assert(0 <= q < after.len() && after[q].0 == other);
            lemma_place_of_unique(after, q);
            let q0 = if q < p {
                q
            } else {
                q + 1
            };
            assert(entries[q0].0 == other);
            lemma_place_of_unique(entries, q0);
        }
        assert(entries_map(after) =~= entries_map(entries).remove(name));
    } else {
        assert(entries_map(after) =~= entries_map(entries).remove(name));
    }
}

/// The entries that come of storing the pairs one after the other, starting
/// with none: of two pairs with one name the later one gives the value.
pub open spec fn entries_from<T>(pairs: Seq<(Seq<char>, T)>) -> Seq<(Seq<char>, T)>
    decreases pairs.len(),
{
    if pairs.len() == 0 {
        Seq::empty()
    } else {
        entries_insert(entries_from(pairs.drop_last()), pairs.last().0, pairs.last().1)
    }
}

/// Pairs without a repeated name are their own entries.
pub proof fn lemma_entries_from_distinct<T>(pairs: Seq<(Seq<char>, T)>)
    requires
        names_distinct(pairs),
    ensures
        entries_from(pairs) == pairs,
    decreases pairs.len(),
{
    if pairs.len() == 0 {
        assert(pairs =~= Seq::<(Seq<char>, T)>::empty());
    } else {
        let front = pairs.drop_last();
        let last = pairs.len() - 1;
        assert forall|i: int, j: int| 0 <= i < j < front.len() implies (#[trigger] front[i]).0 != (
        #[trigger] front[j]).0 by {
            assert(pairs[i].0 != pairs[j].0);
        }
        lemma_entries_from_distinct(front);
        assert(!has_name(front, pairs.last().0)) by {
            if has_name(front, pairs.last().0) {
                let p = place_of(front, pairs.last().0);
                assert(pairs[p].0 != pairs[last].0);
            }
        }
        assert(front.push(pairs.last()) =~= pairs);
    }
}

/// A mapping from names to values that keeps its entries in a list, each name
/// at most once, in the order in which the names first came.
#[derive(Debug)]
pub struct NameMap<V: DeepView> {
    entries: Vec<(String, V)>,
}

impl<V: DeepView> View for NameMap<V> {
    type V = Map<Seq<char>, V::V>;

    open spec fn view(&self) -> Map<Seq<char>, V::V> {
        entries_map(self.entries())
    }
}

impl<V: DeepView> DeepView for NameMap<V> {
    type V = Seq<(Seq<char>, V::V)>;

    open spec fn deep_view(&self) -> Seq<(Seq<char>, V::V)> {
        self.entries()
    }
}

impl<V: DeepView> NameMap<V> {
    spec fn model(held: Seq<(String, V)>) -> Seq<(Seq<char>, V::V)> {
        Seq::new(held.len(), |i: int| (held[i].0@, held[i].1.deep_view()))
    }

    /// The entries in order, each as a name and the value's deep view.
    pub closed spec fn entries(&self) -> Seq<(Seq<char>, V::V)> {
        Self::model(self.entries@)
    }

    #[verifier::type_invariant]
    spec fn well_formed(&self) -> bool {
        names_distinct(self.entries())
    }

    /// A mapping without entries.
    pub fn new() -> (m: Self)
        ensures
            m.entries() == Seq::<(Seq<char>, V::V)>::empty(),
            m@ == Map::<Seq<char>, V::V>::empty(),
    {
        let m = NameMap { entries: Vec::new() };
        assert(m.entries() =~= Seq::<(Seq<char>, V::V)>::empty());
        assert(m@ =~= Map::<Seq<char>, V::V>::empty());
        m
    }

    /// The number of entries. No name occurs twice among them.
    pub fn len(&self) -> (n: usize)
        ensures
            n == self.entries().len(),
            names_distinct(self.entries()),
    {
        proof {
            use_type_invariant(self);
        }
        self.entries.len()
    }

    /// The place of the entry that carries the name, in the order of
    /// `entries`.
    pub fn position(&self, name: &String) -> (found: Option<usize>)
        ensures
            names_distinct(self.entries()),
            match found {
                Some(i) => has_name(self.entries(), name@) && i == place_of(
                    self.entries(),
                    name@,
                ),
                None => !has_name(self.entries(), name@),
            },
    {
        proof {
            use_type_invariant(self);
        }
        let mut i: usize = 0;
        while i < self.entries.len()
            invariant
                i <= self.entries@.len(),
                names_distinct(self.entries()),
                forall|j: int| 0 <= j < i ==> (#[trigger] self.entries()[j]).0 != name@,
            decreases self.entries@.len() - i,
        {
            if self.entries[i].0 == *name {
                proof {
                    assert(self.entries()[i as int].0 == name@);
                    lemma_place_of_unique(self.entries(), i as int);
                }
                return Some(i);
            }
            i = i + 1;
        }
        None
    }

    /// Whether a value is stored under the name.
    pub fn contains_key(&self, name: &String) -> (found: bool)
        ensures
            found == self@.contains_key(name@),
    {
        self.position(name).is_some()
    }

    /// The value stored under the name.
    pub fn get(&self, name: &String) -> (found: Option<&V>)
        ensures
            match found {
                Some(value) => self@.contains_key(name@) && value.deep_view() == self@[name@],
                None => !self@.contains_key(name@),
            },
    {
        match self.position(name) {
            Some(i) => Some(&self.entries[i].1),
            None => None,
        }
    }

    /// The entry at a place, in the order of `entries`.
    pub fn entry(&self, i: usize) -> (found: Option<(&String, &V)>)
        ensures
            match found {
                Some((name, value)) => i < self.entries().len() && (name@, value.deep_view())
                    == self.entries()[i as int],
                None => i >= self.entries().len(),
            },
    {
        if i < self.entries.len() {
            Some((&self.entries[i].0, &self.entries[i].1))
        } else {
            None
        }
    }

    /// Stores the value under the name, in place of the value that was there
    /// if the name had one.
    pub fn insert(&mut self, name: String, value: V)
        ensures
            final(self).entries() == entries_insert(
                old(self).entries(),
                name@,
                value.deep_view(),
            ),
            final(self)@ == old(self)@.insert(name@, value.deep_view()),
    {
        proof {
            use_type_invariant(&*self);
            lemma_entries_insert(self.entries(), name@, value.deep_view());
        }
        let found = self.position(&name);
        let mut entries: Vec<(String, V)> = Vec::new();
        std::mem::swap(&mut entries, &mut self.entries);
        match found {
            Some(i) => {
                entries.set(i, (name, value));
            },
            None => {
                entries.push((name, value));
            },
        }
        assert(Self::model(entries@) =~= entries_insert(
            old(self).entries(),
            name@,
            value.deep_view(),
        ));
        self.entries = entries;
    }

    /// Takes out the value stored under the name.
    pub fn remove(&mut self, name: &String) -> (taken: Option<V>)
        ensures
            final(self).entries() == entries_remove(old(self).entries(), name@),
            final(self)@ == old(self)@.remove(name@),
            match taken {
                Some(value) => old(self)@.contains_key(name@) && value.deep_view() == old(
                    self,
                )@[name@],
                None => !old(self)@.contains_key(name@),
            },
    {
        proof {
            use_type_invariant(&*self);
            lemma_entries_remove(self.entries(), name@);
        }
        match self.position(name) {
            Some(i) => {
                proof {
                    lemma_place_of_unique(self.entries(), i as int);
                }
                let mut entries: Vec<(String, V)> = Vec::new();
                std::mem::swap(&mut entries, &mut self.entries);
                let (_, value) = entries.remove(i);
                assert(Self::model(entries@) =~= entries_remove(old(self).entries(), name@));
                self.entries = entries;
                Some(value)
            },
            None => None,
        }
    }
}

} // verus!
