//! A map keyed by names, which remembers the order in which the names came in.

use vstd::prelude::*;

use crate::text::str_eq;

verus! {

/// A map from names to values. No name occurs twice; the entries stand in the order
/// in which their names were first inserted.
#[derive(Debug)]
pub struct NameMap<V> {
    entries: Vec<(String, V)>,
}

/// The entries of a name map, in order.
pub open spec fn pairs_of<V>(entries: Seq<(String, V)>) -> Seq<(Seq<char>, V)> {
    entries.map_values(|e: (String, V)| (e.0@, e.1))
}

/// Whether no name occurs twice.
pub open spec fn distinct_names<V>(pairs: Seq<(Seq<char>, V)>) -> bool {
    forall|i: int, j: int| 0 <= i < j < pairs.len() ==> #[trigger] pairs[i].0 != #[trigger] pairs[j].0
}

/// Whether `name` is the name of the entry at `i`.
pub open spec fn named_at<V>(pairs: Seq<(Seq<char>, V)>, name: Seq<char>, i: int) -> bool {
    0 <= i < pairs.len() && pairs[i].0 == name
}

/// The map that entries with distinct names make.
pub open spec fn map_of<V>(pairs: Seq<(Seq<char>, V)>) -> Map<Seq<char>, V> {
    Map::new(
        |name: Seq<char>| exists|i: int| named_at(pairs, name, i),
        |name: Seq<char>| pairs[choose|i: int| named_at(pairs, name, i)].1,
    )
}

/// The entries after a name was bound to a value: a name that was there keeps its
/// place, a new one comes last.
pub open spec fn with_pair<V>(pairs: Seq<(Seq<char>, V)>, name: Seq<char>, value: V) -> Seq<
    (Seq<char>, V),
> {
    if exists|i: int| named_at(pairs, name, i) {
        pairs.update(choose|i: int| named_at(pairs, name, i), (name, value))
    } else {
        pairs.push((name, value))
    }
}

/// The entries after a name was taken out.
pub open spec fn without_pair<V>(pairs: Seq<(Seq<char>, V)>, name: Seq<char>) -> Seq<
    (Seq<char>, V),
> {
    if exists|i: int| named_at(pairs, name, i) {
        pairs.remove(choose|i: int| named_at(pairs, name, i))
    } else {
        pairs
    }
}

/// The entries taken in one by one, where a later one takes the place of an earlier one
/// with its name.
pub open spec fn collected<V>(entries: Seq<(Seq<char>, V)>) -> Seq<(Seq<char>, V)>
    decreases entries.len(),
{
    if entries.len() == 0 {
        Seq::empty()
    } else {
        with_pair(collected(entries.drop_last()), entries.last().0, entries.last().1)
    }
}

/// The map of entries, where a later one takes the place of an earlier one with its
/// name.
pub open spec fn collected_map<V>(entries: Seq<(Seq<char>, V)>) -> Map<Seq<char>, V>
    decreases entries.len(),
{
    if entries.len() == 0 {
        Map::empty()
    } else {
        collected_map(entries.drop_last()).insert(entries.last().0, entries.last().1)
    }
}

impl<V> View for NameMap<V> {
    type V = Map<Seq<char>, V>;

    open spec fn view(&self) -> Map<Seq<char>, V> {
        map_of(self.pairs())
    }
}

impl<V> NameMap<V> {
    /// The entries, in order.
    pub closed spec fn pairs(self) -> Seq<(Seq<char>, V)> {
        pairs_of(self.entries@)
    }

    #[verifier::type_invariant]
    spec fn well_formed(self) -> bool {
        distinct_names(self.pairs())
    }

    /// An empty map.
    pub fn new() -> (r: Self)
        ensures
            r.pairs() == Seq::<(Seq<char>, V)>::empty(),
            r@ == Map::<Seq<char>, V>::empty(),
    {
        let r = NameMap { entries: Vec::new() };
        assert(r.pairs() =~= Seq::<(Seq<char>, V)>::empty());
        assert(r@ =~= Map::<Seq<char>, V>::empty());
        r
    }

    /// How many entries the map has.
    pub fn len(&self) -> (n: usize)
        ensures
            n == self.pairs().len(),
            distinct_names(self.pairs()),
    {
        proof {
            use_type_invariant(self);
        }
        self.entries.len()
    }

    /// The entry at position `i`.
    pub fn at(&self, i: usize) -> (r: (&String, &V))
        requires
            i < self.pairs().len(),
        ensures
            (r.0@, *r.1) == self.pairs()[i as int],
            self@.contains_key(r.0@),
            self@[r.0@] == *r.1,
    {
        proof {
            use_type_invariant(self);
            lemma_entry(self.pairs(), i as int);
        }
        (&self.entries[i].0, &self.entries[i].1)
    }

    /// The position of the entry with the given name.
    fn position(&self, name: &str) -> (r: Option<usize>)
        ensures
            distinct_names(self.pairs()),
            match r {
                Some(i) => named_at(self.pairs(), name@, i as int),
                None => forall|i: int| !named_at(self.pairs(), name@, i),
            },
    {
        proof {
            use_type_invariant(self);
        }
        let mut i: usize = 0;
        while i < self.entries.len()
            invariant
                i <= self.entries@.len(),
                distinct_names(self.pairs()),
                forall|j: int| 0 <= j < i ==> !named_at(self.pairs(), name@, j),
            decreases self.entries@.len() - i,
        {
            if str_eq(self.entries[i].0.as_str(), name) {
                return Some(i);
            }
            i = i + 1;
        }
        None
    }

    /// The value that the map holds for a name.
    pub fn get(&self, name: &str) -> (r: Option<&V>)
        ensures
            match r {
                Some(v) => self@.contains_key(name@) && *v == self@[name@],
                None => !self@.contains_key(name@),
            },
    {
        match self.position(name) {
            Some(i) => {
                proof {
                    lemma_entry(self.pairs(), i as int);
                }
                Some(&self.entries[i].1)
            },
            None => None,
        }
    }

    /// The name as the map holds it, and the value that it is bound to.
    pub fn get_key_value(&self, name: &str) -> (r: Option<(&String, &V)>)
        ensures
            match r {
                Some((k, v)) => k@ == name@ && self@.contains_key(name@) && *v == self@[name@],
                None => !self@.contains_key(name@),
            },
    {
        match self.position(name) {
            Some(i) => {
                proof {
                    lemma_entry(self.pairs(), i as int);
                }
                Some((&self.entries[i].0, &self.entries[i].1))
            },
            None => None,
        }
    }

    /// Whether the map holds a name.
    pub fn contains_key(&self, name: &str) -> (r: bool)
        ensures
            r == self@.contains_key(name@),
    {
        self.get(name).is_some()
    }

    /// Binds a name to a value. The value takes the place of the one that was bound
    /// to the name before; a new name comes last.
    pub fn insert(&mut self, name: String, value: V)
        ensures
            final(self)@ == old(self)@.insert(name@, value),
            final(self).pairs() == with_pair(old(self).pairs(), name@, value),
            distinct_names(final(self).pairs()),
    {
        let at = self.position(name.as_str());
        let ghost old_pairs = self.pairs();
        let ghost key = name@;
        let mut entries: Vec<(String, V)> = Vec::new();
        std::mem::swap(&mut entries, &mut self.entries);
        match at {
            Some(i) => {
                entries[i] = (name, value);
            },
            None => {
                entries.push((name, value));
            },
        }
        proof {
            match at {
                Some(i) => {
                    assert(pairs_of(entries@) =~= old_pairs.update(i as int, (key, value)));
                    lemma_update(old_pairs, i as int, value);
                },
                None => {
                    assert(pairs_of(entries@) =~= old_pairs.push((key, value)));
                    lemma_push(old_pairs, key, value);
                },
            }
        }
        self.entries = entries;
    }

    /// Takes a name out of the map, and gives back the value that was bound to it.
    pub fn remove(&mut self, name: &str) -> (r: Option<V>)
        ensures
            final(self)@ == old(self)@.remove(name@),
            match r {
                Some(v) => old(self)@.contains_key(name@) && v == old(self)@[name@],
                None => !old(self)@.contains_key(name@),
            },
            final(self).pairs() == without_pair(old(self).pairs(), name@),
    {
        let ghost old_pairs = self.pairs();
        match self.position(name) {
            Some(i) => {
                let mut entries: Vec<(String, V)> = Vec::new();
                std::mem::swap(&mut entries, &mut self.entries);
                let e = entries.remove(i);
                proof {
                    assert(pairs_of(entries@) =~= old_pairs.remove(i as int));
                    lemma_entry(old_pairs, i as int);
                    lemma_remove(old_pairs, i as int);
                }
                self.entries = entries;
                Some(e.1)
            },
            None => {
                assert(self@.remove(name@) =~= self@);
                None
            },
        }
    }
}

impl<V: Clone> Clone for NameMap<V> {
    fn clone(&self) -> (r: Self)
        ensures
            r.pairs().len() == self.pairs().len(),
            forall|i: int|
                0 <= i < self.pairs().len() ==> (#[trigger] r.pairs()[i]).0 == self.pairs()[i].0
                    && cloned::<V>(self.pairs()[i].1, r.pairs()[i].1),
    {
        proof {
            use_type_invariant(self);
        }
        let mut entries: Vec<(String, V)> = Vec::new();
        let mut i: usize = 0;
        while i < self.entries.len()
            invariant
                i <= self.entries@.len(),
                entries@.len() == i,
                distinct_names(self.pairs()),
                forall|j: int|
                    0 <= j < i ==> (#[trigger] pairs_of(entries@)[j]).0 == self.pairs()[j].0
                        && cloned::<V>(self.pairs()[j].1, pairs_of(entries@)[j].1),
            decreases self.entries@.len() - i,
        {
            let ghost before = entries@;
            entries.push((self.entries[i].0.clone(), self.entries[i].1.clone()));
            assert forall|j: int| 0 <= j < i implies #[trigger] pairs_of(entries@)[j] == pairs_of(
                before,
            )[j] by {}
            i = i + 1;
        }
        NameMap { entries }
    }
}

/// The map of entries with distinct names holds each of them.
pub proof fn lemma_entry<V>(pairs: Seq<(Seq<char>, V)>, i: int)
    requires
        distinct_names(pairs),
        0 <= i < pairs.len(),
    ensures
        map_of(pairs).contains_key(pairs[i].0),
        map_of(pairs)[pairs[i].0] == pairs[i].1,
        forall|j: int| named_at(pairs, pairs[i].0, j) ==> j == i,
{
    assert(named_at(pairs, pairs[i].0, i));
    assert forall|j: int| named_at(pairs, pairs[i].0, j) implies j == i by {
        if j < i {
            assert(pairs[j].0 != pairs[i].0);
        }
        if i < j {
            assert(pairs[i].0 != pairs[j].0);
        }
    }
}

/// Each name that the map holds is the name of one of the entries.
pub proof fn lemma_position<V>(pairs: Seq<(Seq<char>, V)>, name: Seq<char>) -> (i: int)
    requires
        distinct_names(pairs),
        map_of(pairs).contains_key(name),
    ensures
        named_at(pairs, name, i),
        map_of(pairs)[name] == pairs[i].1,
{
    let i = choose|i: int| named_at(pairs, name, i);
    lemma_entry(pairs, i);
    i
}

proof fn lemma_update<V>(pairs: Seq<(Seq<char>, V)>, i: int, value: V)
    requires
        distinct_names(pairs),
        0 <= i < pairs.len(),
    ensures
        distinct_names(pairs.update(i, (pairs[i].0, value))),
        map_of(pairs.update(i, (pairs[i].0, value))) == map_of(pairs).insert(pairs[i].0, value),
        forall|j: int| named_at(pairs, pairs[i].0, j) ==> j == i,
{
    let name = pairs[i].0;
    let after = pairs.update(i, (name, value));
    lemma_entry(pairs, i);
    assert(distinct_names(after));
    assert forall|k: Seq<char>|
        map_of(after).contains_key(k) == map_of(pairs).insert(name, value).contains_key(k) by {
        if map_of(after).contains_key(k) {
            let j = lemma_position(after, k);
            assert(named_at(pairs, k, j));
        }
        if map_of(pairs).contains_key(k) {
            let j = lemma_position(pairs, k);
            assert(named_at(after, k, j));
        }
        assert(named_at(after, name, i));
    }
    assert forall|k: Seq<char>| map_of(after).contains_key(k) implies #[trigger] map_of(after)[k]
        == map_of(pairs).insert(name, value)[k] by {
        let j = lemma_position(after, k);
        lemma_entry(pairs, j);
    }
    assert(map_of(after) =~= map_of(pairs).insert(name, value));
}

/// A new name at the end adds one binding to the map.
pub proof fn lemma_push<V>(pairs: Seq<(Seq<char>, V)>, name: Seq<char>, value: V)
    requires
        distinct_names(pairs),
        forall|i: int| !named_at(pairs, name, i),
    ensures
        distinct_names(pairs.push((name, value))),
        map_of(pairs.push((name, value))) == map_of(pairs).insert(name, value),
        !map_of(pairs).contains_key(name),
{
    let after = pairs.push((name, value));
    assert forall|i: int, j: int| 0 <= i < j < after.len() implies #[trigger] after[i].0
        != #[trigger] after[j].0 by {
        assert(!named_at(pairs, name, i));
    }
    assert forall|k: Seq<char>|
        map_of(after).contains_key(k) == map_of(pairs).insert(name, value).contains_key(k) by {
        if map_of(after).contains_key(k) {
            let j = lemma_position(after, k);
            if j < pairs.len() {
                assert(named_at(pairs, k, j));
            }
        }
        if map_of(pairs).contains_key(k) {
            let j = lemma_position(pairs, k);
            assert(named_at(after, k, j));
        }
        assert(named_at(after, name, pairs.len() as int));
    }
    assert forall|k: Seq<char>| map_of(after).contains_key(k) implies #[trigger] map_of(after)[k]
        == map_of(pairs).insert(name, value)[k] by {
        let j = lemma_position(after, k);
        if j < pairs.len() {
            assert(!named_at(pairs, name, j));
            lemma_entry(pairs, j);
        }
    }
    assert(map_of(after) =~= map_of(pairs).insert(name, value));
}

proof fn lemma_remove<V>(pairs: Seq<(Seq<char>, V)>, i: int)
    requires
        distinct_names(pairs),
        0 <= i < pairs.len(),
    ensures
        distinct_names(pairs.remove(i)),
        map_of(pairs.remove(i)) == map_of(pairs).remove(pairs[i].0),
{
    let name = pairs[i].0;
    let after = pairs.remove(i);
    assert forall|a: int, b: int| 0 <= a < b < after.len() implies #[trigger] after[a].0
        != #[trigger] after[b].0 by {
        let x = if a < i { a } else { a + 1 };
        let y = if b < i { b } else { b + 1 };
        assert(after[a] == pairs[x] && after[b] == pairs[y]);
    }
    assert forall|k: Seq<char>|
        map_of(after).contains_key(k) == map_of(pairs).remove(name).contains_key(k) by {
        if map_of(after).contains_key(k) {
            let a = lemma_position(after, k);
            let x = if a < i { a } else { a + 1 };
            assert(named_at(pairs, k, x));
            lemma_entry(pairs, i);
        }
        if map_of(pairs).contains_key(k) && k != name {
            let x = lemma_position(pairs, k);
            let a = if x < i { x } else { x - 1 };
            assert(named_at(after, k, a));
        }
    }
    assert forall|k: Seq<char>| map_of(after).contains_key(k) implies #[trigger] map_of(after)[k]
        == map_of(pairs).remove(name)[k] by {
        let a = lemma_position(after, k);
        let x = if a < i { a } else { a + 1 };
        lemma_entry(pairs, x);
    }
    assert(map_of(after) =~= map_of(pairs).remove(name));
}

/// Binding a name keeps names distinct, and binds it in the map.
pub proof fn lemma_with_pair<V>(pairs: Seq<(Seq<char>, V)>, name: Seq<char>, value: V)
    requires
        distinct_names(pairs),
    ensures
        distinct_names(with_pair(pairs, name, value)),
        map_of(with_pair(pairs, name, value)) == map_of(pairs).insert(name, value),
{
    if exists|i: int| named_at(pairs, name, i) {
        let i = choose|i: int| named_at(pairs, name, i);
        lemma_update(pairs, i, value);
    } else {
        lemma_push(pairs, name, value);
    }
}

/// Entries that are taken in have distinct names, and make the map of the entries.
pub proof fn lemma_collected<V>(entries: Seq<(Seq<char>, V)>)
    ensures
        distinct_names(collected(entries)),
        map_of(collected(entries)) == collected_map(entries),
    decreases entries.len(),
{
    if entries.len() == 0 {
        assert(map_of(collected(entries)) =~= collected_map(entries));
    } else {
        lemma_collected(entries.drop_last());
        lemma_with_pair(collected(entries.drop_last()), entries.last().0, entries.last().1);
    }
}

/// Entries with distinct names are taken in as they are.
pub proof fn lemma_collected_distinct<V>(entries: Seq<(Seq<char>, V)>)
    requires
        distinct_names(entries),
    ensures
        collected(entries) == entries,
    decreases entries.len(),
{
    if entries.len() > 0 {
        let rest = entries.drop_last();
        assert forall|i: int, j: int| 0 <= i < j < rest.len() implies #[trigger] rest[i].0
            != #[trigger] rest[j].0 by {
            assert(entries[i].0 != entries[j].0);
        }
        lemma_collected_distinct(rest);
        assert forall|i: int| !named_at(rest, entries.last().0, i) by {
            if named_at(rest, entries.last().0, i) {
                assert(entries[i].0 != entries[entries.len() - 1].0);
            }
        }
        assert(rest.push((entries.last().0, entries.last().1)) =~= entries);
    } else {
        assert(collected(entries) =~= entries);
    }
}

} // verus!
