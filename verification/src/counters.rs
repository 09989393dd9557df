//! Counter sets: operation names with their counts.
//!
//! A `CounterSet` keeps its counters in the order in which they were first
//! inserted and never holds a name twice. Its view is the map from name to
//! count; `entries` is the ordered model that the sink writes out.

use vstd::prelude::*;

verus! {

/// One operation counter.
struct Counter {
    name: String,
    value: i64,
}

impl Counter {
    /// The counter as a pair of plain values.
    spec fn model(self) -> (Seq<char>, int) {
        (self.name@, self.value as int)
    }
}

/// No name stands at two indices of `entries`.
pub open spec fn distinct_names(entries: Seq<(Seq<char>, int)>) -> bool {
    forall|i: int, j: int| 0 <= i < j < entries.len() ==> entries[i].0 != entries[j].0
}

/// `name` stands at some index of `entries`.
pub open spec fn has_name(entries: Seq<(Seq<char>, int)>, name: Seq<char>) -> bool {
    exists|i: int| 0 <= i < entries.len() && #[trigger] entries[i].0 == name
}

/// The map that results from inserting `entries` one after another, so that
/// a later entry replaces an earlier one of the same name.
pub open spec fn map_of(entries: Seq<(Seq<char>, int)>) -> Map<Seq<char>, int>
    decreases entries.len(),
{
    if entries.len() == 0 {
        Map::empty()
    } else {
        map_of(entries.drop_last()).insert(entries.last().0, entries.last().1)
    }
}

/// `entries` after `(name, value)` is inserted: the value at the name's index
/// is replaced if the name is there, else the pair is appended.
pub open spec fn with_entry(entries: Seq<(Seq<char>, int)>, name: Seq<char>, value: int) -> Seq<
    (Seq<char>, int),
> {
    if has_name(entries, name) {
        let i = choose|i: int| 0 <= i < entries.len() && #[trigger] entries[i].0 == name;
        entries.update(i, (name, value))
    } else {
        entries.push((name, value))
    }
}

/// `pairs` inserted one after another into the empty sequence.
pub open spec fn inserted_all(pairs: Seq<(Seq<char>, int)>) -> Seq<(Seq<char>, int)>
    decreases pairs.len(),
{
    if pairs.len() == 0 {
        Seq::empty()
    } else {
        with_entry(inserted_all(pairs.drop_last()), pairs.last().0, pairs.last().1)
    }
}

/// The domain of `map_of(entries)` is the set of names in `entries`.
pub proof fn lemma_map_of_dom(entries: Seq<(Seq<char>, int)>, name: Seq<char>)
    ensures
        map_of(entries).contains_key(name) <==> has_name(entries, name),
    decreases entries.len(),
{
    if entries.len() > 0 {
        let front = entries.drop_last();
        lemma_map_of_dom(front, name);
        if has_name(front, name) {
            let i = choose|i: int| 0 <= i < front.len() && #[trigger] front[i].0 == name;
            assert(entries[i].0 == name);
        }
        if entries.last().0 == name {
            assert(entries[entries.len() - 1].0 == name);
        }
        if has_name(entries, name) {
            let i = choose|i: int| 0 <= i < entries.len() && #[trigger] entries[i].0 == name;
            if i < entries.len() - 1 {
                assert(front[i].0 == name);
            }
        }
    }
}

/// With distinct names, `map_of(entries)` maps each name to the count that
/// stands beside it.
pub proof fn lemma_map_of_index(entries: Seq<(Seq<char>, int)>, i: int)
    requires
        distinct_names(entries),
        0 <= i < entries.len(),
    ensures
        map_of(entries).contains_key(entries[i].0),
        map_of(entries)[entries[i].0] == entries[i].1,
    decreases entries.len(),
{
    let front = entries.drop_last();
    if i < entries.len() - 1 {
        assert(front[i] == entries[i]);
        lemma_map_of_index(front, i);
        assert(entries[i].0 != entries[entries.len() - 1].0);
    }
}

/// Replacing the count at index `i` is an insertion into the map.
pub proof fn lemma_map_of_update(entries: Seq<(Seq<char>, int)>, i: int, value: int)
    requires
        distinct_names(entries),
        0 <= i < entries.len(),
    ensures
        distinct_names(entries.update(i, (entries[i].0, value))),
        map_of(entries.update(i, (entries[i].0, value))) == map_of(entries).insert(
            entries[i].0,
            value,
        ),
    decreases entries.len(),
{
    let name = entries[i].0;
    let updated = entries.update(i, (name, value));
    let front = entries.drop_last();
    assert forall|a: int, b: int| 0 <= a < b < updated.len() implies updated[a].0 != updated[b].0 by {
        assert(entries[a].0 != entries[b].0);
    }
    if i == entries.len() - 1 {
        assert(updated.drop_last() == front);
        assert(map_of(updated) == map_of(front).insert(name, value));
        assert(map_of(entries).insert(name, value) == map_of(front).insert(name, value));
    } else {
        assert(front[i] == entries[i]);
        lemma_map_of_update(front, i, value);
        assert(updated.drop_last() == front.update(i, (name, value)));
        assert(updated.last() == entries.last());
        assert(entries[i].0 != entries[entries.len() - 1].0);
        assert(map_of(updated) == map_of(front).insert(name, value).insert(
            entries.last().0,
            entries.last().1,
        ));
        assert(map_of(updated) == map_of(entries).insert(name, value));
    }
}

/// Inserting one after another keeps names distinct and yields the same map
/// as `map_of`.
pub proof fn lemma_inserted_all(pairs: Seq<(Seq<char>, int)>)
    ensures
        distinct_names(inserted_all(pairs)),
        map_of(inserted_all(pairs)) == map_of(pairs),
    decreases pairs.len(),
{
    if pairs.len() > 0 {
        let front = pairs.drop_last();
        lemma_inserted_all(front);
        lemma_with_entry(inserted_all(front), pairs.last().0, pairs.last().1);
    }
}

/// `with_entry` keeps names distinct and is an insertion into the map.
pub proof fn lemma_with_entry(entries: Seq<(Seq<char>, int)>, name: Seq<char>, value: int)
    requires
        distinct_names(entries),
    ensures
        distinct_names(with_entry(entries, name, value)),
        map_of(with_entry(entries, name, value)) == map_of(entries).insert(name, value),
{
    if has_name(entries, name) {
        let i = choose|i: int| 0 <= i < entries.len() && #[trigger] entries[i].0 == name;
        lemma_map_of_update(entries, i, value);
    } else {
        let pushed = entries.push((name, value));
        assert(pushed.drop_last() == entries);
        assert forall|a: int, b: int| 0 <= a < b < pushed.len() implies pushed[a].0 != pushed[b].0 by {
            if b == entries.len() {
                assert(entries[a].0 != name);
            } else {
                assert(entries[a].0 != entries[b].0);
            }
        }
    }
}

/// A set of counters with pairwise distinct names.
pub struct CounterSet {
    items: Vec<Counter>,
}

impl View for CounterSet {
    type V = Map<Seq<char>, int>;

    open spec fn view(&self) -> Map<Seq<char>, int> {
        map_of(self.entries())
    }
}

impl CounterSet {
    /// The counters in order, as pairs of plain values.
    pub closed spec fn entries(&self) -> Seq<(Seq<char>, int)> {
        self.items@.map_values(|c: Counter| c.model())
    }

    /// No name occurs twice.
    #[verifier::type_invariant]
    spec fn names_differ(self) -> bool {
        distinct_names(self.entries())
    }

    /// The empty set.
    pub fn new() -> (r: CounterSet)
        ensures
            r.entries() == Seq::<(Seq<char>, int)>::empty(),
    {
        let items: Vec<Counter> = Vec::new();
        assert(items@.map_values(|c: Counter| c.model()) == Seq::<(Seq<char>, int)>::empty());
        CounterSet { items }
    }

    /// The number of counters.
    pub fn len(&self) -> (n: usize)
        ensures
            n == self.entries().len(),
    {
        self.items.len()
    }

    /// The name at index `i`.
    pub fn name_at(&self, i: usize) -> (name: &String)
        requires
            i < self.entries().len(),
        ensures
            name@ == self.entries()[i as int].0,
    {
        &self.items[i].name
    }

    /// The count at index `i`.
    pub fn value_at(&self, i: usize) -> (value: i64)
        requires
            i < self.entries().len(),
        ensures
            value == self.entries()[i as int].1,
    {
        self.items[i].value
    }

    /// The index at which `name` stands, if it does.
    pub fn position(&self, name: &String) -> (r: Option<usize>)
        ensures
            match r {
                Some(i) => i < self.entries().len() && self.entries()[i as int].0 == name@,
                None => !has_name(self.entries(), name@),
            },
    {
        let mut i: usize = 0;
        while i < self.items.len()
            invariant
                i <= self.items.len(),
                forall|j: int| 0 <= j < i ==> self.entries()[j].0 != name@,
            decreases self.items.len() - i,
        {
            if self.items[i].name == *name {
                return Some(i);
            }
            i += 1;
        }
        None
    }

    /// The count recorded for `name`, if there is one.
    pub fn get(&self, name: &String) -> (r: Option<i64>)
        ensures
            r == if self@.contains_key(name@) {
                Some(self@[name@] as i64)
            } else {
                None
            },
    {
        proof {
            use_type_invariant(self);
            lemma_map_of_dom(self.entries(), name@);
        }
        match self.position(name) {
            Some(i) => {
                proof {
                    lemma_map_of_index(self.entries(), i as int);
                }
                Some(self.items[i].value)
            },
            None => None,
        }
    }

    /// Records `value` for `name`, replacing an earlier count for that name.
    pub fn insert(&mut self, name: String, value: i64)
        ensures
            distinct_names(final(self).entries()),
            final(self).entries() == with_entry(old(self).entries(), name@, value as int),
            final(self)@ == old(self)@.insert(name@, value as int),
    {
        let ghost before = self.entries();
        proof {
            use_type_invariant(&*self);
            lemma_with_entry(before, name@, value as int);
        }
        let found = self.position(&name);
        // The counters are taken out while they change and put back whole.
        let mut items: Vec<Counter> = Vec::new();
        std::mem::swap(&mut items, &mut self.items);
        match found {
            Some(i) => {
                proof {
                    let w = choose|w: int| 0 <= w < before.len() && #[trigger] before[w].0 == name@;
                    assert(w == i) by {
                        if w < i {
                            assert(before[w].0 != before[i as int].0);
                        } else if i < w {
                            assert(before[i as int].0 != before[w].0);
                        }
                    }
                }
                items.set(i, Counter { name, value });
                assert(items@.map_values(|c: Counter| c.model()) == before.update(
                    i as int,
                    (name@, value as int),
                ));
            },
            None => {
                items.push(Counter { name, value });
                assert(items@.map_values(|c: Counter| c.model()) == before.push(
                    (name@, value as int),
                ));
            },
        }
        self.items = items;
    }
}

impl Clone for CounterSet {
    /// A copy with the same counters in the same order.
    fn clone(&self) -> (r: CounterSet)
        ensures
            distinct_names(r.entries()),
            r.entries() == self.entries(),
    {
        let mut items: Vec<Counter> = Vec::new();
        let mut i: usize = 0;
        while i < self.items.len()
            invariant
                i <= self.items.len(),
                items@.map_values(|c: Counter| c.model()) == self.entries().take(i as int),
            decreases self.items.len() - i,
        {
            items.push(Counter { name: self.items[i].name.clone(), value: self.items[i].value });
            i += 1;
            assert(self.entries().take(i as int) == self.entries().take(i - 1).push(
                self.entries()[i - 1],
            ));
        }
        proof {
            use_type_invariant(self);
            assert(self.entries().take(self.items.len() as int) == self.entries());
        }
        CounterSet { items }
    }
}

/// The plain values of `pairs`.
pub open spec fn pairs_model(pairs: Seq<(String, i64)>) -> Seq<(Seq<char>, int)> {
    pairs.map_values(|p: (String, i64)| (p.0@, p.1 as int))
}

/// The counter set that holds `pairs`, a later pair replacing an earlier one
/// of the same name.
pub fn counters_from_pairs(pairs: &Vec<(String, i64)>) -> (r: CounterSet)
    ensures
        distinct_names(r.entries()),
        r.entries() == inserted_all(pairs_model(pairs@)),
        r@ == map_of(pairs_model(pairs@)),
{
    let mut r = CounterSet::new();
    let mut i: usize = 0;
    while i < pairs.len()
        invariant
            i <= pairs.len(),
            distinct_names(r.entries()),
            r.entries() == inserted_all(pairs_model(pairs@).take(i as int)),
        decreases pairs.len() - i,
    {
        let ghost model = pairs_model(pairs@);
        assert(model.take(i + 1).drop_last() == model.take(i as int));
        assert(model.take(i + 1).last() == (pairs@[i as int].0@, pairs@[i as int].1 as int));
        r.insert(pairs[i].0.clone(), pairs[i].1);
        i += 1;
    }
    proof {
        assert(pairs_model(pairs@).take(pairs.len() as int) == pairs_model(pairs@));
        lemma_inserted_all(pairs_model(pairs@));
    }
    r
}

} // verus!
