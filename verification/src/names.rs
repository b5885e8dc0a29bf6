//! Node names and collections keyed by them.
//!
//! A node name is a string; two names are the same name when they spell the
//! same characters. The collections here keep their names in the order in
//! which they were first added, each at most once.

use vstd::prelude::*;

verus! {

/// The names that a list of strings spells, in order.
pub open spec fn spelled(list: Seq<String>) -> Seq<Seq<char>> {
    list.map_values(|s: String| s@)
}

/// Where `name` stands first in `list`, if it occurs at all.
pub fn position(list: &Vec<String>, name: &String) -> (at: Option<usize>)
    ensures
        at is Some ==> at->0 < list.len() && spelled(list@)[at->0 as int] == name@,
        at is Some ==> forall|j: int| 0 <= j < at->0 ==> spelled(list@)[j] != name@,
        at is None ==> !spelled(list@).contains(name@),
{
    let mut i: usize = 0;
    while i < list.len()
        invariant
            i <= list.len(),
            forall|j: int| 0 <= j < i ==> spelled(list@)[j] != name@,
        decreases list.len() - i,
    {
        if list[i] == *name {
            return Some(i);
        }
        i += 1;
    }
    None
}

/// Whether no name stands twice in `list`.
pub fn distinct(list: &Vec<String>) -> (ok: bool)
    ensures
        ok == spelled(list@).no_duplicates(),
{
    let mut i: usize = 0;
    while i < list.len()
        invariant
            i <= list.len(),
            forall|a: int, b: int|
                0 <= a < b < i ==> spelled(list@)[a] != spelled(list@)[b],
        decreases list.len() - i,
    {
        match position(list, &list[i]) {
            Some(first) => {
                if first != i {
                    assert(spelled(list@)[first as int] == spelled(list@)[i as int]);
                    return false;
                }
            },
            None => {},
        }
        i += 1;
    }
    true
}

/// A set of node names.
#[derive(Debug, Clone)]
pub struct NameSet {
    names: Vec<String>,
}

impl View for NameSet {
    type V = Set<Seq<char>>;

    open spec fn view(&self) -> Set<Seq<char>> {
        self.order().to_set()
    }
}

impl NameSet {
    /// The names of the set in the order in which it is walked.
    pub closed spec fn order(&self) -> Seq<Seq<char>> {
        spelled(self.names@)
    }

    /// No name stands twice.
    pub open spec fn wf(&self) -> bool {
        self.order().no_duplicates()
    }

    /// Decides `wf`.
    pub fn is_wf(&self) -> (ok: bool)
        ensures
            ok == self.wf(),
    {
        distinct(&self.names)
    }

    /// The empty set.
    pub fn new() -> (set: NameSet)
        ensures
            set.wf(),
            set.order() == Seq::<Seq<char>>::empty(),
            set@ == Set::<Seq<char>>::empty(),
    {
        let set = NameSet { names: Vec::new() };
        set
    }

    /// The number of places in the walk; in a well-formed set, the number
    /// of names.
    pub fn len(&self) -> (n: usize)
        ensures
            n == self.order().len(),
    {
        self.names.len()
    }

    /// The name at place `i` of the walk.
    pub fn get(&self, i: usize) -> (name: &String)
        requires
            i < self.order().len(),
        ensures
            name@ == self.order()[i as int],
    {
        &self.names[i]
    }

    /// Whether the set has `name`.
    pub fn contains(&self, name: &String) -> (found: bool)
        ensures
            found == self@.contains(name@),
    {
        position(&self.names, name).is_some()
    }

    /// Adds `name` unless the set has it already; says whether it was added.
    pub fn insert(&mut self, name: String) -> (added: bool)
        requires
            old(self).wf(),
        ensures
            final(self).wf(),
            added == !old(self)@.contains(name@),
            added ==> final(self).order() == old(self).order().push(name@),
            !added ==> final(self).order() == old(self).order(),
            final(self)@ == old(self)@.insert(name@),
    {
        if position(&self.names, &name).is_some() {
            false
        } else {
            let ghost before = self.names@;
            self.names.push(name);
            proof {
                assert(spelled(self.names@) =~= spelled(before).push(name@));
                spelled(before).lemma_push_to_set_commute(name@);
            }
            true
        }
    }

    /// Adds every name of `other`.
    pub fn extend(&mut self, other: &NameSet)
        requires
            old(self).wf(),
        ensures
            final(self).wf(),
            final(self)@ == old(self)@.union(other@),
    {
        let ghost before = self@;
        let mut i: usize = 0;
        while i < other.len()
            invariant
                i <= other.order().len(),
                self.wf(),
                self@ == before.union(other.order().take(i as int).to_set()),
            decreases other.order().len() - i,
        {
            self.insert(other.get(i).clone());
            proof {
                let names = other.order();
                assert(names.take(i + 1) =~= names.take(i as int).push(names[i as int]));
                names.take(i as int).lemma_push_to_set_commute(names[i as int]);
            }
            i += 1;
        }
        assert(other.order().take(i as int) =~= other.order());
    }
}

/// A map from node names to values of `V`.
#[derive(Debug, Clone)]
pub struct NameMap<V> {
    names: Vec<String>,
    values: Vec<V>,
}

impl<V> View for NameMap<V> {
    type V = Map<Seq<char>, V>;

    open spec fn view(&self) -> Map<Seq<char>, V> {
        Map::new(
            |name: Seq<char>| self.keys().contains(name),
            |name: Seq<char>| self.values()[self.keys().index_of(name)],
        )
    }
}

impl<V> NameMap<V> {
    /// The names of the map in the order in which it is walked.
    pub closed spec fn keys(&self) -> Seq<Seq<char>> {
        spelled(self.names@)
    }

    /// The values of the map, each at the place of its name.
    pub closed spec fn values(&self) -> Seq<V> {
        self.values@
    }

    /// Every name has one value and no name stands twice.
    pub open spec fn wf(&self) -> bool {
        &&& self.keys().len() == self.values().len()
        &&& self.keys().no_duplicates()
    }

    /// In a well-formed map the value at a place is the value of the name
    /// at that place.
    pub proof fn lemma_entry(&self, i: int)
        requires
            self.wf(),
            0 <= i < self.keys().len(),
        ensures
            self@.contains_key(self.keys()[i]),
            self@[self.keys()[i]] == self.values()[i],
    {
    }

    /// Decides `wf`.
    pub fn is_wf(&self) -> (ok: bool)
        ensures
            ok == self.wf(),
    {
        self.names.len() == self.values.len() && distinct(&self.names)
    }

    /// The empty map.
    pub fn new() -> (map: NameMap<V>)
        ensures
            map.wf(),
            map.keys() == Seq::<Seq<char>>::empty(),
            map@ == Map::<Seq<char>, V>::empty(),
    {
        let map = NameMap { names: Vec::new(), values: Vec::new() };
        map
    }

    /// The number of places in the walk; in a well-formed map, the number
    /// of names.
    pub fn len(&self) -> (n: usize)
        ensures
            n == self.keys().len(),
    {
        self.names.len()
    }

    /// The name at place `i` of the walk.
    pub fn key(&self, i: usize) -> (name: &String)
        requires
            i < self.keys().len(),
        ensures
            name@ == self.keys()[i as int],
    {
        &self.names[i]
    }

    /// The value at place `i` of the walk: the value of the name at that
    /// place.
    pub fn value(&self, i: usize) -> (value: &V)
        requires
            self.wf(),
            i < self.keys().len(),
        ensures
            *value == self.values()[i as int],
            *value == self@[self.keys()[i as int]],
    {
        &self.values[i]
    }

    /// The place of `name` in the walk, if the map has it.
    pub fn position(&self, name: &String) -> (at: Option<usize>)
        ensures
            at is Some <==> self@.contains_key(name@),
            at is Some ==> at->0 < self.keys().len() && self.keys()[at->0 as int] == name@,
    {
        position(&self.names, name)
    }

    /// The value of `name`, if the map has it.
    pub fn get(&self, name: &String) -> (value: Option<&V>)
        requires
            self.wf(),
        ensures
            value is Some <==> self@.contains_key(name@),
            value is Some ==> *value->0 == self@[name@],
    {
        match position(&self.names, name) {
            Some(i) => Some(&self.values[i]),
            None => None,
        }
    }

    /// Gives `name` the value `value`, whether or not it had one before.
    pub fn insert(&mut self, name: String, value: V)
        requires
            old(self).wf(),
        ensures
            final(self).wf(),
            final(self)@ == old(self)@.insert(name@, value),
            old(self).keys().contains(name@) ==> final(self).keys() == old(self).keys(),
            !old(self).keys().contains(name@) ==> final(self).keys() == old(self).keys().push(name@),
    {
        let ghost before = *self;
        match position(&self.names, &name) {
            Some(i) => {
                self.values.set(i, value);
            },
            None => {
                self.names.push(name);
                self.values.push(value);
                assert(self.keys() =~= before.keys().push(name@));
                assert forall|other: Seq<char>| self.keys().contains(other) <==> (other == name@
                    || before.keys().contains(other)) by {
                    if before.keys().contains(other) {
                        let j = before.keys().index_of(other);
                        assert(self.keys()[j] == other);
                    }
                    if other == name@ {
                        assert(self.keys()[before.keys().len() as int] == other);
                    }
                }
            },
        }
    }

    /// The value at place `i` of the walk, to change it.
    pub fn value_mut(&mut self, i: usize) -> (value: &mut V)
        requires
            old(self).wf(),
            i < old(self).keys().len(),
        ensures
            *value == old(self).values()[i as int],
            final(self).wf(),
            final(self).keys() == old(self).keys(),
            final(self).values() == old(self).values().update(i as int, *final(value)),
            final(self)@ == old(self)@.insert(old(self).keys()[i as int], *final(value)),
    {
        &mut self.values[i]
    }
}

} // verus!
