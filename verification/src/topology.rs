//! The network topology: for each node, the nodes it is directly linked to.

use crate::names::{spelled, NameMap, NameSet};
use vstd::prelude::*;

verus! {

/// Every name that a topology mentions, as a node or as a neighbor of one.
pub open spec fn members(links: Map<Seq<char>, Set<Seq<char>>>) -> Set<Seq<char>> {
    Set::new(
        |name: Seq<char>|
            links.contains_key(name) || exists|node: Seq<char>|
                links.contains_key(node) && #[trigger] links[node].contains(name),
    )
}

/// An adjacency map over node names.
#[derive(Debug, Clone)]
pub struct Topology {
    links: NameMap<NameSet>,
}

impl View for Topology {
    type V = Map<Seq<char>, Set<Seq<char>>>;

    closed spec fn view(&self) -> Map<Seq<char>, Set<Seq<char>>> {
        self.links@.map_values(|neighbors: NameSet| neighbors@)
    }
}

impl Topology {
    /// The adjacency map and each of its neighbor sets are well formed.
    pub closed spec fn wf(&self) -> bool {
        &&& self.links.wf()
        &&& forall|i: int| 0 <= i < self.links.values().len() ==> (#[trigger] self.links.values()[i]).wf()
    }

    /// Decides `wf`.
    pub fn is_wf(&self) -> (ok: bool)
        ensures
            ok == self.wf(),
    {
        if !self.links.is_wf() {
            return false;
        }
        let mut i: usize = 0;
        while i < self.links.len()
            invariant
                self.links.wf(),
                i <= self.links.keys().len(),
                forall|k: int| 0 <= k < i ==> (#[trigger] self.links.values()[k]).wf(),
            decreases self.links.keys().len() - i,
        {
            if !self.links.value(i).is_wf() {
                return false;
            }
            i += 1;
        }
        true
    }

    /// A topology without nodes.
    pub fn new() -> (topology: Topology)
        ensures
            topology.wf(),
            topology@ == Map::<Seq<char>, Set<Seq<char>>>::empty(),
    {
        let topology = Topology { links: NameMap::new() };
        topology
    }

    /// Records `neighbors` as the nodes that `node` is linked to, in place of
    /// what was recorded for `node` before. A neighbor named twice counts
    /// once.
    pub fn insert(&mut self, node: String, neighbors: Vec<String>)
        requires
            old(self).wf(),
        ensures
            final(self).wf(),
            final(self)@ == old(self)@.insert(node@, spelled(neighbors@).to_set()),
    {
        let mut set = NameSet::new();
        let mut i: usize = 0;
        while i < neighbors.len()
            invariant
                i <= neighbors.len(),
                set.wf(),
                set@ == spelled(neighbors@).take(i as int).to_set(),
            decreases neighbors.len() - i,
        {
            set.insert(neighbors[i].clone());
            proof {
                let names = spelled(neighbors@);
                assert(names.take(i + 1) =~= names.take(i as int).push(names[i as int]));
                names.take(i as int).lemma_push_to_set_commute(names[i as int]);
            }
            i += 1;
        }
        assert(spelled(neighbors@).take(i as int) =~= spelled(neighbors@));
        self.links.insert(node, set);
        proof {
            assert forall|i: int| 0 <= i < self.links.values().len() implies (
            #[trigger] self.links.values()[i]).wf() by {
                self.links.lemma_entry(i);
            }
        }
    }

    /// The nodes that `node` is linked to, if the topology has an entry for
    /// it.
    pub fn neighbors(&self, node: &String) -> (found: Option<&NameSet>)
        requires
            self.wf(),
        ensures
            found is Some <==> self@.contains_key(node@),
            found is Some ==> found->0@ == self@[node@] && found->0.wf(),
    {
        match self.links.position(node) {
            Some(i) => Some(self.links.value(i)),
            None => None,
        }
    }

    /// The names that the entry at place `k` mentions: the node and its
    /// neighbors.
    spec fn mentions(&self, k: int) -> Set<Seq<char>> {
        self.links.values()[k]@.insert(self.links.keys()[k])
    }

    /// Every name that the topology mentions.
    pub fn members(&self) -> (all: NameSet)
        requires
            self.wf(),
        ensures
            all.wf(),
            all@ == members(self@),
    {
        let mut all = NameSet::new();
        let mut i: usize = 0;
        while i < self.links.len()
            invariant
                self.wf(),
                i <= self.links.keys().len(),
                all.wf(),
                forall|name: Seq<char>| #[trigger]
                    all@.contains(name) <==> exists|k: int|
                        0 <= k < i && #[trigger] self.mentions(k).contains(name),
            decreases self.links.keys().len() - i,
        {
            let ghost seen = all@;
            all.insert(self.links.key(i).clone());
            all.extend(self.links.value(i));
            assert(all@ =~= seen.union(self.mentions(i as int)));
            i += 1;
        }
        proof {
            assert forall|name: Seq<char>| all@.contains(name) <==> members(self@).contains(
                name,
            ) by {
                if all@.contains(name) {
                    let k = choose|k: int|
                        0 <= k < i && #[trigger] self.mentions(k).contains(name);
                    let node = self.links.keys()[k];
                    assert(self@[node] == self.links.values()[k]@);
                }
                if members(self@).contains(name) {
                    if self@.contains_key(name) {
                        let k = self.links.keys().index_of(name);
                        assert(self.mentions(k).contains(name));
                    } else {
                        let node = choose|node: Seq<char>|
                            self@.contains_key(node) && #[trigger] self@[node].contains(name);
                        let k = self.links.keys().index_of(node);
                        assert(self.mentions(k).contains(name));
                    }
                }
            }
        }
        all
    }
}

} // verus!
