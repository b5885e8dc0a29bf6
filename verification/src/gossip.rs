//! The gossip protocol of one node as a mathematical state machine.
//!
//! A node holds the set of values it has seen, the topology it was given,
//! and for each node an estimate of the values that node is known to hold.
//! The executable node refines this model: each of its handlers takes the
//! step of the same name.

use crate::topology::members;
use vstd::prelude::*;

verus! {

/// What a broadcast node knows.
#[verifier::ext_equal]
pub struct GossipState {
    /// This node's name, once the handshake has set it.
    pub name: Option<Seq<char>>,
    /// The values this node holds.
    pub values: Set<usize>,
    /// The adjacency map, once it was delivered.
    pub topology: Option<Map<Seq<char>, Set<Seq<char>>>>,
    /// For each node, the values it is known to hold already.
    pub known: Map<Seq<char>, Set<usize>>,
}

/// What can happen to a node.
pub enum Step {
    /// The handshake names the node.
    Init(Seq<char>),
    /// The adjacency map arrives.
    Topology(Map<Seq<char>, Set<Seq<char>>>),
    /// The current values are read.
    Read,
    /// A value is broadcast to this node.
    Broadcast(usize),
    /// A node sends the values it holds.
    Gossip(Seq<char>, Set<usize>),
    /// A node answers gossip with the values it holds.
    GossipOk(Set<usize>),
    /// The timer fires.
    Sync,
}

impl GossipState {
    /// A node before the handshake: nameless, without values or topology.
    pub open spec fn fresh() -> GossipState {
        GossipState {
            name: None,
            values: Set::empty(),
            topology: None,
            known: Map::empty(),
        }
    }

    /// Every node that the topology mentions has an estimate.
    pub open spec fn wf(self) -> bool {
        self.topology matches Some(links) ==> members(links).subset_of(self.known.dom())
    }

    /// The node after the handshake named it `id`.
    pub open spec fn named(self, id: Seq<char>) -> GossipState {
        GossipState { name: Some(id), values: self.values, topology: self.topology, known: self.known }
    }

    /// The node after it recorded `links`: every node that `links` mentions
    /// and that has no estimate yet gets the empty one; the estimates that
    /// the node has already stay as they are.
    pub open spec fn with_topology(self, links: Map<Seq<char>, Set<Seq<char>>>) -> GossipState {
        GossipState {
            name: self.name,
            values: self.values,
            topology: Some(links),
            known: Map::new(
                |node: Seq<char>| self.known.contains_key(node) || members(links).contains(node),
                |node: Seq<char>|
                    if self.known.contains_key(node) {
                        self.known[node]
                    } else {
                        Set::empty()
                    },
            ),
        }
    }

    /// The node after `value` was broadcast to it.
    pub open spec fn with_value(self, value: usize) -> GossipState {
        GossipState {
            name: self.name,
            values: self.values.insert(value),
            topology: self.topology,
            known: self.known,
        }
    }

    /// The node after `sender` told it that it holds `ids`: the estimate for
    /// `sender` and the node's own values both take `ids` in.
    pub open spec fn with_gossip(self, sender: Seq<char>, ids: Set<usize>) -> GossipState {
        GossipState {
            name: self.name,
            values: self.values.union(ids),
            topology: self.topology,
            known: self.known.insert(sender, self.known[sender].union(ids)),
        }
    }

    /// The node after a neighbor answered its gossip with `ids`: only the
    /// node's own values take `ids` in.
    pub open spec fn with_reply(self, ids: Set<usize>) -> GossipState {
        GossipState {
            name: self.name,
            values: self.values.union(ids),
            topology: self.topology,
            known: self.known,
        }
    }

    /// The node after `step`.
    pub open spec fn step(self, step: Step) -> GossipState {
        match step {
            Step::Init(id) => self.named(id),
            Step::Topology(links) => self.with_topology(links),
            Step::Read => self,
            Step::Broadcast(value) => self.with_value(value),
            Step::Gossip(sender, ids) => self.with_gossip(sender, ids),
            Step::GossipOk(ids) => self.with_reply(ids),
            Step::Sync => self,
        }
    }

    /// The node after `steps`, taken in order.
    pub open spec fn run(self, steps: Seq<Step>) -> GossipState
        decreases steps.len(),
    {
        if steps.len() == 0 {
            self
        } else {
            self.run(steps.drop_last()).step(steps.last())
        }
    }

    /// The steps that the node has a case for: gossip only from a node it
    /// has an estimate for, and a timer tick only if it can look itself up
    /// in whatever topology it has.
    pub open spec fn accepts(self, step: Step) -> bool {
        match step {
            Step::Gossip(sender, ids) => self.known.contains_key(sender),
            Step::Sync => self.topology matches Some(links) ==> (self.name matches Some(me)
                && links.contains_key(me)),
            _ => true,
        }
    }

    /// The nodes this node is directly linked to.
    pub open spec fn neighbors(self) -> Set<Seq<char>> {
        match (self.name, self.topology) {
            (Some(me), Some(links)) => if links.contains_key(me) {
                links[me]
            } else {
                Set::empty()
            },
            _ => Set::empty(),
        }
    }

    /// The values this node holds that `neighbor` is not yet known to hold.
    pub open spec fn delta(self, neighbor: Seq<char>) -> Set<usize> {
        self.values.difference(self.known[neighbor])
    }

    /// The neighbors that a timer tick sends gossip to: those with values
    /// outstanding.
    pub open spec fn targets(self) -> Set<Seq<char>> {
        Set::new(
            |neighbor: Seq<char>|
                self.neighbors().contains(neighbor) && !self.delta(neighbor).is_empty(),
        )
    }
}

/// Broadcasting a value that the node holds already changes nothing, so a
/// second broadcast of the same value leaves the node as the first left it.
pub proof fn lemma_value_idempotent(state: GossipState, value: usize)
    ensures
        state.values.contains(value) ==> state.with_value(value) == state,
        state.with_value(value).with_value(value) == state.with_value(value),
{
}

/// However often the same value is broadcast in a row, the node ends up as
/// after one broadcast of it: it holds the value, once.
pub proof fn lemma_repeated_value(state: GossipState, value: usize, times: nat)
    requires
        times >= 1,
    ensures
        state.run(Seq::new(times, |i: int| Step::Broadcast(value))) == state.with_value(value),
    decreases times,
{
    let steps = Seq::new(times, |i: int| Step::Broadcast(value));
    let earlier = Seq::new((times - 1) as nat, |i: int| Step::Broadcast(value));
    assert(steps.drop_last() =~= earlier);
    if times > 1 {
        lemma_repeated_value(state, value, (times - 1) as nat);
        lemma_value_idempotent(state, value);
    }
}

/// No step takes a value away.
pub proof fn lemma_step_keeps_values(state: GossipState, step: Step)
    ensures
        state.values.subset_of(state.step(step).values),
{
}

/// The values only grow: what the node holds at one time it holds at every
/// later time, whatever happens in between.
pub proof fn lemma_values_grow(state: GossipState, steps: Seq<Step>, earlier: int, later: int)
    requires
        0 <= earlier <= later <= steps.len(),
    ensures
        state.run(steps.take(earlier)).values.subset_of(state.run(steps.take(later)).values),
    decreases later - earlier,
{
    if earlier < later {
        lemma_values_grow(state, steps, earlier, later - 1);
        assert(steps.take(later).drop_last() =~= steps.take(later - 1));
        lemma_step_keeps_values(state.run(steps.take(later - 1)), steps.take(later).last());
    }
}

/// No step takes an estimate back: a node that has an estimate keeps one,
/// and what it was known to hold it is still known to hold.
pub proof fn lemma_step_keeps_estimates(state: GossipState, step: Step, node: Seq<char>)
    requires
        state.known.contains_key(node),
    ensures
        state.step(step).known.contains_key(node),
        state.known[node].subset_of(state.step(step).known[node]),
{
}

/// The estimates only grow: what a node is known to hold at one time it is
/// known to hold at every later time, whatever happens in between, a
/// topology that arrives again included.
pub proof fn lemma_estimates_grow(
    state: GossipState,
    steps: Seq<Step>,
    earlier: int,
    later: int,
    node: Seq<char>,
)
    requires
        0 <= earlier <= later <= steps.len(),
        state.run(steps.take(earlier)).known.contains_key(node),
    ensures
        state.run(steps.take(later)).known.contains_key(node),
        state.run(steps.take(earlier)).known[node].subset_of(
            state.run(steps.take(later)).known[node],
        ),
    decreases later - earlier,
{
    if earlier < later {
        lemma_estimates_grow(state, steps, earlier, later - 1, node);
        assert(steps.take(later).drop_last() =~= steps.take(later - 1));
        lemma_step_keeps_estimates(state.run(steps.take(later - 1)), steps.take(later).last(), node);
    }
}

/// A topology that arrives a second time changes nothing.
pub proof fn lemma_topology_idempotent(state: GossipState, links: Map<Seq<char>, Set<Seq<char>>>)
    ensures
        state.with_topology(links).with_topology(links) == state.with_topology(links),
{
    assert(state.with_topology(links).with_topology(links).known =~= state.with_topology(
        links,
    ).known);
}

/// Well-formedness survives every step.
pub proof fn lemma_step_keeps_wf(state: GossipState, step: Step)
    requires
        state.wf(),
    ensures
        state.step(step).wf(),
{
}

/// A neighbor that is known to hold everything this node holds gets no
/// gossip from a timer tick.
pub proof fn lemma_no_redundant_send(state: GossipState, neighbor: Seq<char>)
    requires
        state.values.subset_of(state.known[neighbor]),
    ensures
        state.delta(neighbor).is_empty(),
        !state.targets().contains(neighbor),
{
}

/// One exchange of gossip: node `a` sends node `b` the values that `b` is
/// not known to hold, `b` takes them in and answers with all it then holds,
/// and `a` takes the answer in. Afterwards `a` holds exactly what the two
/// held before, and `b` holds at least that much of `a`'s as was sent.
pub proof fn lemma_exchange(a: GossipState, b: GossipState, a_name: Seq<char>, b_name: Seq<char>)
    ensures
        ({
            let sent = a.delta(b_name);
            let b_after = b.with_gossip(a_name, sent);
            let a_after = a.with_reply(b_after.values);
            &&& a.values.subset_of(a_after.values)
            &&& a_after.values == a.values.union(b.values)
            &&& b_after.values == b.values.union(sent)
            &&& a_after.known == a.known
        }),
{
}

} // verus!
