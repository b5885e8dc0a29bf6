//! Several broadcast nodes and the gossip between them, as a mathematical
//! model, and the proof that a value reaches every node.
//!
//! The network may delay a message, deliver it more than once and deliver
//! messages in any order: a message that was sent once can arrive at any
//! later time, any number of times. It does not alter messages.

use crate::gossip::{GossipState, Step};
use crate::topology::members;
use vstd::prelude::*;

verus! {

/// A gossip message on the network: the request that carries the sender's
/// outstanding values, or the reply that carries all the replier holds.
pub struct Packet {
    pub src: Seq<char>,
    pub dest: Seq<char>,
    pub ids: Set<usize>,
    pub reply: bool,
}

/// What can happen in a cluster.
pub enum Action {
    /// A client broadcasts a value to a node.
    Broadcast(Seq<char>, usize),
    /// A node's timer fires.
    Tick(Seq<char>),
    /// A message that was sent arrives.
    Deliver(Packet),
}

/// The nodes of a cluster by name, and every message sent so far.
pub struct Cluster {
    pub nodes: Map<Seq<char>, GossipState>,
    pub sent: Set<Packet>,
}

/// The gossip request from `src` to `dest` that carries `ids`.
pub open spec fn request(src: Seq<char>, dest: Seq<char>, ids: Set<usize>) -> Packet {
    Packet { src, dest, ids, reply: false }
}

/// `path` follows the links: each of its nodes but the last has the next
/// one in its adjacency list.
pub open spec fn is_path(links: Map<Seq<char>, Set<Seq<char>>>, path: Seq<Seq<char>>) -> bool {
    &&& path.len() > 0
    &&& forall|i: int|
        0 <= i < path.len() - 1 ==> links.contains_key(#[trigger] path[i]) && links[path[i]].contains(
            path[i + 1],
        )
}

/// There is a path of at most `hops` links from `from` to `to`.
pub open spec fn reaches(
    links: Map<Seq<char>, Set<Seq<char>>>,
    from: Seq<char>,
    to: Seq<char>,
    hops: nat,
) -> bool {
    exists|path: Seq<Seq<char>>|
        #[trigger] is_path(links, path) && path.first() == from && path.last() == to && path.len()
            <= hops + 1
}

impl Cluster {
    /// The values that node `name` holds.
    pub open spec fn values(self, name: Seq<char>) -> Set<usize> {
        self.nodes[name].values
    }

    /// The messages that a timer tick of node `name` sends: to each neighbor
    /// with values outstanding the request that carries them.
    pub open spec fn outbox(self, name: Seq<char>) -> Set<Packet> {
        Set::new(
            |packet: Packet|
                !packet.reply && packet.src == name && self.nodes[name].targets().contains(
                    packet.dest,
                ) && packet.ids == self.nodes[name].delta(packet.dest),
        )
    }

    /// Whether `action` can happen: a node acts only if it exists and has a
    /// case for the step, and only a message that was sent can arrive.
    pub open spec fn enabled(self, action: Action) -> bool {
        match action {
            Action::Broadcast(name, value) => self.nodes.contains_key(name),
            Action::Tick(name) => self.nodes.contains_key(name) && self.nodes[name].accepts(
                Step::Sync,
            ),
            Action::Deliver(packet) => {
                &&& self.sent.contains(packet)
                &&& self.nodes.contains_key(packet.dest)
                &&& !packet.reply ==> self.nodes[packet.dest].accepts(
                    Step::Gossip(packet.src, packet.ids),
                )
            },
        }
    }

    /// The cluster after `action`; an action that cannot happen changes
    /// nothing.
    pub open spec fn act(self, action: Action) -> Cluster {
        if !self.enabled(action) {
            self
        } else {
            match action {
                Action::Broadcast(name, value) => Cluster {
                    nodes: self.nodes.insert(name, self.nodes[name].step(Step::Broadcast(value))),
                    sent: self.sent,
                },
                Action::Tick(name) => Cluster {
                    nodes: self.nodes,
                    sent: self.sent.union(self.outbox(name)),
                },
                Action::Deliver(packet) => if packet.reply {
                    Cluster {
                        nodes: self.nodes.insert(
                            packet.dest,
                            self.nodes[packet.dest].step(Step::GossipOk(packet.ids)),
                        ),
                        sent: self.sent,
                    }
                } else {
                    let after = self.nodes[packet.dest].step(Step::Gossip(packet.src, packet.ids));
                    Cluster {
                        nodes: self.nodes.insert(packet.dest, after),
                        sent: self.sent.insert(
                            Packet {
                                src: packet.dest,
                                dest: packet.src,
                                ids: after.values,
                                reply: true,
                            },
                        ),
                    }
                },
            }
        }
    }

    /// The cluster after `actions`, in order.
    pub open spec fn run(self, actions: Seq<Action>) -> Cluster
        decreases actions.len(),
    {
        if actions.len() == 0 {
            self
        } else {
            self.run(actions.drop_last()).act(actions.last())
        }
    }

    /// Every node of the cluster was named in the handshake and was given
    /// the topology `links`, which names only nodes of the cluster and has
    /// an adjacency list for each of them.
    pub open spec fn configured(self, links: Map<Seq<char>, Set<Seq<char>>>) -> bool {
        &&& members(links).subset_of(self.nodes.dom())
        &&& forall|name: Seq<char>| #[trigger]
            self.nodes.contains_key(name) ==> {
                &&& self.nodes[name].name == Some(name)
                &&& self.nodes[name].topology == Some(links)
                &&& self.nodes[name].wf()
                &&& links.contains_key(name)
            }
    }

    /// Nothing in the cluster claims more than is true: an estimate of what
    /// a node holds is part of what that node holds, and a message carries
    /// only values that its sender holds.
    pub open spec fn truthful(self) -> bool {
        &&& forall|name: Seq<char>, other: Seq<char>|
            self.nodes.contains_key(name) && self.nodes.contains_key(other) && (
            #[trigger] self.nodes[name].known.contains_key(other)) ==> self.nodes[name].known[other].subset_of(
                self.values(other),
            )
        &&& forall|packet: Packet| #[trigger]
            self.sent.contains(packet) ==> {
                &&& self.nodes.contains_key(packet.src)
                &&& self.nodes.contains_key(packet.dest)
                &&& packet.ids.subset_of(self.values(packet.src))
            }
    }

    /// The invariant of a cluster that runs on the topology `links`.
    pub open spec fn inv(self, links: Map<Seq<char>, Set<Seq<char>>>) -> bool {
        self.configured(links) && self.truthful()
    }

    /// During `actions` every link was served once: the timer of each node
    /// fired, and the gossip that the node sent to a neighbor at that tick,
    /// if it sent any, arrived afterwards.
    pub open spec fn serves_every_link(self, actions: Seq<Action>) -> bool {
        forall|name: Seq<char>, neighbor: Seq<char>|
            self.nodes.contains_key(name) && #[trigger] self.nodes[name].neighbors().contains(
                neighbor,
            ) ==> exists|tick: int| #[trigger] self.serves(actions, name, neighbor, tick)
    }

    /// At place `tick` of `actions` the timer of `name` fires, and the
    /// gossip that it sends to `neighbor` then, if any, arrives later on.
    pub open spec fn serves(
        self,
        actions: Seq<Action>,
        name: Seq<char>,
        neighbor: Seq<char>,
        tick: int,
    ) -> bool {
        &&& 0 <= tick < actions.len()
        &&& actions[tick] == Action::Tick(name)
        &&& {
            let then = self.run(actions.take(tick)).nodes[name];
            then.targets().contains(neighbor) ==> exists|arrival: int|
                tick < arrival < actions.len() && #[trigger] actions[arrival] == Action::Deliver(
                    request(name, neighbor, then.delta(neighbor)),
                )
        }
    }

    /// The cluster after the rounds `rounds`, one after the other.
    pub open spec fn run_rounds(self, rounds: Seq<Seq<Action>>) -> Cluster
        decreases rounds.len(),
    {
        if rounds.len() == 0 {
            self
        } else {
            self.run_rounds(rounds.drop_last()).run(rounds.last())
        }
    }

    /// Each of `rounds` serves every link, counted from the state in which
    /// it starts.
    pub open spec fn full_rounds(self, rounds: Seq<Seq<Action>>) -> bool
        decreases rounds.len(),
    {
        if rounds.len() == 0 {
            true
        } else {
            &&& self.full_rounds(rounds.drop_last())
            &&& self.run_rounds(rounds.drop_last()).serves_every_link(rounds.last())
        }
    }
}

/// The cluster on the topology `links` right after every node took its
/// name from the handshake and was given the topology: no node holds a
/// value, and nothing was sent.
pub open spec fn start(links: Map<Seq<char>, Set<Seq<char>>>) -> Cluster {
    Cluster {
        nodes: Map::new(
            |name: Seq<char>| links.contains_key(name),
            |name: Seq<char>| GossipState::fresh().named(name).with_topology(links),
        ),
        sent: Set::empty(),
    }
}

/// A cluster starts out with its invariant, provided that the topology has
/// an adjacency list for every node it mentions.
pub proof fn lemma_start_inv(links: Map<Seq<char>, Set<Seq<char>>>)
    requires
        members(links).subset_of(links.dom()),
    ensures
        start(links).inv(links),
{
    let cluster = start(links);
    assert forall|name: Seq<char>| #[trigger] cluster.nodes.contains_key(name) implies {
        &&& cluster.nodes[name].name == Some(name)
        &&& cluster.nodes[name].topology == Some(links)
        &&& cluster.nodes[name].wf()
        &&& links.contains_key(name)
    } by {
        crate::gossip::lemma_step_keeps_wf(GossipState::fresh().named(name), Step::Topology(links));
    }
}

/// An action adds no node and removes none, takes no value away from a
/// node, and forgets no message.
pub proof fn lemma_act_grows(cluster: Cluster, action: Action)
    ensures
        cluster.act(action).nodes.dom() == cluster.nodes.dom(),
        cluster.sent.subset_of(cluster.act(action).sent),
        forall|name: Seq<char>| #[trigger]
            cluster.values(name).subset_of(cluster.act(action).values(name)),
{
    let after = cluster.act(action);
    assert(after.nodes.dom() =~= cluster.nodes.dom());
    assert forall|name: Seq<char>| #[trigger]
        cluster.values(name).subset_of(after.values(name)) by {
        if cluster.enabled(action) {
            match action {
                Action::Broadcast(node, value) => {
                    crate::gossip::lemma_step_keeps_values(
                        cluster.nodes[node],
                        Step::Broadcast(value),
                    );
                },
                Action::Tick(node) => {},
                Action::Deliver(packet) => {
                    crate::gossip::lemma_step_keeps_values(
                        cluster.nodes[packet.dest],
                        Step::Gossip(packet.src, packet.ids),
                    );
                    crate::gossip::lemma_step_keeps_values(
                        cluster.nodes[packet.dest],
                        Step::GossipOk(packet.ids),
                    );
                },
            }
        }
    }
}

/// The invariant survives every action.
pub proof fn lemma_act_keeps_inv(
    cluster: Cluster,
    links: Map<Seq<char>, Set<Seq<char>>>,
    action: Action,
)
    requires
        cluster.inv(links),
    ensures
        cluster.act(action).inv(links),
{
    let after = cluster.act(action);
    lemma_act_grows(cluster, action);
    if cluster.enabled(action) {
        match action {
            Action::Broadcast(node, value) => {
                assert(after.configured(links));
                assert(after.truthful());
            },
            Action::Tick(node) => {
                assert(after.configured(links));
                assert forall|packet: Packet| #[trigger] after.sent.contains(packet) implies {
                    &&& after.nodes.contains_key(packet.src)
                    &&& after.nodes.contains_key(packet.dest)
                    &&& packet.ids.subset_of(after.values(packet.src))
                } by {
                    if !cluster.sent.contains(packet) {
                        assert(cluster.outbox(node).contains(packet));
                        assert(cluster.nodes[node].neighbors().contains(packet.dest));
                        assert(links[node].contains(packet.dest));
                        assert(members(links).contains(packet.dest));
                    }
                }
                assert(after.truthful());
            },
            Action::Deliver(packet) => {
                let node = packet.dest;
                assert(cluster.nodes.contains_key(packet.src));
                if packet.reply {
                    assert(after.configured(links));
                    assert(after.truthful());
                } else {
                    assert(after.configured(links));
                    assert forall|name: Seq<char>, other: Seq<char>|
                        after.nodes.contains_key(name) && after.nodes.contains_key(other) && (
                        #[trigger] after.nodes[name].known.contains_key(other)) implies after.nodes[name].known[other].subset_of(
                        after.values(other),
                    ) by {
                        assert(cluster.values(other).subset_of(after.values(other)));
                        if name == node && other == packet.src {
                            assert(packet.ids.subset_of(cluster.values(packet.src)));
                            assert(members(links).contains(packet.src));
                            assert(cluster.nodes[node].known.contains_key(packet.src));
                        } else {
                            assert(cluster.nodes[name].known.contains_key(other));
                        }
                    }
                    assert forall|other: Packet| #[trigger] after.sent.contains(other) implies {
                        &&& after.nodes.contains_key(other.src)
                        &&& after.nodes.contains_key(other.dest)
                        &&& other.ids.subset_of(after.values(other.src))
                    } by {
                        if cluster.sent.contains(other) {
                            assert(cluster.values(other.src).subset_of(after.values(other.src)));
                        }
                    }
                    assert(after.truthful());
                }
            },
        }
    }
}

/// In a cluster that keeps its invariant no node meets an input it has no
/// case for: every timer can fire, and every message that was sent can
/// arrive, because the topology seeded an estimate for every sender.
pub proof fn lemma_nothing_is_refused(
    cluster: Cluster,
    links: Map<Seq<char>, Set<Seq<char>>>,
    action: Action,
)
    requires
        cluster.inv(links),
        action matches Action::Broadcast(name, _) ==> cluster.nodes.contains_key(name),
        action matches Action::Tick(name) ==> cluster.nodes.contains_key(name),
        action matches Action::Deliver(packet) ==> cluster.sent.contains(packet),
    ensures
        cluster.enabled(action),
{
    match action {
        Action::Deliver(packet) => {
            assert(members(links).contains(packet.src));
        },
        _ => {},
    }
}

/// The invariant survives every run.
pub proof fn lemma_run_keeps_inv(
    cluster: Cluster,
    links: Map<Seq<char>, Set<Seq<char>>>,
    actions: Seq<Action>,
)
    requires
        cluster.inv(links),
    ensures
        cluster.run(actions).inv(links),
    decreases actions.len(),
{
    if actions.len() > 0 {
        lemma_run_keeps_inv(cluster, links, actions.drop_last());
        lemma_act_keeps_inv(cluster.run(actions.drop_last()), links, actions.last());
    }
}

/// Between two moments of a run no node comes or goes, no node loses a
/// value and no message is forgotten.
pub proof fn lemma_run_grows(cluster: Cluster, actions: Seq<Action>, earlier: int, later: int)
    requires
        0 <= earlier <= later <= actions.len(),
    ensures
        cluster.run(actions.take(later)).nodes.dom() == cluster.run(
            actions.take(earlier),
        ).nodes.dom(),
        cluster.run(actions.take(earlier)).sent.subset_of(cluster.run(actions.take(later)).sent),
        forall|name: Seq<char>|
            cluster.run(actions.take(earlier)).values(name).subset_of(
                #[trigger] cluster.run(actions.take(later)).values(name),
            ),
    decreases later - earlier,
{
    if earlier < later {
        lemma_run_grows(cluster, actions, earlier, later - 1);
        assert(actions.take(later).drop_last() =~= actions.take(later - 1));
        lemma_act_grows(cluster.run(actions.take(later - 1)), actions.take(later).last());
        let middle = cluster.run(actions.take(later - 1));
        let end = cluster.run(actions.take(later));
        assert forall|name: Seq<char>|
            cluster.run(actions.take(earlier)).values(name).subset_of(
                #[trigger] end.values(name),
            ) by {
            assert(middle.values(name).subset_of(end.values(name)));
        }
    }
}

/// A run that serves every link carries each node's values one link
/// further: whatever a node holds before the run, each of its neighbors
/// holds after it.
pub proof fn lemma_round_spreads(
    cluster: Cluster,
    links: Map<Seq<char>, Set<Seq<char>>>,
    actions: Seq<Action>,
    name: Seq<char>,
    neighbor: Seq<char>,
)
    requires
        cluster.inv(links),
        cluster.nodes.contains_key(name),
        links[name].contains(neighbor),
        cluster.serves_every_link(actions),
    ensures
        cluster.values(name).subset_of(cluster.run(actions).values(neighbor)),
{
    assert(cluster.nodes[name].neighbors().contains(neighbor));
    let tick = choose|tick: int| #[trigger] cluster.serves(actions, name, neighbor, tick);
    let before = cluster.run(actions.take(tick));
    let then = before.nodes[name];
    let end = cluster.run(actions);
    assert(actions.take(actions.len() as int) =~= actions);
    assert(actions.take(0) =~= Seq::<Action>::empty());
    lemma_run_keeps_inv(cluster, links, actions.take(tick));
    lemma_run_grows(cluster, actions, 0, tick);
    lemma_run_grows(cluster, actions, tick, actions.len() as int);
    assert(cluster.values(name).subset_of(before.values(name)));
    assert(members(links).contains(neighbor));
    assert forall|value: usize| cluster.values(name).contains(value) implies end.values(
        neighbor,
    ).contains(value) by {
        assert(before.values(name).contains(value));
        if then.known[neighbor].contains(value) {
            assert(then.known.contains_key(neighbor));
            assert(before.values(neighbor).contains(value));
            assert(before.values(neighbor).subset_of(end.values(neighbor)));
        } else {
            assert(then.delta(neighbor).contains(value));
            assert(then.targets().contains(neighbor));
            let packet = request(name, neighbor, then.delta(neighbor));
            let arrival = choose|arrival: int|
                tick < arrival < actions.len() && #[trigger] actions[arrival] == Action::Deliver(
                    packet,
                );
            let sending = cluster.run(actions.take(tick + 1));
            let arriving = cluster.run(actions.take(arrival));
            let arrived = cluster.run(actions.take(arrival + 1));
            assert(actions.take(tick + 1).drop_last() =~= actions.take(tick));
            assert(actions.take(tick + 1).last() == Action::Tick(name));
            assert(before.enabled(Action::Tick(name)));
            assert(before.outbox(name).contains(packet));
            assert(sending.sent.contains(packet));
            lemma_run_grows(cluster, actions, tick + 1, arrival);
            assert(arriving.sent.contains(packet));
            lemma_run_keeps_inv(cluster, links, actions.take(arrival));
            assert(actions.take(arrival + 1).drop_last() =~= actions.take(arrival));
            assert(actions.take(arrival + 1).last() == Action::Deliver(packet));
            assert(arriving.nodes.contains_key(neighbor));
            assert(arriving.nodes.contains_key(name));
            assert(members(links).contains(name));
            assert(arriving.nodes[neighbor].known.contains_key(name));
            assert(arriving.enabled(Action::Deliver(packet)));
            assert(arrived.values(neighbor).contains(value));
            lemma_run_grows(cluster, actions, arrival + 1, actions.len() as int);
            assert(arrived.values(neighbor).subset_of(end.values(neighbor)));
        }
    }
}

/// The invariant survives every sequence of rounds, and no node loses a
/// value in it.
pub proof fn lemma_rounds_keep(
    cluster: Cluster,
    links: Map<Seq<char>, Set<Seq<char>>>,
    rounds: Seq<Seq<Action>>,
)
    requires
        cluster.inv(links),
    ensures
        cluster.run_rounds(rounds).inv(links),
        cluster.run_rounds(rounds).nodes.dom() == cluster.nodes.dom(),
        forall|name: Seq<char>|
            cluster.values(name).subset_of(#[trigger] cluster.run_rounds(rounds).values(name)),
    decreases rounds.len(),
{
    if rounds.len() > 0 {
        lemma_rounds_keep(cluster, links, rounds.drop_last());
        let middle = cluster.run_rounds(rounds.drop_last());
        let last = rounds.last();
        lemma_run_keeps_inv(middle, links, last);
        lemma_run_grows(middle, last, 0, last.len() as int);
        assert(last.take(last.len() as int) =~= last);
        assert(last.take(0) =~= Seq::<Action>::empty());
        let end = cluster.run_rounds(rounds);
        assert forall|name: Seq<char>|
            cluster.values(name).subset_of(#[trigger] end.values(name)) by {
            assert(middle.values(name).subset_of(end.values(name)));
        }
    }
}

/// A value that the first node of a path holds is held by the last node of
/// the path after as many rounds as the path has links, or more.
pub proof fn lemma_value_follows_path(
    cluster: Cluster,
    links: Map<Seq<char>, Set<Seq<char>>>,
    rounds: Seq<Seq<Action>>,
    path: Seq<Seq<char>>,
    value: usize,
)
    requires
        cluster.inv(links),
        is_path(links, path),
        cluster.nodes.contains_key(path.first()),
        cluster.values(path.first()).contains(value),
        cluster.full_rounds(rounds),
        path.len() <= rounds.len() + 1,
    ensures
        cluster.run_rounds(rounds).values(path.last()).contains(value),
    decreases rounds.len(),
{
    lemma_rounds_keep(cluster, links, rounds);
    if path.len() > 1 {
        let earlier = rounds.drop_last();
        let shorter = path.drop_last();
        let via = shorter.last();
        let middle = cluster.run_rounds(earlier);
        assert(is_path(links, shorter)) by {
            assert forall|i: int| 0 <= i < shorter.len() - 1 implies links.contains_key(
                #[trigger] shorter[i],
            ) && links[shorter[i]].contains(shorter[i + 1]) by {
                assert(shorter[i] == path[i]);
                assert(shorter[i + 1] == path[i + 1]);
            }
        }
        lemma_value_follows_path(cluster, links, earlier, shorter, value);
        lemma_rounds_keep(cluster, links, earlier);
        assert(via == path[path.len() - 2]);
        assert(links.contains_key(via) && links[via].contains(path[path.len() - 2 + 1]));
        assert(members(links).contains(via));
        lemma_round_spreads(middle, links, rounds.last(), via, path.last());
    }
}

/// A value that one node holds is held, after as many rounds as there are
/// links on a path to it, by the node at the end of that path.
pub proof fn lemma_value_travels(
    cluster: Cluster,
    links: Map<Seq<char>, Set<Seq<char>>>,
    rounds: Seq<Seq<Action>>,
    origin: Seq<char>,
    target: Seq<char>,
    value: usize,
)
    requires
        cluster.inv(links),
        cluster.nodes.contains_key(origin),
        cluster.values(origin).contains(value),
        cluster.full_rounds(rounds),
        reaches(links, origin, target, rounds.len()),
    ensures
        cluster.run_rounds(rounds).values(target).contains(value),
{
    let path = choose|path: Seq<Seq<char>>|
        #[trigger] is_path(links, path) && path.first() == origin && path.last() == target
            && path.len() <= rounds.len() + 1;
    lemma_value_follows_path(cluster, links, rounds, path, value);
}

/// Convergence: in a cluster whose topology links every node to the node
/// that first held a value by a path of at most `rounds.len()` links, every
/// node holds the value after that many rounds.
pub proof fn lemma_convergence(
    cluster: Cluster,
    links: Map<Seq<char>, Set<Seq<char>>>,
    rounds: Seq<Seq<Action>>,
    origin: Seq<char>,
    value: usize,
)
    requires
        cluster.inv(links),
        cluster.nodes.contains_key(origin),
        cluster.values(origin).contains(value),
        cluster.full_rounds(rounds),
        forall|target: Seq<char>|
            cluster.nodes.contains_key(target) ==> reaches(links, origin, target, rounds.len()),
    ensures
        forall|target: Seq<char>|
            cluster.nodes.contains_key(target) ==> #[trigger] cluster.run_rounds(rounds).values(
                target,
            ).contains(value),
{
    assert forall|target: Seq<char>| cluster.nodes.contains_key(target) implies #[trigger] cluster.run_rounds(
        rounds,
    ).values(target).contains(value) by {
        lemma_value_travels(cluster, links, rounds, origin, target, value);
    }
}

/// Convergence from the start: whatever happened in a cluster since it was
/// set up, once a value is broadcast to one of its nodes, every node holds
/// the value after as many rounds as the longest shortest path from that
/// node has links.
pub proof fn lemma_value_converges(
    links: Map<Seq<char>, Set<Seq<char>>>,
    history: Seq<Action>,
    rounds: Seq<Seq<Action>>,
    origin: Seq<char>,
    value: usize,
)
    requires
        members(links).subset_of(links.dom()),
        links.contains_key(origin),
        forall|target: Seq<char>|
            links.contains_key(target) ==> reaches(links, origin, target, rounds.len()),
        start(links).run(history).act(Action::Broadcast(origin, value)).full_rounds(rounds),
    ensures
        forall|target: Seq<char>|
            links.contains_key(target) ==> #[trigger] start(links).run(history).act(
                Action::Broadcast(origin, value),
            ).run_rounds(rounds).values(target).contains(value),
{
    lemma_start_inv(links);
    lemma_run_keeps_inv(start(links), links, history);
    let before = start(links).run(history);
    lemma_run_grows(start(links), history, 0, history.len() as int);
    assert(history.take(history.len() as int) =~= history);
    assert(history.take(0) =~= Seq::<Action>::empty());
    assert(before.nodes.dom() == start(links).nodes.dom());
    lemma_act_keeps_inv(before, links, Action::Broadcast(origin, value));
    lemma_act_grows(before, Action::Broadcast(origin, value));
    let cluster = before.act(Action::Broadcast(origin, value));
    assert(before.nodes.contains_key(origin));
    assert(cluster.values(origin).contains(value));
    lemma_convergence(cluster, links, rounds, origin, value);
}

} // verus!
