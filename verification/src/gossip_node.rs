//! The broadcast node: it collects the values that clients broadcast and
//! spreads them to its neighbors by gossip until every node holds them.
//!
//! A value counts as known to a neighbor only once the neighbor said so
//! itself. Each timer tick sends every neighbor the values it is not yet
//! known to hold, and sends nothing to a neighbor that is known to hold them
//! all.

use crate::cluster::{Cluster, Packet};
use crate::gossip::{GossipState, Step};
use crate::message::{Input, Message, NodeInit};
use crate::names::NameMap;
use crate::node::{Node, Timer};
use crate::topology::Topology;
use crate::values::{difference, extend, snapshot};
use std::collections::HashSet;
use vstd::prelude::*;

verus! {

broadcast use vstd::std_specs::hash::group_hash_axioms;

/// The time between two timer ticks, in milliseconds.
pub const SYNC_PERIOD_MS: u64 = 300;

/// The requests of the broadcast protocol.
#[derive(Debug)]
pub enum RequestDetail {
    Topology { topology: Topology },
    Read,
    Broadcast { message: usize },
    Gossip { ids: HashSet<usize> },
}

/// The responses of the broadcast protocol.
#[derive(Debug)]
pub enum ResponseDetail {
    TopologyOk,
    ReadOk { messages: HashSet<usize> },
    BroadcastOk,
    GossipOk { ids: HashSet<usize> },
}

/// The internal events of the broadcast node.
#[derive(Debug, Clone, Copy)]
pub enum Event {
    /// Time to send the neighbors what they are missing.
    Sync,
}

/// The step of the model that a request stands for.
pub open spec fn request_step(request: &Message<RequestDetail>) -> Step {
    match request.body.detail {
        RequestDetail::Topology { topology } => Step::Topology(topology@),
        RequestDetail::Read => Step::Read,
        RequestDetail::Broadcast { message } => Step::Broadcast(message),
        RequestDetail::Gossip { ids } => Step::Gossip(request.src@, ids@),
    }
}

/// The step of the model that an input stands for, where the node has a
/// case for the input at all.
pub open spec fn input_step(input: &Input<RequestDetail, ResponseDetail, Event>) -> Option<Step> {
    match input {
        Input::Request(request) => Some(request_step(request)),
        Input::Response(response) => match response.body.detail {
            ResponseDetail::GossipOk { ids } => Some(Step::GossipOk(ids@)),
            _ => None,
        },
        Input::Event(event) => Some(Step::Sync),
    }
}

/// `message` is the gossip that a node in state `state` sends to the node
/// named in its destination: a fresh request from the node that carries
/// the values the destination is not yet known to hold.
pub open spec fn is_gossip(state: GossipState, message: Message<RequestDetail>) -> bool {
    &&& state.name == Some(message.src@)
    &&& message.body.msg_id is None
    &&& message.body.in_reply_to is None
    &&& message.body.detail matches RequestDetail::Gossip { ids }
    &&& ids@ == state.delta(message.dest@)
}

/// `sent` is what one timer tick of a node in state `state` sends: to each
/// neighbor with values outstanding one gossip message, and nothing else.
pub open spec fn tick_sends(state: GossipState, sent: Seq<Message<RequestDetail>>) -> bool {
    &&& forall|i: int|
        0 <= i < sent.len() ==> state.targets().contains((#[trigger] sent[i]).dest@) && is_gossip(
            state,
            sent[i],
        )
    &&& forall|i: int, j: int|
        0 <= i < j < sent.len() ==> (#[trigger] sent[i]).dest@ != (#[trigger] sent[j]).dest@
    &&& forall|neighbor: Seq<char>| #[trigger]
        state.targets().contains(neighbor) ==> exists|i: int|
            0 <= i < sent.len() && (#[trigger] sent[i]).dest@ == neighbor
}

/// A timer tick sends nothing to a neighbor that is known to hold all that
/// this node holds.
pub proof fn lemma_tick_skips_known(
    state: GossipState,
    sent: Seq<Message<RequestDetail>>,
    neighbor: Seq<char>,
)
    requires
        tick_sends(state, sent),
        state.values.subset_of(state.known[neighbor]),
    ensures
        forall|i: int| 0 <= i < sent.len() ==> (#[trigger] sent[i]).dest@ != neighbor,
{
    crate::gossip::lemma_no_redundant_send(state, neighbor);
}

/// A node that has no topology, or holds no value, sends nothing when its
/// timer fires.
pub proof fn lemma_tick_is_silent(state: GossipState, sent: Seq<Message<RequestDetail>>)
    requires
        tick_sends(state, sent),
        state.topology is None || state.values.is_empty(),
    ensures
        sent.len() == 0,
{
    if sent.len() > 0 {
        assert(state.targets().contains(sent[0].dest@));
        assert(state.delta(sent[0].dest@) =~= Set::<usize>::empty());
    }
}

/// The gossip message `message` as the cluster model sees it on the network.
pub open spec fn packet(message: Message<RequestDetail>) -> Packet {
    Packet {
        src: message.src@,
        dest: message.dest@,
        ids: match message.body.detail {
            RequestDetail::Gossip { ids } => ids@,
            _ => Set::empty(),
        },
        reply: false,
    }
}

/// What a timer tick of the node sends is what the cluster model puts on
/// the network for a tick of that node: the same messages, no more, no
/// fewer.
pub proof fn lemma_tick_is_outbox(
    cluster: Cluster,
    name: Seq<char>,
    sent: Seq<Message<RequestDetail>>,
)
    requires
        cluster.nodes[name].name == Some(name),
        tick_sends(cluster.nodes[name], sent),
    ensures
        forall|i: int| 0 <= i < sent.len() ==> cluster.outbox(name).contains(packet(#[trigger] sent[i])),
        forall|wanted: Packet| #[trigger]
            cluster.outbox(name).contains(wanted) ==> exists|i: int|
                0 <= i < sent.len() && packet(#[trigger] sent[i]) == wanted,
{
    let state = cluster.nodes[name];
    assert forall|wanted: Packet| #[trigger] cluster.outbox(name).contains(wanted) implies exists|
        i: int,
    | 0 <= i < sent.len() && packet(#[trigger] sent[i]) == wanted by {
        assert(state.targets().contains(wanted.dest));
        let i = choose|i: int| 0 <= i < sent.len() && (#[trigger] sent[i]).dest@ == wanted.dest;
        assert(is_gossip(state, sent[i]));
        assert(packet(sent[i]).ids =~= wanted.ids);
        assert(packet(sent[i]) == wanted);
    }
}

/// A node of the broadcast protocol.
#[derive(Debug)]
pub struct BroadcastNode {
    name: Option<String>,
    ids: HashSet<usize>,
    topology: Option<Topology>,
    known_neighbor_value: NameMap<HashSet<usize>>,
}

impl View for BroadcastNode {
    type V = GossipState;

    closed spec fn view(&self) -> GossipState {
        GossipState {
            name: match self.name {
                Some(name) => Some(name@),
                None => None,
            },
            values: self.ids@,
            topology: match self.topology {
                Some(topology) => Some(topology@),
                None => None,
            },
            known: Self::estimates(self.known_neighbor_value),
        }
    }
}

impl BroadcastNode {
    /// The parts of the representation are well formed.
    pub closed spec fn repr_wf(&self) -> bool {
        &&& self.known_neighbor_value.wf()
        &&& self.topology matches Some(topology) ==> topology.wf()
    }

    /// A node before the handshake.
    pub fn new() -> (node: BroadcastNode)
        ensures
            node.wf(),
            node@ == GossipState::fresh(),
    {
        let node = BroadcastNode {
            name: None,
            ids: HashSet::new(),
            topology: None,
            known_neighbor_value: NameMap::new(),
        };
        node
    }

    /// The values that the node holds.
    pub fn ids(&self) -> (ids: &HashSet<usize>)
        ensures
            ids@ == self@.values,
    {
        &self.ids
    }

    /// The topology that the node was given, if it was given one.
    pub fn topology(&self) -> (topology: Option<&Topology>)
        requires
            self.wf(),
        ensures
            topology is Some <==> self@.topology is Some,
            topology is Some ==> self@.topology == Some(topology->0@) && topology->0.wf(),
    {
        self.topology.as_ref()
    }

    /// The values that `node` is known to hold, if the node has an estimate
    /// for it.
    pub fn known(&self, node: &String) -> (known: Option<&HashSet<usize>>)
        requires
            self.wf(),
        ensures
            known is Some <==> self@.known.contains_key(node@),
            known is Some ==> known->0@ == self@.known[node@],
    {
        self.known_neighbor_value.get(node)
    }
}

impl Node<RequestDetail, ResponseDetail, Event> for BroadcastNode {
    open spec fn wf(&self) -> bool {
        self.repr_wf() && self@.wf()
    }

    open spec fn name(&self) -> Option<Seq<char>> {
        self@.name
    }

    open spec fn accepts(&self, input: &Input<RequestDetail, ResponseDetail, Event>) -> bool {
        &&& input_step(input) matches Some(step)
        &&& self@.accepts(step)
        &&& input matches Input::Request(request) ==> (request.body.detail matches RequestDetail::Topology {
            topology,
        } ==> topology.wf())
    }

    open spec fn init_effect(
        &self,
        message: &NodeInit,
        post: &Self,
        timer: &Option<Timer<Event>>,
    ) -> bool {
        &&& post@ == self@.named(message.node_id@)
        &&& timer matches Some(t)
        &&& t.period_ms == SYNC_PERIOD_MS
        &&& t.event is Sync
    }

    open spec fn request_effect(
        &self,
        request: &Message<RequestDetail>,
        post: &Self,
        response: &ResponseDetail,
    ) -> bool {
        &&& post@ == self@.step(request_step(request))
        &&& match request.body.detail {
            RequestDetail::Topology { .. } => response is TopologyOk,
            RequestDetail::Read => response matches ResponseDetail::ReadOk { messages }
                && messages@ == self@.values,
            RequestDetail::Broadcast { .. } => response is BroadcastOk,
            RequestDetail::Gossip { .. } => response matches ResponseDetail::GossipOk { ids }
                && ids@ == post@.values,
        }
    }

    open spec fn response_effect(&self, response: &Message<ResponseDetail>, post: &Self) -> bool {
        response.body.detail matches ResponseDetail::GossipOk { ids } && post@ == self@.with_reply(
            ids@,
        )
    }

    open spec fn event_effect(
        &self,
        event: &Event,
        post: &Self,
        sent: Seq<Message<RequestDetail>>,
    ) -> bool {
        &&& post@ == self@
        &&& tick_sends(self@, sent)
    }

    fn on_init(&mut self, message: &NodeInit) -> (timer: Option<Timer<Event>>) {
        self.name = Some(message.node_id.clone());
        Some(Timer { period_ms: SYNC_PERIOD_MS, event: Event::Sync })
    }

    fn get_name(&self) -> (name: &str) {
        match &self.name {
            Some(name) => name.as_str(),
            None => vstd::pervasive::unreached(),
        }
    }

    fn admits(&self, input: &Input<RequestDetail, ResponseDetail, Event>) -> (ok: bool) {
        match input {
            Input::Request(request) => match &request.body.detail {
                RequestDetail::Topology { topology } => topology.is_wf(),
                RequestDetail::Gossip { .. } => {
                    let found = self.known_neighbor_value.get(&request.src);
                    found.is_some()
                },
                _ => true,
            },
            Input::Response(response) => match &response.body.detail {
                ResponseDetail::GossipOk { .. } => true,
                _ => false,
            },
            Input::Event(_) => match &self.topology {
                Some(topology) => match &self.name {
                    Some(name) => topology.neighbors(name).is_some(),
                    None => false,
                },
                None => true,
            },
        }
    }

    fn respond_request(&mut self, request: Message<RequestDetail>) -> (response: ResponseDetail) {
        match request.body.detail {
            RequestDetail::Topology { topology } => {
                self.install(topology);
                ResponseDetail::TopologyOk
            },
            RequestDetail::Read => ResponseDetail::ReadOk { messages: snapshot(&self.ids) },
            RequestDetail::Broadcast { message } => {
                if self.ids.contains(&message) {
                    assert(self@.values.insert(message) =~= self@.values);
                    return ResponseDetail::BroadcastOk;
                }
                self.ids.insert(message);
                ResponseDetail::BroadcastOk
            },
            RequestDetail::Gossip { ids } => {
                self.learn(&request.src, &ids);
                extend(&mut self.ids, &ids);
                ResponseDetail::GossipOk { ids: snapshot(&self.ids) }
            },
        }
    }

    fn respond_response(&mut self, response: Message<ResponseDetail>) {
        match response.body.detail {
            ResponseDetail::GossipOk { ids } => {
                extend(&mut self.ids, &ids);
            },
            _ => {},
        }
    }

    fn respond_event(&mut self, event: Event) -> (sent: Vec<Message<RequestDetail>>) {
        let mut sent: Vec<Message<RequestDetail>> = Vec::new();
        let topology = match &self.topology {
            Some(topology) => topology,
            None => {
                return sent;
            },
        };
        // A tick is accepted only by a node that finds itself in its topology.
        let me = match &self.name {
            Some(name) => name,
            None => vstd::pervasive::unreached(),
        };
        let neighbors = match topology.neighbors(me) {
            Some(neighbors) => neighbors,
            None => vstd::pervasive::unreached(),
        };
        let ghost state = self@;
        let ghost mut places: Seq<int> = Seq::empty();
        let mut i: usize = 0;
        while i < neighbors.len()
            invariant
                self.wf(),
                state == self@,
                state.name == Some(me@),
                neighbors.wf(),
                neighbors@ == state.neighbors(),
                state.topology matches Some(links) && links.contains_key(me@) && links[me@]
                    == neighbors@,
                i <= neighbors.order().len(),
                places.len() == sent.len(),
                forall|k: int|
                    0 <= k < sent.len() ==> 0 <= #[trigger] places[k] < i && sent[k].dest@
                        == neighbors.order()[places[k]] && !state.delta(sent[k].dest@).is_empty()
                        && is_gossip(state, sent[k]),
                forall|k: int, l: int| 0 <= k < l < sent.len() ==> places[k] < places[l],
                forall|p: int|
                    0 <= p < i && !state.delta(#[trigger] neighbors.order()[p]).is_empty()
                        ==> exists|k: int| 0 <= k < sent.len() && #[trigger] places[k] == p,
            decreases neighbors.order().len() - i,
        {
            let neighbor = neighbors.get(i);
            assert(neighbors.order().contains(neighbor@));
            let known = match self.known_neighbor_value.get(neighbor) {
                Some(known) => known,
                None => {
                    // The topology seeded an estimate for every name in it.
                    proof {
                        let links = state.topology->0;
                        assert(links[me@].contains(neighbor@));
                        assert(crate::topology::members(links).contains(neighbor@));
                        assert(state.known.dom().contains(neighbor@));
                    }
                    vstd::pervasive::unreached()
                },
            };
            let delta = difference(&self.ids, known);
            assert(known@ == state.known[neighbor@]);
            assert(delta@ == state.delta(neighbor@));
            if !delta.is_empty() {
                let message = Message::fresh(
                    me.clone(),
                    neighbor.clone(),
                    RequestDetail::Gossip { ids: delta },
                );
                let ghost before = sent@;
                let ghost before_places = places;
                sent.push(message);
                proof {
                    places = places.push(i as int);
                    assert(is_gossip(state, message));
                    assert forall|k: int| 0 <= k < sent.len() implies 0 <= #[trigger] places[k] < i
                        + 1 && sent[k].dest@ == neighbors.order()[places[k]] && !state.delta(
                        sent[k].dest@,
                    ).is_empty() && is_gossip(state, sent[k]) by {
                        if k < before.len() {
                            assert(sent[k] == before[k]);
                            assert(places[k] == before_places[k]);
                        }
                    }
                    assert forall|p: int|
                        0 <= p < i + 1 && !state.delta(
                            #[trigger] neighbors.order()[p],
                        ).is_empty() implies exists|k: int|
                        0 <= k < sent.len() && #[trigger] places[k] == p by {
                        if p < i {
                            let k = choose|k: int|
                                0 <= k < before.len() && #[trigger] before_places[k] == p;
                            assert(places[k] == p);
                        } else {
                            assert(places[before.len() as int] == p);
                        }
                    }
                }
            }
            i += 1;
        }
        proof {
            assert forall|k: int, l: int| 0 <= k < l < sent.len() implies (#[trigger] sent[k]).dest@
                != (#[trigger] sent[l]).dest@ by {
                assert(places[k] < places[l]);
            }
            assert forall|neighbor: Seq<char>| #[trigger]
                state.targets().contains(neighbor) implies exists|k: int|
                0 <= k < sent.len() && (#[trigger] sent[k]).dest@ == neighbor by {
                let p = neighbors.order().index_of(neighbor);
                assert(neighbors.order()[p] == neighbor);
                let k = choose|k: int| 0 <= k < sent.len() && #[trigger] places[k] == p;
                assert(sent[k].dest@ == neighbor);
            }
            assert forall|k: int| 0 <= k < sent.len() implies state.targets().contains(
                (#[trigger] sent[k]).dest@,
            ) && is_gossip(state, sent[k]) by {
                assert(0 <= places[k] < i);
                assert(neighbors.order().contains(sent[k].dest@));
            }
        }
        sent
    }
}

/// A value that is broadcast to a node that holds it already changes
/// nothing: the node acknowledges and stays as it is.
pub proof fn lemma_held_value_changes_nothing(
    pre: BroadcastNode,
    request: Message<RequestDetail>,
    post: BroadcastNode,
    response: ResponseDetail,
)
    requires
        request.body.detail matches RequestDetail::Broadcast { message } && pre@.values.contains(
            message,
        ),
        pre.request_effect(&request, &post, &response),
    ensures
        response is BroadcastOk,
        post@ == pre@,
{
    crate::gossip::lemma_value_idempotent(pre@, request.body.detail->message);
}

/// No request takes a value or an estimate away, whichever request it is:
/// what the node held before it holds afterwards, and what a node was known
/// to hold it is still known to hold.
pub proof fn lemma_request_takes_nothing_away(
    pre: BroadcastNode,
    request: Message<RequestDetail>,
    post: BroadcastNode,
    response: ResponseDetail,
)
    requires
        pre.request_effect(&request, &post, &response),
    ensures
        pre@.values.subset_of(post@.values),
        forall|node: Seq<char>| #[trigger]
            pre@.known.contains_key(node) ==> post@.known.contains_key(node)
                && pre@.known[node].subset_of(post@.known[node]),
{
    crate::gossip::lemma_step_keeps_values(pre@, request_step(&request));
    assert forall|node: Seq<char>| #[trigger] pre@.known.contains_key(node) implies post@.known.contains_key(
        node,
    ) && pre@.known[node].subset_of(post@.known[node]) by {
        crate::gossip::lemma_step_keeps_estimates(pre@, request_step(&request), node);
    }
}

/// A node that is told what a neighbor holds afterwards holds all of it
/// besides its own, knows the neighbor to hold it, and says in its reply
/// all that it then holds.
pub proof fn lemma_gossip_is_taken_in(
    pre: BroadcastNode,
    request: Message<RequestDetail>,
    post: BroadcastNode,
    response: ResponseDetail,
)
    requires
        request.body.detail is Gossip,
        pre.request_effect(&request, &post, &response),
    ensures
        post@.values == pre@.values.union(request.body.detail->Gossip_ids@),
        post@.known == pre@.known.insert(
            request.src@,
            pre@.known[request.src@].union(request.body.detail->Gossip_ids@),
        ),
        response matches ResponseDetail::GossipOk { ids } && ids@ == post@.values,
{
}

/// A node that gets the reply to its gossip afterwards holds what it held
/// and what the reply carries, and nothing else of it changes. A reply
/// that carries nothing new changes nothing at all.
pub proof fn lemma_reply_is_taken_in(
    pre: BroadcastNode,
    response: Message<ResponseDetail>,
    post: BroadcastNode,
)
    requires
        pre.response_effect(&response, &post),
    ensures
        response.body.detail is GossipOk,
        post@.values == pre@.values.union(response.body.detail->GossipOk_ids@),
        pre@.values.subset_of(post@.values),
        post@.known == pre@.known,
        post@.topology == pre@.topology,
        post@.name == pre@.name,
        response.body.detail->GossipOk_ids@.subset_of(pre@.values) ==> post@ == pre@,
{
    let ids = response.body.detail->GossipOk_ids@;
    if ids.subset_of(pre@.values) {
        assert(pre@.values.union(ids) =~= pre@.values);
        assert(post@ =~= pre@);
    }
}

/// A timer tick changes nothing in the node, and it carries every value
/// one link further: for a value that the node holds and a neighbor that
/// is not known to hold it, exactly one of the messages sent goes to that
/// neighbor, and it is gossip that carries the value.
pub proof fn lemma_tick_carries_value(
    pre: BroadcastNode,
    post: BroadcastNode,
    sent: Seq<Message<RequestDetail>>,
    neighbor: Seq<char>,
    value: usize,
)
    requires
        pre.event_effect(&Event::Sync, &post, sent),
        pre@.neighbors().contains(neighbor),
        pre@.values.contains(value),
        !pre@.known[neighbor].contains(value),
    ensures
        post@ == pre@,
        exists|i: int|
            0 <= i < sent.len() && (#[trigger] sent[i]).dest@ == neighbor
                && sent[i].body.detail is Gossip && sent[i].body.detail->Gossip_ids@.contains(
                value,
            ),
        forall|i: int, j: int|
            0 <= i < sent.len() && 0 <= j < sent.len() && (#[trigger] sent[i]).dest@ == neighbor && (
            #[trigger] sent[j]).dest@ == neighbor ==> i == j,
{
    assert(pre@.delta(neighbor).contains(value));
    assert(pre@.targets().contains(neighbor));
    let i = choose|i: int| 0 <= i < sent.len() && (#[trigger] sent[i]).dest@ == neighbor;
    assert(is_gossip(pre@, sent[i]));
    assert forall|i: int, j: int|
        0 <= i < sent.len() && 0 <= j < sent.len() && (#[trigger] sent[i]).dest@ == neighbor && (
        #[trigger] sent[j]).dest@ == neighbor implies i == j by {
        if i < j {
            assert(sent[i].dest@ != sent[j].dest@);
        }
        if j < i {
            assert(sent[j].dest@ != sent[i].dest@);
        }
    }
}

/// A timer tick sends nothing to a neighbor that is known to hold all that
/// the node holds.
pub proof fn lemma_tick_spares_the_informed(
    pre: BroadcastNode,
    post: BroadcastNode,
    sent: Seq<Message<RequestDetail>>,
    neighbor: Seq<char>,
)
    requires
        pre.event_effect(&Event::Sync, &post, sent),
        pre@.values.subset_of(pre@.known[neighbor]),
    ensures
        forall|i: int| 0 <= i < sent.len() ==> (#[trigger] sent[i]).dest@ != neighbor,
{
    lemma_tick_skips_known(pre@, sent, neighbor);
}

/// One exchange of gossip between two nodes: the timer of `a` fires, one of
/// the messages it sends arrives at `b`, and the reply of `b` comes back to
/// `a`, with nothing else happening to `a` in between. Afterwards `a` holds
/// exactly what the two held before, which is no less than it held, and
/// `b` holds what it held and what was sent.
pub proof fn lemma_exchange_gives_union(
    a: BroadcastNode,
    a_ticked: BroadcastNode,
    sent: Seq<Message<RequestDetail>>,
    i: int,
    b: BroadcastNode,
    b_after: BroadcastNode,
    answer: ResponseDetail,
    reply: Message<ResponseDetail>,
    a_after: BroadcastNode,
)
    requires
        a.event_effect(&Event::Sync, &a_ticked, sent),
        0 <= i < sent.len(),
        b.request_effect(&sent[i], &b_after, &answer),
        reply.body.detail == answer,
        a_ticked.response_effect(&reply, &a_after),
    ensures
        a@.values.subset_of(a_after@.values),
        a_after@.values == a@.values.union(b@.values),
        b_after@.values == b@.values.union(a@.delta(sent[i].dest@)),
{
    assert(is_gossip(a@, sent[i]));
    crate::gossip::lemma_exchange(a@, b@, sent[i].src@, sent[i].dest@);
    assert(a_after@.values =~= a@.values.union(b@.values));
}

impl BroadcastNode {
    /// The estimates that a map of value sets stands for.
    spec fn estimates(known: NameMap<HashSet<usize>>) -> Map<Seq<char>, Set<usize>> {
        known@.map_values(|values: HashSet<usize>| values@)
    }

    /// Records the topology and gives every node it mentions an empty
    /// estimate, unless the node has an estimate already.
    fn install(&mut self, topology: Topology)
        requires
            old(self).wf(),
            topology.wf(),
        ensures
            final(self).wf(),
            final(self)@ == old(self)@.with_topology(topology@),
    {
        let all = topology.members();
        let ghost before = Self::estimates(self.known_neighbor_value);
        let ghost mut seeded: Set<Seq<char>> = Set::empty();
        let mut i: usize = 0;
        while i < all.len()
            invariant
                i <= all.order().len(),
                self.known_neighbor_value.wf(),
                self.name == old(self).name,
                self.ids == old(self).ids,
                seeded == all.order().take(i as int).to_set(),
                Self::estimates(self.known_neighbor_value).dom() == before.dom().union(seeded),
                forall|node: Seq<char>| #[trigger]
                    Self::estimates(self.known_neighbor_value).contains_key(node) ==> Self::estimates(
                        self.known_neighbor_value,
                    )[node] == if before.contains_key(node) {
                        before[node]
                    } else {
                        Set::<usize>::empty()
                    },
            decreases all.order().len() - i,
        {
            let ghost then = Self::estimates(self.known_neighbor_value);
            let name = all.get(i);
            if self.known_neighbor_value.get(name).is_none() {
                self.known_neighbor_value.insert(name.clone(), HashSet::new());
            }
            proof {
                let name = all.order()[i as int];
                let now = Self::estimates(self.known_neighbor_value);
                assert(all.order().take(i + 1) =~= all.order().take(i as int).push(name));
                all.order().take(i as int).lemma_push_to_set_commute(name);
                seeded = seeded.insert(name);
                assert(now.dom() =~= then.dom().insert(name));
                assert forall|node: Seq<char>| #[trigger] now.contains_key(node) implies now[node]
                    == if then.contains_key(node) {
                    then[node]
                } else {
                    Set::<usize>::empty()
                } by {}
            }
            i += 1;
        }
        self.topology = Some(topology);
        proof {
            assert(all.order().take(i as int) =~= all.order());
            assert(seeded == crate::topology::members(topology@));
            let target = old(self)@.with_topology(topology@).known;
            assert(self@.known.dom() =~= target.dom());
            assert(self@.known =~= target);
            assert(self@ =~= old(self)@.with_topology(topology@));
        }
    }

    /// Takes `ids` into the estimate for `sender`.
    fn learn(&mut self, sender: &String, ids: &HashSet<usize>)
        requires
            old(self).wf(),
            old(self)@.known.contains_key(sender@),
        ensures
            final(self).repr_wf(),
            final(self).name == old(self).name,
            final(self).ids == old(self).ids,
            final(self).topology == old(self).topology,
            final(self)@.known == old(self)@.known.insert(
                sender@,
                old(self)@.known[sender@].union(ids@),
            ),
    {
        let at = match self.known_neighbor_value.position(sender) {
            Some(at) => at,
            None => vstd::pervasive::unreached(),
        };
        let known = self.known_neighbor_value.value_mut(at);
        extend(known, ids);
        assert(self@.known =~= old(self)@.known.insert(
            sender@,
            old(self)@.known[sender@].union(ids@),
        ));
    }
}

} // verus!
