//! The capability interface between the dispatch loop and a protocol.
//!
//! The runtime reads lines, runs timers and writes lines; a node decides.
//! Each entry point takes the node from one state to the next and hands
//! back what the runtime has to put on the wire.

use crate::message::{InitDetails, Input, Message, MessageBody, NodeInit};
use vstd::prelude::*;

verus! {

/// A periodic source of internal events that a node asks the runtime to run.
#[derive(Debug, Clone)]
pub struct Timer<EV> {
    /// The time between two events, in milliseconds.
    pub period_ms: u64,
    /// The event to enqueue each time the period has passed.
    pub event: EV,
}

/// What the runtime has to put on the wire after one input.
#[derive(Debug, Clone)]
pub enum Output<REQ, RESP> {
    /// The reply to the request that was handled.
    Reply(Message<RESP>),
    /// Requests that the node sends on its own initiative.
    Requests(Vec<Message<REQ>>),
    /// Nothing.
    Nothing,
}

/// A protocol that the dispatch loop can drive: `REQ` are the requests it
/// takes and sends, `RESP` the responses, `EV` its internal events.
pub trait Node<REQ, RESP, EV: Send>: Sized {
    /// The node's invariant.
    spec fn wf(&self) -> bool;

    /// The node's name: the handshake sets it, and nothing changes it
    /// afterwards.
    spec fn name(&self) -> Option<Seq<char>>;

    /// The inputs that the node has a case for. An input outside it is a
    /// violation of the protocol, which the runtime must not hand on.
    spec fn accepts(&self, input: &Input<REQ, RESP, EV>) -> bool;

    /// What the handshake does: `post` is the node after it was told
    /// `message`, `timer` what it asks the runtime to run from then on.
    spec fn init_effect(&self, message: &NodeInit, post: &Self, timer: &Option<Timer<EV>>) -> bool;

    /// What a request does: `post` is the node after `request`, `response`
    /// the payload of its reply.
    spec fn request_effect(&self, request: &Message<REQ>, post: &Self, response: &RESP) -> bool;

    /// What a response does: `post` is the node after `response`.
    spec fn response_effect(&self, response: &Message<RESP>, post: &Self) -> bool;

    /// What an event does: `post` is the node after `event`, `sent` the
    /// requests it sends.
    spec fn event_effect(&self, event: &EV, post: &Self, sent: Seq<Message<REQ>>) -> bool;

    /// Takes the node's identity from the handshake.
    fn on_init(&mut self, message: &NodeInit) -> (timer: Option<Timer<EV>>)
        requires
            old(self).wf(),
        ensures
            final(self).wf(),
            final(self).name() == Some(message.node_id@),
            old(self).init_effect(message, final(self), &timer),
    ;

    /// Decides whether the node has a case for `input`.
    fn admits(&self, input: &Input<REQ, RESP, EV>) -> (ok: bool)
        requires
            self.wf(),
        ensures
            ok == self.accepts(input),
    ;

    /// Handles a request and gives the payload of the reply.
    fn respond_request(&mut self, request: Message<REQ>) -> (response: RESP)
        requires
            old(self).wf(),
            old(self).accepts(&Input::Request(request)),
        ensures
            final(self).wf(),
            final(self).name() == old(self).name(),
            old(self).request_effect(&request, final(self), &response),
    ;

    /// Handles the response to a request that this node sent.
    fn respond_response(&mut self, response: Message<RESP>)
        requires
            old(self).wf(),
            old(self).accepts(&Input::Response(response)),
        ensures
            final(self).wf(),
            final(self).name() == old(self).name(),
            old(self).response_effect(&response, final(self)),
    ;

    /// Handles an internal event and gives the requests to send.
    fn respond_event(&mut self, event: EV) -> (sent: Vec<Message<REQ>>)
        requires
            old(self).wf(),
            old(self).accepts(&Input::Event(event)),
        ensures
            final(self).wf(),
            final(self).name() == old(self).name(),
            old(self).event_effect(&event, final(self), sent@),
    ;

    /// The node's name.
    fn get_name(&self) -> (name: &str)
        requires
            self.name() is Some,
        ensures
            self.name() == Some(name@),
    ;

    /// The handshake: hands the node its identity and answers with an
    /// acknowledgement.
    fn init(&mut self, message: &Message<InitDetails>) -> (started: (
        Message<InitDetails>,
        Option<Timer<EV>>,
    ))
        requires
            old(self).wf(),
            message.body.detail is Init,
            message.can_reply(),
        ensures
            final(self).wf(),
            final(self).name() == Some(message.body.detail->Init_0.node_id@),
            old(self).init_effect(&message.body.detail->Init_0, final(self), &started.1),
            message.answered_by(started.0, InitDetails::InitOk),
            started.0.body.detail is InitOk,
    {
        let timer = match &message.body.detail {
            InitDetails::Init(node_init) => self.on_init(node_init),
            InitDetails::InitOk => vstd::pervasive::unreached(),
        };
        (message.reply(InitDetails::InitOk), timer)
    }

    /// A request from this node to `dest` that expects no correlation.
    fn send(&self, dest: String, detail: REQ) -> (message: Message<REQ>)
        requires
            self.name() is Some,
        ensures
            message.is_fresh(self.name()->0, dest@, detail),
    {
        Message::fresh(self.get_name().to_owned(), dest, detail)
    }

    /// One turn of the consumer loop: hands `input` to the handler for its
    /// kind. A request is answered with what its handler returns, a
    /// response is only taken in, an event yields what its handler sends.
    fn process(&mut self, input: Input<REQ, RESP, EV>) -> (output: Output<REQ, RESP>)
        requires
            old(self).wf(),
            old(self).accepts(&input),
            input matches Input::Request(request) ==> request.can_reply(),
        ensures
            final(self).wf(),
            final(self).name() == old(self).name(),
            (match input {
                Input::Request(request) => {
                    &&& output matches Output::Reply(reply)
                    &&& request.answered_by(reply, reply.body.detail)
                    &&& old(self).request_effect(&request, final(self), &reply.body.detail)
                },
                Input::Response(response) => {
                    &&& output is Nothing
                    &&& old(self).response_effect(&response, final(self))
                },
                Input::Event(event) => {
                    &&& output matches Output::Requests(sent)
                    &&& old(self).event_effect(&event, final(self), sent@)
                },
            }),
    {
        match input {
            Input::Request(request) => {
                let envelope = Message {
                    src: request.src.clone(),
                    dest: request.dest.clone(),
                    body: MessageBody {
                        msg_id: request.body.msg_id,
                        in_reply_to: request.body.in_reply_to,
                        detail: (),
                    },
                };
                let detail = self.respond_request(request);
                Output::Reply(envelope.reply(detail))
            },
            Input::Response(response) => {
                self.respond_response(response);
                Output::Nothing
            },
            Input::Event(event) => Output::Requests(self.respond_event(event)),
        }
    }
}

} // verus!
