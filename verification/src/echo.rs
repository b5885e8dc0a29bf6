//! The echo node: it answers every request with the text it was sent.

use crate::message::{Input, Message, NodeInit};
use crate::node::{Node, Timer};
use vstd::prelude::*;

verus! {

/// The requests of the echo protocol.
#[derive(Debug, Clone)]
pub enum RequestDetail {
    Echo { echo: String },
}

/// The responses of the echo protocol.
#[derive(Debug, Clone)]
pub enum ResponseDetail {
    EchoOk { echo: String },
}

/// A node of the echo protocol.
#[derive(Debug, Clone)]
pub struct EchoNode {
    name: Option<String>,
}

impl EchoNode {
    /// A node before the handshake.
    pub fn new() -> (node: EchoNode)
        ensures
            node.name() is None,
    {
        EchoNode { name: None }
    }
}

impl Node<RequestDetail, ResponseDetail, ()> for EchoNode {
    open spec fn wf(&self) -> bool {
        true
    }

    closed spec fn name(&self) -> Option<Seq<char>> {
        match self.name {
            Some(name) => Some(name@),
            None => None,
        }
    }

    /// The echo node sends nothing and runs no timer: it has a case for
    /// requests only.
    open spec fn accepts(&self, input: &Input<RequestDetail, ResponseDetail, ()>) -> bool {
        input is Request
    }

    open spec fn init_effect(&self, message: &NodeInit, post: &Self, timer: &Option<Timer<()>>) -> bool {
        &&& post.name() == Some(message.node_id@)
        &&& timer is None
    }

    open spec fn request_effect(
        &self,
        request: &Message<RequestDetail>,
        post: &Self,
        response: &ResponseDetail,
    ) -> bool {
        &&& post.name() == self.name()
        &&& response->echo@ == request.body.detail->echo@
    }

    open spec fn response_effect(&self, response: &Message<ResponseDetail>, post: &Self) -> bool {
        post.name() == self.name()
    }

    open spec fn event_effect(&self, event: &(), post: &Self, sent: Seq<Message<RequestDetail>>) -> bool {
        &&& post.name() == self.name()
        &&& sent.len() == 0
    }

    fn on_init(&mut self, message: &NodeInit) -> (timer: Option<Timer<()>>) {
        self.name = Some(message.node_id.clone());
        None
    }

    fn admits(&self, input: &Input<RequestDetail, ResponseDetail, ()>) -> (ok: bool) {
        match input {
            Input::Request(_) => true,
            _ => false,
        }
    }

    fn respond_request(&mut self, request: Message<RequestDetail>) -> (response: ResponseDetail) {
        match request.body.detail {
            RequestDetail::Echo { echo } => ResponseDetail::EchoOk { echo },
        }
    }

    /// Never called: the node sends no request, so no response can be
    /// meant for it, and `accepts` has none.
    fn respond_response(&mut self, response: Message<ResponseDetail>) {
    }

    /// Never called: the node asks for no timer, so no event can come, and
    /// `accepts` has none.
    fn respond_event(&mut self, event: ()) -> (sent: Vec<Message<RequestDetail>>) {
        Vec::new()
    }

    fn get_name(&self) -> (name: &str) {
        match &self.name {
            Some(name) => name.as_str(),
            None => vstd::pervasive::unreached(),
        }
    }
}

} // verus!
