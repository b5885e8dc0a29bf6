//! A node that answers one message at a time and numbers its answers: the
//! handshake and the echo protocol in one, without a queue or a timer.

use crate::message::{Message, MessageBody};
use vstd::prelude::*;

verus! {

/// The payloads that the serial node reads and writes.
#[derive(Debug, Clone)]
pub enum MessageDetail {
    Init { node_id: String, node_ids: Vec<String> },
    InitOk,
    Echo { echo: String },
    EchoOk { echo: String },
}

/// The payload that answers `detail`, where there is one: an
/// acknowledgement for the handshake, the same text for an echo.
pub open spec fn answer(detail: MessageDetail, reply: MessageDetail) -> bool {
    match detail {
        MessageDetail::Init { .. } => reply is InitOk,
        MessageDetail::Echo { echo } => reply matches MessageDetail::EchoOk { echo: text } && text@
            == echo@,
        _ => false,
    }
}

/// A node that numbers its answers from zero.
#[derive(Debug, Clone)]
pub struct SerialNode {
    counter: usize,
}

impl SerialNode {
    /// The number that the next answer gets.
    pub closed spec fn counter(&self) -> nat {
        self.counter as nat
    }

    /// The messages that the node has a case for: the two requests, as long
    /// as the count fits the machine word.
    pub open spec fn accepts(&self, request: &Message<MessageDetail>) -> bool {
        &&& request.body.detail is Init || request.body.detail is Echo
        &&& self.counter() < usize::MAX
    }

    /// A node that has answered nothing yet.
    pub fn new() -> (node: SerialNode)
        ensures
            node.counter() == 0,
    {
        SerialNode { counter: 0 }
    }

    /// Decides `accepts`.
    pub fn admits(&self, request: &Message<MessageDetail>) -> (ok: bool)
        ensures
            ok == self.accepts(request),
    {
        let known = match &request.body.detail {
            MessageDetail::Init { .. } => true,
            MessageDetail::Echo { .. } => true,
            _ => false,
        };
        known && self.counter < usize::MAX
    }

    /// Answers `request`: the answer goes back where the request came from,
    /// carries the node's count as its sequence id and the request's
    /// sequence id as its reply id, and the count goes up by one.
    pub fn step(&mut self, request: Message<MessageDetail>) -> (reply: Message<MessageDetail>)
        requires
            old(self).accepts(&request),
        ensures
            final(self).counter() == old(self).counter() + 1,
            reply.src@ == request.dest@,
            reply.dest@ == request.src@,
            reply.body.msg_id == Some(old(self).counter() as usize),
            reply.body.in_reply_to == request.body.msg_id,
            answer(request.body.detail, reply.body.detail),
    {
        let msg_id = Some(self.counter);
        let in_reply_to = request.body.msg_id;
        let detail = match request.body.detail {
            MessageDetail::Init { .. } => {
                self.counter += 1;
                MessageDetail::InitOk
            },
            MessageDetail::Echo { echo } => {
                self.counter += 1;
                MessageDetail::EchoOk { echo }
            },
            MessageDetail::InitOk => vstd::pervasive::unreached(),
            MessageDetail::EchoOk { .. } => vstd::pervasive::unreached(),
        };
        Message { src: request.dest, dest: request.src, body: MessageBody { msg_id, in_reply_to, detail } }
    }
}

} // verus!
