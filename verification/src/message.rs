//! The message envelope: who sends, who receives, and a body that carries a
//! sequence id, a reply-correlation id and a payload.

use vstd::prelude::*;

verus! {

/// What a node is told about itself and its cluster during the handshake.
#[derive(Debug, Clone)]
pub struct NodeInit {
    pub node_id: String,
    pub node_ids: Vec<String>,
}

/// The two payloads of the handshake.
#[derive(Debug, Clone)]
pub enum InitDetails {
    Init(NodeInit),
    InitOk,
}

/// The body of a message: bookkeeping ids around a payload.
#[derive(Debug, Clone)]
pub struct MessageBody<D> {
    pub msg_id: Option<usize>,
    pub in_reply_to: Option<usize>,
    pub detail: D,
}

/// One message on the wire.
#[derive(Debug, Clone)]
pub struct Message<D> {
    pub src: String,
    pub dest: String,
    pub body: MessageBody<D>,
}

/// What the consumer loop takes from its queue: a request that expects a
/// reply, a response to something this node sent, or an internal event.
pub enum Input<REQ, RESP, EV: Send> {
    Request(Message<REQ>),
    Response(Message<RESP>),
    Event(EV),
}

/// The sequence id of a reply to a request that carries none.
pub const FIRST_REPLY_ID: usize = 0;

/// The sequence id that a reply to a message with sequence id `msg_id` gets.
/// Every reply gets one: the successor of the request's, and
/// `FIRST_REPLY_ID` where the request carries none.
pub open spec fn reply_id(msg_id: Option<usize>) -> usize {
    match msg_id {
        Some(id) => (id + 1) as usize,
        None => FIRST_REPLY_ID,
    }
}

impl<D> Message<D> {
    /// A sequence id whose successor does not fit the machine word cannot be
    /// answered.
    pub open spec fn spec_can_reply(&self) -> bool {
        self.body.msg_id != Some(usize::MAX)
    }

    /// Whether the reply to this message can be given its sequence id.
    #[verifier::when_used_as_spec(spec_can_reply)]
    pub fn can_reply(&self) -> (ok: bool)
        ensures
            ok == self.spec_can_reply(),
    {
        match self.body.msg_id {
            Some(id) => id < usize::MAX,
            None => true,
        }
    }

    /// `reply` answers `self` with payload `detail`: source and destination
    /// are swapped, `in_reply_to` echoes the request's sequence id, and the
    /// reply gets a sequence id of its own.
    pub open spec fn answered_by<R>(&self, reply: Message<R>, detail: R) -> bool {
        &&& reply.src@ == self.dest@
        &&& reply.dest@ == self.src@
        &&& reply.body.msg_id == Some(reply_id(self.body.msg_id))
        &&& reply.body.in_reply_to == self.body.msg_id
        &&& reply.body.detail == detail
    }

    /// `self` is a fresh message from `src` to `dest` that expects no
    /// correlation: it has neither a sequence id nor a reply id.
    pub open spec fn is_fresh(&self, src: Seq<char>, dest: Seq<char>, detail: D) -> bool {
        &&& self.src@ == src
        &&& self.dest@ == dest
        &&& self.body.msg_id is None
        &&& self.body.in_reply_to is None
        &&& self.body.detail == detail
    }

    /// Builds the reply to this message.
    pub fn reply<R>(&self, detail: R) -> (reply: Message<R>)
        requires
            self.can_reply(),
        ensures
            self.answered_by(reply, detail),
    {
        let msg_id = match self.body.msg_id {
            Some(id) => id + 1,
            None => FIRST_REPLY_ID,
        };
        Message {
            src: self.dest.clone(),
            dest: self.src.clone(),
            body: MessageBody { msg_id: Some(msg_id), in_reply_to: self.body.msg_id, detail },
        }
    }

    /// Builds a message that this node sends on its own initiative.
    pub fn fresh(src: String, dest: String, detail: D) -> (message: Message<D>)
        ensures
            message.is_fresh(src@, dest@, detail),
    {
        Message { src, dest, body: MessageBody { msg_id: None, in_reply_to: None, detail } }
    }
}

impl<REQ, RESP, EV: Send> Input<REQ, RESP, EV> {
    /// The input that a line stands for, given what it read as: a request
    /// takes precedence over a response, and a line that read as neither
    /// stands for nothing.
    pub open spec fn classified(
        request: Option<Message<REQ>>,
        response: Option<Message<RESP>>,
    ) -> Option<Self> {
        match (request, response) {
            (Some(message), _) => Some(Input::Request(message)),
            (None, Some(message)) => Some(Input::Response(message)),
            (None, None) => None,
        }
    }

    /// Tags a line that was tried against both payload families: a request
    /// if it read as one, else a response if it read as one; a line that is
    /// neither is dropped.
    pub fn classify(request: Option<Message<REQ>>, response: Option<Message<RESP>>) -> (input:
        Option<Self>)
        ensures
            input == Self::classified(request, response),
    {
        match request {
            Some(message) => Some(Input::Request(message)),
            None => match response {
                Some(message) => Some(Input::Response(message)),
                None => None,
            },
        }
    }
}

} // verus!
