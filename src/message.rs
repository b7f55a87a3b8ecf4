//! The envelope exchanged between nodes, and the startup handshake.
use vstd::prelude::*;

verus! {

/// A message that could not be read as an envelope.
pub struct ParseError(pub String);

/// One envelope: who sent it, to whom, and what it carries.
pub struct Message<T> {
    pub src: String,
    pub dst: String,
    pub body: Payload<T>,
}

/// The body of an envelope: the protocol payload and an optional request id.
pub struct Payload<T> {
    pub data: T,
    pub msg_id: Option<usize>,
}

/// The mathematical form of an envelope.
pub struct MessageV<V> {
    pub src: Seq<char>,
    pub dst: Seq<char>,
    pub data: V,
    pub msg_id: Option<usize>,
}

impl<T: View> View for Message<T> {
    type V = MessageV<T::V>;

    open spec fn view(&self) -> MessageV<T::V> {
        MessageV { src: self.src@, dst: self.dst@, data: self.body.data@, msg_id: self.body.msg_id }
    }
}

/// The mathematical form of the handshake.
pub enum InitV {
    Init { node_id: Seq<char>, node_ids: Seq<Seq<char>> },
    InitOk { in_reply_to: usize },
}

impl View for Init {
    type V = InitV;

    open spec fn view(&self) -> InitV {
        match self {
            Init::Init { node_id, node_ids } => InitV::Init {
                node_id: node_id@,
                node_ids: node_ids@.map_values(|s: String| s@),
            },
            Init::InitOk { in_reply_to } => InitV::InitOk { in_reply_to: *in_reply_to },
        }
    }
}

/// The id a response echoes: the request's own id, or `1` when it carried none.
pub open spec fn reply_id(msg_id: Option<usize>) -> usize {
    match msg_id {
        Some(id) => id,
        None => 1,
    }
}

/// Computes `reply_id`.
pub fn reply_id_of(msg_id: Option<usize>) -> (r: usize)
    ensures
        r == reply_id(msg_id),
{
    match msg_id {
        Some(id) => id,
        None => 1,
    }
}

impl<T> Payload<T> {
    pub fn new(data: T, msg_id: Option<usize>) -> (r: Self)
        ensures
            r.data == data,
            r.msg_id == msg_id,
    {
        Payload { data, msg_id }
    }
}

impl<T> Message<T> {
    pub fn new(src: String, dst: String, body: Payload<T>) -> (r: Self)
        ensures
            r.src == src,
            r.dst == dst,
            r.body == body,
    {
        Message { src, dst, body }
    }

    /// Whether `self` answers `request`: the endpoints are swapped and the
    /// request id is carried back.
    pub open spec fn answers<U>(self, request: Message<U>) -> bool {
        &&& self.src@ == request.dst@
        &&& self.dst@ == request.src@
        &&& self.body.msg_id == request.body.msg_id
    }

    /// Builds the response to `from` that carries `to`.
    pub fn to_response(from: Message<T>, to: T) -> (r: Message<T>)
        ensures
            r.answers(from),
            r.body.data == to,
    {
        Message { src: from.dst, dst: from.src, body: Payload::new(to, from.body.msg_id) }
    }
}

/// Something that consumes events of type `T` one at a time and answers each
/// with zero or more outbound items of type `R`.
pub trait Handler<T, R>: Sized {
    /// The events this handler can take in its current state.
    spec fn accepts(&self, message: T) -> bool;

    fn handle(&mut self, message: T) -> (out: Vec<R>)
        requires
            old(self).accepts(message),
    ;
}

/// The startup handshake.
pub enum Init {
    Init { node_id: String, node_ids: Vec<String> },
    InitOk { in_reply_to: usize },
}

impl Handler<Message<Init>, Message<Init>> for Init {
    open spec fn accepts(&self, message: Message<Init>) -> bool {
        true
    }

    fn handle(&mut self, message: Message<Init>) -> (out: Vec<Message<Init>>)
        ensures
            *final(self) == *old(self),
            out@.len() == 1,
            out@[0].src@ == message.dst@,
            out@[0].dst@ == message.src@,
            out@[0].body.msg_id is None,
            out@[0].body.data == (Init::InitOk { in_reply_to: reply_id(message.body.msg_id) }),
    {
        let in_reply_to = reply_id_of(message.body.msg_id);
        let reply = Message::new(
            message.dst,
            message.src,
            Payload { data: Init::InitOk { in_reply_to }, msg_id: None },
        );
        vec![reply]
    }
}

} // verus!
