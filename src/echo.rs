//! The echo service: every `Echo` is answered with the same text.
use vstd::prelude::*;

use crate::message::{reply_id, reply_id_of, Handler, Message, Payload};

verus! {

pub enum Echo {
    Echo { echo: String },
    EchoOk { echo: String, in_reply_to: usize },
}

/// The mathematical form of an echo payload.
pub enum EchoV {
    Echo { echo: Seq<char> },
    EchoOk { echo: Seq<char>, in_reply_to: usize },
}

impl View for Echo {
    type V = EchoV;

    open spec fn view(&self) -> EchoV {
        match self {
            Echo::Echo { echo } => EchoV::Echo { echo: echo@ },
            Echo::EchoOk { echo, in_reply_to } => EchoV::EchoOk { echo: echo@, in_reply_to: *in_reply_to },
        }
    }
}

pub struct EchoNode {
    node: String,
}

impl EchoNode {
    pub closed spec fn id(self) -> Seq<char> {
        self.node@
    }

    pub fn new(node: String) -> (r: EchoNode)
        ensures
            r.id() == node@,
    {
        EchoNode { node }
    }
}

impl Handler<Message<Echo>, Message<Echo>> for EchoNode {
    /// Only requests are served; a stray `EchoOk` is a caller error.
    open spec fn accepts(&self, message: Message<Echo>) -> bool {
        message.body.data is Echo
    }

    fn handle(&mut self, message: Message<Echo>) -> (out: Vec<Message<Echo>>)
        ensures
            *final(self) == *old(self),
            out@.len() == 1,
            out@[0].answers(message),
            match (out@[0].body.data, message.body.data) {
                (Echo::EchoOk { echo, in_reply_to }, Echo::Echo { echo: asked }) => {
                    echo@ == asked@ && in_reply_to == reply_id(message.body.msg_id)
                },
                _ => false,
            },
    {
        let Message { src, dst, body } = message;
        let Payload { data, msg_id } = body;
        let echo = match data {
            Echo::Echo { echo } => echo,
            Echo::EchoOk { echo, .. } => echo,
        };
        let data = Echo::EchoOk { echo, in_reply_to: reply_id_of(msg_id) };
        vec![Message::new(dst, src, Payload::new(data, msg_id))]
    }
}

} // verus!
