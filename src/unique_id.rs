//! The unique-id service: each node numbers the ids it hands out, so that
//! `<node>_<n>` never repeats within the cluster.
use vstd::prelude::*;

use crate::message::{reply_id, reply_id_of, Handler, Message, Payload};

verus! {

pub enum Generate {
    Generate,
    GenerateOk { id: String, in_reply_to: usize },
}

/// The mathematical form of a unique-id payload.
pub enum GenerateV {
    Generate,
    GenerateOk { id: Seq<char>, in_reply_to: usize },
}

impl View for Generate {
    type V = GenerateV;

    open spec fn view(&self) -> GenerateV {
        match self {
            Generate::Generate => GenerateV::Generate,
            Generate::GenerateOk { id, in_reply_to } => GenerateV::GenerateOk { id: id@, in_reply_to: *in_reply_to },
        }
    }
}

/// The decimal digits of `n`, most significant first.
pub open spec fn decimal(n: nat) -> Seq<char>
    decreases n,
{
    if n < 10 {
        seq![digit(n)]
    } else {
        decimal(n / 10).push(digit(n % 10))
    }
}

/// The character of the digit `d`.
pub open spec fn digit(d: nat) -> char {
    (('0' as u8) + (d % 10) as u8) as char
}

/// The id that `node` hands out as its `n`-th.
pub open spec fn id_for(node: Seq<char>, n: nat) -> Seq<char> {
    node + seq!['_'] + decimal(n)
}

/// Relies on std's `format!` with `Display` for `String` and `usize`: the
/// text, an underscore, then the number in decimal.
#[verifier::external_body]
fn format_id(node: &String, n: usize) -> (r: String)
    ensures
        r@ == id_for(node@, n as nat),
{
    format!("{}_{}", node, n)
}

pub struct UniqueIdNode {
    node_id: String,
    processed_id_count: usize,
}

impl UniqueIdNode {
    pub closed spec fn id(self) -> Seq<char> {
        self.node_id@
    }

    /// How many ids this node has handed out.
    pub closed spec fn issued(self) -> nat {
        self.processed_id_count as nat
    }

    pub fn new(node_id: String) -> (r: Self)
        ensures
            r.id() == node_id@,
            r.issued() == 0,
    {
        UniqueIdNode { node_id, processed_id_count: 0 }
    }
}

impl Handler<Message<Generate>, Message<Generate>> for UniqueIdNode {
    /// A request can be served while the count of ids still fits in `usize`.
    open spec fn accepts(&self, message: Message<Generate>) -> bool {
        message.body.data is Generate ==> self.issued() < usize::MAX
    }

    fn handle(&mut self, message: Message<Generate>) -> (out: Vec<Message<Generate>>)
        ensures
            final(self).id() == old(self).id(),
            out@.len() == 1,
            match message.body.data {
                Generate::Generate => {
                    &&& final(self).issued() == old(self).issued() + 1
                    &&& out@[0].answers(message)
                    &&& match out@[0].body.data {
                        Generate::GenerateOk { id, in_reply_to } => {
                            &&& id@ == id_for(old(self).id(), final(self).issued())
                            &&& in_reply_to == reply_id(message.body.msg_id)
                        },
                        _ => false,
                    }
                },
                _ => {
                    &&& *final(self) == *old(self)
                    &&& out@[0] == message
                },
            },
    {
        match message.body.data {
            Generate::Generate => {
                let Message { src, dst, body } = message;
                let count = self.processed_id_count + 1;
                self.processed_id_count = count;
                let id = format_id(&self.node_id, count);
                let data = Generate::GenerateOk { id, in_reply_to: reply_id_of(body.msg_id) };
                vec![Message::new(dst, src, Payload::new(data, body.msg_id))]
            },
            _ => vec![message],
        }
    }
}

} // verus!
