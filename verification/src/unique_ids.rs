use vstd::prelude::*;
use vstd::pervasive::unreached;
use crate::protocol::{Body, Event, Message, NodeError};

verus! {

/// Payloads of the unique-id workload.
pub enum UniquePayload {
    Generate,
    GenerateOk { guid: String },
}

/// A node that hands out ids unique to it: its own node id joined to a
/// counter that every envelope advances.
pub struct UniqueNode {
    pub id: usize,
    pub node: String,
}

/// The decimal digits of `n`, most significant first.
pub open spec fn spec_decimal(n: nat) -> Seq<char>
    decreases n,
{
    if n < 10 {
        seq![digit_char(n)]
    } else {
        spec_decimal(n / 10) + seq![digit_char(n % 10)]
    }
}

/// One decimal digit as its character.
pub open spec fn digit_char(d: nat) -> char {
    if d == 0 {
        '0'
    } else if d == 1 {
        '1'
    } else if d == 2 {
        '2'
    } else if d == 3 {
        '3'
    } else if d == 4 {
        '4'
    } else if d == 5 {
        '5'
    } else if d == 6 {
        '6'
    } else if d == 7 {
        '7'
    } else if d == 8 {
        '8'
    } else {
        '9'
    }
}

/// Relies on std's Display formatting: a usize renders as its decimal
/// digits, and the format pieces concatenate in order.
#[verifier::external_body]
fn format_guid(node: &String, id: usize) -> (r: String)
    ensures
        r@ == node@ + seq!['-'] + spec_decimal(id as nat),
{
    format!("{}-{}", node, id)
}

impl UniqueNode {
    /// Builds the initial state from the node's assigned id.
    pub fn from_init(node_id: String) -> (r: UniqueNode)
        ensures
            r.id == 1,
            r.node == node_id,
    {
        UniqueNode { id: 1, node: node_id }
    }

    /// Answers one envelope. A `Generate` request is answered with a
    /// fresh id — this node's name joined to the value the counter
    /// takes right after the reply id — and a stray `GenerateOk` is
    /// ignored; either consumes one message id, and a `Generate`
    /// consumes a second for the next guid. This node injects no
    /// events and stops at end of input, so only envelopes reach it.
    pub fn step(&mut self, input: Event<UniquePayload, ()>) -> (r: Result<
        Option<Message<UniquePayload>>,
        NodeError,
    >)
        requires
            old(self).id < usize::MAX - 1,
            input is Message,
        ensures
            final(self).node == old(self).node,
            input matches Event::Message(m) ==> (m.body.payload is Generate ==> {
                &&& final(self).id == old(self).id + 2
                &&& (r matches Ok(rep) && rep matches Some(rep) && rep.src == m.dst && rep.dst
                    == m.src && rep.body.id == Some(old(self).id) && rep.body.in_reply_to
                    == m.body.id && (rep.body.payload matches UniquePayload::GenerateOk { guid }
                    && guid@ == old(self).node@ + seq!['-'] + spec_decimal(
                    (old(self).id + 1) as nat,
                )))
            }),
            input matches Event::Message(m) ==> (m.body.payload is GenerateOk ==> {
                &&& final(self).id == old(self).id + 1
                &&& r == Ok::<Option<Message<UniquePayload>>, NodeError>(None)
            }),
    {
        match input {
            Event::Message(m) => {
                let reply = m.into_reply(&mut self.id);
                let Message {
                    src: rsrc,
                    dst: rdst,
                    body: Body { id: rid, in_reply_to: rreply, payload },
                } = reply;
                match payload {
                    UniquePayload::Generate => {
                        let guid = format_guid(&self.node, self.id);
                        self.id += 1;
                        Ok(
                            Some(
                                Message {
                                    src: rsrc,
                                    dst: rdst,
                                    body: Body {
                                        id: rid,
                                        in_reply_to: rreply,
                                        payload: UniquePayload::GenerateOk { guid },
                                    },
                                },
                            ),
                        )
                    },
                    UniquePayload::GenerateOk { guid: _ } => Ok(None),
                }
            },
            Event::Injected(_) => unreached(),
            Event::Eof => unreached(),
        }
    }
}

} // verus!
