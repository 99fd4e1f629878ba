use vstd::prelude::*;
use crate::protocol::{Body, Message, NodeError};

verus! {

/// Payloads of the echo workload, initialization handshake included.
pub enum EchoPayload {
    Echo { echo: String },
    EchoOk { echo: String },
    Init { node_id: String, node_ids: Vec<String> },
    InitOk,
}

/// A stateless echo responder; it only counts outgoing message ids.
pub struct EchoNode {
    pub id: usize,
}

impl EchoNode {
    /// Answers one envelope: the handshake gets `InitOk`, an `Echo`
    /// gets its text back in an `EchoOk`, a stray `EchoOk` is ignored,
    /// and a stray `InitOk` is a protocol violation. Each reply takes
    /// the next message id.
    pub fn step(&mut self, input: Message<EchoPayload>) -> (r: Result<
        Option<Message<EchoPayload>>,
        NodeError,
    >)
        requires
            old(self).id < usize::MAX,
        ensures
            input.body.payload matches EchoPayload::Init { .. } ==> {
                &&& final(self).id == old(self).id + 1
                &&& (r matches Ok(rep) && rep matches Some(rep) && rep.src == input.dst
                    && rep.dst == input.src && rep.body.id == Some(old(self).id)
                    && rep.body.in_reply_to == input.body.id
                    && rep.body.payload is InitOk)
            },
            input.body.payload matches EchoPayload::Echo { echo } ==> {
                &&& final(self).id == old(self).id + 1
                &&& (r matches Ok(rep) && rep matches Some(rep) && rep.src == input.dst
                    && rep.dst == input.src && rep.body.id == Some(old(self).id)
                    && rep.body.in_reply_to == input.body.id && (rep.body.payload
                    matches EchoPayload::EchoOk { echo: e } && e == echo))
            },
            input.body.payload is InitOk ==> final(self).id == old(self).id && r == Err::<
                Option<Message<EchoPayload>>,
                NodeError,
            >(NodeError::UnexpectedInitOk),
            input.body.payload is EchoOk ==> final(self).id == old(self).id && r == Ok::<
                Option<Message<EchoPayload>>,
                NodeError,
            >(None),
    {
        match input.body.payload {
            EchoPayload::Init { node_id: _, node_ids: _ } => {
                let rep = Message {
                    src: input.dst,
                    dst: input.src,
                    body: Body {
                        id: Some(self.id),
                        in_reply_to: input.body.id,
                        payload: EchoPayload::InitOk,
                    },
                };
                self.id += 1;
                Ok(Some(rep))
            },
            EchoPayload::Echo { echo } => {
                let rep = Message {
                    src: input.dst,
                    dst: input.src,
                    body: Body {
                        id: Some(self.id),
                        in_reply_to: input.body.id,
                        payload: EchoPayload::EchoOk { echo },
                    },
                };
                self.id += 1;
                Ok(Some(rep))
            },
            EchoPayload::InitOk => Err(NodeError::UnexpectedInitOk),
            EchoPayload::EchoOk { echo: _ } => Ok(None),
        }
    }
}

} // verus!
