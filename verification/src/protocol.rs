use vstd::prelude::*;

verus! {

/// One envelope on the wire: a source node, a destination node, and a
/// body carrying an optional message id, an optional correlation id,
/// and the payload.
pub struct Message<P> {
    pub src: String,
    pub dst: String,
    pub body: Body<P>,
}

/// The body of an envelope.
pub struct Body<P> {
    pub id: Option<usize>,
    pub in_reply_to: Option<usize>,
    pub payload: P,
}

/// One event handed to a node: an inbound envelope, an internally
/// injected signal, or end of the input stream.
pub enum Event<P, IP> {
    Message(Message<P>),
    Injected(IP),
    Eof,
}

/// The errors a node can report. Each is fatal to the run: a stream
/// that has broken protocol cannot be resynchronized.
#[derive(Debug, Clone, Copy, PartialEq, Eq)]
pub enum NodeError {
    /// A gossip arrived from a node that initialization never named.
    UnknownPeer,
    /// A topology assignment holds no entry for this node's own id.
    MissingTopologyEntry,
    /// An init acknowledgement arrived, though this node requests none.
    UnexpectedInitOk,
}

impl<P> Message<P> {
    /// Turns a request into its reply skeleton: source and destination
    /// swap, the reply takes the next outgoing message id (bumping the
    /// counter) and correlates to the request's id. The payload carries
    /// over unchanged; callers replace it with the reply payload.
    pub fn into_reply(self, id: &mut usize) -> (r: Message<P>)
        requires
            *old(id) < usize::MAX,
        ensures
            r.src == self.dst,
            r.dst == self.src,
            r.body.id == Some(*old(id)),
            r.body.in_reply_to == self.body.id,
            r.body.payload == self.body.payload,
            *final(id) == *old(id) + 1,
    {
        let r = Message {
            src: self.dst,
            dst: self.src,
            body: Body { id: Some(*id), in_reply_to: self.body.id, payload: self.body.payload },
        };
        *id += 1;
        r
    }
}

} // verus!
