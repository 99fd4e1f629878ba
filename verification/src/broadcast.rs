use vstd::prelude::*;
use crate::msg_set::MsgSet;
use crate::protocol::{Body, Event, Message, NodeError};

verus! {

broadcast use vstd::seq_lib::group_seq_properties;

/// Payloads of the broadcast workload.
pub enum Payload {
    Broadcast { message: usize },
    BroadcastOk,
    Read,
    ReadOk { messages: Vec<usize> },
    Topology { topology: Vec<(String, Vec<String>)> },
    TopologyOk,
    Gossip { seen: Vec<usize> },
}

/// The one internally injected signal: a periodic gossip tick.
pub enum InjectedPayload {
    Gossip,
}

/// The state of a set-broadcast node.
///
/// `messages` only ever grows, and `known` is a deliberate lower bound
/// on what each peer knows: it grows only when a peer demonstrates
/// knowledge by gossiping values itself, so under-reporting merely
/// costs redundant sends while over-reporting could lose deliveries.
pub struct BroadcastNode {
    /// This node's own id.
    pub node: String,
    /// The next outgoing message id.
    pub id: usize,
    /// The broadcast set: every value this node knows.
    pub messages: MsgSet,
    /// The peer ids named at initialization, parallel to `known`.
    pub peers: Vec<String>,
    /// `known[i]` is a lower bound on the values `peers[i]` knows.
    pub known: Vec<MsgSet>,
    /// The peers this node gossips to, set by a topology assignment.
    pub neighborhood: Vec<String>,
}

impl BroadcastNode {
    /// Structural well-formedness: one knowledge set per peer, and
    /// every stored set free of duplicates.
    pub open spec fn wf(&self) -> bool {
        &&& self.peers@.len() == self.known@.len()
        &&& self.messages.wf()
        &&& forall|i: int| 0 <= i < self.known@.len() ==> self.known@[i].wf()
    }

    /// Whether `p` is one of the peers named at initialization.
    pub open spec fn has_peer(&self, p: Seq<char>) -> bool {
        exists|i: int| 0 <= i < self.peers@.len() && self.peers@[i]@ == p
    }

    /// Builds the initial state: no messages yet, an empty knowledge
    /// set per named peer, and an empty neighborhood (the node stays
    /// isolated until a topology assignment arrives).
    pub fn from_init(node_id: String, node_ids: Vec<String>) -> (r: BroadcastNode)
        ensures
            r.wf(),
            r.node == node_id,
            r.id == 1,
            r.messages@ == Set::<usize>::empty(),
            r.peers == node_ids,
            forall|i: int| 0 <= i < r.known@.len() ==> r.known@[i]@ == Set::<usize>::empty(),
            r.neighborhood@ == Seq::<String>::empty(),
    {
        let mut known: Vec<MsgSet> = Vec::new();
        let mut i: usize = 0;
        while i < node_ids.len()
            invariant
                i <= node_ids@.len(),
                known@.len() == i,
                forall|k: int| 0 <= k < i ==> known@[k].wf() && known@[k]@ == Set::<usize>::empty(),
            decreases node_ids@.len() - i,
        {
            known.push(MsgSet::new());
            i += 1;
        }
        BroadcastNode {
            node: node_id,
            id: 1,
            messages: MsgSet::new(),
            peers: node_ids,
            known,
            neighborhood: Vec::new(),
        }
    }

    /// Executable peer lookup, mirroring `has_peer`.
    fn is_peer(&self, p: &String) -> (r: bool)
        ensures
            r == self.has_peer(p@),
    {
        self.find_peer(p).is_some()
    }

    /// Merges a gossip received from peer `src`: every reported value
    /// becomes locally known, and — since the sender demonstrably has
    /// every value it sent — is marked known to that sender. Nothing
    /// ever shrinks. A sender that initialization never named is a
    /// protocol violation and is reported as an error, with no state
    /// change at all.
    pub fn receive_gossip(&mut self, src: &String, seen: &Vec<usize>) -> (r: Result<
        (),
        NodeError,
    >)
        requires
            old(self).wf(),
        ensures
            final(self).wf(),
            final(self).node == old(self).node,
            final(self).id == old(self).id,
            final(self).peers == old(self).peers,
            final(self).neighborhood == old(self).neighborhood,
            r is Ok <==> old(self).has_peer(src@),
            r is Err ==> *final(self) == *old(self) && r == Err::<(), NodeError>(
                NodeError::UnknownPeer,
            ),
            r is Ok ==> final(self).messages@ == old(self).messages@.union(seen@.to_set()),
            r is Ok ==> forall|i: int|
                0 <= i < old(self).known@.len() ==> final(self).known@[i]@ == (
                if old(self).peers@[i]@ == src@ {
                    old(self).known@[i]@.union(seen@.to_set())
                } else {
                    old(self).known@[i]@
                }),
    {
        if !self.is_peer(src) {
            return Err(NodeError::UnknownPeer);
        }
        let ghost pre = *self;
        let mut i: usize = 0;
        while i < self.peers.len()
            invariant
                self.wf(),
                i <= self.peers@.len(),
                self.node == pre.node,
                self.id == pre.id,
                self.peers == pre.peers,
                self.neighborhood == pre.neighborhood,
                self.messages == pre.messages,
                self.known@.len() == pre.known@.len(),
                forall|k: int|
                    0 <= k < i ==> self.known@[k]@ == (if pre.peers@[k]@ == src@ {
                        pre.known@[k]@.union(seen@.to_set())
                    } else {
                        pre.known@[k]@
                    }),
                forall|k: int| i <= k < self.known@.len() ==> self.known@[k] == pre.known@[k],
            decreases self.peers@.len() - i,
        {
            if self.peers[i] == *src {
                let ks = &mut self.known[i];
                ks.extend_from(seen);
            }
            i += 1;
        }
        self.messages.extend_from(seen);
        Ok(())
    }

    /// The values a gossip to the peer at index `i` must carry: those
    /// not yet known to be known there. This delta is recomputed from
    /// ground truth on every tick, so a lost send is repaired by the
    /// next one.
    pub open spec fn gossip_due(&self, i: int) -> Set<usize> {
        self.messages@.difference(self.known@[i]@)
    }

    /// `i` is the first peer index carrying the id `p`.
    pub open spec fn peer_at(&self, p: Seq<char>, i: int) -> bool {
        &&& 0 <= i < self.peers@.len()
        &&& self.peers@[i]@ == p
        &&& forall|k: int| 0 <= k < i ==> self.peers@[k]@ != p
    }

    /// Every neighbor was named at initialization, so each has a
    /// knowledge entry to gossip against.
    pub open spec fn neighbors_tracked(&self) -> bool {
        forall|t: int|
            0 <= t < self.neighborhood@.len() ==> self.has_peer(self.neighborhood@[t]@)
    }

    /// What a correct gossip envelope to the neighbor at position `t`
    /// looks like: addressed from this node to that neighbor, carrying
    /// no ids, and reporting at least everything due to it and nothing
    /// this node does not know. When fewer than ten values are due, no
    /// redundancy is added and the report is exactly the due set.
    pub open spec fn gossip_msg_ok(&self, t: int, m: Message<Payload>) -> bool {
        &&& m.src == self.node
        &&& m.dst == self.neighborhood@[t]
        &&& m.body.id is None
        &&& m.body.in_reply_to is None
        &&& (m.body.payload matches Payload::Gossip { seen } && (exists|i: int|
            {
                &&& #[trigger] self.peer_at(self.neighborhood@[t]@, i)
                &&& self.gossip_due(i).subset_of(seen@.to_set())
                &&& seen@.to_set().subset_of(self.messages@)
                &&& self.gossip_due(i).len() < 10 ==> seen@.to_set() == self.gossip_due(i)
            }))
    }

    /// Executable first-match peer lookup, mirroring `peer_at`.
    fn find_peer(&self, p: &String) -> (r: Option<usize>)
        ensures
            r matches Some(i) ==> self.peer_at(p@, i as int),
            r is None <==> !self.has_peer(p@),
    {
        let mut i: usize = 0;
        while i < self.peers.len()
            invariant
                i <= self.peers@.len(),
                forall|k: int| 0 <= k < i ==> self.peers@[k]@ != p@,
            decreases self.peers@.len() - i,
        {
            if self.peers[i] == *p {
                return Some(i);
            }
            i += 1;
        }
        None
    }

    /// Computes the set to gossip to the peer at index `idx`: all of
    /// `gossip_due`, plus a randomized sprinkling of values that peer
    /// already knows — around a tenth of the due count — as insurance
    /// against lost envelopes. The redundancy is not needed for
    /// delivery, and below ten due values none is added.
    fn gossip_seen_for(&self, idx: usize) -> (r: Vec<usize>)
        requires
            self.wf(),
            idx < self.known@.len(),
        ensures
            self.gossip_due(idx as int).subset_of(r@.to_set()),
            r@.to_set().subset_of(self.messages@),
            self.gossip_due(idx as int).len() < 10 ==> r@.to_set() == self.gossip_due(idx as int),
    {
        let msgs = self.messages.to_vec();
        let known_to_n = &self.known[idx];
        let ghost k_set = self.known@[idx as int]@;
        let mut notify: Vec<usize> = Vec::new();
        let mut already: Vec<usize> = Vec::new();
        let mut i: usize = 0;
        while i < msgs.len()
            invariant
                i <= msgs@.len(),
                self.wf(),
                idx < self.known@.len(),
                k_set == self.known@[idx as int]@,
                *known_to_n == self.known@[idx as int],
                msgs@.to_set() == self.messages@,
                msgs@.no_duplicates(),
                forall|k: int| #![trigger msgs@[k]]
                    0 <= k < i && !k_set.contains(msgs@[k]) ==> notify@.contains(msgs@[k]),
                forall|v: usize| #![trigger notify@.contains(v)]
                    notify@.contains(v) ==> msgs@.take(i as int).contains(v) && !k_set.contains(v),
                forall|v: usize| #![trigger already@.contains(v)]
                    already@.contains(v) ==> msgs@.contains(v) && k_set.contains(v),
                notify@.no_duplicates(),
            decreases msgs@.len() - i,
        {
            proof {
                assert(msgs@.take(i as int).push(msgs@[i as int]) =~= msgs@.take(i + 1));
                if notify@.contains(msgs@[i as int]) {
                    let v = msgs@[i as int];
                    assert(msgs@.take(i as int).contains(v));
                    let k = choose|k: int|
                        0 <= k < msgs@.take(i as int).len() && msgs@.take(i as int)[k] == v;
                    assert(msgs@.take(i as int)[k] == msgs@[k]);
                    assert(false);
                }
            }
            let ghost notify_pre = notify@;
            let ghost already_pre = already@;
            if known_to_n.contains(msgs[i]) {
                already.push(msgs[i]);
            } else {
                notify.push(msgs[i]);
            }
            proof {
                let x = msgs@[i as int];
                assert forall|v: usize| notify_pre.contains(v) implies notify@.contains(v) by {
                    let k = choose|k: int| 0 <= k < notify_pre.len() && notify_pre[k] == v;
                    assert(notify@[k] == v);
                };
                assert forall|v: usize| already_pre.contains(v) implies already@.contains(v) by {
                    let k = choose|k: int| 0 <= k < already_pre.len() && already_pre[k] == v;
                    assert(already@[k] == v);
                };
                assert forall|v: usize| notify@.contains(v) implies notify_pre.contains(v) || v
                    == x by {
                    let k = choose|k: int| 0 <= k < notify@.len() && notify@[k] == v;
                    if k < notify_pre.len() {
                        assert(notify_pre[k] == v);
                    }
                };
                assert forall|v: usize| already@.contains(v) implies already_pre.contains(v) || v
                    == x by {
                    let k = choose|k: int| 0 <= k < already@.len() && already@[k] == v;
                    if k < already_pre.len() {
                        assert(already_pre[k] == v);
                    }
                };
                assert(msgs@.take(i + 1)[i as int] == x);
                assert(msgs@.take(i + 1).contains(x));
                assert forall|v: usize| msgs@.take(i as int).contains(v) implies msgs@.take(i + 1).contains(
                    v,
                ) by {
                    let t1 = msgs@.take(i as int);
                    let k = choose|k: int| 0 <= k < t1.len() && t1[k] == v;
                    assert(msgs@.take(i + 1)[k] == v);
                };
                if k_set.contains(x) {
                    assert(already@[already_pre.len() as int] == x);
                    assert(already@.contains(x));
                    assert(notify@ == notify_pre);
                } else {
                    assert(notify@[notify_pre.len() as int] == x);
                    assert(notify@.contains(x));
                    assert forall|a: int, b: int|
                        0 <= a < b < notify@.len() implies notify@[a] != notify@[b] by {
                        if b == notify@.len() - 1 {
                            assert(notify@[a] == notify_pre[a]);
                            if notify_pre[a] == x {
                                assert(notify_pre.contains(x));
                                assert(msgs@.take(i as int).contains(x));
                                let t1 = msgs@.take(i as int);
                                let k = choose|k: int| 0 <= k < t1.len() && t1[k] == x;
                                assert(msgs@[k] == x);
                                assert(false);
                            }
                        } else {
                            assert(notify@[a] == notify_pre[a] && notify@[b] == notify_pre[b]);
                        }
                    };
                }
            }
            i += 1;
        }
        proof {
            assert(msgs@.take(msgs@.len() as int) =~= msgs@);
            assert forall|v: usize| self.gossip_due(idx as int).contains(v) implies notify@.to_set().contains(
                v,
            ) by {
                assert(msgs@.contains(v));
                let k = choose|k: int| 0 <= k < msgs@.len() && msgs@[k] == v;
                assert(notify@.contains(msgs@[k]));
            };
            assert forall|v: usize| notify@.to_set().contains(v) implies self.gossip_due(
                idx as int,
            ).contains(v) by {
                assert(msgs@.take(msgs@.len() as int).contains(v));
                assert(msgs@.to_set().contains(v));
            };
            assert(notify@.to_set() =~= self.gossip_due(idx as int));
        }
        let ghost notify_s = notify@;
        let mut r = notify;
        proof {
            assert forall|v: usize| already@.contains(v) implies self.messages@.contains(v) by {
                assert(msgs@.contains(v));
            };
        }
        if already.len() > 0 {
            let den: u32 = clamp_u32(already.len());
            let capped: u32 = clamp_u32(r.len() / 10);
            let num: u32 = if capped < den {
                capped
            } else {
                den
            };
            proof {
                if self.gossip_due(idx as int).len() < 10 {
                    notify_s.unique_seq_to_set();
                    assert(num == 0);
                }
            }
            let mut j: usize = 0;
            while j < already.len()
                invariant
                    j <= already@.len(),
                    0 < den,
                    num <= den,
                    forall|v: usize| #![trigger notify_s.contains(v)]
                        notify_s.contains(v) ==> r@.contains(v),
                    forall|v: usize| #![trigger r@.contains(v)]
                        r@.contains(v) ==> notify_s.contains(v) || already@.contains(v),
                    forall|v: usize| #![trigger already@.contains(v)]
                        already@.contains(v) ==> self.messages@.contains(v),
                    forall|v: usize| #![trigger notify_s.contains(v)]
                        notify_s.contains(v) ==> msgs@.contains(v) && !k_set.contains(v),
                    msgs@.to_set() == self.messages@,
                    num == 0 ==> r@ == notify_s,
                decreases already@.len() - j,
            {
                let ghost r_pre = r@;
                if random_ratio(num, den) {
                    r.push(already[j]);
                }
                proof {
                    assert forall|v: usize| r_pre.contains(v) implies r@.contains(v) by {
                        let k = choose|k: int| 0 <= k < r_pre.len() && r_pre[k] == v;
                        assert(r@[k] == v);
                    };
                    assert forall|v: usize| r@.contains(v) implies r_pre.contains(v)
                        || already@.contains(v) by {
                        let k = choose|k: int| 0 <= k < r@.len() && r@[k] == v;
                        if k < r_pre.len() {
                            assert(r_pre[k] == v);
                        } else {
                            assert(already@.contains(already@[j as int]));
                        }
                    };
                }
                j += 1;
            }
        }
        proof {
            assert(self.gossip_due(idx as int).subset_of(r@.to_set()));
            assert(r@.to_set().subset_of(self.messages@));
            if self.gossip_due(idx as int).len() < 10 {
                assert(r@.to_set() =~= self.gossip_due(idx as int));
            }
        }
        r
    }

    /// One gossip tick: builds one envelope per neighbor, in
    /// neighborhood order, each reporting what that neighbor is due
    /// (plus bounded redundancy). Fire-and-forget: no ids, no replies,
    /// and no state change — not even the knowledge estimates move
    /// until the neighbor gossips back. A neighbor that initialization
    /// never named has no knowledge entry; that is reported as an
    /// error.
    pub fn gossip(&self) -> (r: Result<Vec<Message<Payload>>, NodeError>)
        requires
            self.wf(),
        ensures
            r is Ok <==> self.neighbors_tracked(),
            r is Err ==> r == Err::<Vec<Message<Payload>>, NodeError>(NodeError::UnknownPeer),
            r matches Ok(out) ==> out@.len() == self.neighborhood@.len() && (forall|t: int|
                0 <= t < out@.len() ==> self.gossip_msg_ok(t, out@[t])),
    {
        let mut out: Vec<Message<Payload>> = Vec::new();
        let mut t: usize = 0;
        while t < self.neighborhood.len()
            invariant
                self.wf(),
                t <= self.neighborhood@.len(),
                out@.len() == t,
                forall|k: int| 0 <= k < t ==> self.gossip_msg_ok(k, out@[k]),
                forall|k: int| 0 <= k < t ==> self.has_peer(self.neighborhood@[k]@),
            decreases self.neighborhood@.len() - t,
        {
            let n = &self.neighborhood[t];
            match self.find_peer(n) {
                None => {
                    return Err(NodeError::UnknownPeer);
                },
                Some(i) => {
                    let seen = self.gossip_seen_for(i);
                    let m = Message {
                        src: self.node.clone(),
                        dst: n.clone(),
                        body: Body {
                            id: None,
                            in_reply_to: None,
                            payload: Payload::Gossip { seen },
                        },
                    };
                    out.push(m);
                },
            }
            t += 1;
        }
        Ok(out)
    }

    /// Processes one event, the node's single entry point: it mutates
    /// the state and returns the envelopes to send, in order. End of
    /// input and unsolicited reply payloads are ignored; a gossip tick
    /// produces one envelope per neighbor; Broadcast, Read and
    /// Topology requests are answered; a received gossip is merged.
    /// Every inbound envelope consumes one outgoing message id, even
    /// when nothing is sent. The broadcast set and every knowledge
    /// estimate only ever grow, whatever the event.
    pub fn step(&mut self, input: Event<Payload, InjectedPayload>) -> (r: Result<
        Vec<Message<Payload>>,
        NodeError,
    >)
        requires
            old(self).wf(),
            old(self).id < usize::MAX,
        ensures
            final(self).wf(),
            final(self).node == old(self).node,
            final(self).peers == old(self).peers,
            final(self).known@.len() == old(self).known@.len(),
            old(self).messages@.subset_of(final(self).messages@),
            forall|i: int|
                0 <= i < old(self).known@.len() ==> old(self).known@[i]@.subset_of(
                    final(self).known@[i]@,
                ),
            input is Eof ==> *final(self) == *old(self) && (r matches Ok(out) && out@.len() == 0),
            input is Injected ==> *final(self) == *old(self),
            input is Injected ==> (r is Ok <==> old(self).neighbors_tracked()),
            input is Injected ==> (r matches Ok(out) ==> out@.len()
                == old(self).neighborhood@.len() && (forall|t: int|
                0 <= t < out@.len() ==> old(self).gossip_msg_ok(t, out@[t]))),
            input is Injected && !old(self).neighbors_tracked() ==> r == Err::<
                Vec<Message<Payload>>,
                NodeError,
            >(NodeError::UnknownPeer),
            input is Message ==> final(self).id == old(self).id + 1,
            !(input is Message) ==> final(self).id == old(self).id,
            input matches Event::Message(m) ==> (m.body.payload matches Payload::Broadcast {
                message,
            } ==> {
                &&& final(self).messages@ == old(self).messages@.insert(message)
                &&& final(self).known == old(self).known
                &&& final(self).neighborhood == old(self).neighborhood
                &&& (r matches Ok(out) && out@.len() == 1 && reply_envelope(
                    m,
                    old(self).id,
                    out@[0],
                ) && out@[0].body.payload is BroadcastOk)
            }),
            input matches Event::Message(m) ==> (m.body.payload is Read ==> {
                &&& final(self).messages == old(self).messages
                &&& final(self).known == old(self).known
                &&& final(self).neighborhood == old(self).neighborhood
                &&& (r matches Ok(out) && out@.len() == 1 && reply_envelope(
                    m,
                    old(self).id,
                    out@[0],
                ) && (out@[0].body.payload matches Payload::ReadOk { messages }
                    && messages@.to_set() == old(self).messages@ && messages@.no_duplicates()))
            }),
            input matches Event::Message(m) ==> (m.body.payload matches Payload::Gossip { seen }
                ==> {
                &&& final(self).neighborhood == old(self).neighborhood
                &&& (old(self).has_peer(m.src@) ==> {
                    &&& (r matches Ok(out) && out@.len() == 0)
                    &&& final(self).messages@ == old(self).messages@.union(seen@.to_set())
                    &&& forall|i: int|
                        0 <= i < old(self).known@.len() ==> final(self).known@[i]@ == (if old(
                            self,
                        ).peers@[i]@ == m.src@ {
                            old(self).known@[i]@.union(seen@.to_set())
                        } else {
                            old(self).known@[i]@
                        })
                })
                &&& (!old(self).has_peer(m.src@) ==> r == Err::<Vec<Message<Payload>>, NodeError>(
                    NodeError::UnknownPeer,
                ) && final(self).messages == old(self).messages && final(self).known == old(
                    self,
                ).known)
            }),
            input matches Event::Message(m) ==> (m.body.payload matches Payload::Topology {
                topology,
            } ==> {
                &&& final(self).messages == old(self).messages
                &&& final(self).known == old(self).known
                &&& (topo_has_entry(topology@, old(self).node@) ==> {
                    &&& (r matches Ok(out) && out@.len() == 1 && reply_envelope(
                        m,
                        old(self).id,
                        out@[0],
                    ) && out@[0].body.payload is TopologyOk)
                    &&& forall|j: int|
                        topo_entry_at(topology@, old(self).node@, j) ==> final(self).neighborhood
                            == topology@[j].1
                })
                &&& (!topo_has_entry(topology@, old(self).node@) ==> r == Err::<
                    Vec<Message<Payload>>,
                    NodeError,
                >(NodeError::MissingTopologyEntry) && final(self).neighborhood == old(
                    self,
                ).neighborhood)
            }),
            input matches Event::Message(m) ==> ((m.body.payload is BroadcastOk
                || m.body.payload is ReadOk || m.body.payload is TopologyOk) ==> {
                &&& final(self).messages == old(self).messages
                &&& final(self).known == old(self).known
                &&& final(self).neighborhood == old(self).neighborhood
                &&& (r matches Ok(out) && out@.len() == 0)
            }),
    {
        match input {
            Event::Eof => Ok(Vec::new()),
            Event::Injected(p) => match p {
                InjectedPayload::Gossip => self.gossip(),
            },
            Event::Message(m) => {
                let reply = m.into_reply(&mut self.id);
                let Message {
                    src: rsrc,
                    dst: rdst,
                    body: Body { id: rid, in_reply_to: rreply, payload },
                } = reply;
                match payload {
                    Payload::Gossip { seen } => {
                        // After the role swap the reply's destination
                        // is the gossip's sender: the peer to credit.
                        match self.receive_gossip(&rdst, &seen) {
                            Ok(()) => Ok(Vec::new()),
                            Err(e) => Err(e),
                        }
                    },
                    Payload::Broadcast { message } => {
                        self.messages.insert(message);
                        let mut out: Vec<Message<Payload>> = Vec::new();
                        out.push(
                            Message {
                                src: rsrc,
                                dst: rdst,
                                body: Body {
                                    id: rid,
                                    in_reply_to: rreply,
                                    payload: Payload::BroadcastOk,
                                },
                            },
                        );
                        Ok(out)
                    },
                    Payload::Read => {
                        let snapshot = self.messages.to_vec();
                        let mut out: Vec<Message<Payload>> = Vec::new();
                        out.push(
                            Message {
                                src: rsrc,
                                dst: rdst,
                                body: Body {
                                    id: rid,
                                    in_reply_to: rreply,
                                    payload: Payload::ReadOk { messages: snapshot },
                                },
                            },
                        );
                        Ok(out)
                    },
                    Payload::Topology { topology } => {
                        let mut topology = topology;
                        let ghost topo0 = topology@;
                        let mut j: usize = 0;
                        while j < topology.len()
                            invariant
                                j <= topology@.len(),
                                topology@ == topo0,
                                forall|k: int| 0 <= k < j ==> topology@[k].0@ != self.node@,
                                self.wf(),
                                self.node == old(self).node,
                                self.id == old(self).id + 1,
                                self.messages == old(self).messages,
                                self.peers == old(self).peers,
                                self.known == old(self).known,
                                self.neighborhood == old(self).neighborhood,
                                input matches Event::Message(m) && (m.body.payload
                                    matches Payload::Topology { topology: tp } && tp@ == topo0
                                    && rsrc == m.dst && rdst == m.src && rid == Some(
                                    old(self).id,
                                ) && rreply == m.body.id),
                            decreases topology@.len() - j,
                        {
                            if topology[j].0 == self.node {
                                let pair = topology.remove(j);
                                self.neighborhood = pair.1;
                                let mut out: Vec<Message<Payload>> = Vec::new();
                                out.push(
                                    Message {
                                        src: rsrc,
                                        dst: rdst,
                                        body: Body {
                                            id: rid,
                                            in_reply_to: rreply,
                                            payload: Payload::TopologyOk,
                                        },
                                    },
                                );
                                return Ok(out);
                            }
                            j += 1;
                        }
                        Err(NodeError::MissingTopologyEntry)
                    },
                    Payload::BroadcastOk => Ok(Vec::new()),
                    Payload::ReadOk { messages: _ } => Ok(Vec::new()),
                    Payload::TopologyOk => Ok(Vec::new()),
                }
            },
        }
    }
}

/// The envelope fields of a reply `r` answering request `m`: addresses
/// swapped, the node's pending message id taken, and the reply
/// correlated to the request's id.
pub open spec fn reply_envelope(m: Message<Payload>, id: usize, r: Message<Payload>) -> bool {
    &&& r.src == m.dst
    &&& r.dst == m.src
    &&& r.body.id == Some(id)
    &&& r.body.in_reply_to == m.body.id
}

/// `j` is the first entry of the topology assignment keyed by `p`.
pub open spec fn topo_entry_at(topo: Seq<(String, Vec<String>)>, p: Seq<char>, j: int) -> bool {
    &&& 0 <= j < topo.len()
    &&& topo[j].0@ == p
    &&& forall|k: int| 0 <= k < j ==> topo[k].0@ != p
}

/// Whether the topology assignment holds an entry keyed by `p`.
pub open spec fn topo_has_entry(topo: Seq<(String, Vec<String>)>, p: Seq<char>) -> bool {
    exists|j: int| 0 <= j < topo.len() && topo[j].0@ == p
}

/// Clamps a length into `u32` range; lengths this large never occur,
/// but the randomized-redundancy ratio is taken over `u32`.
fn clamp_u32(x: usize) -> (r: u32)
    ensures
        r as int == (if x <= u32::MAX as usize {
            x as int
        } else {
            u32::MAX as int
        }),
{
    if x >= u32::MAX as usize {
        u32::MAX
    } else {
        x as u32
    }
}

/// Relies on rand::random_ratio: one Bernoulli draw, true with
/// probability numerator/denominator. Its documentation promises the
/// draw is surely false with a zero numerator and surely true with a
/// full one, and that a zero denominator or an excessive numerator
/// panics, hence the requirements.
#[verifier::external_body]
fn random_ratio(numerator: u32, denominator: u32) -> (r: bool)
    requires
        0 < denominator,
        numerator <= denominator,
    ensures
        numerator == 0 ==> !r,
        numerator == denominator ==> r,
{
    rand::random_ratio(numerator, denominator)
}

} // verus!
