use vstd::prelude::*;
use crate::broadcast::BroadcastNode;

verus! {

/// The abstract state of one broadcast node: its broadcast set and,
/// per peer, the lower bound on what that peer knows.
pub struct NodeModel {
    pub messages: Set<usize>,
    pub known: Seq<Set<usize>>,
    pub peers: Seq<Seq<char>>,
}

/// The events that grow a node's state: an accepted Broadcast request
/// and an accepted gossip from a peer.
pub enum GrowEvent {
    Broadcast { message: usize },
    Gossip { src: Seq<char>, seen: Set<usize> },
}

/// One event's effect on the abstract state, exactly as the exec
/// handlers promise it: a Broadcast inserts its value; a gossip unions
/// its report into the broadcast set and into the knowledge bound of
/// every peer entry carrying the sender's id.
pub open spec fn apply_event(m: NodeModel, e: GrowEvent) -> NodeModel {
    match e {
        GrowEvent::Broadcast { message } => NodeModel {
            messages: m.messages.insert(message),
            known: m.known,
            peers: m.peers,
        },
        GrowEvent::Gossip { src, seen } => NodeModel {
            messages: m.messages.union(seen),
            known: Seq::new(
                m.known.len(),
                |i: int|
                    if m.peers.len() == m.known.len() && m.peers[i] == src {
                        m.known[i].union(seen)
                    } else {
                        m.known[i]
                    },
            ),
            peers: m.peers,
        },
    }
}

/// A whole history applied in order, oldest event first.
pub open spec fn apply_events(m: NodeModel, es: Seq<GrowEvent>) -> NodeModel
    decreases es.len(),
{
    if es.len() == 0 {
        m
    } else {
        apply_events(apply_event(m, es[0]), es.drop_first())
    }
}

/// Everything the history reports as gossiped by the peer `p` — the
/// values `p` itself demonstrated it knows.
pub open spec fn received_from(es: Seq<GrowEvent>, p: Seq<char>) -> Set<usize>
    decreases es.len(),
{
    if es.len() == 0 {
        Set::empty()
    } else {
        let rest = received_from(es.drop_first(), p);
        match es[0] {
            GrowEvent::Gossip { src, seen } => if src == p {
                rest.union(seen)
            } else {
                rest
            },
            GrowEvent::Broadcast { .. } => rest,
        }
    }
}

impl BroadcastNode {
    /// The abstract state this node stands for.
    pub open spec fn model(&self) -> NodeModel {
        NodeModel {
            messages: self.messages@,
            known: Seq::new(self.known@.len(), |i: int| self.known@[i]@),
            peers: Seq::new(self.peers@.len(), |i: int| self.peers@[i]@),
        }
    }
}

/// A state whose two handler targets satisfy the exec `step` contract
/// for an accepted Broadcast follows the model transition.
pub proof fn lemma_step_models_broadcast(pre: BroadcastNode, post: BroadcastNode, message: usize)
    requires
        post.messages@ == pre.messages@.insert(message),
        post.known == pre.known,
        post.peers == pre.peers,
    ensures
        post.model() == apply_event(pre.model(), GrowEvent::Broadcast { message }),
{
    assert(post.model().known =~= apply_event(
        pre.model(),
        GrowEvent::Broadcast { message },
    ).known);
    assert(post.model().peers =~= apply_event(
        pre.model(),
        GrowEvent::Broadcast { message },
    ).peers);
}

/// A state satisfying the exec `step` contract for an accepted gossip
/// follows the model transition.
pub proof fn lemma_step_models_gossip(
    pre: BroadcastNode,
    post: BroadcastNode,
    src: Seq<char>,
    seen: Set<usize>,
)
    requires
        pre.peers@.len() == pre.known@.len(),
        post.messages@ == pre.messages@.union(seen),
        post.peers == pre.peers,
        post.known@.len() == pre.known@.len(),
        forall|i: int|
            0 <= i < pre.known@.len() ==> post.known@[i]@ == (if pre.peers@[i]@ == src {
                pre.known@[i]@.union(seen)
            } else {
                pre.known@[i]@
            }),
    ensures
        post.model() == apply_event(pre.model(), GrowEvent::Gossip { src, seen }),
{
    let e = GrowEvent::Gossip { src, seen };
    assert(post.model().known =~= apply_event(pre.model(), e).known);
    assert(post.model().peers =~= apply_event(pre.model(), e).peers);
}

/// Monotonicity: over any history of Broadcast and Gossip events, the
/// broadcast set and every knowledge bound only ever grow, and the
/// peer list stands still.
pub proof fn lemma_monotonic(m: NodeModel, es: Seq<GrowEvent>)
    ensures
        m.messages.subset_of(apply_events(m, es).messages),
        apply_events(m, es).known.len() == m.known.len(),
        apply_events(m, es).peers == m.peers,
        forall|i: int|
            0 <= i < m.known.len() ==> m.known[i].subset_of(apply_events(m, es).known[i]),
    decreases es.len(),
{
    if es.len() > 0 {
        let m1 = apply_event(m, es[0]);
        lemma_monotonic(m1, es.drop_first());
        assert forall|i: int| 0 <= i < m.known.len() implies m.known[i].subset_of(
            apply_events(m, es).known[i],
        ) by {
            assert(m.known[i].subset_of(m1.known[i]));
            assert(m1.known[i].subset_of(apply_events(m1, es.drop_first()).known[i]));
        };
    }
}

/// Idempotence: applying the same Broadcast or Gossip event twice in a
/// row leaves exactly the state one application leaves.
pub proof fn lemma_event_idempotent(m: NodeModel, e: GrowEvent)
    ensures
        apply_event(apply_event(m, e), e) == apply_event(m, e),
{
    let m1 = apply_event(m, e);
    let m2 = apply_event(m1, e);
    match e {
        GrowEvent::Broadcast { message } => {
            assert(m2.messages =~= m1.messages);
        },
        GrowEvent::Gossip { src, seen } => {
            assert(m2.messages =~= m1.messages);
            assert forall|i: int| 0 <= i < m1.known.len() implies m2.known[i] == m1.known[i] by {
                if m1.peers.len() == m1.known.len() && m1.peers[i] == src {
                    assert(m2.known[i] =~= m1.known[i]);
                }
            };
            assert(m2.known =~= m1.known);
        },
    }
}

/// No false knowledge: after any history, the knowledge bound for the
/// peer at index `i` holds nothing beyond what it started with and the
/// values that very peer gossiped itself.
pub proof fn lemma_no_false_knowledge(m: NodeModel, es: Seq<GrowEvent>, i: int)
    requires
        0 <= i < m.known.len(),
    ensures
        apply_events(m, es).known[i].subset_of(
            m.known[i].union(received_from(es, m.peers[i])),
        ),
    decreases es.len(),
{
    if es.len() > 0 {
        let m1 = apply_event(m, es[0]);
        lemma_no_false_knowledge(m1, es.drop_first(), i);
        assert(m1.peers == m.peers);
        assert(m1.known.len() == m.known.len());
        match es[0] {
            GrowEvent::Broadcast { .. } => {
                assert(m1.known[i] == m.known[i]);
            },
            GrowEvent::Gossip { src, seen } => {
                if m.peers.len() == m.known.len() && m.peers[i] == src {
                    assert(m1.known[i] == m.known[i].union(seen));
                } else {
                    assert(m1.known[i] == m.known[i]);
                }
            },
        }
    }
}

/// A Read after an acknowledged Broadcast always reports that value:
/// whatever else happened since, the broadcast set still contains it.
pub proof fn lemma_read_reflects_broadcast(m: NodeModel, es: Seq<GrowEvent>, message: usize)
    ensures
        apply_events(apply_event(m, GrowEvent::Broadcast { message }), es).messages.contains(
            message,
        ),
{
    let m1 = apply_event(m, GrowEvent::Broadcast { message });
    lemma_monotonic(m1, es);
}

} // verus!
