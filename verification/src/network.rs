use vstd::prelude::*;

verus! {

/// One node of the abstract gossip network: its broadcast set and its
/// knowledge bound per node index.
pub struct NetNode {
    pub messages: Set<usize>,
    pub known: Seq<Set<usize>>,
}

/// A whole network: one node per index and a static topology, where
/// `topo[j]` holds the indexes node `j` gossips to.
pub struct Net {
    pub nodes: Seq<NetNode>,
    pub topo: Seq<Set<int>>,
}

/// Shape: one topology entry and one knowledge row per node, and every
/// topology target in range.
pub open spec fn wf(net: Net) -> bool {
    &&& net.topo.len() == net.nodes.len()
    &&& forall|i: int|
        0 <= i < net.nodes.len() ==> (#[trigger] net.nodes[i].known).len() == net.nodes.len()
    &&& forall|j: int, i: int|
        0 <= j < net.nodes.len() && (#[trigger] net.topo[j].contains(i)) ==> 0 <= i
            < net.nodes.len()
}

/// Node `j` gossips to node `i`.
pub open spec fn edge(net: Net, j: int, i: int) -> bool {
    0 <= j < net.nodes.len() && net.topo[j].contains(i)
}

/// What `j` sends `i` in a round with the redundancy sampling
/// disabled: exactly the values `j` holds and does not believe `i` to
/// know — the part of a gossip report the exec disseminator always
/// includes.
pub open spec fn payload(net: Net, j: int, i: int) -> Set<usize> {
    net.nodes[j].messages.difference(net.nodes[j].known[i])
}

/// One synchronous gossip round: every node sends its payload along
/// every outgoing edge and every payload is delivered; a receiver
/// unions what it got into its broadcast set and into its knowledge
/// bound for the sender, as the exec receiver does.
pub open spec fn round(net: Net) -> Net {
    Net {
        nodes: Seq::new(
            net.nodes.len(),
            |i: int|
                NetNode {
                    messages: net.nodes[i].messages.union(
                        Set::new(
                            |v: usize|
                                exists|j: int|
                                    #[trigger] edge(net, j, i) && payload(net, j, i).contains(v),
                        ),
                    ),
                    known: Seq::new(
                        net.nodes[i].known.len(),
                        |j: int|
                            if edge(net, j, i) {
                                net.nodes[i].known[j].union(payload(net, j, i))
                            } else {
                                net.nodes[i].known[j]
                            },
                    ),
                },
        ),
        topo: net.topo,
    }
}

/// `k` rounds in a row.
pub open spec fn rounds(net: Net, k: nat) -> Net
    decreases k,
{
    if k == 0 {
        net
    } else {
        rounds(round(net), (k - 1) as nat)
    }
}

/// The safety invariant: a knowledge bound never over-reports — what
/// `i` believes `j` to know, `j` really holds.
pub open spec fn inv(net: Net) -> bool {
    &&& wf(net)
    &&& forall|i: int, j: int|
        0 <= i < net.nodes.len() && 0 <= j < net.nodes.len() ==> (
        #[trigger] net.nodes[i].known[j]).subset_of(net.nodes[j].messages)
}

/// Every value anyone holds, anywhere in the network.
pub open spec fn union_all(net: Net) -> Set<usize> {
    Set::new(
        |v: usize|
            exists|i: int|
                0 <= i < net.nodes.len() && (#[trigger] net.nodes[i].messages).contains(v),
    )
}

/// A walk through the gossip graph along existing edges.
pub open spec fn is_path(net: Net, p: Seq<int>) -> bool {
    &&& p.len() >= 1
    &&& forall|k: int| 0 <= k < p.len() ==> 0 <= #[trigger] p[k] < net.nodes.len()
    &&& forall|k: int| 0 <= k < p.len() - 1 ==> edge(net, #[trigger] p[k], p[k + 1])
}

/// The executable counterpart of delivery across one edge, in the
/// terms the node's own contracts use. A tick at the sender promises
/// `a_msgs.difference(a_known_b).subset_of(seen)` — whatever the
/// randomized redundancy adds — and the receiver merges by union; as
/// long as the sender's knowledge bound never over-reports
/// (`a_known_b.subset_of(b_msgs)`), one exchange hands the receiver
/// everything the sender held.
pub proof fn lemma_exchange_delivers(
    a_msgs: Set<usize>,
    a_known_b: Set<usize>,
    b_msgs: Set<usize>,
    seen: Set<usize>,
)
    requires
        a_msgs.difference(a_known_b).subset_of(seen),
        a_known_b.subset_of(b_msgs),
    ensures
        a_msgs.subset_of(b_msgs.union(seen)),
{
}

/// A round changes neither the node count nor the topology.
pub proof fn lemma_round_shape(net: Net)
    ensures
        round(net).nodes.len() == net.nodes.len(),
        round(net).topo == net.topo,
        forall|j: int, i: int| edge(round(net), j, i) <==> edge(net, j, i),
{
}

/// A round preserves the invariant.
pub proof fn lemma_round_inv(net: Net)
    requires
        inv(net),
    ensures
        inv(round(net)),
{
    let r = round(net);
    assert forall|i: int, j: int|
        0 <= i < r.nodes.len() && 0 <= j < r.nodes.len() implies (
    #[trigger] r.nodes[i].known[j]).subset_of(r.nodes[j].messages) by {
        if edge(net, j, i) {
            assert(net.nodes[i].known[j].subset_of(net.nodes[j].messages));
            assert(net.nodes[j].messages.subset_of(r.nodes[j].messages));
            assert(payload(net, j, i).subset_of(net.nodes[j].messages));
        }
    };
}

/// A round only grows every broadcast set and every knowledge bound.
pub proof fn lemma_round_monotone(net: Net, i: int)
    requires
        wf(net),
        0 <= i < net.nodes.len(),
    ensures
        net.nodes[i].messages.subset_of(round(net).nodes[i].messages),
        forall|j: int|
            0 <= j < net.nodes.len() ==> (#[trigger] net.nodes[i].known[j]).subset_of(
                round(net).nodes[i].known[j],
            ),
{
}

/// Delivery across one edge: after a round, the receiver holds
/// everything the sender held. What the sender did not transmit, it
/// rightly believed the receiver to know already.
pub proof fn lemma_round_edge(net: Net, j: int, i: int)
    requires
        inv(net),
        edge(net, j, i),
        0 <= i < net.nodes.len(),
    ensures
        net.nodes[j].messages.subset_of(round(net).nodes[i].messages),
{
    let r = round(net);
    assert forall|v: usize| net.nodes[j].messages.contains(v) implies r.nodes[i].messages.contains(
        v,
    ) by {
        if net.nodes[j].known[i].contains(v) {
            assert(net.nodes[i].messages.contains(v));
        } else {
            assert(payload(net, j, i).contains(v));
            assert(edge(net, j, i) && payload(net, j, i).contains(v));
        }
    };
}

/// Running rounds preserves the invariant.
pub proof fn lemma_rounds_inv(net: Net, k: nat)
    requires
        inv(net),
    ensures
        inv(rounds(net, k)),
        rounds(net, k).nodes.len() == net.nodes.len(),
        rounds(net, k).topo == net.topo,
    decreases k,
{
    if k > 0 {
        lemma_round_inv(net);
        lemma_rounds_inv(round(net), (k - 1) as nat);
    }
}

/// Rounds compose: one more round after `k` is `k` rounds after one.
pub proof fn lemma_rounds_succ(net: Net, k: nat)
    ensures
        rounds(net, k + 1) == round(rounds(net, k)),
    decreases k,
{
    assert(rounds(net, k + 1) == rounds(round(net), k));
    if k > 0 {
        assert(rounds(net, k) == rounds(round(net), (k - 1) as nat));
        lemma_rounds_succ(round(net), (k - 1) as nat);
    }
}

/// What a node holds after `m` rounds it still holds after `k >= m`.
pub proof fn lemma_rounds_monotone(net: Net, m: nat, k: nat, i: int)
    requires
        inv(net),
        m <= k,
        0 <= i < net.nodes.len(),
    ensures
        rounds(net, m).nodes[i].messages.subset_of(rounds(net, k).nodes[i].messages),
    decreases k - m,
{
    if m < k {
        lemma_rounds_inv(net, m);
        lemma_round_monotone(rounds(net, m), i);
        lemma_rounds_succ(net, m);
        lemma_rounds_monotone(net, m + 1, k, i);
    }
}

/// Guaranteed delivery along a path: after as many rounds as the path
/// has edges, its last node holds everything its first node held at
/// the start — carried by the always-resend rule alone.
pub proof fn lemma_delivery_along_path(net: Net, p: Seq<int>)
    requires
        inv(net),
        is_path(net, p),
    ensures
        net.nodes[p[0]].messages.subset_of(
            rounds(net, (p.len() - 1) as nat).nodes[p.last()].messages,
        ),
    decreases p.len(),
{
    if p.len() == 1 {
    } else {
        let r = round(net);
        lemma_round_edge(net, p[0], p[1]);
        lemma_round_inv(net);
        lemma_round_shape(net);
        let q = p.drop_first();
        assert(is_path(r, q)) by {
            assert forall|k: int| 0 <= k < q.len() implies 0 <= #[trigger] q[k]
                < r.nodes.len() by {
                assert(q[k] == p[k + 1]);
            };
            assert forall|k: int| 0 <= k < q.len() - 1 implies edge(r, #[trigger] q[k], q[k + 1]) by {
                assert(q[k] == p[k + 1] && q[k + 1] == p[k + 2]);
                assert(edge(net, p[k + 1], p[k + 2]));
            };
        };
        lemma_delivery_along_path(r, q);
        assert(q[0] == p[1] && q.last() == p.last());
        lemma_rounds_inv(r, (q.len() - 1) as nat);
        assert(rounds(net, (p.len() - 1) as nat) == rounds(r, (q.len() - 1) as nat));
        assert forall|v: usize| net.nodes[p[0]].messages.contains(v) implies rounds(
            net,
            (p.len() - 1) as nat,
        ).nodes[p.last()].messages.contains(v) by {
            assert(r.nodes[p[1]].messages.contains(v));
            assert(rounds(r, (q.len() - 1) as nat).nodes[q.last()].messages.contains(v));
        };
    }
}

/// No round invents a value: the network-wide union stands still.
pub proof fn lemma_round_preserves_union(net: Net)
    requires
        wf(net),
    ensures
        union_all(round(net)) == union_all(net),
{
    let r = round(net);
    assert forall|v: usize| union_all(r).contains(v) implies union_all(net).contains(v) by {
        let i = choose|i: int| 0 <= i < r.nodes.len() && (#[trigger] r.nodes[i].messages).contains(
            v,
        );
        if net.nodes[i].messages.contains(v) {
        } else {
            let j = choose|j: int| #[trigger] edge(net, j, i) && payload(net, j, i).contains(v);
            assert(net.nodes[j].messages.contains(v));
        }
    };
    assert forall|v: usize| union_all(net).contains(v) implies union_all(r).contains(v) by {
        let i = choose|i: int|
            0 <= i < net.nodes.len() && (#[trigger] net.nodes[i].messages).contains(v);
        assert(r.nodes[i].messages.contains(v));
    };
    assert(union_all(round(net)) =~= union_all(net));
}

/// The union stands still over any number of rounds.
pub proof fn lemma_rounds_preserve_union(net: Net, k: nat)
    requires
        inv(net),
    ensures
        union_all(rounds(net, k)) == union_all(net),
    decreases k,
{
    if k > 0 {
        lemma_round_preserves_union(net);
        lemma_round_inv(net);
        lemma_rounds_preserve_union(round(net), (k - 1) as nat);
    }
}

/// Convergence: when every node reaches every node by a path of at
/// most `k` edges, then after `k` rounds every node's broadcast set is
/// exactly the union of everything initially held anywhere — all
/// injected values delivered everywhere, and nothing invented.
pub proof fn lemma_convergence(net: Net, k: nat)
    requires
        inv(net),
        forall|a: int, b: int| #![trigger net.nodes[a], net.nodes[b]]
            0 <= a < net.nodes.len() && 0 <= b < net.nodes.len() ==> exists|p: Seq<int>|
                #[trigger] is_path(net, p) && p[0] == a && p.last() == b && p.len() <= k + 1,
    ensures
        forall|i: int|
            0 <= i < net.nodes.len() ==> (#[trigger] rounds(net, k).nodes[i].messages)
                == union_all(net),
{
    lemma_rounds_preserve_union(net, k);
    lemma_rounds_inv(net, k);
    assert forall|i: int| 0 <= i < net.nodes.len() implies (
    #[trigger] rounds(net, k).nodes[i].messages) == union_all(net) by {
        assert forall|v: usize| rounds(net, k).nodes[i].messages.contains(v) implies union_all(
            net,
        ).contains(v) by {
            assert(0 <= i < rounds(net, k).nodes.len() && (#[trigger] rounds(
                net,
                k,
            ).nodes[i].messages).contains(v));
            assert(union_all(rounds(net, k)).contains(v));
        };
        assert forall|v: usize| union_all(net).contains(v) implies rounds(
            net,
            k,
        ).nodes[i].messages.contains(v) by {
            let a = choose|a: int|
                0 <= a < net.nodes.len() && (#[trigger] net.nodes[a].messages).contains(v);
            let ni = net.nodes[i];
            let nb = net.nodes[a];
            assert(exists|p: Seq<int>|
                #[trigger] is_path(net, p) && p[0] == a && p.last() == i && p.len() <= k + 1);
            let p = choose|p: Seq<int>|
                #[trigger] is_path(net, p) && p[0] == a && p.last() == i && p.len() <= k + 1;
            lemma_delivery_along_path(net, p);
            lemma_rounds_monotone(net, (p.len() - 1) as nat, k, i);
        };
        assert(rounds(net, k).nodes[i].messages =~= union_all(net));
    };
}

} // verus!
