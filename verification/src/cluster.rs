//! Several nodes of the broadcast deployment and the network between them.
//!
//! The network may lose a message, deliver it late, deliver it twice, or
//! deliver messages in another order than they were sent. It is modelled by
//! the set of the messages that the nodes have emitted so far: any of them
//! may be delivered at any time, any number of times, or never.
//!
//! On that model the module proves what makes the set of every node
//! converge. A value that awaits a peer's acknowledgment keeps awaiting it
//! until the peer holds the value; while it awaits, every resend pass offers
//! it to the peer; and one offer that arrives is enough, because a value
//! that a node holds stays with it.
use crate::broadcast_laws::{
    awaits, lemma_next_wf, lemma_only_ack_removes, lemma_resend_offers, next, BroadcastEvent,
};
use crate::client::{ClientMessageView, ClientPayloadView};
use crate::server::{peer_step, resends, BroadcastState, InterNodeBodyView, InterNodeMsgView};
use vstd::prelude::*;

verus! {

/// The nodes of a cluster and what they have sent to one another.
pub struct Cluster {
    /// The state of each node, by the node's address.
    pub nodes: Map<Seq<char>, BroadcastState>,
    /// Every message that a node has emitted so far.
    pub sent: Set<InterNodeMsgView>,
}

/// What can happen in a cluster.
pub enum ClusterEvent {
    /// A client's message arrives at `node`.
    Request { node: Seq<char>, request: ClientMessageView },
    /// `node` runs a resend pass, which emits `out`.
    Resend { node: Seq<char>, out: Seq<InterNodeMsgView> },
    /// The network delivers `message` to the node it is addressed to.
    Deliver { message: InterNodeMsgView },
}

/// Says whether the node at `node` holds `value`.
pub open spec fn holds(c: Cluster, node: Seq<char>, value: u32) -> bool {
    c.nodes.contains_key(node) && c.nodes[node].messages.contains(value)
}

/// Says whether `event` can happen in `c`: a client's message reaches a
/// node of the cluster, and an `init` gives a node the address under which
/// the cluster knows it; a resend pass emits what the node's state allows;
/// the network delivers what was sent, to a node of the cluster.
pub open spec fn enabled(c: Cluster, event: ClusterEvent) -> bool {
    match event {
        ClusterEvent::Request { node, request } => {
            &&& c.nodes.contains_key(node)
            &&& request.body matches ClientPayloadView::Init { node_id, .. } ==> node_id == node
        },
        ClusterEvent::Resend { node, out } => {
            &&& c.nodes.contains_key(node)
            &&& resends(c.nodes[node], out)
        },
        ClusterEvent::Deliver { message } => {
            &&& c.sent.contains(message)
            &&& c.nodes.contains_key(message.dest)
        },
    }
}

/// The cluster after `event`. An event that cannot happen changes nothing.
pub open spec fn cluster_next(c: Cluster, event: ClusterEvent) -> Cluster {
    if !enabled(c, event) {
        c
    } else {
        match event {
            ClusterEvent::Request { node, request } => Cluster {
                nodes: c.nodes.insert(node, next(c.nodes[node], BroadcastEvent::Request(request))),
                ..c
            },
            ClusterEvent::Resend { node, out } => Cluster { sent: c.sent.union(out.to_set()), ..c },
            ClusterEvent::Deliver { message } => match peer_step(c.nodes[message.dest], message) {
                Ok((state, reply)) => Cluster {
                    nodes: c.nodes.insert(message.dest, state),
                    sent: match reply {
                        Some(reply) => c.sent.insert(reply),
                        None => c.sent,
                    },
                },
                Err(_) => c,
            },
        }
    }
}

/// The cluster after the events of `trace`, taken in order.
pub open spec fn cluster_after(c: Cluster, trace: Seq<ClusterEvent>) -> Cluster
    decreases trace.len(),
{
    if trace.len() == 0 {
        c
    } else {
        cluster_next(cluster_after(c, trace.drop_last()), trace.last())
    }
}

/// What holds of a cluster at every time: each node's state is well formed,
/// a node that has an address has the one under which the cluster knows it,
/// and a node has acknowledged only values that it holds.
pub open spec fn consistent(c: Cluster) -> bool {
    &&& forall|n: Seq<char>| #[trigger]
        c.nodes.contains_key(n) ==> {
            &&& c.nodes[n].wf()
            &&& c.nodes[n].node_id matches Some(id) ==> id == n
        }
    &&& forall|m: InterNodeMsgView| #[trigger]
        c.sent.contains(m) ==> (m.body matches InterNodeBodyView::WhisperOk(values) ==> forall|
            v: u32,
        |
            values.contains(v) ==> holds(c, m.src, v))
}

/// A value that a node holds stays with it, whatever happens.
pub proof fn lemma_held_stays(c: Cluster, event: ClusterEvent, node: Seq<char>, value: u32)
    requires
        holds(c, node, value),
    ensures
        holds(cluster_next(c, event), node, value),
{
}

/// A value that a node holds stays with it over any run of events.
pub proof fn lemma_held_for_good(c: Cluster, trace: Seq<ClusterEvent>, node: Seq<char>, value: u32)
    requires
        holds(c, node, value),
    ensures
        holds(cluster_after(c, trace), node, value),
    decreases trace.len(),
{
    if trace.len() > 0 {
        lemma_held_for_good(c, trace.drop_last(), node, value);
        lemma_held_stays(cluster_after(c, trace.drop_last()), trace.last(), node, value);
    }
}

/// Every event leaves the cluster consistent.
pub proof fn lemma_next_consistent(c: Cluster, event: ClusterEvent)
    requires
        consistent(c),
    ensures
        consistent(cluster_next(c, event)),
{
    let after = cluster_next(c, event);
    if enabled(c, event) {
        match event {
            ClusterEvent::Request { node, request } => {
                lemma_next_wf(c.nodes[node], BroadcastEvent::Request(request));
            },
            ClusterEvent::Resend { node, out } => {
                assert forall|m: InterNodeMsgView| #[trigger] after.sent.contains(m) implies (m.body
                    matches InterNodeBodyView::WhisperOk(values) ==> forall|v: u32|
                    values.contains(v) ==> holds(after, m.src, v)) by {
                    if out.to_set().contains(m) {
                        let k = choose|k: int| 0 <= k < out.len() && out[k] == m;
                        assert(out[k].body is Whisper);
                    } else {
                        assert(c.sent.contains(m));
                    }
                }
            },
            ClusterEvent::Deliver { message } => {
                lemma_next_wf(c.nodes[message.dest], BroadcastEvent::Gossip(message));
                assert forall|m: InterNodeMsgView| #[trigger] after.sent.contains(m) implies (m.body
                    matches InterNodeBodyView::WhisperOk(values) ==> forall|v: u32|
                    values.contains(v) ==> holds(after, m.src, v)) by {
                    if let InterNodeBodyView::WhisperOk(values) = m.body {
                        assert forall|v: u32| values.contains(v) implies holds(after, m.src, v) by {
                            if c.sent.contains(m) {
                                lemma_held_stays(c, event, m.src, v);
                            } else {
                                assert(values.to_set().contains(v));
                            }
                        }
                    }
                }
            },
        }
    }
}

/// Every run of events leaves the cluster consistent.
pub proof fn lemma_after_consistent(c: Cluster, trace: Seq<ClusterEvent>)
    requires
        consistent(c),
    ensures
        consistent(cluster_after(c, trace)),
    decreases trace.len(),
{
    if trace.len() > 0 {
        lemma_after_consistent(c, trace.drop_last());
        lemma_next_consistent(cluster_after(c, trace.drop_last()), trace.last());
    }
}

/// A value that awaits a peer's acknowledgment keeps awaiting it until the
/// peer holds the value: no event takes it out of the entry of a peer that
/// does not hold it.
pub proof fn lemma_awaited_or_held_step(
    c: Cluster,
    event: ClusterEvent,
    node: Seq<char>,
    peer: Seq<char>,
    value: u32,
)
    requires
        consistent(c),
        c.nodes.contains_key(node),
        awaits(c.nodes[node], peer, value) || holds(c, peer, value),
    ensures
        awaits(cluster_next(c, event).nodes[node], peer, value) || holds(
            cluster_next(c, event),
            peer,
            value,
        ),
{
    let after = cluster_next(c, event);
    if holds(c, peer, value) {
        lemma_held_stays(c, event, peer, value);
    } else if enabled(c, event) && !awaits(after.nodes[node], peer, value) {
        match event {
            ClusterEvent::Request { node: at, request } => {
                if at == node {
                    lemma_only_ack_removes(
                        c.nodes[node],
                        BroadcastEvent::Request(request),
                        peer,
                        value,
                    );
                }
            },
            ClusterEvent::Resend { .. } => {},
            ClusterEvent::Deliver { message } => {
                if message.dest == node {
                    lemma_only_ack_removes(
                        c.nodes[node],
                        BroadcastEvent::Gossip(message),
                        peer,
                        value,
                    );
                    assert(c.sent.contains(message));
                    lemma_held_stays(c, event, peer, value);
                }
            },
        }
    }
}

/// Over any run of events, a value that awaited a peer's acknowledgment
/// still awaits it or is held by the peer.
pub proof fn lemma_awaited_or_held(
    c: Cluster,
    trace: Seq<ClusterEvent>,
    node: Seq<char>,
    peer: Seq<char>,
    value: u32,
)
    requires
        consistent(c),
        c.nodes.contains_key(node),
        awaits(c.nodes[node], peer, value) || holds(c, peer, value),
    ensures
        cluster_after(c, trace).nodes.contains_key(node),
        awaits(cluster_after(c, trace).nodes[node], peer, value) || holds(
            cluster_after(c, trace),
            peer,
            value,
        ),
    decreases trace.len(),
{
    if trace.len() > 0 {
        lemma_awaited_or_held(c, trace.drop_last(), node, peer, value);
        lemma_after_consistent(c, trace.drop_last());
        lemma_awaited_or_held_step(
            cluster_after(c, trace.drop_last()),
            trace.last(),
            node,
            peer,
            value,
        );
    }
}

/// While a value awaits a peer's acknowledgment, a resend pass puts a
/// whisper on the network that is addressed to the peer and names the value.
pub proof fn lemma_pass_offers(
    c: Cluster,
    node: Seq<char>,
    out: Seq<InterNodeMsgView>,
    peer: Seq<char>,
    value: u32,
)
    requires
        consistent(c),
        enabled(c, ClusterEvent::Resend { node, out }),
        awaits(c.nodes[node], peer, value),
    ensures
        exists|m: InterNodeMsgView|
            {
                &&& #[trigger] cluster_next(c, ClusterEvent::Resend { node, out }).sent.contains(m)
                &&& m.src == node
                &&& m.dest == peer
                &&& m.body matches InterNodeBodyView::Whisper(values)
                &&& values.contains(value)
            },
{
    lemma_resend_offers(c.nodes[node], out, peer, value);
    let k = choose|k: int|
        {
            &&& 0 <= k < out.len()
            &&& (#[trigger] out[k]).dest == peer
            &&& Some(out[k].src) == c.nodes[node].node_id
            &&& out[k].body matches InterNodeBodyView::Whisper(list)
            &&& list.contains(value)
        };
    assert(out.to_set().contains(out[k]));
    assert(cluster_next(c, ClusterEvent::Resend { node, out }).sent.contains(out[k]));
}

/// One offer that arrives is enough. If the network delivers a whisper that
/// names a value to a node that has its address, the node holds the value
/// from then on.
pub proof fn lemma_delivery_brings(c: Cluster, message: InterNodeMsgView, value: u32)
    requires
        enabled(c, ClusterEvent::Deliver { message }),
        c.nodes[message.dest].node_id is Some,
        message.body matches InterNodeBodyView::Whisper(values) && values.contains(value),
    ensures
        holds(cluster_next(c, ClusterEvent::Deliver { message }), message.dest, value),
{
    match message.body {
        InterNodeBodyView::Whisper(values) => {
            assert(values.to_set().contains(value));
        },
        _ => {},
    }
}

/// Convergence. Take any run of events. If at some point of it the network
/// delivers a whisper that names a value to a node that has its address,
/// that node holds the value at the end of the run, whatever was lost,
/// repeated or reordered before and after.
pub proof fn lemma_converges(
    c: Cluster,
    trace: Seq<ClusterEvent>,
    at: int,
    message: InterNodeMsgView,
    value: u32,
)
    requires
        0 <= at < trace.len(),
        trace[at] == (ClusterEvent::Deliver { message }),
        enabled(cluster_after(c, trace.take(at)), trace[at]),
        cluster_after(c, trace.take(at)).nodes[message.dest].node_id is Some,
        message.body matches InterNodeBodyView::Whisper(values) && values.contains(value),
    ensures
        holds(cluster_after(c, trace), message.dest, value),
    decreases trace.len(),
{
    if at == trace.len() - 1 {
        assert(trace.take(at) =~= trace.drop_last());
        lemma_delivery_brings(cluster_after(c, trace.drop_last()), message, value);
    } else {
        assert(trace.drop_last().take(at) =~= trace.take(at));
        lemma_converges(c, trace.drop_last(), at, message, value);
        lemma_held_stays(
            cluster_after(c, trace.drop_last()),
            trace.last(),
            message.dest,
            value,
        );
    }
}

} // verus!
