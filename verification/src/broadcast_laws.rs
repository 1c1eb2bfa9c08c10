//! What holds of the broadcast deployment across several steps.
//!
//! Merging is idempotent and commutative, so that delivery may repeat and
//! reorder. A value leaves a peer's entry by that peer's acknowledgment and
//! by nothing else, so that every resend pass offers it again until it has
//! arrived. One pass whose whisper and acknowledgment both arrive brings the
//! value to the peer and clears the entry.
use crate::client::{ClientMessageView, ClientPayloadView};
use crate::server::{
    lemma_peers_of, peer_step, request_step, resends, BroadcastState, InterNodeBodyView,
    InterNodeMsgView,
};
use vstd::prelude::*;

verus! {

/// What can happen to a node of the broadcast deployment.
pub enum BroadcastEvent {
    /// A message from a client arrives.
    Request(ClientMessageView),
    /// A message from another node arrives.
    Gossip(InterNodeMsgView),
    /// The interval of the resend pass elapses.
    Resend,
}

/// The state after `event`. A message that the node rejects with a fault
/// leaves the state as it was, and so does a resend pass, which only
/// reads it.
pub open spec fn next(s: BroadcastState, event: BroadcastEvent) -> BroadcastState {
    match event {
        BroadcastEvent::Request(m) => match request_step(s, m) {
            Ok(after) => after,
            Err(_) => s,
        },
        BroadcastEvent::Gossip(m) => match peer_step(s, m) {
            Ok((after, _)) => after,
            Err(_) => s,
        },
        BroadcastEvent::Resend => s,
    }
}

/// The state after the events of `trace`, taken in order.
pub open spec fn after(s: BroadcastState, trace: Seq<BroadcastEvent>) -> BroadcastState
    decreases trace.len(),
{
    if trace.len() == 0 {
        s
    } else {
        next(after(s, trace.drop_last()), trace.last())
    }
}

/// Says whether `event` is an acknowledgment from `peer` that names `value`.
pub open spec fn acknowledges(event: BroadcastEvent, peer: Seq<char>, value: u32) -> bool {
    &&& event matches BroadcastEvent::Gossip(m)
    &&& m.src == peer
    &&& m.body matches InterNodeBodyView::WhisperOk(values)
    &&& values.contains(value)
}

/// Says whether `value` awaits the acknowledgment of `peer` in state `s`.
pub open spec fn awaits(s: BroadcastState, peer: Seq<char>, value: u32) -> bool {
    s.unacked.contains_key(peer) && s.unacked[peer].contains(value)
}

/// The node starts in a well-formed state.
pub proof fn lemma_initial_wf()
    ensures
        BroadcastState::initial().wf(),
{
    assert(BroadcastState::initial().peers.to_set() =~= Set::<Seq<char>>::empty());
}

/// Every event leaves the state well formed: in particular, whatever awaits
/// an acknowledgment is a value that the node knows.
pub proof fn lemma_next_wf(s: BroadcastState, event: BroadcastEvent)
    requires
        s.wf(),
    ensures
        next(s, event).wf(),
{
    match event {
        BroadcastEvent::Request(m) => {
            match m.body {
                ClientPayloadView::Init { node_id, node_ids, .. } => {
                    lemma_peers_of(node_id, node_ids);
                    assert(next(s, event).unacked.dom() =~= next(s, event).peers.to_set());
                },
                _ => {},
            }
        },
        BroadcastEvent::Gossip(m) => {
            match m.body {
                InterNodeBodyView::Whisper(values) => {
                    vstd::seq_lib::seq_to_set_is_finite(values);
                },
                InterNodeBodyView::WhisperOk(values) => {
                    assert(next(s, event).unacked.dom() =~= s.unacked.dom());
                },
            }
        },
        BroadcastEvent::Resend => {},
    }
}

/// Every run of events leaves the state well formed.
pub proof fn lemma_after_wf(s: BroadcastState, trace: Seq<BroadcastEvent>)
    requires
        s.wf(),
    ensures
        after(s, trace).wf(),
    decreases trace.len(),
{
    if trace.len() > 0 {
        lemma_after_wf(s, trace.drop_last());
        lemma_next_wf(after(s, trace.drop_last()), trace.last());
    }
}

/// The set of known values only grows: no event takes a value out of it.
pub proof fn lemma_known_values_stay(s: BroadcastState, event: BroadcastEvent)
    ensures
        s.messages.subset_of(next(s, event).messages),
{
}

/// Over any run of events the node knows at the end what it knew at the
/// start.
pub proof fn lemma_known_values_stay_for_good(s: BroadcastState, trace: Seq<BroadcastEvent>)
    ensures
        s.messages.subset_of(after(s, trace).messages),
    decreases trace.len(),
{
    if trace.len() > 0 {
        lemma_known_values_stay_for_good(s, trace.drop_last());
        lemma_known_values_stay(after(s, trace.drop_last()), trace.last());
    }
}

/// Merging the same values twice yields what merging them once yields.
pub proof fn lemma_merge_idempotent(s: BroadcastState, values: Seq<u32>)
    ensures
        s.merge(values).merge(values) == s.merge(values),
{
    assert(s.merge(values).merge(values).messages =~= s.merge(values).messages);
}

/// The order in which two whispers are merged does not matter.
pub proof fn lemma_merge_commutative(s: BroadcastState, first: Seq<u32>, second: Seq<u32>)
    ensures
        s.merge(first).merge(second) == s.merge(second).merge(first),
{
    assert(s.merge(first).merge(second).messages =~= s.merge(second).merge(first).messages);
}

/// Broadcasting the same value twice yields what broadcasting it once
/// yields, for the known values and for every peer's entry.
pub proof fn lemma_broadcast_idempotent(s: BroadcastState, value: u32)
    ensures
        s.broadcast(value).broadcast(value) == s.broadcast(value),
{
    let once = s.broadcast(value);
    let twice = once.broadcast(value);
    assert(twice.messages =~= once.messages);
    assert forall|p: Seq<char>| once.unacked.contains_key(p) implies twice.unacked[p]
        =~= once.unacked[p] by {}
    assert(twice.unacked =~= once.unacked);
}

/// A message that arrives twice in a row leaves the node where the first
/// arrival left it, whatever the message: a request, a whisper or an
/// acknowledgment.
pub proof fn lemma_redelivery_changes_nothing(s: BroadcastState, event: BroadcastEvent)
    ensures
        next(next(s, event), event) == next(s, event),
{
    let once = next(s, event);
    let twice = next(once, event);
    match event {
        BroadcastEvent::Request(m) => {
            if let ClientPayloadView::Broadcast { message, .. } = m.body {
                lemma_broadcast_idempotent(s, message);
            }
        },
        BroadcastEvent::Gossip(m) => {
            match m.body {
                InterNodeBodyView::Whisper(values) => {
                    lemma_merge_idempotent(s, values);
                },
                InterNodeBodyView::WhisperOk(values) => {
                    if s.unacked.contains_key(m.src) {
                        assert(twice.unacked[m.src] =~= once.unacked[m.src]);
                        assert(twice.unacked =~= once.unacked);
                    }
                },
            }
        },
        BroadcastEvent::Resend => {},
    }
}

/// A value that a client broadcasts is known afterwards and awaits the
/// acknowledgment of every peer.
pub proof fn lemma_broadcast_marks(s: BroadcastState, value: u32, peer: Seq<char>)
    requires
        s.wf(),
        s.peers.contains(peer),
    ensures
        s.broadcast(value).messages.contains(value),
        awaits(s.broadcast(value), peer, value),
{
    assert(s.peers.to_set().contains(peer));
}

/// A value leaves a peer's entry only by an acknowledgment from that peer
/// that names the value. No other message takes it out, and the passing of
/// time takes nothing out.
pub proof fn lemma_only_ack_removes(
    s: BroadcastState,
    event: BroadcastEvent,
    peer: Seq<char>,
    value: u32,
)
    requires
        s.wf(),
        awaits(s, peer, value),
        !awaits(next(s, event), peer, value),
    ensures
        acknowledges(event, peer, value),
{
    assert(s.peers.to_set().contains(peer));
}

/// Over any run of events: a value that awaited a peer's acknowledgment
/// and no longer does was named in an acknowledgment from that peer.
pub proof fn lemma_removed_was_acknowledged(
    s: BroadcastState,
    trace: Seq<BroadcastEvent>,
    peer: Seq<char>,
    value: u32,
)
    requires
        s.wf(),
        awaits(s, peer, value),
        !awaits(after(s, trace), peer, value),
    ensures
        exists|i: int| 0 <= i < trace.len() && acknowledges(#[trigger] trace[i], peer, value),
    decreases trace.len(),
{
    if trace.len() > 0 {
        let earlier = trace.drop_last();
        if awaits(after(s, earlier), peer, value) {
            lemma_after_wf(s, earlier);
            lemma_only_ack_removes(after(s, earlier), trace.last(), peer, value);
            assert(acknowledges(trace[trace.len() - 1], peer, value));
        } else {
            lemma_removed_was_acknowledged(s, earlier, peer, value);
            let i = choose|i: int|
                0 <= i < earlier.len() && acknowledges(#[trigger] earlier[i], peer, value);
            assert(trace[i] == earlier[i]);
        }
    }
}

/// Whatever awaits a peer's acknowledgment is offered to that peer by every
/// resend pass.
pub proof fn lemma_resend_offers(
    s: BroadcastState,
    out: Seq<InterNodeMsgView>,
    peer: Seq<char>,
    value: u32,
)
    requires
        s.wf(),
        resends(s, out),
        awaits(s, peer, value),
    ensures
        exists|k: int|
            {
                &&& 0 <= k < out.len()
                &&& (#[trigger] out[k]).dest == peer
                &&& Some(out[k].src) == s.node_id
                &&& out[k].body matches InterNodeBodyView::Whisper(list)
                &&& list.contains(value)
            },
{
    let waiting = |p: Seq<char>| !s.unacked[p].is_empty();
    assert(s.peers.to_set().contains(peer));
    assert(s.peers.contains(peer));
    assert(waiting(peer));
    s.peers.lemma_filter_contains_rev(waiting, peer);
    let k = choose|k: int| 0 <= k < s.due().len() && s.due()[k] == peer;
    assert(out[k].dest == peer);
    match out[k].body {
        InterNodeBodyView::Whisper(list) => {
            assert(list.to_set().contains(value));
        },
        _ => {},
    }
}

/// One round that succeeds. Node `a` holds a value that awaits the
/// acknowledgment of its peer; a resend pass of `a` emits `out`; the whisper
/// in it that is addressed to the peer reaches `b`, the node of that
/// address; `b`'s reply reaches `a`. Then `b` knows the value, and at `a`
/// it no longer awaits the peer's acknowledgment.
pub proof fn lemma_round_delivers(
    a: BroadcastState,
    b: BroadcastState,
    out: Seq<InterNodeMsgView>,
    k: int,
    value: u32,
)
    requires
        a.wf(),
        b.wf(),
        resends(a, out),
        0 <= k < out.len(),
        b.node_id == Some(out[k].dest),
        awaits(a, out[k].dest, value),
    ensures
        peer_step(b, out[k]) matches Ok((b_after, Some(reply))) && {
            &&& b_after.messages.contains(value)
            &&& Some(reply.dest) == a.node_id
            &&& peer_step(a, reply) matches Ok((a_after, None)) && {
                &&& !awaits(a_after, out[k].dest, value)
                &&& a_after.messages == a.messages
            }
        },
{
    let peer = out[k].dest;
    match out[k].body {
        InterNodeBodyView::Whisper(list) => {
            assert(a.unacked[a.due()[k]] == a.unacked[peer]);
            assert(list.to_set().contains(value));
        },
        _ => {},
    }
}

} // verus!
