//! What holds of the counter deployment over whole runs.
//!
//! The handlers say what one message does. The statements here follow a
//! state through any sequence of inbound messages: the last confirmed value
//! never falls, and the deltas that clients handed in are neither lost nor
//! counted twice on the way to the store, however often the compare-and-set
//! has to be retried.
use crate::client::{on_add, ClientPayloadView};
use crate::fault::Fault;
use crate::pending::{lemma_sum_insert, lemma_sum_remove, lemma_sum_singleton, pending_sum};
use crate::service::{cas_request, on_ack, on_read_ok, ServicePayloadView};
use crate::{step, CounterState, MsgView};
use vstd::prelude::*;

verus! {

/// The state after the inbound messages of `trace`, taken in order, or the
/// first fault on the way.
pub open spec fn run(s: CounterState, trace: Seq<MsgView>) -> Result<CounterState, Fault>
    decreases trace.len(),
{
    if trace.len() == 0 {
        Ok(s)
    } else {
        match run(s, trace.drop_last()) {
            Ok(before) => match step(before, trace.last()) {
                Ok((after, _)) => Ok(after),
                Err(fault) => Err(fault),
            },
            Err(fault) => Err(fault),
        }
    }
}

/// Says whether `m` is the store's acknowledgment of a write or of a
/// compare-and-set.
pub open spec fn is_ack(m: MsgView) -> bool {
    m matches MsgView::Service(m) && (m.body is WriteOk || m.body is CasOk)
}

/// The delta that `m` hands in, if it is a client's `add`, and zero
/// otherwise.
pub open spec fn delta_of(m: MsgView) -> nat {
    match m {
        MsgView::Client(m) => match m.body {
            ClientPayloadView::Add { delta, .. } => delta as nat,
            _ => 0,
        },
        MsgView::Service(_) => 0,
    }
}

/// The sum of the deltas that the `add` requests of `trace` hand in.
pub open spec fn added(trace: Seq<MsgView>) -> nat
    decreases trace.len(),
{
    if trace.len() == 0 {
        0
    } else {
        added(trace.drop_last()) + delta_of(trace.last())
    }
}

/// The delta that `m` confirms in state `s`: what is pending under the id
/// that `m` acknowledges, and zero if `m` acknowledges nothing pending.
pub open spec fn confirmed_by(s: CounterState, m: MsgView) -> nat {
    match m {
        MsgView::Service(m) => match m.body {
            ServicePayloadView::WriteOk { in_reply_to } | ServicePayloadView::CasOk {
                in_reply_to,
            } => if s.pending.contains_key(in_reply_to) {
                s.pending[in_reply_to] as nat
            } else {
                0
            },
            _ => 0,
        },
        MsgView::Client(_) => 0,
    }
}

/// The sum of the deltas that the acknowledgments of `trace` confirm, each
/// taken in the state in which it arrives.
pub open spec fn confirmed(s: CounterState, trace: Seq<MsgView>) -> nat
    decreases trace.len(),
{
    if trace.len() == 0 {
        0
    } else {
        confirmed(s, trace.drop_last()) + match run(s, trace.drop_last()) {
            Ok(before) => confirmed_by(before, trace.last()),
            Err(_) => 0,
        }
    }
}

/// Says whether `m` is the store's answer to a read.
pub open spec fn is_read_ok(m: MsgView) -> bool {
    m matches MsgView::Service(m) && m.body is ReadOk
}

/// The node starts in a state whose pending ids it has handed out.
pub proof fn lemma_initial_wf()
    ensures
        CounterState::initial().wf(),
{
}

/// Every message leaves the ids of the pending deltas among those handed
/// out.
pub proof fn lemma_step_wf(s: CounterState, m: MsgView)
    requires
        s.wf(),
    ensures
        step(s, m) matches Ok((after, _)) ==> after.wf(),
{
}

/// The last confirmed value never falls: no message that the node accepts
/// lowers it.
pub proof fn lemma_step_monotone(s: CounterState, m: MsgView)
    ensures
        step(s, m) matches Ok((after, _)) ==> s.last_confirmed <= after.last_confirmed,
{
}

/// The last confirmed value never falls over the node's lifetime.
pub proof fn lemma_run_monotone(s: CounterState, trace: Seq<MsgView>)
    ensures
        run(s, trace) matches Ok(after) ==> s.last_confirmed <= after.last_confirmed,
    decreases trace.len(),
{
    if trace.len() > 0 {
        lemma_run_monotone(s, trace.drop_last());
        if let Ok(before) = run(s, trace.drop_last()) {
            lemma_step_monotone(before, trace.last());
        }
    }
}

/// A value from the store that lies below the last confirmed one is never
/// taken over: the node faults and keeps its state.
pub proof fn lemma_regression_faults(s: CounterState, value: u32)
    requires
        s.node_id is Some,
        value < s.last_confirmed,
    ensures
        on_read_ok(s, value) == Err::<(CounterState, Seq<MsgView>), Fault>(Fault::CounterRegressed),
{
}

/// An accepted `add` raises the node's total by its delta and leaves the
/// last confirmed value alone.
pub proof fn lemma_add_total(s: CounterState, client: Seq<char>, msg_id: u32, delta: u32)
    requires
        s.wf(),
    ensures
        on_add(s, client, msg_id, delta) matches Ok((after, _)) ==> {
            &&& after.total() == s.total() + delta
            &&& after.last_confirmed == s.last_confirmed
        },
{
    if s.msg_id < u32::MAX {
        lemma_sum_insert(s.pending, (s.msg_id + 1) as u32, delta);
    }
}

/// An acknowledgment moves a delta from the pending ones to the confirmed
/// value: the node's total stays what it was.
pub proof fn lemma_ack_total(s: CounterState, in_reply_to: u32)
    requires
        s.wf(),
    ensures
        on_ack(s, in_reply_to) matches Ok((after, _)) ==> after.total() == s.total(),
{
    if s.pending.contains_key(in_reply_to) {
        lemma_sum_remove(s.pending, in_reply_to);
    }
}

/// A value read from the store replaces the last confirmed one and leaves
/// the sum of the pending deltas what it was, whether it folds them into one
/// entry or finds none.
pub proof fn lemma_read_ok_keeps_pending(s: CounterState, value: u32)
    requires
        s.wf(),
    ensures
        on_read_ok(s, value) matches Ok((after, _)) ==> {
            &&& after.last_confirmed == value
            &&& pending_sum(after.pending) == pending_sum(s.pending)
        },
{
    if s.pending.is_empty() {
        assert(s.pending.dom().len() == 0);
    } else if pending_sum(s.pending) <= u32::MAX && s.msg_id < u32::MAX {
        lemma_sum_singleton((s.msg_id + 1) as u32, pending_sum(s.pending) as u32);
    }
}

/// After the store's answer to a read at most one request of this node is
/// left whose acknowledgment confirms anything: the one that the answer
/// made the node send.
pub proof fn lemma_read_ok_leaves_one(s: CounterState, value: u32)
    requires
        s.wf(),
    ensures
        on_read_ok(s, value) matches Ok((after, out)) ==> {
            &&& after.pending.dom().len() == out.len()
            &&& out.len() <= 1
            &&& forall|id: u32| after.pending.contains_key(id) ==> id == after.msg_id
        },
{
    if !s.pending.is_empty() && s.msg_id < u32::MAX {
        let id = (s.msg_id + 1) as u32;
        let sum = pending_sum(s.pending) as u32;
        assert(Map::<u32, u32>::empty().insert(id, sum).dom() =~= set![id]);
    }
}

/// Every delta is accounted for once. After any run that the node accepts,
/// what is pending and what the store acknowledged on the way add up to
/// what was pending before and what the run's `add` requests handed in.
pub proof fn lemma_deltas_accounted(s: CounterState, trace: Seq<MsgView>)
    requires
        s.wf(),
    ensures
        run(s, trace) matches Ok(after) ==> {
            &&& after.wf()
            &&& pending_sum(after.pending) + confirmed(s, trace) == pending_sum(s.pending)
                + added(trace)
        },
    decreases trace.len(),
{
    if trace.len() > 0 {
        let earlier = trace.drop_last();
        lemma_deltas_accounted(s, earlier);
        if let Ok(before) = run(s, earlier) {
            let m = trace.last();
            lemma_step_wf(before, m);
            match m {
                MsgView::Client(c) => match c.body {
                    ClientPayloadView::Add { msg_id, delta } => {
                        lemma_add_total(before, c.src, msg_id, delta);
                    },
                    _ => {},
                },
                MsgView::Service(r) => match r.body {
                    ServicePayloadView::ReadOk { value, .. } => {
                        lemma_read_ok_keeps_pending(before, value);
                    },
                    ServicePayloadView::WriteOk { in_reply_to } => {
                        lemma_ack_total(before, in_reply_to);
                    },
                    ServicePayloadView::CasOk { in_reply_to } => {
                        lemma_ack_total(before, in_reply_to);
                    },
                    _ => {},
                },
            }
        }
    }
}

/// Between two answers of the store to a read, the node's total moves by
/// what clients hand in and by nothing else: acknowledgments, errors and
/// requests that are no `add` leave it alone.
pub proof fn lemma_total_follows_adds(s: CounterState, trace: Seq<MsgView>)
    requires
        s.wf(),
        forall|i: int| 0 <= i < trace.len() ==> !is_read_ok(#[trigger] trace[i]),
    ensures
        run(s, trace) matches Ok(after) ==> {
            &&& after.wf()
            &&& after.total() == s.total() + added(trace)
            &&& after.last_confirmed == s.last_confirmed + confirmed(s, trace)
        },
    decreases trace.len(),
{
    if trace.len() > 0 {
        let earlier = trace.drop_last();
        assert forall|i: int| 0 <= i < earlier.len() implies !is_read_ok(
            #[trigger] earlier[i],
        ) by {
            assert(earlier[i] == trace[i]);
        }
        lemma_total_follows_adds(s, earlier);
        if let Ok(before) = run(s, earlier) {
            let m = trace.last();
            assert(!is_read_ok(trace[trace.len() - 1]));
            lemma_step_wf(before, m);
            match m {
                MsgView::Client(c) => match c.body {
                    ClientPayloadView::Add { msg_id, delta } => {
                        lemma_add_total(before, c.src, msg_id, delta);
                    },
                    _ => {},
                },
                MsgView::Service(r) => match r.body {
                    ServicePayloadView::WriteOk { in_reply_to } => {
                        lemma_ack_total(before, in_reply_to);
                    },
                    ServicePayloadView::CasOk { in_reply_to } => {
                        lemma_ack_total(before, in_reply_to);
                    },
                    _ => {},
                },
            }
        }
    }
}

/// A run without an acknowledgment confirms nothing.
pub proof fn lemma_retries_confirm_nothing(s: CounterState, trace: Seq<MsgView>)
    requires
        forall|i: int| 0 <= i < trace.len() ==> !is_ack(#[trigger] trace[i]),
    ensures
        confirmed(s, trace) == 0,
    decreases trace.len(),
{
    if trace.len() > 0 {
        let earlier = trace.drop_last();
        assert forall|i: int| 0 <= i < earlier.len() implies !is_ack(#[trigger] earlier[i]) by {
            assert(earlier[i] == trace[i]);
        }
        lemma_retries_confirm_nothing(s, earlier);
        assert(!is_ack(trace[trace.len() - 1]));
    }
}

/// Conservation under conflict. Take any run that the node accepts: `add`
/// requests, reads, errors of the store that make the node retry,
/// acknowledgments. When the store then reports the value `value` and
/// something is pending, the node asks for one compare-and-set from `value`
/// to `value` plus all that it still owes the store: what was pending
/// before the run and what the run handed in, less what the store
/// acknowledged on the way. The acknowledgment of that request confirms
/// exactly that and leaves nothing pending.
pub proof fn lemma_conservation(s: CounterState, trace: Seq<MsgView>, value: u32)
    requires
        s.wf(),
        run(s, trace) is Ok,
        !run(s, trace)->Ok_0.pending.is_empty(),
        on_read_ok(run(s, trace)->Ok_0, value) is Ok,
    ensures
        ({
            let owed = pending_sum(s.pending) + added(trace) - confirmed(s, trace);
            let (retry, out) = on_read_ok(run(s, trace)->Ok_0, value)->Ok_0;
            &&& 0 <= owed
            &&& value + owed <= u32::MAX
            &&& out == seq![
                MsgView::Service(
                    cas_request(retry.node_id->0, retry.msg_id, value, (value + owed) as u32),
                ),
            ]
            &&& on_ack(retry, retry.msg_id) matches Ok((done, _)) && done.last_confirmed == value
                + owed && done.pending.is_empty()
        }),
{
    lemma_deltas_accounted(s, trace);
    let before = run(s, trace)->Ok_0;
    let (retry, out) = on_read_ok(before, value)->Ok_0;
    lemma_read_ok_keeps_pending(before, value);
    lemma_sum_singleton(retry.msg_id, pending_sum(before.pending) as u32);
    assert(retry.pending.remove(retry.msg_id) =~= Map::<u32, u32>::empty());
}

/// Conservation while the node only retries. If no acknowledgment arrives
/// during the run, however many compare-and-sets fail and however many
/// reads follow, the request that the node makes in the end carries all
/// that was pending before the run and all that the run handed in, and its
/// acknowledgment confirms the store's value plus that sum.
pub proof fn lemma_conservation_across_retries(s: CounterState, trace: Seq<MsgView>, value: u32)
    requires
        s.wf(),
        forall|i: int| 0 <= i < trace.len() ==> !is_ack(#[trigger] trace[i]),
        run(s, trace) is Ok,
        !run(s, trace)->Ok_0.pending.is_empty(),
        on_read_ok(run(s, trace)->Ok_0, value) is Ok,
    ensures
        ({
            let owed = pending_sum(s.pending) + added(trace);
            let (retry, out) = on_read_ok(run(s, trace)->Ok_0, value)->Ok_0;
            &&& value + owed <= u32::MAX
            &&& out == seq![
                MsgView::Service(
                    cas_request(retry.node_id->0, retry.msg_id, value, (value + owed) as u32),
                ),
            ]
            &&& on_ack(retry, retry.msg_id) matches Ok((done, _)) && done.last_confirmed == value
                + owed && done.pending.is_empty()
        }),
{
    lemma_retries_confirm_nothing(s, trace);
    lemma_conservation(s, trace, value);
}

} // verus!
