//! Messages exchanged with the key-value store, and the counter engine's
//! handling of the store's responses.
//!
//! The store is a black box that answers `read`, `write` and `cas` requests on
//! a key. The node never waits for an answer: a request is emitted with a
//! correlation id and the answer comes back later as an ordinary inbound
//! message, which [`ServiceMsg::process`] turns into the next state of the
//! counter and, where the protocol asks for it, a follow-up request.
use crate::fault::Fault;
use crate::pending::{pending_sum, sum_deltas};
use crate::{CounterState, Msg, MsgView, ServerState, Transition};
use vstd::prelude::*;

verus! {

broadcast use vstd::std_specs::hash::group_hash_axioms;

/// Error code of the store: the key has never been written.
pub const KEY_DOES_NOT_EXIST: u32 = 20;

/// Error code of the store: an initialising write found the key present.
pub const KEY_ALREADY_EXISTS: u32 = 21;

/// Error code of the store: the `from` of a `cas` no longer matches.
pub const PRECONDITION_FAILED: u32 = 22;

/// The address of the store in the cluster.
pub open spec fn store_address() -> Seq<char> {
    "seq-kv"@
}

/// The key under which the counter lives in the store.
pub open spec fn counter_key() -> Seq<char> {
    "counter"@
}

/// A message to or from the store.
#[derive(Clone, Debug, PartialEq, Eq)]
pub struct ServiceMsg {
    pub id: Option<u32>,
    pub src: String,
    pub dest: String,
    pub body: ServicePayload,
}

/// What a message to or from the store carries.
#[derive(Clone, Debug, PartialEq, Eq)]
pub enum ServicePayload {
    Read { msg_id: u32, key: String },
    ReadOk { value: u32, in_reply_to: u32 },
    Write { msg_id: u32, key: String, value: u32 },
    WriteOk { in_reply_to: u32 },
    Cas { msg_id: u32, key: String, from: u32, to: u32 },
    CasOk { in_reply_to: u32 },
    Error { in_reply_to: u32, code: u32, text: String },
}

/// The mathematical content of a [`ServicePayload`].
pub enum ServicePayloadView {
    Read { msg_id: u32, key: Seq<char> },
    ReadOk { value: u32, in_reply_to: u32 },
    Write { msg_id: u32, key: Seq<char>, value: u32 },
    WriteOk { in_reply_to: u32 },
    Cas { msg_id: u32, key: Seq<char>, from: u32, to: u32 },
    CasOk { in_reply_to: u32 },
    Error { in_reply_to: u32, code: u32, text: Seq<char> },
}

/// The mathematical content of a [`ServiceMsg`].
pub struct ServiceMsgView {
    pub id: Option<u32>,
    pub src: Seq<char>,
    pub dest: Seq<char>,
    pub body: ServicePayloadView,
}

impl View for ServicePayload {
    type V = ServicePayloadView;

    open spec fn view(&self) -> ServicePayloadView {
        match *self {
            ServicePayload::Read { msg_id, key } => ServicePayloadView::Read { msg_id, key: key@ },
            ServicePayload::ReadOk { value, in_reply_to } => ServicePayloadView::ReadOk {
                value,
                in_reply_to,
            },
            ServicePayload::Write { msg_id, key, value } => ServicePayloadView::Write {
                msg_id,
                key: key@,
                value,
            },
            ServicePayload::WriteOk { in_reply_to } => ServicePayloadView::WriteOk { in_reply_to },
            ServicePayload::Cas { msg_id, key, from, to } => ServicePayloadView::Cas {
                msg_id,
                key: key@,
                from,
                to,
            },
            ServicePayload::CasOk { in_reply_to } => ServicePayloadView::CasOk { in_reply_to },
            ServicePayload::Error { in_reply_to, code, text } => ServicePayloadView::Error {
                in_reply_to,
                code,
                text: text@,
            },
        }
    }
}

impl View for ServiceMsg {
    type V = ServiceMsgView;

    open spec fn view(&self) -> ServiceMsgView {
        ServiceMsgView { id: self.id, src: self.src@, dest: self.dest@, body: self.body@ }
    }
}

/// A request from `node` to the store.
pub open spec fn store_request(node: Seq<char>, body: ServicePayloadView) -> ServiceMsgView {
    ServiceMsgView { id: None, src: node, dest: store_address(), body }
}

/// The request that reads the counter.
pub open spec fn read_request(node: Seq<char>, msg_id: u32) -> ServiceMsgView {
    store_request(node, ServicePayloadView::Read { msg_id, key: counter_key() })
}

/// The request that sets the counter to `value` unconditionally.
pub open spec fn write_request(node: Seq<char>, msg_id: u32, value: u32) -> ServiceMsgView {
    store_request(node, ServicePayloadView::Write { msg_id, key: counter_key(), value })
}

/// The request that moves the counter from `from` to `to` if it still is at
/// `from`.
pub open spec fn cas_request(node: Seq<char>, msg_id: u32, from: u32, to: u32) -> ServiceMsgView {
    store_request(node, ServicePayloadView::Cas { msg_id, key: counter_key(), from, to })
}

impl ServiceMsg {
    /// Builds the read request of `node` with correlation id `msg_id`.
    pub fn read(node: String, msg_id: u32) -> (msg: ServiceMsg)
        ensures
            msg@ == read_request(node@, msg_id),
    {
        ServiceMsg {
            id: None,
            src: node,
            dest: "seq-kv".to_owned(),
            body: ServicePayload::Read { msg_id, key: "counter".to_owned() },
        }
    }

    /// Builds the write request of `node` with correlation id `msg_id`.
    pub fn write(node: String, msg_id: u32, value: u32) -> (msg: ServiceMsg)
        ensures
            msg@ == write_request(node@, msg_id, value),
    {
        ServiceMsg {
            id: None,
            src: node,
            dest: "seq-kv".to_owned(),
            body: ServicePayload::Write { msg_id, key: "counter".to_owned(), value },
        }
    }

    /// Builds the compare-and-set request of `node` with correlation id
    /// `msg_id`.
    pub fn cas(node: String, msg_id: u32, from: u32, to: u32) -> (msg: ServiceMsg)
        ensures
            msg@ == cas_request(node@, msg_id, from, to),
    {
        ServiceMsg {
            id: None,
            src: node,
            dest: "seq-kv".to_owned(),
            body: ServicePayload::Cas { msg_id, key: "counter".to_owned(), from, to },
        }
    }
}

/// `read_ok`: the store's value becomes the last confirmed one, unless it
/// lies below it, which is a fault. Whatever is pending is then folded into
/// one entry under a fresh id, and one compare-and-set from the store's value
/// carries the whole of it.
pub open spec fn on_read_ok(s: CounterState, value: u32) -> Transition {
    match s.node_id {
        None => Err(Fault::IdentityMissing),
        Some(node) => if value < s.last_confirmed {
            Err(Fault::CounterRegressed)
        } else if s.pending.is_empty() {
            Ok((CounterState { last_confirmed: value, ..s }, Seq::<MsgView>::empty()))
        } else if s.msg_id == u32::MAX || value + pending_sum(s.pending) > u32::MAX {
            Err(Fault::Overflow)
        } else {
            let id = (s.msg_id + 1) as u32;
            let sum = pending_sum(s.pending) as u32;
            Ok(
                (
                    CounterState {
                        msg_id: id,
                        last_confirmed: value,
                        pending: Map::<u32, u32>::empty().insert(id, sum),
                        ..s
                    },
                    seq![MsgView::Service(cas_request(node, id, value, (value + sum) as u32))],
                ),
            )
        },
    }
}

/// `write_ok` and `cas_ok`: the delta that travelled under the acknowledged
/// id is confirmed. It leaves the pending table and joins the last confirmed
/// value. An acknowledgment of an id that is not pending changes nothing.
pub open spec fn on_ack(s: CounterState, in_reply_to: u32) -> Transition {
    match s.node_id {
        None => Err(Fault::IdentityMissing),
        Some(_) => if !s.pending.contains_key(in_reply_to) {
            Ok((s, Seq::<MsgView>::empty()))
        } else if s.last_confirmed + s.pending[in_reply_to] > u32::MAX {
            Err(Fault::Overflow)
        } else {
            Ok(
                (
                    CounterState {
                        last_confirmed: (s.last_confirmed + s.pending[in_reply_to]) as u32,
                        pending: s.pending.remove(in_reply_to),
                        ..s
                    },
                    Seq::<MsgView>::empty(),
                ),
            )
        },
    }
}

/// `error`: a missing key is established by writing zero under the id of
/// the last request; an existing key where none was expected is a fault; a
/// failed precondition starts the retry with a fresh read. Any other code is
/// ignored.
pub open spec fn on_error(s: CounterState, code: u32) -> Transition {
    if code == KEY_DOES_NOT_EXIST {
        match s.node_id {
            None => Err(Fault::IdentityMissing),
            Some(node) => Ok((s, seq![MsgView::Service(write_request(node, s.msg_id, 0))])),
        }
    } else if code == KEY_ALREADY_EXISTS {
        match s.node_id {
            None => Err(Fault::IdentityMissing),
            Some(_) => Err(Fault::KeyAlreadyExists),
        }
    } else if code == PRECONDITION_FAILED {
        match s.node_id {
            None => Err(Fault::IdentityMissing),
            Some(node) => if s.msg_id == u32::MAX {
                Err(Fault::Overflow)
            } else {
                let id = (s.msg_id + 1) as u32;
                Ok(
                    (
                        CounterState { msg_id: id, ..s },
                        seq![MsgView::Service(read_request(node, id))],
                    ),
                )
            },
        }
    } else {
        Ok((s, Seq::<MsgView>::empty()))
    }
}

/// The counter deployment's answer to a message from the store. Payloads
/// that are no response of the store are dropped: nothing changes and nothing
/// is emitted.
pub open spec fn service_step(s: CounterState, m: ServiceMsgView) -> Transition {
    match m.body {
        ServicePayloadView::ReadOk { value, .. } => on_read_ok(s, value),
        ServicePayloadView::WriteOk { in_reply_to } => on_ack(s, in_reply_to),
        ServicePayloadView::CasOk { in_reply_to } => on_ack(s, in_reply_to),
        ServicePayloadView::Error { code, .. } => on_error(s, code),
        _ => Ok((s, Seq::<MsgView>::empty())),
    }
}

impl ServiceMsg {
    /// Handles a message from the store.
    ///
    /// On success the state has moved as [`service_step`] says and the result
    /// holds the messages to emit. On a fault the state is as it was. Either
    /// way a well-formed state stays well formed and the last confirmed value
    /// does not fall.
    pub fn process(self, server_state: &mut ServerState) -> (res: Result<Vec<Msg>, Fault>)
        ensures
            match res {
                Ok(out) => service_step(old(server_state)@, self@) == Ok::<
                    (CounterState, Seq<MsgView>),
                    Fault,
                >((final(server_state)@, out.deep_view())),
                Err(fault) => service_step(old(server_state)@, self@) == Err::<
                    (CounterState, Seq<MsgView>),
                    Fault,
                >(fault) && final(server_state)@ == old(server_state)@,
            },
            old(server_state)@.wf() ==> final(server_state)@.wf(),
            old(server_state).last_seen_counter <= final(server_state).last_seen_counter,
    {
        let mut out: Vec<Msg> = Vec::new();
        assert(out.deep_view() =~= Seq::<MsgView>::empty());
        match self.body {
            ServicePayload::ReadOk { value, in_reply_to: _ } => {
                let node = server_state.identity()?;
                if value < server_state.last_seen_counter {
                    return Err(Fault::CounterRegressed);
                }
                if server_state.uncommited_deltas.is_empty() {
                    server_state.last_seen_counter = value;
                } else {
                    if server_state.msg_id == u32::MAX {
                        return Err(Fault::Overflow);
                    }
                    let sum = match sum_deltas(&server_state.uncommited_deltas) {
                        Some(sum) => sum,
                        None => {
                            return Err(Fault::Overflow);
                        },
                    };
                    let to = match value.checked_add(sum) {
                        Some(to) => to,
                        None => {
                            return Err(Fault::Overflow);
                        },
                    };
                    let id = server_state.msg_id + 1;
                    server_state.last_seen_counter = value;
                    server_state.msg_id = id;
                    server_state.uncommited_deltas.clear();
                    server_state.uncommited_deltas.insert(id, sum);
                    out.push(Msg::Service(ServiceMsg::cas(node, id, value, to)));
                    proof {
                        let expected = on_read_ok(old(server_state)@, value);
                        assert(out.deep_view() =~= expected->Ok_0.1);
                    }
                }
            },
            ServicePayload::WriteOk { in_reply_to } | ServicePayload::CasOk { in_reply_to } => {
                let _ = server_state.identity()?;
                let delta = match server_state.uncommited_deltas.get(&in_reply_to) {
                    Some(delta) => *delta,
                    None => {
                        return Ok(out);
                    },
                };
                let confirmed = match server_state.last_seen_counter.checked_add(delta) {
                    Some(confirmed) => confirmed,
                    None => {
                        return Err(Fault::Overflow);
                    },
                };
                server_state.uncommited_deltas.remove(&in_reply_to);
                server_state.last_seen_counter = confirmed;
            },
            ServicePayload::Error { in_reply_to: _, code, text: _ } => {
                if code == KEY_DOES_NOT_EXIST {
                    let node = server_state.identity()?;
                    out.push(Msg::Service(ServiceMsg::write(node, server_state.msg_id, 0)));
                    proof {
                        let expected = on_error(old(server_state)@, code);
                        assert(out.deep_view() =~= expected->Ok_0.1);
                    }
                } else if code == KEY_ALREADY_EXISTS {
                    let _ = server_state.identity()?;
                    return Err(Fault::KeyAlreadyExists);
                } else if code == PRECONDITION_FAILED {
                    let node = server_state.identity()?;
                    if server_state.msg_id == u32::MAX {
                        return Err(Fault::Overflow);
                    }
                    server_state.msg_id = server_state.msg_id + 1;
                    out.push(Msg::Service(ServiceMsg::read(node, server_state.msg_id)));
                    proof {
                        let expected = on_error(old(server_state)@, code);
                        assert(out.deep_view() =~= expected->Ok_0.1);
                    }
                }
            },
            _ => {},
        }
        Ok(out)
    }
}

} // verus!
