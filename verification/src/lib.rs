//! A single node of a simulated cluster that speaks line-delimited JSON.
//!
//! The crate holds the message-processing core of two deployments of the
//! node: a gossip broadcast of a grow-only set of integers ([`server`]), and a
//! grow-only counter whose durable value lives in an external key-value store
//! (the root [`ServerState`], [`client`] and [`service`]). Every handler is a
//! transition from the node's state and one inbound message to the next state
//! and the messages to emit; reading lines, decoding them and writing the
//! emitted messages out is left to the program around the library.
pub mod broadcast_laws;
pub mod client;
pub mod cluster;
pub mod counter_laws;
pub mod entity;
pub mod fault;
pub mod pending;
pub mod router;
pub mod server;
pub mod service;

use crate::client::{client_step, ClientMessage, ClientMessageView};
use crate::fault::Fault;
use crate::pending::{pending_sum, sum_deltas};
use crate::service::{service_step, ServiceMsg, ServiceMsgView};
use std::collections::HashMap;
use vstd::prelude::*;

verus! {

broadcast use vstd::std_specs::hash::group_hash_axioms;

/// A message of the counter deployment, inbound or outbound.
#[derive(Clone, Debug, PartialEq, Eq)]
pub enum Msg {
    Service(ServiceMsg),
    Client(ClientMessage),
}

/// The mathematical content of a [`Msg`].
pub enum MsgView {
    Service(ServiceMsgView),
    Client(ClientMessageView),
}

impl View for Msg {
    type V = MsgView;

    open spec fn view(&self) -> MsgView {
        match *self {
            Msg::Service(m) => MsgView::Service(m@),
            Msg::Client(m) => MsgView::Client(m@),
        }
    }
}

impl DeepView for Msg {
    type V = MsgView;

    open spec fn deep_view(&self) -> MsgView {
        self@
    }
}

/// The state of the counter deployment.
///
/// The durable counter lives in the store. The node keeps the last value
/// that the store confirmed to it and, keyed by the id of the store request
/// that carries it, every delta that the store has not confirmed yet.
#[derive(Debug)]
pub struct ServerState {
    /// This node's address, once `init` has assigned it.
    pub node_id: Option<String>,
    /// The id of the last request this node sent to the store.
    pub msg_id: u32,
    /// The last counter value that the store confirmed.
    pub last_seen_counter: u32,
    /// The deltas accepted from clients and not confirmed yet.
    pub uncommited_deltas: HashMap<u32, u32>,
}

/// The mathematical content of the counter deployment's [`ServerState`].
pub struct CounterState {
    pub node_id: Option<Seq<char>>,
    pub msg_id: u32,
    pub last_confirmed: u32,
    pub pending: Map<u32, u32>,
}

impl View for ServerState {
    type V = CounterState;

    open spec fn view(&self) -> CounterState {
        CounterState {
            node_id: match self.node_id {
                Some(id) => Some(id@),
                None => None,
            },
            msg_id: self.msg_id,
            last_confirmed: self.last_seen_counter,
            pending: self.uncommited_deltas@,
        }
    }
}

/// What a handler of the counter deployment yields: the next state and the
/// messages to emit, or the fault that stops the node.
pub type Transition = Result<(CounterState, Seq<MsgView>), Fault>;

/// The counter deployment's answer to an inbound message: the message goes to
/// the handler that owns its kind.
pub open spec fn step(s: CounterState, m: MsgView) -> Transition {
    match m {
        MsgView::Client(m) => client_step(s, m),
        MsgView::Service(m) => service_step(s, m),
    }
}

impl Msg {
    /// Hands an inbound message to the handler that owns it.
    ///
    /// On success the state has moved as [`step`] says and the result holds
    /// the messages to emit, in order. On a fault the state is as it was.
    /// Either way a well-formed state stays well formed and the last
    /// confirmed value does not fall.
    pub fn process(self, server_state: &mut ServerState) -> (res: Result<Vec<Msg>, Fault>)
        ensures
            match res {
                Ok(out) => step(old(server_state)@, self@) == Ok::<
                    (CounterState, Seq<MsgView>),
                    Fault,
                >((final(server_state)@, out.deep_view())),
                Err(fault) => step(old(server_state)@, self@) == Err::<
                    (CounterState, Seq<MsgView>),
                    Fault,
                >(fault) && final(server_state)@ == old(server_state)@,
            },
            old(server_state)@.wf() ==> final(server_state)@.wf(),
            old(server_state).last_seen_counter <= final(server_state).last_seen_counter,
    {
        match self {
            Msg::Client(m) => m.process(server_state),
            Msg::Service(m) => m.process(server_state),
        }
    }
}

impl ServerState {
    /// The state of a node that has just started: no address, nothing
    /// confirmed, nothing pending.
    pub fn new() -> (state: ServerState)
        ensures
            state@ == CounterState::initial(),
    {
        ServerState {
            node_id: None,
            msg_id: 0,
            last_seen_counter: 0,
            uncommited_deltas: HashMap::new(),
        }
    }

    /// The counter as this node sees it: the last confirmed value plus the
    /// pending deltas. `None` says that it does not fit.
    pub fn total(&self) -> (total: Option<u32>)
        ensures
            match total {
                Some(t) => t == self@.total(),
                None => self@.total() > u32::MAX,
            },
    {
        match sum_deltas(&self.uncommited_deltas) {
            Some(sum) => self.last_seen_counter.checked_add(sum),
            None => None,
        }
    }

    /// This node's address, or the fault of using it before `init`.
    pub fn identity(&self) -> (res: Result<String, Fault>)
        ensures
            match res {
                Ok(node) => self@.node_id == Some(node@),
                Err(fault) => self@.node_id is None && fault == Fault::IdentityMissing,
            },
    {
        match &self.node_id {
            Some(id) => Ok(id.clone()),
            None => Err(Fault::IdentityMissing),
        }
    }
}

impl Default for ServerState {
    fn default() -> (state: ServerState)
        ensures
            state@ == CounterState::initial(),
    {
        ServerState::new()
    }
}

impl CounterState {
    /// The state of a node that has just started.
    pub open spec fn initial() -> CounterState {
        CounterState { node_id: None, msg_id: 0, last_confirmed: 0, pending: Map::empty() }
    }

    /// What holds of every state the node can reach: the ids of the pending
    /// deltas are ids that the node has handed out, so that the next id it
    /// hands out is a new one.
    pub open spec fn wf(self) -> bool {
        &&& self.pending.dom().finite()
        &&& forall|id: u32| #[trigger] self.pending.contains_key(id) ==> id <= self.msg_id
    }

    /// The counter as this node sees it: what the store confirmed plus what
    /// is still on its way there.
    pub open spec fn total(self) -> nat {
        self.last_confirmed as nat + pending_sum(self.pending)
    }
}

} // verus!
