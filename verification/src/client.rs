//! Messages exchanged with clients, and the counter engine's handling of
//! client requests.
use crate::fault::Fault;
use crate::service::{cas_request, read_request, write_request, ServiceMsg};
use crate::{CounterState, Msg, MsgView, ServerState, Transition};
use vstd::prelude::*;

verus! {

broadcast use vstd::std_specs::hash::group_hash_axioms;

/// A message to or from a client.
#[derive(Clone, Debug, PartialEq, Eq)]
pub struct ClientMessage {
    pub id: Option<u32>,
    pub src: String,
    pub dest: String,
    pub body: ClientPayload,
}

/// What a message to or from a client carries.
#[derive(Clone, Debug, PartialEq, Eq)]
pub enum ClientPayload {
    Init { msg_id: u32, node_id: String, node_ids: Vec<String> },
    InitOk { in_reply_to: u32 },
    Topology { msg_id: u32, topology: Vec<(String, Vec<String>)> },
    TopologyOk { in_reply_to: u32 },
    Broadcast { msg_id: u32, message: u32 },
    Read { msg_id: u32 },
    ReadOk { in_reply_to: u32, value: u32 },
    Add { msg_id: u32, delta: u32 },
    AddOk { in_reply_to: u32 },
}

/// The mathematical content of a [`ClientPayload`].
pub enum ClientPayloadView {
    Init { msg_id: u32, node_id: Seq<char>, node_ids: Seq<Seq<char>> },
    InitOk { in_reply_to: u32 },
    Topology { msg_id: u32, topology: Seq<(Seq<char>, Seq<Seq<char>>)> },
    TopologyOk { in_reply_to: u32 },
    Broadcast { msg_id: u32, message: u32 },
    Read { msg_id: u32 },
    ReadOk { in_reply_to: u32, value: u32 },
    Add { msg_id: u32, delta: u32 },
    AddOk { in_reply_to: u32 },
}

/// The mathematical content of a [`ClientMessage`].
pub struct ClientMessageView {
    pub id: Option<u32>,
    pub src: Seq<char>,
    pub dest: Seq<char>,
    pub body: ClientPayloadView,
}

impl View for ClientPayload {
    type V = ClientPayloadView;

    open spec fn view(&self) -> ClientPayloadView {
        match *self {
            ClientPayload::Init { msg_id, node_id, node_ids } => ClientPayloadView::Init {
                msg_id,
                node_id: node_id@,
                node_ids: node_ids.deep_view(),
            },
            ClientPayload::InitOk { in_reply_to } => ClientPayloadView::InitOk { in_reply_to },
            ClientPayload::Topology { msg_id, topology } => ClientPayloadView::Topology {
                msg_id,
                topology: topology.deep_view(),
            },
            ClientPayload::TopologyOk { in_reply_to } => ClientPayloadView::TopologyOk {
                in_reply_to,
            },
            ClientPayload::Broadcast { msg_id, message } => ClientPayloadView::Broadcast {
                msg_id,
                message,
            },
            ClientPayload::Read { msg_id } => ClientPayloadView::Read { msg_id },
            ClientPayload::ReadOk { in_reply_to, value } => ClientPayloadView::ReadOk {
                in_reply_to,
                value,
            },
            ClientPayload::Add { msg_id, delta } => ClientPayloadView::Add { msg_id, delta },
            ClientPayload::AddOk { in_reply_to } => ClientPayloadView::AddOk { in_reply_to },
        }
    }
}

impl View for ClientMessage {
    type V = ClientMessageView;

    open spec fn view(&self) -> ClientMessageView {
        ClientMessageView { id: self.id, src: self.src@, dest: self.dest@, body: self.body@ }
    }
}

/// The reply that `node` sends to `client`.
pub open spec fn client_reply(
    node: Seq<char>,
    client: Seq<char>,
    body: ClientPayloadView,
) -> ClientMessageView {
    ClientMessageView { id: None, src: node, dest: client, body }
}

/// `init`: the node takes the address it is given, unless it has one
/// already, and acknowledges under the address it now has.
pub open spec fn on_init(
    s: CounterState,
    client: Seq<char>,
    msg_id: u32,
    node_id: Seq<char>,
) -> Transition {
    let node = match s.node_id {
        Some(id) => id,
        None => node_id,
    };
    Ok(
        (
            CounterState { node_id: Some(node), ..s },
            seq![
                MsgView::Client(
                    client_reply(node, client, ClientPayloadView::InitOk { in_reply_to: msg_id }),
                ),
            ],
        ),
    )
}

/// `topology`: acknowledged, and nothing else.
pub open spec fn on_topology(s: CounterState, client: Seq<char>, msg_id: u32) -> Transition {
    match s.node_id {
        None => Err(Fault::IdentityMissing),
        Some(node) => Ok(
            (
                s,
                seq![
                    MsgView::Client(
                        client_reply(
                            node,
                            client,
                            ClientPayloadView::TopologyOk { in_reply_to: msg_id },
                        ),
                    ),
                ],
            ),
        ),
    }
}

/// `read`: the client gets the node's own total at once, and the store is
/// asked for its value so that later operations start from a fresh one.
pub open spec fn on_read(s: CounterState, client: Seq<char>, msg_id: u32) -> Transition {
    match s.node_id {
        None => Err(Fault::IdentityMissing),
        Some(node) => if s.total() > u32::MAX || s.msg_id == u32::MAX {
            Err(Fault::Overflow)
        } else {
            let id = (s.msg_id + 1) as u32;
            Ok(
                (
                    CounterState { msg_id: id, ..s },
                    seq![
                        MsgView::Client(
                            client_reply(
                                node,
                                client,
                                ClientPayloadView::ReadOk {
                                    in_reply_to: msg_id,
                                    value: s.total() as u32,
                                },
                            ),
                        ),
                        MsgView::Service(read_request(node, id)),
                    ],
                ),
            )
        },
    }
}

/// `add`: the client is acknowledged at once, the delta is recorded as
/// pending under a fresh id, and the store is asked to apply it: by a plain
/// write while nothing has been confirmed yet, by a compare-and-set from the
/// last confirmed value afterwards.
pub open spec fn on_add(s: CounterState, client: Seq<char>, msg_id: u32, delta: u32) -> Transition {
    match s.node_id {
        None => Err(Fault::IdentityMissing),
        Some(node) => if s.msg_id == u32::MAX || (s.last_confirmed != 0 && s.last_confirmed + delta
            > u32::MAX) {
            Err(Fault::Overflow)
        } else {
            let id = (s.msg_id + 1) as u32;
            let request = if s.last_confirmed == 0 {
                write_request(node, id, delta)
            } else {
                cas_request(node, id, s.last_confirmed, (s.last_confirmed + delta) as u32)
            };
            Ok(
                (
                    CounterState { msg_id: id, pending: s.pending.insert(id, delta), ..s },
                    seq![
                        MsgView::Client(
                            client_reply(
                                node,
                                client,
                                ClientPayloadView::AddOk { in_reply_to: msg_id },
                            ),
                        ),
                        MsgView::Service(request),
                    ],
                ),
            )
        },
    }
}

/// The counter deployment's answer to a message from a client. Payloads that
/// are no request of this deployment are dropped: nothing changes and nothing
/// is emitted.
pub open spec fn client_step(s: CounterState, m: ClientMessageView) -> Transition {
    match m.body {
        ClientPayloadView::Init { msg_id, node_id, .. } => on_init(s, m.src, msg_id, node_id),
        ClientPayloadView::Topology { msg_id, .. } => on_topology(s, m.src, msg_id),
        ClientPayloadView::Read { msg_id } => on_read(s, m.src, msg_id),
        ClientPayloadView::Add { msg_id, delta } => on_add(s, m.src, msg_id, delta),
        _ => Ok((s, Seq::<MsgView>::empty())),
    }
}

impl ClientMessage {
    /// Builds the reply of `node` to `client`.
    pub fn reply(node: String, client: String, body: ClientPayload) -> (msg: ClientMessage)
        ensures
            msg@ == client_reply(node@, client@, body@),
    {
        ClientMessage { id: None, src: node, dest: client, body }
    }

    /// Handles a client's message in the counter deployment.
    ///
    /// On success the state has moved as [`client_step`] says and the result
    /// holds the messages to emit, in the order in which they are to be
    /// sent. On a fault the state is as it was. Either way a well-formed
    /// state stays well formed and the last confirmed value does not fall.
    pub fn process(self, server_state: &mut ServerState) -> (res: Result<Vec<Msg>, Fault>)
        ensures
            match res {
                Ok(out) => client_step(old(server_state)@, self@) == Ok::<
                    (CounterState, Seq<MsgView>),
                    Fault,
                >((final(server_state)@, out.deep_view())),
                Err(fault) => client_step(old(server_state)@, self@) == Err::<
                    (CounterState, Seq<MsgView>),
                    Fault,
                >(fault) && final(server_state)@ == old(server_state)@,
            },
            old(server_state)@.wf() ==> final(server_state)@.wf(),
            old(server_state).last_seen_counter <= final(server_state).last_seen_counter,
    {
        let ClientMessage { id: _, src, dest: _, body } = self;
        let mut out: Vec<Msg> = Vec::new();
        match body {
            ClientPayload::Init { msg_id, node_id, node_ids: _ } => {
                if server_state.node_id.is_none() {
                    server_state.node_id = Some(node_id);
                }
                let node = server_state.identity()?;
                out.push(
                    Msg::Client(
                        ClientMessage::reply(
                            node,
                            src,
                            ClientPayload::InitOk { in_reply_to: msg_id },
                        ),
                    ),
                );
                proof {
                    let expected = on_init(old(server_state)@, self@.src, msg_id, node_id@);
                    assert(out.deep_view() =~= expected->Ok_0.1);
                }
            },
            ClientPayload::Topology { msg_id, topology: _ } => {
                let node = server_state.identity()?;
                out.push(
                    Msg::Client(
                        ClientMessage::reply(
                            node,
                            src,
                            ClientPayload::TopologyOk { in_reply_to: msg_id },
                        ),
                    ),
                );
                proof {
                    let expected = on_topology(old(server_state)@, self@.src, msg_id);
                    assert(out.deep_view() =~= expected->Ok_0.1);
                }
            },
            ClientPayload::Read { msg_id } => {
                let node = server_state.identity()?;
                let value = match server_state.total() {
                    Some(value) => value,
                    None => {
                        return Err(Fault::Overflow);
                    },
                };
                if server_state.msg_id == u32::MAX {
                    return Err(Fault::Overflow);
                }
                server_state.msg_id = server_state.msg_id + 1;
                out.push(
                    Msg::Client(
                        ClientMessage::reply(
                            node.clone(),
                            src,
                            ClientPayload::ReadOk { in_reply_to: msg_id, value },
                        ),
                    ),
                );
                out.push(Msg::Service(ServiceMsg::read(node, server_state.msg_id)));
                proof {
                    let expected = on_read(old(server_state)@, self@.src, msg_id);
                    assert(out.deep_view() =~= expected->Ok_0.1);
                }
            },
            ClientPayload::Add { msg_id, delta } => {
                let node = server_state.identity()?;
                if server_state.msg_id == u32::MAX {
                    return Err(Fault::Overflow);
                }
                let id = server_state.msg_id + 1;
                let last = server_state.last_seen_counter;
                let request = if last == 0 {
                    ServiceMsg::write(node.clone(), id, delta)
                } else {
                    match last.checked_add(delta) {
                        Some(to) => ServiceMsg::cas(node.clone(), id, last, to),
                        None => {
                            return Err(Fault::Overflow);
                        },
                    }
                };
                server_state.msg_id = id;
                server_state.uncommited_deltas.insert(id, delta);
                out.push(
                    Msg::Client(
                        ClientMessage::reply(
                            node,
                            src,
                            ClientPayload::AddOk { in_reply_to: msg_id },
                        ),
                    ),
                );
                out.push(Msg::Service(request));
                proof {
                    let expected = on_add(old(server_state)@, self@.src, msg_id, delta);
                    assert(out.deep_view() =~= expected->Ok_0.1);
                }
            },
            _ => {
                assert(out.deep_view() =~= Seq::<MsgView>::empty());
            },
        }
        Ok(out)
    }
}

} // verus!
