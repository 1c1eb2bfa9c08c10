//! The broadcast deployment: a grow-only set of integers that every node of
//! the cluster converges on.
//!
//! A value that a client broadcasts joins the node's set and is marked, for
//! every peer, as not yet acknowledged by that peer. A periodic pass sends
//! each peer what it has not acknowledged; the peer merges what it receives
//! and acknowledges it by value; only that acknowledgment takes a value out of
//! the peer's entry. Delivery may fail, repeat or reorder: merging is a set
//! union, so a repeated delivery changes nothing, and what was lost is sent
//! again by the next pass.
use crate::client::{ClientMessage, ClientMessageView, ClientPayload, ClientPayloadView};
use crate::fault::Fault;
use std::collections::HashSet;
use vstd::prelude::*;
use vstd::std_specs::hash::spec_hash_keys_iter;
use vstd::std_specs::iter::IteratorSpec;

verus! {

broadcast use vstd::std_specs::hash::group_hash_axioms;

/// `list` holds each element of `set` once and nothing else.
pub open spec fn enumerates(list: Seq<u32>, set: Set<u32>) -> bool {
    list.no_duplicates() && list.to_set() == set
}

/// The peers that `init` assigns to the node `me`: the other nodes of
/// `node_ids`, each once, in the order of their first occurrence.
pub open spec fn peers_of(me: Seq<char>, node_ids: Seq<Seq<char>>) -> Seq<Seq<char>>
    decreases node_ids.len(),
{
    if node_ids.len() == 0 {
        Seq::empty()
    } else {
        let before = peers_of(me, node_ids.drop_last());
        let id = node_ids.last();
        if id == me || before.contains(id) {
            before
        } else {
            before.push(id)
        }
    }
}

/// The peers of a node are the other nodes of the list, without repetition.
pub proof fn lemma_peers_of(me: Seq<char>, node_ids: Seq<Seq<char>>)
    ensures
        peers_of(me, node_ids).no_duplicates(),
        !peers_of(me, node_ids).contains(me),
        forall|id: Seq<char>|
            peers_of(me, node_ids).contains(id) <==> (node_ids.contains(id) && id != me),
    decreases node_ids.len(),
{
    if node_ids.len() > 0 {
        let before = peers_of(me, node_ids.drop_last());
        lemma_peers_of(me, node_ids.drop_last());
        let peers = peers_of(me, node_ids);
        assert forall|id: Seq<char>| peers.contains(id) <==> (node_ids.contains(id) && id
            != me) by {
            if node_ids.contains(id) && id != me {
                let i = choose|i: int| 0 <= i < node_ids.len() && node_ids[i] == id;
                if i < node_ids.len() - 1 {
                    assert(node_ids.drop_last()[i] == id);
                    assert(node_ids.drop_last().contains(id));
                    let j = choose|j: int| 0 <= j < before.len() && before[j] == id;
                    assert(peers[j] == id);
                } else if !before.contains(id) {
                    assert(peers[before.len() as int] == id);
                } else {
                    let j = choose|j: int| 0 <= j < before.len() && before[j] == id;
                    assert(peers[j] == id);
                }
            }
            if peers.contains(id) {
                let j = choose|j: int| 0 <= j < peers.len() && peers[j] == id;
                if j < before.len() {
                    assert(node_ids.drop_last().contains(id));
                } else {
                    assert(node_ids[node_ids.len() - 1] == id);
                }
            }
        }
    }
}

/// The mathematical content of the broadcast deployment's [`ServerState`].
pub struct BroadcastState {
    /// This node's address, once `init` has assigned it.
    pub node_id: Option<Seq<char>>,
    /// The values this node knows.
    pub messages: Set<u32>,
    /// The other nodes, in the order in which a resend pass visits them.
    pub peers: Seq<Seq<char>>,
    /// For each peer, the values it has not acknowledged.
    pub unacked: Map<Seq<char>, Set<u32>>,
}

impl BroadcastState {
    /// The state of a node that has just started.
    pub open spec fn initial() -> BroadcastState {
        BroadcastState {
            node_id: None,
            messages: Set::empty(),
            peers: Seq::empty(),
            unacked: Map::empty(),
        }
    }

    /// What holds of every state the node can reach: each peer is listed
    /// once and has an entry, the node is no peer of itself and has no peers
    /// before it has an address, and nothing awaits acknowledgment that the
    /// node does not know itself.
    pub open spec fn wf(self) -> bool {
        &&& self.messages.finite()
        &&& self.peers.no_duplicates()
        &&& self.unacked.dom() =~= self.peers.to_set()
        &&& forall|p: Seq<char>| #[trigger]
            self.unacked.contains_key(p) ==> self.unacked[p].subset_of(self.messages)
        &&& match self.node_id {
            Some(id) => !self.peers.contains(id),
            None => self.peers.len() == 0,
        }
    }

    /// `init`: a node without an address takes `node_id` and the peers that
    /// `node_ids` names, with nothing to acknowledge yet. A node that has an
    /// address keeps what it has.
    pub open spec fn start(self, node_id: Seq<char>, node_ids: Seq<Seq<char>>) -> BroadcastState {
        if self.node_id is Some {
            self
        } else {
            let peers = peers_of(node_id, node_ids);
            BroadcastState {
                node_id: Some(node_id),
                peers,
                unacked: Map::new(|p: Seq<char>| peers.contains(p), |p: Seq<char>| Set::empty()),
                ..self
            }
        }
    }

    /// The union of the known values with `values`.
    pub open spec fn merge(self, values: Seq<u32>) -> BroadcastState {
        BroadcastState { messages: self.messages.union(values.to_set()), ..self }
    }

    /// `broadcast`: the value joins the known ones and awaits the
    /// acknowledgment of every peer.
    pub open spec fn broadcast(self, value: u32) -> BroadcastState {
        BroadcastState {
            messages: self.messages.insert(value),
            unacked: self.unacked.map_values(|pending: Set<u32>| pending.insert(value)),
            ..self
        }
    }

    /// `whisper_ok`: the values that `peer` names no longer await its
    /// acknowledgment. Nothing changes for a sender that is no peer.
    pub open spec fn acknowledge(self, peer: Seq<char>, values: Seq<u32>) -> BroadcastState {
        if self.unacked.contains_key(peer) {
            BroadcastState {
                unacked: self.unacked.insert(
                    peer,
                    self.unacked[peer].difference(values.to_set()),
                ),
                ..self
            }
        } else {
            self
        }
    }

    /// The peers that a resend pass has something to send to, in the order
    /// of the pass.
    pub open spec fn due(self) -> Seq<Seq<char>> {
        self.peers.filter(|p: Seq<char>| !self.unacked[p].is_empty())
    }
}

/// The state of the broadcast deployment.
#[derive(Debug)]
pub struct ServerState {
    node_id: Option<String>,
    messages: HashSet<u32>,
    unack_neigh_msgs: Vec<(String, HashSet<u32>)>,
}

/// The addresses under which the entries are kept, in the order of the
/// entries.
spec fn ids_of(entries: Seq<(String, HashSet<u32>)>) -> Seq<Seq<char>> {
    Seq::new(entries.len(), |i: int| entries[i].0@)
}

impl ServerState {
    /// The addresses of the peers, in the order of the entries.
    spec fn peer_ids(&self) -> Seq<Seq<char>> {
        ids_of(self.unack_neigh_msgs@)
    }
}

/// Finds the entry kept under `id`.
fn position(entries: &Vec<(String, HashSet<u32>)>, id: &String) -> (found: Option<usize>)
    ensures
        match found {
            Some(i) => i < entries@.len() && entries@[i as int].0@ == id@,
            None => !ids_of(entries@).contains(id@),
        },
{
    let mut i: usize = 0;
    while i < entries.len()
        invariant
            i <= entries@.len(),
            forall|j: int| 0 <= j < i ==> (#[trigger] entries@[j]).0@ != id@,
        decreases entries@.len() - i,
    {
        if entries[i].0 == *id {
            return Some(i);
        }
        i = i + 1;
    }
    proof {
        let ids = ids_of(entries@);
        assert forall|j: int| 0 <= j < ids.len() implies ids[j] != id@ by {
            assert(entries@[j].0@ != id@);
        }
    }
    None
}

impl View for ServerState {
    type V = BroadcastState;

    closed spec fn view(&self) -> BroadcastState {
        BroadcastState {
            node_id: match self.node_id {
                Some(id) => Some(id@),
                None => None,
            },
            messages: self.messages@,
            peers: self.peer_ids(),
            unacked: Map::new(
                |p: Seq<char>| self.peer_ids().contains(p),
                |p: Seq<char>| self.unack_neigh_msgs@[self.peer_ids().index_of(p)].1@,
            ),
        }
    }
}

impl Default for ServerState {
    fn default() -> (state: ServerState)
        ensures
            state@ == BroadcastState::initial(),
            state@.wf(),
    {
        ServerState::new()
    }
}

/// Lists the elements of a set, each once, in the order in which the set
/// hands them out.
pub fn enumerate(set: &HashSet<u32>) -> (list: Vec<u32>)
    ensures
        enumerates(list@, set@),
{
    let mut list: Vec<u32> = Vec::new();
    let ghost all: Seq<u32> = spec_hash_keys_iter(set).remaining().unref();
    for value in it: set.iter()
        invariant
            it.seq().unref() == all,
            list@ == all.take(it.index()),
    {
        list.push(*value);
    }
    assert(list@ == all);
    list
}

impl ServerState {
    /// In a state that is well formed, the entry of the peer at position `i`
    /// is the set kept at that position.
    proof fn lemma_entry(&self, i: int)
        requires
            self@.wf(),
            0 <= i < self.unack_neigh_msgs@.len(),
        ensures
            self@.peers[i] == self.unack_neigh_msgs@[i].0@,
            self@.unacked.contains_key(self.unack_neigh_msgs@[i].0@),
            self@.unacked[self.unack_neigh_msgs@[i].0@] == self.unack_neigh_msgs@[i].1@,
    {
        let ids = self.peer_ids();
        let j = ids.index_of(ids[i]);
        assert(j == i);
    }

    /// The state of a node that has just started: no address, no values, no
    /// peers.
    pub fn new() -> (state: ServerState)
        ensures
            state@ == BroadcastState::initial(),
            state@.wf(),
    {
        let state = ServerState {
            node_id: None,
            messages: HashSet::new(),
            unack_neigh_msgs: Vec::new(),
        };
        proof {
            assert(state.peer_ids() =~= Seq::<Seq<char>>::empty());
            assert(state@.unacked =~= Map::<Seq<char>, Set<u32>>::empty());
        }
        state
    }

    /// This node's address, or the fault of using it before `init`.
    pub fn identity(&self) -> (res: Result<String, Fault>)
        ensures
            match res {
                Ok(node) => self@.node_id == Some(node@),
                Err(fault) => self@.node_id is None && fault == Fault::IdentityMissing,
            },
    {
        match &self.node_id {
            Some(id) => Ok(id.clone()),
            None => Err(Fault::IdentityMissing),
        }
    }

    /// Says whether the state is well formed. Every state that this module
    /// hands out is; the test is there for a caller that wants to see it
    /// before it relies on it.
    pub fn is_well_formed(&self) -> (ok: bool)
        ensures
            ok == self@.wf(),
    {
        let ghost ids = self.peer_ids();
        proof {
            let listed = spec_hash_keys_iter(&self.messages).remaining().unref();
            vstd::seq_lib::seq_to_set_is_finite(listed);
        }
        if self.node_id.is_none() && self.unack_neigh_msgs.len() > 0 {
            return false;
        }
        for i in 0..self.unack_neigh_msgs.len()
            invariant
                ids == self.peer_ids(),
                self.messages@.finite(),
                self@.unacked.dom() =~= ids.to_set(),
                self.node_id is None ==> self.unack_neigh_msgs@.len() == 0,
                forall|a: int, b: int| 0 <= a < b < i ==> ids[a] != ids[b],
                forall|a: int| 0 <= a < i ==> Some(#[trigger] ids[a]) != self@.node_id,
                forall|a: int|
                    0 <= a < i ==> (#[trigger] self.unack_neigh_msgs@[a]).1@.subset_of(
                        self.messages@,
                    ),
        {
            let entry = &self.unack_neigh_msgs[i];
            assert(ids[i as int] == entry.0@);
            match &self.node_id {
                Some(id) => {
                    if entry.0 == *id {
                        return false;
                    }
                },
                None => {},
            }
            for j in 0..i
                invariant
                    ids == self.peer_ids(),
                    i < ids.len(),
                    ids[i as int] == entry.0@,
                    forall|a: int| 0 <= a < j ==> ids[a] != ids[i as int],
            {
                assert(ids[j as int] == self.unack_neigh_msgs@[j as int].0@);
                if self.unack_neigh_msgs[j].0 == entry.0 {
                    return false;
                }
            }
            let ghost waiting = spec_hash_keys_iter(&entry.1).remaining().unref();
            for value in it: entry.1.iter()
                invariant
                    it.seq().unref() == waiting,
                    waiting.to_set() == entry.1@,
                    ids == self.peer_ids(),
                    i < ids.len(),
                    entry == self.unack_neigh_msgs@[i as int],
                    forall|k: int| 0 <= k < it.index() ==> self.messages@.contains(waiting[k]),
            {
                if !self.messages.contains(value) {
                    proof {
                        if self@.wf() {
                            self.lemma_entry(i as int);
                        }
                    }
                    return false;
                }
            }
            assert(entry.1@.subset_of(self.messages@)) by {
                assert forall|v: u32| entry.1@.contains(v) implies self.messages@.contains(v) by {
                    let k = choose|k: int| 0 <= k < waiting.len() && waiting[k] == v;
                    assert(self.messages@.contains(waiting[k]));
                }
            }
        }
        proof {
            assert forall|p: Seq<char>| #[trigger]
                self@.unacked.contains_key(p) implies self@.unacked[p].subset_of(
                self@.messages,
            ) by {
                let k = ids.index_of(p);
                assert(self.unack_neigh_msgs@[k].1@.subset_of(self.messages@));
            }
            match self@.node_id {
                Some(id) => {
                    if ids.contains(id) {
                        let k = choose|k: int| 0 <= k < ids.len() && ids[k] == id;
                        assert(Some(ids[k]) != self@.node_id);
                    }
                },
                None => {},
            }
        }
        true
    }

    /// The addresses of the peers, in the order in which a resend pass
    /// visits them.
    pub fn peers(&self) -> (list: Vec<String>)
        ensures
            list.deep_view() == self@.peers,
    {
        let mut list: Vec<String> = Vec::new();
        for i in 0..self.unack_neigh_msgs.len()
            invariant
                list@.len() == i,
                forall|j: int|
                    0 <= j < i ==> (#[trigger] list@[j])@ == self.unack_neigh_msgs@[j].0@,
        {
            list.push(self.unack_neigh_msgs[i].0.clone());
        }
        list
    }

    /// Says whether the node knows `value`.
    pub fn contains(&self, value: u32) -> (known: bool)
        ensures
            known == self@.messages.contains(value),
    {
        self.messages.contains(&value)
    }

    /// The values the node knows, each once.
    pub fn values(&self) -> (list: Vec<u32>)
        ensures
            enumerates(list@, self@.messages),
    {
        enumerate(&self.messages)
    }
}

impl ServerState {
    /// Gives a node without an address the address `node_id` and, as peers,
    /// the other nodes that `node_ids` names. A node that has an address
    /// keeps it, and its peers with it.
    pub fn start(&mut self, node_id: String, node_ids: &Vec<String>)
        requires
            old(self)@.wf(),
        ensures
            final(self)@ == old(self)@.start(node_id@, node_ids.deep_view()),
            final(self)@.wf(),
    {
        if self.node_id.is_some() {
            return ;
        }
        let ghost names = node_ids.deep_view();
        let mut entries: Vec<(String, HashSet<u32>)> = Vec::new();
        for i in 0..node_ids.len()
            invariant
                names == node_ids.deep_view(),
                ids_of(entries@) == peers_of(node_id@, names.take(i as int)),
                forall|k: int| 0 <= k < entries@.len() ==> (#[trigger] entries@[k]).1@.is_empty(),
        {
            let id = &node_ids[i];
            let ghost before = ids_of(entries@);
            proof {
                assert(names.take(i + 1).drop_last() =~= names.take(i as int));
            }
            if !(*id == node_id) {
                match position(&entries, id) {
                    Some(k) => {
                        assert(before[k as int] == id@);
                    },
                    None => {
                        entries.push((id.clone(), HashSet::new()));
                        assert(ids_of(entries@) =~= before.push(id@));
                    },
                }
            }
        }
        proof {
            assert(names.take(names.len() as int) =~= names);
            lemma_peers_of(node_id@, names);
        }
        self.node_id = Some(node_id);
        self.unack_neigh_msgs = entries;
        proof {
            let peers = self.peer_ids();
            let expected = old(self)@.start(node_id@, names);
            assert forall|p: Seq<char>| peers.contains(p) implies self@.unacked[p]
                =~= Set::<u32>::empty() by {
                let k = peers.index_of(p);
                assert(self.unack_neigh_msgs@[k].1@.is_empty());
            }
            assert(self@.unacked =~= expected.unacked);
        }
    }

    /// Adds `values` to the known values.
    pub fn merge(&mut self, values: &Vec<u32>)
        requires
            old(self)@.wf(),
        ensures
            final(self)@ == old(self)@.merge(values@),
            final(self)@.wf(),
    {
        for i in 0..values.len()
            invariant
                self.node_id == old(self).node_id,
                self.unack_neigh_msgs == old(self).unack_neigh_msgs,
                self.messages@ == old(self).messages@.union(values@.take(i as int).to_set()),
        {
            proof {
                assert(values@.take(i + 1) =~= values@.take(i as int).push(values@[i as int]));
                assert(values@.take(i + 1).to_set() =~= values@.take(i as int).to_set().insert(
                    values@[i as int],
                )) by {
                    values@.take(i as int).lemma_push_to_set_commute(values@[i as int]);
                }
            }
            self.messages.insert(values[i]);
        }
        proof {
            assert(values@.take(values@.len() as int) =~= values@);
            vstd::seq_lib::seq_to_set_is_finite(values@);
        }
    }

    /// Adds `value` to the known values and to what every peer has yet to
    /// acknowledge.
    pub fn broadcast(&mut self, value: u32)
        requires
            old(self)@.wf(),
        ensures
            final(self)@ == old(self)@.broadcast(value),
            final(self)@.wf(),
    {
        self.messages.insert(value);
        let n = self.unack_neigh_msgs.len();
        for i in 0..n
            invariant
                n == self.unack_neigh_msgs@.len(),
                self.node_id == old(self).node_id,
                self.messages@ == old(self).messages@.insert(value),
                self.unack_neigh_msgs@.len() == old(self).unack_neigh_msgs@.len(),
                forall|j: int|
                    0 <= j < n ==> (#[trigger] self.unack_neigh_msgs@[j]).0@ == old(
                        self,
                    ).unack_neigh_msgs@[j].0@,
                forall|j: int|
                    0 <= j < i ==> (#[trigger] self.unack_neigh_msgs@[j]).1@ == old(
                        self,
                    ).unack_neigh_msgs@[j].1@.insert(value),
                forall|j: int|
                    i <= j < n ==> (#[trigger] self.unack_neigh_msgs@[j]).1@ == old(
                        self,
                    ).unack_neigh_msgs@[j].1@,
        {
            self.unack_neigh_msgs[i].1.insert(value);
        }
        proof {
            let expected = old(self)@.broadcast(value);
            assert(self.peer_ids() =~= old(self).peer_ids());
            assert forall|p: Seq<char>| self.peer_ids().contains(p) implies self@.unacked[p]
                == expected.unacked[p] by {
                let k = self.peer_ids().index_of(p);
                assert(self.unack_neigh_msgs@[k].1@ == old(self).unack_neigh_msgs@[k].1@.insert(
                    value,
                ));
            }
            assert(self@.unacked =~= expected.unacked);
        }
    }

    /// Takes the values that `peer` acknowledges out of what it has yet to
    /// acknowledge. A sender that is no peer changes nothing.
    pub fn acknowledge(&mut self, peer: &String, values: &Vec<u32>)
        requires
            old(self)@.wf(),
        ensures
            final(self)@ == old(self)@.acknowledge(peer@, values@),
            final(self)@.wf(),
    {
        let slot = match position(&self.unack_neigh_msgs, peer) {
            Some(slot) => slot,
            None => {
                return ;
            },
        };
        proof {
            old(self).lemma_entry(slot as int);
        }
        for i in 0..values.len()
            invariant
                slot < self.unack_neigh_msgs@.len(),
                self.node_id == old(self).node_id,
                self.messages == old(self).messages,
                self.unack_neigh_msgs@.len() == old(self).unack_neigh_msgs@.len(),
                forall|j: int|
                    0 <= j < self.unack_neigh_msgs@.len() ==> (
                    #[trigger] self.unack_neigh_msgs@[j]).0@ == old(self).unack_neigh_msgs@[j].0@,
                forall|j: int|
                    0 <= j < self.unack_neigh_msgs@.len() && j != slot
                        ==> (#[trigger] self.unack_neigh_msgs@[j]).1@ == old(
                        self,
                    ).unack_neigh_msgs@[j].1@,
                self.unack_neigh_msgs@[slot as int].1@ == old(
                    self,
                ).unack_neigh_msgs@[slot as int].1@.difference(values@.take(i as int).to_set()),
        {
            proof {
                assert(values@.take(i + 1) =~= values@.take(i as int).push(values@[i as int]));
                values@.take(i as int).lemma_push_to_set_commute(values@[i as int]);
            }
            self.unack_neigh_msgs[slot].1.remove(&values[i]);
        }
        proof {
            let expected = old(self)@.acknowledge(peer@, values@);
            assert(values@.take(values@.len() as int) =~= values@);
            assert(self.peer_ids() =~= old(self).peer_ids());
            assert forall|p: Seq<char>| self.peer_ids().contains(p) implies self@.unacked[p]
                == expected.unacked[p] by {
                let k = self.peer_ids().index_of(p);
                old(self).lemma_entry(k);
            }
            assert(self@.unacked =~= expected.unacked);
        }
    }

    /// Says whether `value` still awaits the acknowledgment of `peer`.
    pub fn is_unacked(&self, peer: &String, value: u32) -> (waiting: bool)
        requires
            self@.wf(),
        ensures
            waiting == (self@.unacked.contains_key(peer@) && self@.unacked[peer@].contains(value)),
    {
        match position(&self.unack_neigh_msgs, peer) {
            Some(slot) => {
                proof {
                    self.lemma_entry(slot as int);
                }
                self.unack_neigh_msgs[slot].1.contains(&value)
            },
            None => false,
        }
    }
}

/// A set of values on its way from one node to another, or the
/// acknowledgment of one.
#[derive(Clone, Debug, PartialEq, Eq)]
pub struct Whisper {
    pub messages: Vec<u32>,
}

/// What a message between nodes carries.
#[derive(Clone, Debug, PartialEq, Eq)]
pub enum InterNodeBody {
    WhisperOk(Whisper),
    Whisper(Whisper),
}

/// A message between nodes.
#[derive(Clone, Debug, PartialEq, Eq)]
pub struct InterNodeMsg {
    pub src: String,
    pub dest: String,
    pub body: InterNodeBody,
}

/// The mathematical content of an [`InterNodeBody`].
pub enum InterNodeBodyView {
    WhisperOk(Seq<u32>),
    Whisper(Seq<u32>),
}

/// The mathematical content of an [`InterNodeMsg`].
pub struct InterNodeMsgView {
    pub src: Seq<char>,
    pub dest: Seq<char>,
    pub body: InterNodeBodyView,
}

impl View for Whisper {
    type V = Seq<u32>;

    open spec fn view(&self) -> Seq<u32> {
        self.messages@
    }
}

impl View for InterNodeBody {
    type V = InterNodeBodyView;

    open spec fn view(&self) -> InterNodeBodyView {
        match *self {
            InterNodeBody::WhisperOk(whisper) => InterNodeBodyView::WhisperOk(whisper@),
            InterNodeBody::Whisper(whisper) => InterNodeBodyView::Whisper(whisper@),
        }
    }
}

impl View for InterNodeMsg {
    type V = InterNodeMsgView;

    open spec fn view(&self) -> InterNodeMsgView {
        InterNodeMsgView { src: self.src@, dest: self.dest@, body: self.body@ }
    }
}

impl DeepView for InterNodeMsg {
    type V = InterNodeMsgView;

    open spec fn deep_view(&self) -> InterNodeMsgView {
        self@
    }
}

/// Acknowledgment of `init`.
#[derive(Clone, Copy, Debug, PartialEq, Eq, Structural)]
pub struct Init {
    pub in_reply_to: u32,
}

/// Answer to `echo`.
#[derive(Clone, Debug, PartialEq, Eq)]
pub struct Echo {
    pub in_reply_to: u32,
    pub msg_id: u32,
    pub echo: String,
}

/// Answer to `generate`.
#[derive(Clone, Debug, PartialEq, Eq)]
pub struct Generate {
    pub in_reply_to: u32,
    pub id: String,
}

/// Acknowledgment of `broadcast`.
#[derive(Clone, Copy, Debug, PartialEq, Eq, Structural)]
pub struct Broadcast {
    pub in_reply_to: u32,
}

/// Answer to `read`: the values the node knows.
#[derive(Clone, Debug, PartialEq, Eq)]
pub struct Read {
    pub in_reply_to: u32,
    pub messages: Vec<u32>,
}

/// Acknowledgment of `topology`.
#[derive(Clone, Copy, Debug, PartialEq, Eq, Structural)]
pub struct Topology {
    pub in_reply_to: u32,
}

/// What a message from the node to a client carries.
#[derive(Clone, Debug, PartialEq, Eq)]
pub enum ServerToClientBody {
    InitOk(Init),
    EchoOk(Echo),
    GenerateOk(Generate),
    BroadcastOk(Broadcast),
    ReadOk(Read),
    TopologyOk(Topology),
}

/// A message from the node to a client.
#[derive(Clone, Debug, PartialEq, Eq)]
pub struct ServerToClientMsg {
    pub src: String,
    pub dest: String,
    pub body: ServerToClientBody,
}

/// The mathematical content of a [`ServerToClientBody`].
pub enum ServerToClientBodyView {
    InitOk { in_reply_to: u32 },
    EchoOk { in_reply_to: u32, msg_id: u32, echo: Seq<char> },
    GenerateOk { in_reply_to: u32, id: Seq<char> },
    BroadcastOk { in_reply_to: u32 },
    ReadOk { in_reply_to: u32, messages: Seq<u32> },
    TopologyOk { in_reply_to: u32 },
}

/// The mathematical content of a [`ServerToClientMsg`].
pub struct ServerToClientMsgView {
    pub src: Seq<char>,
    pub dest: Seq<char>,
    pub body: ServerToClientBodyView,
}

impl View for ServerToClientBody {
    type V = ServerToClientBodyView;

    open spec fn view(&self) -> ServerToClientBodyView {
        match *self {
            ServerToClientBody::InitOk(init) => ServerToClientBodyView::InitOk {
                in_reply_to: init.in_reply_to,
            },
            ServerToClientBody::EchoOk(echo) => ServerToClientBodyView::EchoOk {
                in_reply_to: echo.in_reply_to,
                msg_id: echo.msg_id,
                echo: echo.echo@,
            },
            ServerToClientBody::GenerateOk(generate) => ServerToClientBodyView::GenerateOk {
                in_reply_to: generate.in_reply_to,
                id: generate.id@,
            },
            ServerToClientBody::BroadcastOk(broadcast) => ServerToClientBodyView::BroadcastOk {
                in_reply_to: broadcast.in_reply_to,
            },
            ServerToClientBody::ReadOk(read) => ServerToClientBodyView::ReadOk {
                in_reply_to: read.in_reply_to,
                messages: read.messages@,
            },
            ServerToClientBody::TopologyOk(topology) => ServerToClientBodyView::TopologyOk {
                in_reply_to: topology.in_reply_to,
            },
        }
    }
}

impl View for ServerToClientMsg {
    type V = ServerToClientMsgView;

    open spec fn view(&self) -> ServerToClientMsgView {
        ServerToClientMsgView { src: self.src@, dest: self.dest@, body: self.body@ }
    }
}

impl DeepView for ServerToClientMsg {
    type V = ServerToClientMsgView;

    open spec fn deep_view(&self) -> ServerToClientMsgView {
        self@
    }
}

/// What a resend pass may emit in state `s`: one whisper for each peer that
/// has something to acknowledge, in the order of the peers, holding each
/// value that the peer has not acknowledged once.
pub open spec fn resends(s: BroadcastState, out: Seq<InterNodeMsgView>) -> bool {
    &&& out.len() == s.due().len()
    &&& forall|k: int|
        0 <= k < out.len() ==> {
            &&& Some((#[trigger] out[k]).src) == s.node_id
            &&& out[k].dest == s.due()[k]
            &&& out[k].body matches InterNodeBodyView::Whisper(list) && enumerates(
                list,
                s.unacked[s.due()[k]],
            )
        }
}

impl ServerState {
    /// The whispers of one resend pass. The pass changes nothing: a value
    /// stays in a peer's entry until that peer acknowledges it.
    pub fn send_unack(&self) -> (out: Vec<InterNodeMsg>)
        requires
            self@.wf(),
        ensures
            resends(self@, out.deep_view()),
    {
        let mut out: Vec<InterNodeMsg> = Vec::new();
        let ghost s = self@;
        let ghost waiting = |p: Seq<char>| !s.unacked[p].is_empty();
        proof {
            reveal(Seq::filter);
        }
        let node = match &self.node_id {
            Some(id) => id,
            None => {
                proof {
                    assert(s.peers.take(0) =~= s.peers);
                }
                return out;
            },
        };
        for i in 0..self.unack_neigh_msgs.len()
            invariant
                s == self@,
                s.wf(),
                s.node_id == Some(node@),
                waiting == |p: Seq<char>| !s.unacked[p].is_empty(),
                out@.len() == s.peers.take(i as int).filter(waiting).len(),
                forall|k: int|
                    0 <= k < out@.len() ==> {
                        &&& (#[trigger] out@[k]).src@ == node@
                        &&& out@[k].dest@ == s.peers.take(i as int).filter(waiting)[k]
                        &&& out@[k].body@ matches InterNodeBodyView::Whisper(list) && enumerates(
                            list,
                            s.unacked[out@[k].dest@],
                        )
                    },
        {
            let entry = &self.unack_neigh_msgs[i];
            proof {
                reveal(Seq::filter);
                self.lemma_entry(i as int);
                assert(s.peers.take(i + 1).drop_last() =~= s.peers.take(i as int));
            }
            if !entry.1.is_empty() {
                out.push(
                    InterNodeMsg {
                        src: node.clone(),
                        dest: entry.0.clone(),
                        body: InterNodeBody::Whisper(Whisper { messages: enumerate(&entry.1) }),
                    },
                );
            }
        }
        proof {
            assert(s.peers.take(s.peers.len() as int) =~= s.peers);
            assert forall|k: int| 0 <= k < out.deep_view().len() implies {
                &&& Some((#[trigger] out.deep_view()[k]).src) == s.node_id
                &&& out.deep_view()[k].dest == s.due()[k]
                &&& out.deep_view()[k].body matches InterNodeBodyView::Whisper(list) && enumerates(
                    list,
                    s.unacked[s.due()[k]],
                )
            } by {
                assert(out.deep_view()[k] == out@[k]@);
            }
        }
        out
    }
}

/// What a node in state `s` does with a message from another node: a
/// whisper is merged and acknowledged by the values it named, an
/// acknowledgment clears the sender's entry of the values it names.
pub open spec fn peer_step(s: BroadcastState, m: InterNodeMsgView) -> Result<
    (BroadcastState, Option<InterNodeMsgView>),
    Fault,
> {
    match m.body {
        InterNodeBodyView::WhisperOk(values) => Ok((s.acknowledge(m.src, values), None)),
        InterNodeBodyView::Whisper(values) => match s.node_id {
            None => Err(Fault::IdentityMissing),
            Some(node) => Ok(
                (
                    s.merge(values),
                    Some(
                        InterNodeMsgView {
                            src: node,
                            dest: m.src,
                            body: InterNodeBodyView::WhisperOk(values),
                        },
                    ),
                ),
            ),
        },
    }
}

impl InterNodeMsg {
    /// Handles a message from another node.
    ///
    /// On success the state has moved as [`peer_step`] says and the result
    /// is the reply to send, if there is one. On a fault the state is as it
    /// was. Either way the node knows afterwards what it knew before.
    pub fn process_inter_node_msg(self, server_state: &mut ServerState) -> (res: Result<
        Option<InterNodeMsg>,
        Fault,
    >)
        requires
            old(server_state)@.wf(),
        ensures
            final(server_state)@.wf(),
            old(server_state)@.messages.subset_of(final(server_state)@.messages),
            match res {
                Ok(reply) => peer_step(old(server_state)@, self@) == Ok::<
                    (BroadcastState, Option<InterNodeMsgView>),
                    Fault,
                >((final(server_state)@, reply.deep_view())),
                Err(fault) => peer_step(old(server_state)@, self@) == Err::<
                    (BroadcastState, Option<InterNodeMsgView>),
                    Fault,
                >(fault) && final(server_state)@ == old(server_state)@,
            },
    {
        match self.body {
            InterNodeBody::WhisperOk(whisper) => {
                server_state.acknowledge(&self.src, &whisper.messages);
                Ok(None)
            },
            InterNodeBody::Whisper(whisper) => {
                let node = server_state.identity()?;
                server_state.merge(&whisper.messages);
                Ok(
                    Some(
                        InterNodeMsg {
                            src: node,
                            dest: self.src,
                            body: InterNodeBody::WhisperOk(whisper),
                        },
                    ),
                )
            },
        }
    }
}

/// The reply that `node` sends to `client` in the broadcast deployment.
pub open spec fn server_reply(
    node: Seq<char>,
    client: Seq<char>,
    body: ServerToClientBodyView,
) -> ServerToClientMsgView {
    ServerToClientMsgView { src: node, dest: client, body }
}

/// The state in which a client's message leaves a node in state `s`.
/// Payloads that are no request of this deployment change nothing.
pub open spec fn request_step(s: BroadcastState, m: ClientMessageView) -> Result<
    BroadcastState,
    Fault,
> {
    match m.body {
        ClientPayloadView::Init { node_id, node_ids, .. } => Ok(s.start(node_id, node_ids)),
        ClientPayloadView::Topology { .. } => if s.node_id is None {
            Err(Fault::IdentityMissing)
        } else {
            Ok(s)
        },
        ClientPayloadView::Broadcast { message, .. } => if s.node_id is None {
            Err(Fault::IdentityMissing)
        } else {
            Ok(s.broadcast(message))
        },
        ClientPayloadView::Read { .. } => if s.node_id is None {
            Err(Fault::IdentityMissing)
        } else {
            Ok(s)
        },
        _ => Ok(s),
    }
}

/// What a node in state `s` may answer to a client's message that it
/// accepts. Every request of this deployment is answered by one message;
/// the answer to `read` lists each known value once, in no fixed order.
/// Payloads that are no request of this deployment get no answer.
pub open spec fn request_replies(
    s: BroadcastState,
    m: ClientMessageView,
    out: Seq<ServerToClientMsgView>,
) -> bool {
    match m.body {
        ClientPayloadView::Init { msg_id, node_id, node_ids } => out == seq![
            server_reply(
                s.start(node_id, node_ids).node_id->0,
                m.src,
                ServerToClientBodyView::InitOk { in_reply_to: msg_id },
            ),
        ],
        ClientPayloadView::Topology { msg_id, .. } => out == seq![
            server_reply(
                s.node_id->0,
                m.src,
                ServerToClientBodyView::TopologyOk { in_reply_to: msg_id },
            ),
        ],
        ClientPayloadView::Broadcast { msg_id, .. } => out == seq![
            server_reply(
                s.node_id->0,
                m.src,
                ServerToClientBodyView::BroadcastOk { in_reply_to: msg_id },
            ),
        ],
        ClientPayloadView::Read { msg_id } => {
            &&& out.len() == 1
            &&& Some(out[0].src) == s.node_id
            &&& out[0].dest == m.src
            &&& out[0].body matches ServerToClientBodyView::ReadOk { in_reply_to, messages }
                && in_reply_to == msg_id && enumerates(messages, s.messages)
        },
        _ => out.len() == 0,
    }
}

impl ClientMessage {
    /// Handles a client's message in the broadcast deployment.
    ///
    /// On success the state has moved as [`request_step`] says and the
    /// result holds the answer, as [`request_replies`] describes it. On a
    /// fault the state is as it was. Either way the node knows afterwards
    /// what it knew before.
    pub fn handle_client_message(self, server_state: &mut ServerState) -> (res: Result<
        Vec<ServerToClientMsg>,
        Fault,
    >)
        requires
            old(server_state)@.wf(),
        ensures
            final(server_state)@.wf(),
            old(server_state)@.messages.subset_of(final(server_state)@.messages),
            match res {
                Ok(out) => request_step(old(server_state)@, self@) == Ok::<BroadcastState, Fault>(
                    final(server_state)@,
                ) && request_replies(old(server_state)@, self@, out.deep_view()),
                Err(fault) => request_step(old(server_state)@, self@) == Err::<
                    BroadcastState,
                    Fault,
                >(fault) && final(server_state)@ == old(server_state)@,
            },
    {
        let ClientMessage { id: _, src, dest: _, body } = self;
        let mut out: Vec<ServerToClientMsg> = Vec::new();
        let reply = match body {
            ClientPayload::Init { msg_id, node_id, node_ids } => {
                server_state.start(node_id, &node_ids);
                ServerToClientBody::InitOk(Init { in_reply_to: msg_id })
            },
            ClientPayload::Topology { msg_id, topology: _ } => {
                ServerToClientBody::TopologyOk(Topology { in_reply_to: msg_id })
            },
            ClientPayload::Broadcast { msg_id, message } => {
                let _ = server_state.identity()?;
                server_state.broadcast(message);
                ServerToClientBody::BroadcastOk(Broadcast { in_reply_to: msg_id })
            },
            ClientPayload::Read { msg_id } => {
                ServerToClientBody::ReadOk(
                    Read { in_reply_to: msg_id, messages: server_state.values() },
                )
            },
            _ => {
                return Ok(out);
            },
        };
        let node = server_state.identity()?;
        out.push(ServerToClientMsg { src: node, dest: src, body: reply });
        proof {
            assert(out.deep_view() =~= seq![out@[0]@]);
        }
        Ok(out)
    }
}

} // verus!
