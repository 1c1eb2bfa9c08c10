use fly_ds_challenges::client::{ClientMessage, ClientPayload};
use fly_ds_challenges::fault::Fault;
use fly_ds_challenges::pending::sum_deltas;
use fly_ds_challenges::service::{
    ServiceMsg, ServicePayload, KEY_ALREADY_EXISTS, KEY_DOES_NOT_EXIST, PRECONDITION_FAILED,
};
use fly_ds_challenges::{Msg, ServerState};
use std::collections::HashMap;

fn from_client(client: &str, body: ClientPayload) -> Msg {
    Msg::Client(ClientMessage {
        id: Some(1),
        src: client.to_string(),
        dest: "n1".to_string(),
        body,
    })
}

fn from_store(body: ServicePayload) -> Msg {
    Msg::Service(ServiceMsg {
        id: None,
        src: "seq-kv".to_string(),
        dest: "n1".to_string(),
        body,
    })
}

fn to_client(client: &str, body: ClientPayload) -> Msg {
    Msg::Client(ClientMessage {
        id: None,
        src: "n1".to_string(),
        dest: client.to_string(),
        body,
    })
}

fn to_store(body: ServicePayload) -> Msg {
    Msg::Service(ServiceMsg {
        id: None,
        src: "n1".to_string(),
        dest: "seq-kv".to_string(),
        body,
    })
}

fn init() -> Msg {
    from_client(
        "c0",
        ClientPayload::Init {
            msg_id: 1,
            node_id: "n1".to_string(),
            node_ids: vec!["n1".to_string(), "n2".to_string()],
        },
    )
}

fn started() -> ServerState {
    let mut state = ServerState::new();
    let out = init().process(&mut state).unwrap();
    assert_eq!(out, vec![to_client("c0", ClientPayload::InitOk { in_reply_to: 1 })]);
    state
}

fn add(msg_id: u32, delta: u32) -> Msg {
    from_client("c1", ClientPayload::Add { msg_id, delta })
}

fn key() -> String {
    "counter".to_string()
}

fn pending(entries: &[(u32, u32)]) -> HashMap<u32, u32> {
    entries.iter().cloned().collect()
}

#[test]
fn new_state_is_empty() {
    let state = ServerState::new();
    assert_eq!(state.node_id, None);
    assert_eq!(state.msg_id, 0);
    assert_eq!(state.last_seen_counter, 0);
    assert!(state.uncommited_deltas.is_empty());
    assert_eq!(state.total(), Some(0));
    let other = ServerState::default();
    assert_eq!(other.node_id, None);
    assert_eq!(other.msg_id, 0);
}

#[test]
fn init_assigns_identity_and_acknowledges() {
    let state = started();
    assert_eq!(state.node_id, Some("n1".to_string()));
    assert_eq!(state.identity(), Ok("n1".to_string()));
    assert_eq!(state.msg_id, 0);
}

#[test]
fn second_init_keeps_identity() {
    let mut state = started();
    let again = from_client(
        "c9",
        ClientPayload::Init { msg_id: 7, node_id: "n5".to_string(), node_ids: vec![] },
    );
    let out = again.process(&mut state).unwrap();
    assert_eq!(state.node_id, Some("n1".to_string()));
    assert_eq!(out, vec![to_client("c9", ClientPayload::InitOk { in_reply_to: 7 })]);
}

#[test]
fn topology_is_acknowledged() {
    let mut state = started();
    let topology = from_client(
        "c2",
        ClientPayload::Topology {
            msg_id: 3,
            topology: vec![("n1".to_string(), vec!["n2".to_string()])],
        },
    );
    let out = topology.process(&mut state).unwrap();
    assert_eq!(out, vec![to_client("c2", ClientPayload::TopologyOk { in_reply_to: 3 })]);
    assert_eq!(state.msg_id, 0);
    assert!(state.uncommited_deltas.is_empty());
}

#[test]
fn requests_before_init_are_faults() {
    let requests = vec![
        from_client("c1", ClientPayload::Topology { msg_id: 1, topology: vec![] }),
        from_client("c1", ClientPayload::Read { msg_id: 1 }),
        add(1, 5),
        from_store(ServicePayload::ReadOk { value: 3, in_reply_to: 1 }),
        from_store(ServicePayload::WriteOk { in_reply_to: 1 }),
        from_store(ServicePayload::CasOk { in_reply_to: 1 }),
        from_store(ServicePayload::Error {
            in_reply_to: 1,
            code: KEY_DOES_NOT_EXIST,
            text: String::new(),
        }),
        from_store(ServicePayload::Error {
            in_reply_to: 1,
            code: KEY_ALREADY_EXISTS,
            text: String::new(),
        }),
        from_store(ServicePayload::Error {
            in_reply_to: 1,
            code: PRECONDITION_FAILED,
            text: String::new(),
        }),
    ];
    for request in requests {
        let mut state = ServerState::new();
        assert_eq!(request.process(&mut state), Err(Fault::IdentityMissing));
        assert_eq!(state.node_id, None);
        assert_eq!(state.msg_id, 0);
        assert_eq!(state.last_seen_counter, 0);
        assert!(state.uncommited_deltas.is_empty());
    }
}

#[test]
fn first_add_writes_the_delta() {
    let mut state = started();
    let out = add(4, 5).process(&mut state).unwrap();
    assert_eq!(
        out,
        vec![
            to_client("c1", ClientPayload::AddOk { in_reply_to: 4 }),
            to_store(ServicePayload::Write { msg_id: 1, key: key(), value: 5 }),
        ]
    );
    assert_eq!(state.msg_id, 1);
    assert_eq!(state.last_seen_counter, 0);
    assert_eq!(state.uncommited_deltas, pending(&[(1, 5)]));
    assert_eq!(state.total(), Some(5));
}

#[test]
fn later_add_compares_and_sets() {
    let mut state = started();
    state.last_seen_counter = 10;
    state.msg_id = 6;
    let out = add(9, 4).process(&mut state).unwrap();
    assert_eq!(
        out,
        vec![
            to_client("c1", ClientPayload::AddOk { in_reply_to: 9 }),
            to_store(ServicePayload::Cas { msg_id: 7, key: key(), from: 10, to: 14 }),
        ]
    );
    assert_eq!(state.msg_id, 7);
    assert_eq!(state.last_seen_counter, 10);
    assert_eq!(state.uncommited_deltas, pending(&[(7, 4)]));
    assert_eq!(state.total(), Some(14));
}

#[test]
fn read_answers_with_the_local_total_and_asks_the_store() {
    let mut state = started();
    state.last_seen_counter = 10;
    state.msg_id = 2;
    state.uncommited_deltas = pending(&[(1, 5), (2, 3)]);
    let out = from_client("c3", ClientPayload::Read { msg_id: 11 }).process(&mut state).unwrap();
    assert_eq!(
        out,
        vec![
            to_client("c3", ClientPayload::ReadOk { in_reply_to: 11, value: 18 }),
            to_store(ServicePayload::Read { msg_id: 3, key: key() }),
        ]
    );
    assert_eq!(state.msg_id, 3);
    assert_eq!(state.last_seen_counter, 10);
    assert_eq!(state.uncommited_deltas, pending(&[(1, 5), (2, 3)]));
}

#[test]
fn read_ok_without_pending_only_refreshes() {
    let mut state = started();
    state.last_seen_counter = 4;
    let out = from_store(ServicePayload::ReadOk { value: 9, in_reply_to: 1 })
        .process(&mut state)
        .unwrap();
    assert_eq!(out, vec![]);
    assert_eq!(state.last_seen_counter, 9);
    assert_eq!(state.msg_id, 0);
}

#[test]
fn read_ok_with_the_same_value_is_accepted() {
    let mut state = started();
    state.last_seen_counter = 4;
    let out = from_store(ServicePayload::ReadOk { value: 4, in_reply_to: 1 })
        .process(&mut state)
        .unwrap();
    assert_eq!(out, vec![]);
    assert_eq!(state.last_seen_counter, 4);
}

#[test]
fn read_ok_below_last_confirmed_is_a_fault() {
    let mut state = started();
    state.last_seen_counter = 10;
    state.msg_id = 1;
    state.uncommited_deltas = pending(&[(1, 2)]);
    let res = from_store(ServicePayload::ReadOk { value: 9, in_reply_to: 1 }).process(&mut state);
    assert_eq!(res, Err(Fault::CounterRegressed));
    assert_eq!(state.last_seen_counter, 10);
    assert_eq!(state.msg_id, 1);
    assert_eq!(state.uncommited_deltas, pending(&[(1, 2)]));
}

#[test]
fn last_confirmed_never_decreases() {
    let mut state = started();
    let trace = vec![
        add(1, 5),
        from_store(ServicePayload::WriteOk { in_reply_to: 1 }),
        add(2, 3),
        from_store(ServicePayload::Error {
            in_reply_to: 2,
            code: PRECONDITION_FAILED,
            text: "conflict".to_string(),
        }),
        from_store(ServicePayload::ReadOk { value: 14, in_reply_to: 3 }),
        from_client("c1", ClientPayload::Read { msg_id: 3 }),
        from_store(ServicePayload::CasOk { in_reply_to: 4 }),
        from_store(ServicePayload::ReadOk { value: 17, in_reply_to: 5 }),
        from_store(ServicePayload::ReadOk { value: 16, in_reply_to: 5 }),
        from_store(ServicePayload::ReadOk { value: 20, in_reply_to: 5 }),
    ];
    let mut last = state.last_seen_counter;
    let mut seen = Vec::new();
    for message in trace {
        let _ = message.process(&mut state);
        assert!(state.last_seen_counter >= last);
        last = state.last_seen_counter;
        seen.push(last);
    }
    assert_eq!(seen, vec![0, 5, 5, 5, 14, 14, 17, 17, 17, 20]);
}

#[test]
fn acknowledgment_confirms_the_delta() {
    let mut state = started();
    state.last_seen_counter = 10;
    state.msg_id = 3;
    state.uncommited_deltas = pending(&[(2, 4), (3, 1)]);
    let out = from_store(ServicePayload::CasOk { in_reply_to: 2 }).process(&mut state).unwrap();
    assert_eq!(out, vec![]);
    assert_eq!(state.last_seen_counter, 14);
    assert_eq!(state.uncommited_deltas, pending(&[(3, 1)]));
    assert_eq!(state.total(), Some(15));
    let out = from_store(ServicePayload::WriteOk { in_reply_to: 3 }).process(&mut state).unwrap();
    assert_eq!(out, vec![]);
    assert_eq!(state.last_seen_counter, 15);
    assert!(state.uncommited_deltas.is_empty());
    assert_eq!(state.total(), Some(15));
}

#[test]
fn acknowledgment_of_an_unknown_id_changes_nothing() {
    let mut state = started();
    state.last_seen_counter = 10;
    state.msg_id = 3;
    state.uncommited_deltas = pending(&[(3, 1)]);
    let out = from_store(ServicePayload::CasOk { in_reply_to: 2 }).process(&mut state).unwrap();
    assert_eq!(out, vec![]);
    assert_eq!(state.last_seen_counter, 10);
    assert_eq!(state.uncommited_deltas, pending(&[(3, 1)]));
}

#[test]
fn missing_key_is_established_with_zero() {
    let mut state = started();
    state.msg_id = 4;
    state.uncommited_deltas = pending(&[(3, 6)]);
    let out = from_store(ServicePayload::Error {
        in_reply_to: 4,
        code: 20,
        text: "key does not exist".to_string(),
    })
    .process(&mut state)
    .unwrap();
    assert_eq!(out, vec![to_store(ServicePayload::Write { msg_id: 4, key: key(), value: 0 })]);
    assert_eq!(state.msg_id, 4);
    assert_eq!(state.last_seen_counter, 0);
    assert_eq!(state.uncommited_deltas, pending(&[(3, 6)]));
}

#[test]
fn existing_key_is_a_fault() {
    let mut state = started();
    state.msg_id = 4;
    state.uncommited_deltas = pending(&[(3, 6)]);
    let res = from_store(ServicePayload::Error {
        in_reply_to: 4,
        code: 21,
        text: "key already exists".to_string(),
    })
    .process(&mut state);
    assert_eq!(res, Err(Fault::KeyAlreadyExists));
    assert_eq!(state.msg_id, 4);
    assert_eq!(state.uncommited_deltas, pending(&[(3, 6)]));
}

#[test]
fn failed_precondition_reads_again() {
    let mut state = started();
    state.last_seen_counter = 10;
    state.msg_id = 4;
    state.uncommited_deltas = pending(&[(4, 6)]);
    let out = from_store(ServicePayload::Error {
        in_reply_to: 4,
        code: 22,
        text: "precondition failed".to_string(),
    })
    .process(&mut state)
    .unwrap();
    assert_eq!(out, vec![to_store(ServicePayload::Read { msg_id: 5, key: key() })]);
    assert_eq!(state.msg_id, 5);
    assert_eq!(state.last_seen_counter, 10);
    assert_eq!(state.uncommited_deltas, pending(&[(4, 6)]));
}

#[test]
fn unknown_error_codes_are_ignored() {
    for code in [0, 1, 10, 19, 23, 30, u32::MAX] {
        let mut state = started();
        state.msg_id = 4;
        state.uncommited_deltas = pending(&[(4, 6)]);
        let out = from_store(ServicePayload::Error {
            in_reply_to: 4,
            code,
            text: "other".to_string(),
        })
        .process(&mut state)
        .unwrap();
        assert_eq!(out, vec![]);
        assert_eq!(state.msg_id, 4);
        assert_eq!(state.uncommited_deltas, pending(&[(4, 6)]));
        let mut blank = ServerState::new();
        let out = from_store(ServicePayload::Error { in_reply_to: 4, code, text: String::new() })
            .process(&mut blank)
            .unwrap();
        assert_eq!(out, vec![]);
    }
}

#[test]
fn payloads_of_no_handler_are_dropped() {
    let dropped = vec![
        from_client("c1", ClientPayload::InitOk { in_reply_to: 1 }),
        from_client("c1", ClientPayload::TopologyOk { in_reply_to: 1 }),
        from_client("c1", ClientPayload::ReadOk { in_reply_to: 1, value: 3 }),
        from_client("c1", ClientPayload::AddOk { in_reply_to: 1 }),
        from_client("c1", ClientPayload::Broadcast { msg_id: 1, message: 3 }),
        from_store(ServicePayload::Read { msg_id: 1, key: key() }),
        from_store(ServicePayload::Write { msg_id: 1, key: key(), value: 2 }),
        from_store(ServicePayload::Cas { msg_id: 1, key: key(), from: 2, to: 3 }),
    ];
    for message in dropped {
        let mut state = ServerState::new();
        assert_eq!(message.clone().process(&mut state), Ok(vec![]));
        assert_eq!(state.node_id, None);
        let mut state = started();
        state.msg_id = 2;
        state.uncommited_deltas = pending(&[(2, 1)]);
        assert_eq!(message.process(&mut state), Ok(vec![]));
        assert_eq!(state.msg_id, 2);
        assert_eq!(state.uncommited_deltas, pending(&[(2, 1)]));
    }
}

#[test]
fn scenario_two_adds_coalesce_into_one_cas() {
    let previous = 10;
    let mut store = previous;
    let mut state = started();
    let first = add(1, 5).process(&mut state).unwrap();
    let second = add(2, 3).process(&mut state).unwrap();
    assert_eq!(first[0], to_client("c1", ClientPayload::AddOk { in_reply_to: 1 }));
    assert_eq!(second[0], to_client("c1", ClientPayload::AddOk { in_reply_to: 2 }));
    assert_eq!(state.uncommited_deltas, pending(&[(1, 5), (2, 3)]));
    assert_eq!(state.total(), Some(8));

    let out = from_store(ServicePayload::ReadOk { value: store, in_reply_to: 3 })
        .process(&mut state)
        .unwrap();
    assert_eq!(
        out,
        vec![to_store(ServicePayload::Cas { msg_id: 3, key: key(), from: 10, to: 18 })]
    );
    assert_eq!(state.last_seen_counter, 10);
    assert_eq!(state.uncommited_deltas, pending(&[(3, 8)]));

    if let Msg::Service(ServiceMsg { body: ServicePayload::Cas { from, to, msg_id, .. }, .. }) =
        &out[0]
    {
        assert_eq!(*from, store);
        store = *to;
        let out = from_store(ServicePayload::CasOk { in_reply_to: *msg_id })
            .process(&mut state)
            .unwrap();
        assert_eq!(out, vec![]);
    } else {
        panic!("no compare-and-set");
    }
    assert_eq!(store, previous + 8);
    assert_eq!(state.last_seen_counter, previous + 8);
    assert!(state.uncommited_deltas.is_empty());
    assert_eq!(state.total(), Some(18));
}

#[test]
fn scenario_conflict_rereads_and_retries_from_the_new_value() {
    let mut state = started();
    state.last_seen_counter = 10;
    state.msg_id = 5;
    let out = add(1, 3).process(&mut state).unwrap();
    assert_eq!(
        out[1],
        to_store(ServicePayload::Cas { msg_id: 6, key: key(), from: 10, to: 13 })
    );

    let out = from_store(ServicePayload::Error {
        in_reply_to: 6,
        code: PRECONDITION_FAILED,
        text: "current value 14 is not 10".to_string(),
    })
    .process(&mut state)
    .unwrap();
    assert_eq!(out, vec![to_store(ServicePayload::Read { msg_id: 7, key: key() })]);

    let out = from_store(ServicePayload::ReadOk { value: 14, in_reply_to: 7 })
        .process(&mut state)
        .unwrap();
    assert_eq!(
        out,
        vec![to_store(ServicePayload::Cas { msg_id: 8, key: key(), from: 14, to: 17 })]
    );
    assert_eq!(state.last_seen_counter, 14);
    assert_eq!(state.uncommited_deltas, pending(&[(8, 3)]));

    let out = from_store(ServicePayload::CasOk { in_reply_to: 8 }).process(&mut state).unwrap();
    assert_eq!(out, vec![]);
    assert_eq!(state.last_seen_counter, 17);
    assert!(state.uncommited_deltas.is_empty());
}

#[test]
fn deltas_are_conserved_across_retries() {
    let mut state = started();
    state.last_seen_counter = 100;
    state.msg_id = 10;
    let conflict = |in_reply_to: u32| {
        from_store(ServicePayload::Error {
            in_reply_to,
            code: PRECONDITION_FAILED,
            text: String::new(),
        })
    };
    let trace = vec![
        add(1, 1),
        conflict(11),
        add(2, 2),
        from_store(ServicePayload::ReadOk { value: 120, in_reply_to: 12 }),
        add(3, 4),
        conflict(14),
        conflict(15),
        from_store(ServicePayload::ReadOk { value: 130, in_reply_to: 16 }),
        add(4, 8),
        from_client("c7", ClientPayload::Read { msg_id: 5 }),
        conflict(18),
    ];
    for message in trace {
        message.process(&mut state).unwrap();
    }
    assert_eq!(sum_deltas(&state.uncommited_deltas), Some(15));
    let out = from_store(ServicePayload::ReadOk { value: 200, in_reply_to: 21 })
        .process(&mut state)
        .unwrap();
    let id = state.msg_id;
    assert_eq!(
        out,
        vec![to_store(ServicePayload::Cas { msg_id: id, key: key(), from: 200, to: 215 })]
    );
    from_store(ServicePayload::CasOk { in_reply_to: id }).process(&mut state).unwrap();
    assert_eq!(state.last_seen_counter, 215);
    assert!(state.uncommited_deltas.is_empty());
}

#[test]
fn overflow_is_a_fault_and_leaves_the_state() {
    let mut state = started();
    state.last_seen_counter = u32::MAX - 1;
    state.msg_id = 1;
    assert_eq!(add(1, 2).process(&mut state), Err(Fault::Overflow));
    assert_eq!(state.msg_id, 1);
    assert!(state.uncommited_deltas.is_empty());
    assert!(add(1, 1).process(&mut state).is_ok());
    assert_eq!(state.uncommited_deltas, pending(&[(2, 1)]));

    let mut state = started();
    state.msg_id = u32::MAX;
    assert_eq!(add(1, 2).process(&mut state), Err(Fault::Overflow));
    assert_eq!(
        from_client("c1", ClientPayload::Read { msg_id: 1 }).process(&mut state),
        Err(Fault::Overflow)
    );
    assert_eq!(
        from_store(ServicePayload::Error {
            in_reply_to: 1,
            code: PRECONDITION_FAILED,
            text: String::new()
        })
        .process(&mut state),
        Err(Fault::Overflow)
    );
    assert_eq!(state.msg_id, u32::MAX);

    let mut state = started();
    state.last_seen_counter = 1;
    state.msg_id = 1;
    state.uncommited_deltas = pending(&[(1, u32::MAX)]);
    assert_eq!(state.total(), None);
    assert_eq!(
        from_client("c1", ClientPayload::Read { msg_id: 1 }).process(&mut state),
        Err(Fault::Overflow)
    );
    assert_eq!(
        from_store(ServicePayload::CasOk { in_reply_to: 1 }).process(&mut state),
        Err(Fault::Overflow)
    );
    assert_eq!(
        from_store(ServicePayload::ReadOk { value: 1, in_reply_to: 1 }).process(&mut state),
        Err(Fault::Overflow)
    );
    assert_eq!(state.last_seen_counter, 1);
    assert_eq!(state.msg_id, 1);
    assert_eq!(state.uncommited_deltas, pending(&[(1, u32::MAX)]));

    let mut state = started();
    state.msg_id = 2;
    state.uncommited_deltas = pending(&[(1, u32::MAX), (2, 1)]);
    assert_eq!(
        from_store(ServicePayload::ReadOk { value: 0, in_reply_to: 1 }).process(&mut state),
        Err(Fault::Overflow)
    );
    assert_eq!(state.uncommited_deltas, pending(&[(1, u32::MAX), (2, 1)]));
}

#[test]
fn sum_of_pending_deltas() {
    assert_eq!(sum_deltas(&HashMap::new()), Some(0));
    assert_eq!(sum_deltas(&pending(&[(7, 9)])), Some(9));
    assert_eq!(sum_deltas(&pending(&[(1, 5), (2, 3), (9, 0), (4, 100)])), Some(108));
    assert_eq!(sum_deltas(&pending(&[(1, u32::MAX)])), Some(u32::MAX));
    assert_eq!(sum_deltas(&pending(&[(1, u32::MAX), (2, 1)])), None);
    assert_eq!(sum_deltas(&pending(&[(1, 1 << 31), (2, 1 << 31)])), None);
}

#[test]
fn store_requests_are_addressed_to_the_store() {
    assert_eq!(
        Msg::Service(ServiceMsg::read("n1".to_string(), 4)),
        to_store(ServicePayload::Read { msg_id: 4, key: key() })
    );
    assert_eq!(
        Msg::Service(ServiceMsg::write("n1".to_string(), 5, 9)),
        to_store(ServicePayload::Write { msg_id: 5, key: key(), value: 9 })
    );
    assert_eq!(
        Msg::Service(ServiceMsg::cas("n1".to_string(), 6, 1, 2)),
        to_store(ServicePayload::Cas { msg_id: 6, key: key(), from: 1, to: 2 })
    );
    let reply = ClientMessage::reply(
        "n1".to_string(),
        "c4".to_string(),
        ClientPayload::AddOk { in_reply_to: 2 },
    );
    assert_eq!(Msg::Client(reply), to_client("c4", ClientPayload::AddOk { in_reply_to: 2 }));
}

#[test]
fn error_codes_of_the_store() {
    assert_eq!(KEY_DOES_NOT_EXIST, 20);
    assert_eq!(KEY_ALREADY_EXISTS, 21);
    assert_eq!(PRECONDITION_FAILED, 22);
}
