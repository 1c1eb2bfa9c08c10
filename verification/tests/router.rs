use fly_ds_challenges::router::{classify, Category};

#[test]
fn client_requests_are_owned_by_the_client_handlers() {
    for kind in ["init", "echo", "generate", "broadcast", "read", "topology", "add"] {
        assert_eq!(classify(kind), Category::Client, "{}", kind);
    }
}

#[test]
fn gossip_is_owned_by_the_peer_handler() {
    for kind in ["whisper", "whisper_ok"] {
        assert_eq!(classify(kind), Category::Peer, "{}", kind);
    }
}

#[test]
fn store_responses_are_owned_by_the_store_handler() {
    for kind in ["read_ok", "write_ok", "cas_ok", "error"] {
        assert_eq!(classify(kind), Category::Store, "{}", kind);
    }
}

#[test]
fn other_kinds_are_owned_by_nobody() {
    let kinds = [
        "", "init_ok", "echo_ok", "generate_ok", "broadcast_ok", "topology_ok", "add_ok", "write",
        "cas", "Init", "read ", " read", "rea", "reads", "whisper_", "errors", "ok", "type",
    ];
    for kind in kinds {
        assert_eq!(classify(kind), Category::Unknown, "{:?}", kind);
    }
}
