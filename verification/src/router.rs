//! The classification of inbound messages.
//!
//! Every message names its kind in its body. The kind decides who owns the
//! message: a request of a client, gossip from another node, or a response
//! of the store. A kind that the node does not serve is owned by nobody,
//! and the message is dropped.
use vstd::prelude::*;

verus! {

/// Who owns an inbound message.
#[derive(Clone, Copy, Debug, PartialEq, Eq, Structural)]
pub enum Category {
    /// A request of a client.
    Client,
    /// Gossip from another node.
    Peer,
    /// A response of the store.
    Store,
    /// No kind that the node serves.
    Unknown,
}

/// The owner of an inbound message of kind `kind`.
pub open spec fn category_of(kind: Seq<char>) -> Category {
    if kind == "init"@ || kind == "echo"@ || kind == "generate"@ || kind == "broadcast"@ || kind
        == "read"@ || kind == "topology"@ || kind == "add"@ {
        Category::Client
    } else if kind == "whisper"@ || kind == "whisper_ok"@ {
        Category::Peer
    } else if kind == "read_ok"@ || kind == "write_ok"@ || kind == "cas_ok"@ || kind == "error"@ {
        Category::Store
    } else {
        Category::Unknown
    }
}

/// Says whether `kind` is the text `name`.
fn is_kind(kind: &String, name: &str) -> (same: bool)
    ensures
        same == (kind@ == name@),
{
    *kind == name.to_owned()
}

/// Finds the owner of an inbound message by the kind it names.
pub fn classify(kind: &str) -> (category: Category)
    ensures
        category == category_of(kind@),
{
    let kind = &kind.to_owned();
    if is_kind(kind, "init") || is_kind(kind, "echo") || is_kind(kind, "generate") || is_kind(
        kind,
        "broadcast",
    ) || is_kind(kind, "read") || is_kind(kind, "topology") || is_kind(kind, "add") {
        Category::Client
    } else if is_kind(kind, "whisper") || is_kind(kind, "whisper_ok") {
        Category::Peer
    } else if is_kind(kind, "read_ok") || is_kind(kind, "write_ok") || is_kind(kind, "cas_ok")
        || is_kind(kind, "error") {
        Category::Store
    } else {
        Category::Unknown
    }
}

} // verus!
