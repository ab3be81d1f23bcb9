//! The sequential key-value peer's protocol, and its correlation service.
//!
//! The peer lives outside the cluster at a reserved identifier; nodes talk
//! to it through the outbound-RPC correlation service. Only the
//! request/reply correlation is this crate's concern — the peer's own
//! semantics are an external dependency.

use vstd::prelude::*;

use crate::service::Service;

verus! {

/// The payloads of the key-value side channel.
pub enum SeqKvPayload {
    Read { key: String },
    ReadOk { value: String },
    Write { key: String, value: String },
    WriteOk,
    Cas { key: String, from: String, to: String },
    CasOk,
    Unknown,
}

/// The correlation service bound to the key-value peer.
pub type SeqKv = Service;

/// The reserved network name of the key-value peer.
pub open spec fn seq_kv_name() -> Seq<char> {
    "seq-kv"@
}

/// A fresh correlation service addressed to the key-value peer.
pub fn new_seq_kv() -> (r: Service)
    ensures
        r.wf(),
        r.pending_ids() == Set::<usize>::empty(),
        r.name@ == seq_kv_name(),
{
    Service::new("seq-kv".to_owned())
}

/// The transport loop's routing pre-check: an envelope arriving from the
/// reserved peer is handed to the correlation service instead of the node's
/// own handler.
pub fn is_from_seq_kv(src: &String) -> (r: bool)
    ensures
        r == (src@ == seq_kv_name()),
{
    let name: String = "seq-kv".to_owned();
    src.eq(&name)
}

} // verus!
