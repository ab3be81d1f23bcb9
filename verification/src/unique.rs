//! The unique-id node: answers every `generate` with a fresh identifier.
//!
//! The identifier is a ULID — 48 bits of wall-clock milliseconds and 80
//! random bits — so two processes answering concurrently do not collide.
//! Which identifier comes back depends on the clock and the entropy source,
//! so the contract promises only its shape.

use vstd::prelude::*;

use crate::broadcast::is_reply_to;
use crate::protocol::{InitPayload, Message};

verus! {

/// The wire payloads of the unique-id behaviour.
pub enum UniqueIdPayload {
    Init(InitPayload),
    InitOk,
    Generate,
    GenerateOk { id: String },
    Unknown,
}

/// Relies on `ulid::Ulid::generate` and `ulid::Ulid::to_string`: a fresh
/// identifier drawn from the clock and the process's entropy source,
/// rendered as exactly 26 Crockford base32 characters. Nothing can be
/// promised of which identifier comes back, only its length.
#[verifier::external_body]
fn fresh_ulid_string() -> (r: String)
    ensures
        r@.len() == 26,
{
    ulid::Ulid::generate().to_string()
}

/// The unique-id node keeps no state.
pub struct UniqueIdNode;

impl UniqueIdNode {
    /// Answer `generate` with a freshly drawn identifier; everything else
    /// but `init` is a no-op.
    pub fn handle(&self, message: Message<UniqueIdPayload>) -> (r: Option<Message<UniqueIdPayload>>)
        ensures
            match message.body.payload {
                UniqueIdPayload::Init(_) => r matches Some(resp) && is_reply_to(resp, message)
                    && resp.body.payload is InitOk,
                UniqueIdPayload::Generate => r matches Some(resp) && is_reply_to(resp, message)
                    && (resp.body.payload matches UniqueIdPayload::GenerateOk { id } && id@.len()
                    == 26),
                _ => r is None,
            },
    {
        let reply: Option<UniqueIdPayload> = match &message.body.payload {
            UniqueIdPayload::Init(_) => Some(UniqueIdPayload::InitOk),
            UniqueIdPayload::Generate => Some(UniqueIdPayload::GenerateOk {
                id: fresh_ulid_string(),
            }),
            UniqueIdPayload::InitOk | UniqueIdPayload::GenerateOk { .. }
            | UniqueIdPayload::Unknown => None,
        };
        match reply {
            Some(payload) => Some(message.make_response(payload)),
            None => None,
        }
    }
}

} // verus!
