//! The echo node: answers every `echo` with the same text.

use vstd::prelude::*;

use crate::broadcast::is_reply_to;
use crate::protocol::{InitPayload, Message};

verus! {

/// The wire payloads of the echo behaviour.
pub enum EchoPayload {
    Init(InitPayload),
    InitOk,
    Echo { echo: String },
    EchoOk { echo: String },
    Unknown,
}

/// The echo node keeps no state.
pub struct EchoNode;

impl EchoNode {
    /// Answer `init` with `init_ok` and `echo` with `echo_ok` carrying the
    /// same text; everything else is a no-op.
    pub fn handle(&self, message: Message<EchoPayload>) -> (r: Option<Message<EchoPayload>>)
        ensures
            match message.body.payload {
                EchoPayload::Init(_) => r matches Some(resp) && is_reply_to(resp, message)
                    && resp.body.payload is InitOk,
                EchoPayload::Echo { echo } => r matches Some(resp) && is_reply_to(resp, message)
                    && (resp.body.payload matches EchoPayload::EchoOk { echo: e } && e == echo),
                _ => r is None,
            },
    {
        let reply: Option<EchoPayload> = match &message.body.payload {
            EchoPayload::Init(_) => Some(EchoPayload::InitOk),
            EchoPayload::Echo { echo } => Some(EchoPayload::EchoOk { echo: echo.clone() }),
            EchoPayload::InitOk | EchoPayload::EchoOk { .. } | EchoPayload::Unknown => None,
        };
        match reply {
            Some(payload) => Some(message.make_response(payload)),
            None => None,
        }
    }
}

} // verus!
