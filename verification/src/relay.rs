//! The per-connection logic: interpreting one inbound frame, building
//! the chat message, and fanning it out through the registry. The
//! network pump around these calls lives outside the library; it hands
//! in plain frames and takes queued payloads back out.

use crate::codec::ChatMessage;
use crate::codec::encode_chat_message;
use crate::codec::encoded_message;
use crate::registry::Registry;
use crate::registry::broadcast_model;
use vstd::prelude::*;

verus! {

/// One inbound frame as the relay core sees it: a text frame with its
/// payload, or anything else (binary, ping, pong, close). Only text
/// frames carry chat messages.
pub enum Frame {
    Text(String),
    NonText,
}

/// Relies on `uuid::Uuid::new_v4` and the hyphenated `Display` form of
/// `uuid::Uuid`: a freshly generated random identifier, rendered as 36
/// characters. Nothing is assumed about which identifier comes out.
#[verifier::external_body]
fn allocate_identifier() -> (id: String)
    ensures
        id@.len() == 36,
{
    uuid::Uuid::new_v4().to_string()
}

/// Interprets one inbound frame from the connection with this
/// identifier: a text frame becomes a chat message tagged with the
/// sender; any other frame yields nothing and is dropped silently.
pub fn handle_message(user_id: &str, frame: &Frame) -> (r: Option<ChatMessage>)
    ensures
        match frame {
            Frame::Text(body) => match r {
                Some(m) => m.user_id@ == user_id@ && m.message@ == body@,
                None => false,
            },
            Frame::NonText => r is None,
        },
{
    match frame {
        Frame::Text(body) => Some(
            ChatMessage { user_id: user_id.to_owned(), message: body.clone() },
        ),
        Frame::NonText => None,
    }
}

/// The broadcast dispatcher: serializes the message once and enqueues
/// that same payload onto every registered connection's outbound queue,
/// the sender's included. No recipient is skipped and none is added.
pub fn broadcast_message(registry: &mut Registry, message: &ChatMessage)
    requires
        old(registry).wf(),
    ensures
        final(registry).wf(),
        final(registry)@ == broadcast_model(
            old(registry)@,
            encoded_message(message.user_id@, message.message@),
        ),
{
    let payload = encode_chat_message(message);
    registry.enqueue_all(&payload);
}

/// One inbound frame, end to end: a text frame is validated, built into
/// a chat message and broadcast to every live connection; a malformed
/// (non-text) frame changes nothing at all — no broadcast, no teardown.
pub fn handle_frame(registry: &mut Registry, user_id: &str, frame: &Frame)
    requires
        old(registry).wf(),
    ensures
        final(registry).wf(),
        match frame {
            Frame::Text(body) => final(registry)@ == broadcast_model(
                old(registry)@,
                encoded_message(user_id@, body@),
            ),
            Frame::NonText => final(registry)@ == old(registry)@,
        },
{
    match handle_message(user_id, frame) {
        Some(message) => broadcast_message(registry, &message),
        None => (),
    }
}

/// Connection setup: allocate a fresh identifier and register it with
/// an empty outbound queue. Returns the identifier; on the vanishingly
/// unlikely collision with a live connection it returns nothing and the
/// registry is untouched — the invariant violation the caller treats as
/// fatal. Failure can only be such a collision: whenever no registered
/// identifier even has the allocator's 36-character shape — in
/// particular on any registry populated through this function alone —
/// setup is guaranteed to succeed.
pub fn connect(registry: &mut Registry) -> (r: Option<String>)
    requires
        old(registry).wf(),
    ensures
        final(registry).wf(),
        (forall|k: Seq<char>| old(registry)@.contains_key(k) ==> k.len() != 36) ==> r is Some,
        match r {
            Some(id) => !old(registry)@.contains_key(id@) && id@.len() == 36 && final(registry)@
                == old(registry)@.insert(id@, Seq::<Seq<char>>::empty()),
            None => final(registry)@ == old(registry)@,
        },
{
    let id = allocate_identifier();
    let id_copy = id.clone();
    if registry.register(id) {
        Some(id_copy)
    } else {
        None
    }
}

} // verus!
