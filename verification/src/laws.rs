//! Relay-wide guarantees, stated and proved over the registry model.
//! Each law quantifies over every reachable registry state, so it
//! covers any number of connections in any order of arrival.

use crate::registry::RegistryModel;
use crate::registry::broadcast_model;
use vstd::prelude::*;

verus! {

/// Broadcast completeness: one dispatch reaches every registered
/// connection — the sender included — by appending exactly the
/// dispatched payload to each queue, and no connection appears or
/// vanishes in the process.
pub proof fn lemma_broadcast_completeness(m: RegistryModel, payload: Seq<char>)
    ensures
        forall|k: Seq<char>| #[trigger] broadcast_model(m, payload).contains_key(k)
            == m.contains_key(k),
        forall|k: Seq<char>| m.contains_key(k) ==> #[trigger] broadcast_model(m, payload)[k]
            == m[k].push(payload),
{
}

/// Isolation: disconnecting one client does not affect delivery to any
/// other still-connected client — after the teardown, a broadcast still
/// reaches every remaining connection exactly as before.
pub proof fn lemma_isolation(m: RegistryModel, gone: Seq<char>, other: Seq<char>, payload: Seq<char>)
    requires
        m.contains_key(other),
        other != gone,
    ensures
        broadcast_model(m.remove(gone), payload).contains_key(other),
        broadcast_model(m.remove(gone), payload)[other] == m[other].push(payload),
{
}

/// Registry consistency: while a connection is live its identifier is
/// present in the model, and once teardown has removed it, it is absent
/// — whatever else the registry holds.
pub proof fn lemma_registry_consistency(m: RegistryModel, id: Seq<char>, queue: Seq<Seq<char>>)
    ensures
        m.insert(id, queue).contains_key(id),
        !m.remove(id).contains_key(id),
{
}

/// FIFO per recipient: two dispatches in order append their payloads in
/// that same order to every recipient's queue, so every recipient
/// observes the sender's messages in the order they were sent.
pub proof fn lemma_fifo_per_recipient(
    m: RegistryModel,
    first: Seq<char>,
    second: Seq<char>,
    recipient: Seq<char>,
)
    requires
        m.contains_key(recipient),
    ensures
        broadcast_model(broadcast_model(m, first), second)[recipient] == m[recipient].push(
            first,
        ).push(second),
{
}

/// The dequeue transition on the registry model: one successful
/// `pop_outbound` yields the head of the recipient's queue and leaves
/// the tail, exactly as that function's contract states.
pub open spec fn dequeue_model(m: RegistryModel, k: Seq<char>) -> RegistryModel {
    m.insert(k, m[k].drop_first())
}

/// The registry model after `n` successive dequeues for `k`.
pub open spec fn drained(m: RegistryModel, k: Seq<char>, n: nat) -> RegistryModel
    decreases n,
{
    if n == 0 {
        m
    } else {
        dequeue_model(drained(m, k, (n - 1) as nat), k)
    }
}

proof fn lemma_drained_queue(m: RegistryModel, k: Seq<char>, n: nat)
    requires
        m.contains_key(k),
        n <= m[k].len(),
    ensures
        drained(m, k, n).contains_key(k),
        drained(m, k, n)[k] == m[k].skip(n as int),
    decreases n,
{
    if n == 0 {
        assert(m[k].skip(0) =~= m[k]);
    } else {
        lemma_drained_queue(m, k, (n - 1) as nat);
        let prev = drained(m, k, (n - 1) as nat);
        assert(prev[k].drop_first() =~= m[k].skip(n as int));
    }
}

/// FIFO per recipient, observed at the dequeue side: whatever backlog a
/// recipient's queue already holds, once that backlog has been dequeued
/// the next dequeue after two dispatches yields the first payload and
/// the one after it the second — every recipient observes the sender's
/// messages in dispatch order.
pub proof fn lemma_fifo_observed(
    m: RegistryModel,
    first: Seq<char>,
    second: Seq<char>,
    recipient: Seq<char>,
)
    requires
        m.contains_key(recipient),
    ensures
        ({
            let m2 = broadcast_model(broadcast_model(m, first), second);
            let backlog = m[recipient].len();
            &&& drained(m2, recipient, backlog)[recipient][0] == first
            &&& drained(m2, recipient, backlog + 1)[recipient][0] == second
        }),
{
    let m2 = broadcast_model(broadcast_model(m, first), second);
    let backlog = m[recipient].len();
    lemma_fifo_per_recipient(m, first, second, recipient);
    assert(m2[recipient] == m[recipient].push(first).push(second));
    lemma_drained_queue(m2, recipient, backlog);
    lemma_drained_queue(m2, recipient, backlog + 1);
    assert(m2[recipient].skip(backlog as int)[0] == first);
    assert(m2[recipient].skip(backlog as int + 1)[0] == second);
}

} // verus!
