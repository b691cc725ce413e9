//! The laws of the registry, stated over its abstract model and proved.
//!
//! `Event::on` and `Event::dispatch` carry the per-call contracts; the proof
//! functions here state what those contracts add up to: which invocations a
//! dispatch records, in which order, with which payloads, and what repeated
//! dispatches of one key amount to.

use crate::event::Event;
use crate::event::Invocation;
use crate::event::dispatch_calls;
use crate::handler::Handler;
use vstd::prelude::*;

verus! {

/// A key with zero registered handlers invokes nothing: the block of
/// invocations a dispatch of it records is empty. Together with the
/// `dispatch` contract (which for such a key also leaves the registry
/// exactly as it was, and never fails) this makes dispatching an
/// unregistered key a silent no-op.
pub proof fn law_unregistered_key_invokes_nothing<T, K>(key: T, payload: K)
    ensures
        dispatch_calls(key, payload, 0) == Seq::<Invocation<T, K>>::empty(),
{
    assert(dispatch_calls(key, payload, 0) =~= Seq::<Invocation<T, K>>::empty());
}

/// One dispatch of a key with `n` registered handlers records exactly `n`
/// invocations: the j-th records slot j, so the handlers run in registration
/// order, exactly once each, and every one receives the dispatched payload.
pub proof fn law_invocations_in_registration_order<T, K>(key: T, payload: K, n: nat)
    ensures
        dispatch_calls(key, payload, n).len() == n,
        forall|j: int| 0 <= j < n ==> dispatch_calls(key, payload, n)[j] == (Invocation {
            key,
            slot: j,
            payload,
        }),
{
}

/// Handlers registered under one key are never invoked by a dispatch of a
/// different key: every invocation a dispatch records names the dispatched
/// key itself. The `dispatch` contract states the other half: the handlers
/// registered under every other key are left untouched.
pub proof fn law_no_cross_key_invocation<T, K>(key: T, payload: K, n: nat, j: int)
    requires
        0 <= j < n,
    ensures
        dispatch_calls(key, payload, n)[j].key == key,
{
}

/// Every handler invoked during one dispatch receives the dispatched value
/// itself, not a value another handler may have produced: payloads are passed
/// by value, so each handler works on a copy of its own, and neither a later
/// handler nor the caller can see what an earlier one did to its copy.
pub proof fn law_payload_per_invocation<T, K>(key: T, payload: K, n: nat, j: int)
    requires
        0 <= j < n,
    ensures
        dispatch_calls(key, payload, n)[j].payload == payload,
{
}

/// What one dispatch does, handler by handler: if `after` came out of
/// `before` by a dispatch of `key` with `payload` (the two premises are that
/// dispatch's contract), then the j-th registered handler was invoked exactly
/// once — as the j-th new invocation, targeting slot j — and its state made
/// exactly one `on_call` transition under that payload.
pub proof fn law_each_handler_invoked_once<T, K, H: Handler<K>>(
    before: Event<T, K, H>,
    after: Event<T, K, H>,
    key: T,
    payload: K,
    j: int,
)
    requires
        after.calls() == before.calls() + dispatch_calls(
            key,
            payload,
            before.registered(key).len(),
        ),
        forall|a: int| 0 <= a < before.registered(key).len() ==> H::on_call(
            before.registered(key)[a],
            #[trigger] after.registered(key)[a],
            payload,
        ),
        0 <= j < before.registered(key).len(),
    ensures
        after.calls().len() == before.calls().len() + before.registered(key).len(),
        after.calls()[before.calls().len() + j] == (Invocation { key, slot: j, payload }),
        H::on_call(before.registered(key)[j], after.registered(key)[j], payload),
{
}

/// Dispatch is repeatable, not one-shot: it leaves as many handlers under its
/// key as it found, so a second dispatch of the same key (the premises are
/// the `dispatch` contract of each call in turn) performs a full round of
/// invocations again, one per registered handler.
pub proof fn law_redispatch_full_round<T, K, H: Handler<K>>(
    e0: Event<T, K, H>,
    e1: Event<T, K, H>,
    e2: Event<T, K, H>,
    key: T,
    d1: K,
    d2: K,
)
    requires
        e1.registered(key).len() == e0.registered(key).len(),
        e1.calls() == e0.calls() + dispatch_calls(key, d1, e0.registered(key).len()),
        e2.registered(key).len() == e1.registered(key).len(),
        e2.calls() == e1.calls() + dispatch_calls(key, d2, e1.registered(key).len()),
    ensures
        e2.calls() == e0.calls() + dispatch_calls(key, d1, e0.registered(key).len())
            + dispatch_calls(key, d2, e0.registered(key).len()),
        e2.calls().len() == e0.calls().len() + 2 * e0.registered(key).len(),
{
}

} // verus!
