//! An in-process publish/subscribe primitive.
//!
//! Callers register any number of handlers against a discrete event key and
//! later dispatch a key together with a payload; every handler registered
//! under that key then runs, in registration order, each on its own copy of
//! the payload. Dispatching a key that nobody registered is a silent no-op.

mod event;
mod handler;
mod keys;
mod laws;

pub use event::Event;
pub use event::Invocation;
pub use event::dispatch_calls;
pub use handler::Handler;
pub use handler::Tally;
pub use keys::EventKey;
pub use laws::law_unregistered_key_invokes_nothing;
pub use laws::law_invocations_in_registration_order;
pub use laws::law_no_cross_key_invocation;
pub use laws::law_payload_per_invocation;
pub use laws::law_each_handler_invoked_once;
pub use laws::law_redispatch_full_round;
