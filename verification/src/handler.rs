//! Handlers: owned, invocable units of work that a registry runs on dispatch.

use vstd::prelude::*;

verus! {

/// An owned unit of work that a registry invokes with a payload.
///
/// A handler may carry state of its own and mutate it when invoked; it
/// returns nothing and cannot signal failure back to the registry. The
/// implementor describes what one invocation does by defining `on_call`:
/// a relation between the handler's state before the call, its state after
/// the call, and the payload the call received. The registry's dispatch
/// contract then promises that every handler it ran made exactly one such
/// transition, with the dispatched payload.
pub trait Handler<K>: Sized {
    /// What one invocation with payload `data` may do to the handler's state.
    ///
    /// A handler that leaves this at its default promises nothing of its
    /// transitions; one that overrides it must prove that `call` obeys it.
    open spec fn on_call(pre: Self, post: Self, data: K) -> bool {
        true
    }

    /// Run the handler once on `data`.
    fn call(&mut self, data: K)
        ensures
            Self::on_call(*old(self), *final(self), data),
    ;
}

/// A handler that does nothing but count how often it has been invoked.
///
/// The count saturates at `u64::MAX` rather than overflow.
pub struct Tally {
    pub count: u64,
}

impl Tally {
    /// A tally that has not been invoked yet.
    pub fn new() -> (t: Self)
        ensures
            t.count == 0,
    {
        Tally { count: 0 }
    }
}

impl<K> Handler<K> for Tally {
    open spec fn on_call(pre: Self, post: Self, data: K) -> bool {
        post.count == if pre.count == u64::MAX {
            u64::MAX as int
        } else {
            pre.count + 1
        }
    }

    fn call(&mut self, _data: K) {
        if self.count < u64::MAX {
            self.count = self.count + 1;
        }
    }
}

} // verus!
