//! Event keys: values a registry can look handlers up by.

use vstd::prelude::*;

verus! {

/// A type usable as an event key.
///
/// A registry only ever asks one thing of a key: whether it is the same key
/// as another. `key_eq` answers that at run time and must agree with
/// mathematical equality, so that contracts phrased over spec equality
/// describe what the executable lookup does.
pub trait EventKey: Sized {
    /// Decide whether two keys are equal; the answer agrees with spec equality.
    fn key_eq(&self, other: &Self) -> (r: bool)
        ensures
            r <==> *self == *other,
    ;
}

impl EventKey for i32 {
    fn key_eq(&self, other: &Self) -> (r: bool) {
        *self == *other
    }
}

impl EventKey for u32 {
    fn key_eq(&self, other: &Self) -> (r: bool) {
        *self == *other
    }
}

impl EventKey for i64 {
    fn key_eq(&self, other: &Self) -> (r: bool) {
        *self == *other
    }
}

impl EventKey for u64 {
    fn key_eq(&self, other: &Self) -> (r: bool) {
        *self == *other
    }
}

impl EventKey for usize {
    fn key_eq(&self, other: &Self) -> (r: bool) {
        *self == *other
    }
}

impl EventKey for bool {
    fn key_eq(&self, other: &Self) -> (r: bool) {
        *self == *other
    }
}

} // verus!
