//! A small fluent helper: apply a callback to a value and keep the result,
//! so that builder-style call chains can branch without a temporary.

use vstd::prelude::*;

verus! {

/// Apply `callback` to `self` and return what it produced.
pub trait Also<C>: Sized where C: FnOnce(Self) -> Self {
    /// The callback's contract carries over: whatever it guarantees of its
    /// result holds of the returned value.
    fn also(self, callback: C) -> (r: Self)
        requires
            call_requires(callback, (self,)),
        ensures
            call_ensures(callback, (self,), r),
    ;
}

impl<T, C: FnOnce(T) -> T> Also<C> for T {
    fn also(self, callback: C) -> (r: Self) {
        callback(self)
    }
}

} // verus!
