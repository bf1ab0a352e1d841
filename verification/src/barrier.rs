//! The optimisation barrier that keeps obfuscated data from being folded
//! back into plain constants.

use vstd::prelude::*;

verus! {

/// `core::hint::black_box` is the identity: it returns its argument, and only
/// keeps the optimiser from seeing through the call.
pub assume_specification<T>[ core::hint::black_box::<T> ](dummy: T) -> (r: T)
    ensures
        r == dummy,
;

} // verus!
