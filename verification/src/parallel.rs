//! Running two computations at the same time.
use vstd::prelude::*;

verus! {

/// `rayon::join` runs both closures, possibly at the same time, and returns what each of them
/// returned. The contract asks that both can be called, and claims that each part of the result is
/// one that its closure can return.
pub assume_specification<A, B, RA, RB>[ rayon::join::<A, B, RA, RB> ](oper_a: A, oper_b: B) -> (r: (
    RA,
    RB,
)) where A: FnOnce() -> RA + Send, B: FnOnce() -> RB + Send, RA: Send, RB: Send
    requires
        oper_a.requires(()),
        oper_b.requires(()),
    ensures
        oper_a.ensures((), r.0),
        oper_b.ensures((), r.1),
;

/// Runs both closures, at the same time where `enabled` says that threads are available.
pub fn join<A, B, RA, RB>(enabled: bool, a: A, b: B) -> (r: (RA, RB)) where
    A: FnOnce() -> RA + Send,
    B: FnOnce() -> RB + Send,
    RA: Send,
    RB: Send,

    requires
        a.requires(()),
        b.requires(()),
    ensures
        a.ensures((), r.0),
        b.ensures((), r.1),
{
    if enabled {
        rayon::join(a, b)
    } else {
        (a(), b())
    }
}

} // verus!
