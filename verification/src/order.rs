//! Memory-ordering tokens and the validity rules each operation places on
//! them.  The dispatch layer forwards a token unchanged; it only rejects, by
//! precondition, the combinations that the operation catalogue rules out.

use vstd::prelude::*;

verus! {

/// One memory-ordering token, passed through unchanged by every operation.
#[derive(Clone, Copy, PartialEq, Eq, Structural, Debug)]
pub enum MemOrder {
    Relaxed,
    Acquire,
    Release,
    AcqRel,
    SeqCst,
}

/// The orderings a plain load accepts.
pub open spec fn is_load_order(o: MemOrder) -> bool {
    o == MemOrder::Relaxed || o == MemOrder::Acquire || o == MemOrder::SeqCst
}

/// The orderings a plain store accepts.
pub open spec fn is_store_order(o: MemOrder) -> bool {
    o == MemOrder::Relaxed || o == MemOrder::Release || o == MemOrder::SeqCst
}

/// The failure ordering of a compare-exchange must itself be a load ordering
/// and must not be stronger than the success ordering.
pub open spec fn cas_orders_ok(success: MemOrder, failure: MemOrder) -> bool {
    match success {
        MemOrder::Relaxed => failure == MemOrder::Relaxed,
        MemOrder::Acquire => failure == MemOrder::Relaxed || failure == MemOrder::Acquire,
        MemOrder::Release => failure == MemOrder::Relaxed,
        MemOrder::AcqRel => failure == MemOrder::Relaxed || failure == MemOrder::Acquire,
        MemOrder::SeqCst => is_load_order(failure),
    }
}

} // verus!
