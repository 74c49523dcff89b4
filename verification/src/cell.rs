//! The dispatch layer.  An `AtomicCell` models one addressed memory location:
//! a plain-data value of fixed byte width and declared alignment, identified
//! purely by its bit pattern.  Every operation first classifies the layout;
//! on a native route it bridges the pattern to the equal-size unsigned word,
//! performs the word operation, and bridges the result back, while every
//! other layout is forwarded unchanged to the byte-level fallback.  Both
//! paths meet the identical contract, stated here once per operation.

use vstd::prelude::*;
use vstd::arithmetic::div_mod::lemma_mod_division_less_than_divisor;
use crate::bridge::le_val;
use crate::bridge::le_bytes;
use crate::bridge::pow256;
use crate::bridge::lemma_pow256_pos;
use crate::bridge::lemma_le_val_bound;
use crate::bridge::lemma_bytes_round_trip;
use crate::bridge::bytes_to_word;
use crate::bridge::word_to_bytes;
use crate::classify::Route;
use crate::classify::route_of;
use crate::classify::spec_lock_free;
use crate::classify::classify;
use crate::classify::lock_free_layout;
use crate::order::MemOrder;
use crate::order::is_load_order;
use crate::order::is_store_order;
use crate::order::cas_orders_ok;
use crate::words::add_wrapped;
use crate::words::sub_wrapped;
use crate::words::and_bytes;
use crate::words::or_bytes;
use crate::words::xor_bytes;
use crate::words::word_add;
use crate::words::word_sub;
use crate::words::lemma_bitwise_bounds;
use crate::words::lemma_word_and_bytes;
use crate::words::lemma_word_or_bytes;
use crate::words::lemma_word_xor_bytes;
use crate::fallback;

verus! {

/// One memory location holding a plain-data value: its bit pattern, held
/// little-endian, and the alignment the location is declared with.  The
/// width never changes over the location's lifetime.
pub struct AtomicCell {
    pub bytes: Vec<u8>,
    pub align: usize,
}

impl View for AtomicCell {
    type V = Seq<u8>;

    open spec fn view(&self) -> Seq<u8> {
        self.bytes@
    }
}

impl AtomicCell {
    /// The byte width of the held value.
    pub open spec fn width(&self) -> nat {
        self.bytes@.len()
    }

    /// The path the classifier selects for this location's layout.
    pub open spec fn route(&self) -> Route {
        route_of(self.width(), self.align as nat)
    }

    /// A location with the given initial bit pattern and alignment.
    pub fn new(bytes: Vec<u8>, align: usize) -> (r: AtomicCell)
        ensures
            r@ == bytes@,
            r.align == align,
    {
        AtomicCell { bytes, align }
    }

    /// Whether this location's operations take a native route, decided
    /// from layout facts alone; no memory is accessed.
    pub fn is_lock_free(&self) -> (r: bool)
        ensures
            r == spec_lock_free(self.width(), self.align as nat),
            r == (self.route() != Route::Fallback),
    {
        lock_free_layout(self.bytes.len(), self.align)
    }
}

/// The layout facts of a location, which every operation preserves.
pub open spec fn same_layout(a: AtomicCell, b: AtomicCell) -> bool {
    a.width() == b.width() && a.align == b.align
}

/// Reads the held pattern.  On a native route the pattern is bridged to its
/// word and back, bit for bit.
pub fn atomic_load(dst: &AtomicCell, order: MemOrder) -> (r: Vec<u8>)
    requires
        is_load_order(order),
    ensures
        r@ == dst@,
{
    match classify(dst.bytes.len(), dst.align) {
        Route::Fallback => fallback::atomic_load(&dst.bytes),
        _ => {
            proof {
                lemma_le_val_bound(dst.bytes@);
                lemma_bytes_round_trip(dst.bytes@);
            }
            let w = dst.bytes.len();
            let x = bytes_to_word(&dst.bytes);
            word_to_bytes(x, w)
        },
    }
}

/// Writes the given pattern over the held one.
pub fn atomic_store(dst: &mut AtomicCell, val: Vec<u8>, order: MemOrder)
    requires
        val@.len() == old(dst)@.len(),
        is_store_order(order),
    ensures
        final(dst)@ == val@,
        same_layout(*old(dst), *final(dst)),
{
    match classify(dst.bytes.len(), dst.align) {
        Route::Fallback => fallback::atomic_store(&mut dst.bytes, val),
        _ => {
            proof {
                lemma_le_val_bound(val@);
                lemma_bytes_round_trip(val@);
            }
            let w = dst.bytes.len();
            let x = bytes_to_word(&val);
            dst.bytes = word_to_bytes(x, w);
        },
    }
}

/// Writes the given pattern and returns the one previously held.
pub fn atomic_swap(dst: &mut AtomicCell, val: Vec<u8>, order: MemOrder) -> (prev: Vec<u8>)
    requires
        val@.len() == old(dst)@.len(),
    ensures
        prev@ == old(dst)@,
        final(dst)@ == val@,
        same_layout(*old(dst), *final(dst)),
{
    match classify(dst.bytes.len(), dst.align) {
        Route::Fallback => fallback::atomic_swap(&mut dst.bytes, val),
        _ => {
            proof {
                lemma_le_val_bound(dst.bytes@);
                lemma_le_val_bound(val@);
                lemma_bytes_round_trip(dst.bytes@);
                lemma_bytes_round_trip(val@);
            }
            let w = dst.bytes.len();
            let prev_word = bytes_to_word(&dst.bytes);
            let next_word = bytes_to_word(&val);
            dst.bytes = word_to_bytes(next_word, w);
            word_to_bytes(prev_word, w)
        },
    }
}

/// Replaces the held pattern with `new` exactly when it equals `current`,
/// returning success carrying the previous pattern; otherwise leaves the
/// location unchanged and returns failure carrying the actual pattern.
pub fn atomic_compare_exchange(
    dst: &mut AtomicCell,
    current: Vec<u8>,
    new: Vec<u8>,
    success: MemOrder,
    failure: MemOrder,
) -> (r: Result<Vec<u8>, Vec<u8>>)
    requires
        current@.len() == old(dst)@.len(),
        new@.len() == old(dst)@.len(),
        cas_orders_ok(success, failure),
    ensures
        same_layout(*old(dst), *final(dst)),
        old(dst)@ == current@ ==> final(dst)@ == new@ && (r matches Ok(p) && p@ == old(dst)@),
        old(dst)@ != current@ ==> final(dst)@ == old(dst)@ && (r matches Err(a) && a@ == old(
            dst,
        )@),
{
    match classify(dst.bytes.len(), dst.align) {
        Route::Fallback => fallback::atomic_compare_exchange(&mut dst.bytes, current, new),
        _ => {
            proof {
                lemma_le_val_bound(dst.bytes@);
                lemma_le_val_bound(current@);
                lemma_le_val_bound(new@);
                lemma_bytes_round_trip(dst.bytes@);
                lemma_bytes_round_trip(current@);
                lemma_bytes_round_trip(new@);
            }
            let w = dst.bytes.len();
            let mem_word = bytes_to_word(&dst.bytes);
            let cur_word = bytes_to_word(&current);
            if mem_word == cur_word {
                let new_word = bytes_to_word(&new);
                dst.bytes = word_to_bytes(new_word, w);
                Ok(word_to_bytes(mem_word, w))
            } else {
                Err(word_to_bytes(mem_word, w))
            }
        },
    }
}

/// The weak form of compare-exchange.  Its portable contract permits a
/// spurious failure even when the comparison would succeed, so callers
/// needing progress must retry in a loop; this dispatch layer never
/// fabricates such a failure, and therefore meets the strong contract.
pub fn atomic_compare_exchange_weak(
    dst: &mut AtomicCell,
    current: Vec<u8>,
    new: Vec<u8>,
    success: MemOrder,
    failure: MemOrder,
) -> (r: Result<Vec<u8>, Vec<u8>>)
    requires
        current@.len() == old(dst)@.len(),
        new@.len() == old(dst)@.len(),
        cas_orders_ok(success, failure),
    ensures
        same_layout(*old(dst), *final(dst)),
        old(dst)@ == current@ ==> final(dst)@ == new@ && (r matches Ok(p) && p@ == old(dst)@),
        old(dst)@ != current@ ==> final(dst)@ == old(dst)@ && (r matches Err(a) && a@ == old(
            dst,
        )@),
{
    atomic_compare_exchange(dst, current, new, success, failure)
}

/// Adds the given pattern's value to the held one, wrapping at the byte
/// width, and returns the pattern previously held.
pub fn atomic_add(dst: &mut AtomicCell, val: Vec<u8>, order: MemOrder) -> (prev: Vec<u8>)
    requires
        val@.len() == old(dst)@.len(),
    ensures
        prev@ == old(dst)@,
        final(dst)@ == le_bytes(
            add_wrapped(le_val(old(dst)@), le_val(val@), old(dst)@.len()),
            old(dst)@.len(),
        ),
        same_layout(*old(dst), *final(dst)),
{
    match classify(dst.bytes.len(), dst.align) {
        Route::Fallback => fallback::atomic_add(&mut dst.bytes, val),
        _ => {
            proof {
                lemma_le_val_bound(dst.bytes@);
                lemma_le_val_bound(val@);
                lemma_bytes_round_trip(dst.bytes@);
            }
            let w = dst.bytes.len();
            let x = bytes_to_word(&dst.bytes);
            let y = bytes_to_word(&val);
            let z = word_add(x, y, w);
            proof {
                lemma_pow256_pos(w as nat);
                lemma_mod_division_less_than_divisor(
                    (x as nat + y as nat) as int,
                    pow256(w as nat) as int,
                );
            }
            dst.bytes = word_to_bytes(z, w);
            word_to_bytes(x, w)
        },
    }
}

/// Subtracts the given pattern's value from the held one, wrapping at the
/// byte width, and returns the pattern previously held.
pub fn atomic_sub(dst: &mut AtomicCell, val: Vec<u8>, order: MemOrder) -> (prev: Vec<u8>)
    requires
        val@.len() == old(dst)@.len(),
    ensures
        prev@ == old(dst)@,
        final(dst)@ == le_bytes(
            sub_wrapped(le_val(old(dst)@), le_val(val@), old(dst)@.len()),
            old(dst)@.len(),
        ),
        same_layout(*old(dst), *final(dst)),
{
    match classify(dst.bytes.len(), dst.align) {
        Route::Fallback => fallback::atomic_sub(&mut dst.bytes, val),
        _ => {
            proof {
                lemma_le_val_bound(dst.bytes@);
                lemma_le_val_bound(val@);
                lemma_bytes_round_trip(dst.bytes@);
            }
            let w = dst.bytes.len();
            let x = bytes_to_word(&dst.bytes);
            let y = bytes_to_word(&val);
            let z = word_sub(x, y, w);
            dst.bytes = word_to_bytes(z, w);
            word_to_bytes(x, w)
        },
    }
}

/// ANDs the given pattern into the held one bytewise and returns the
/// pattern previously held.
pub fn atomic_and(dst: &mut AtomicCell, val: Vec<u8>, order: MemOrder) -> (prev: Vec<u8>)
    requires
        val@.len() == old(dst)@.len(),
    ensures
        prev@ == old(dst)@,
        final(dst)@ == and_bytes(old(dst)@, val@),
        same_layout(*old(dst), *final(dst)),
{
    match classify(dst.bytes.len(), dst.align) {
        Route::Fallback => fallback::atomic_and(&mut dst.bytes, val),
        _ => {
            proof {
                lemma_le_val_bound(dst.bytes@);
                lemma_le_val_bound(val@);
                lemma_bytes_round_trip(dst.bytes@);
                lemma_bytes_round_trip(val@);
            }
            let w = dst.bytes.len();
            let x = bytes_to_word(&dst.bytes);
            let y = bytes_to_word(&val);
            proof {
                lemma_bitwise_bounds(x, y, w as nat);
                lemma_word_and_bytes(x, y, w as nat);
            }
            let z = x & y;
            dst.bytes = word_to_bytes(z, w);
            word_to_bytes(x, w)
        },
    }
}

/// ORs the given pattern into the held one bytewise and returns the
/// pattern previously held.
pub fn atomic_or(dst: &mut AtomicCell, val: Vec<u8>, order: MemOrder) -> (prev: Vec<u8>)
    requires
        val@.len() == old(dst)@.len(),
    ensures
        prev@ == old(dst)@,
        final(dst)@ == or_bytes(old(dst)@, val@),
        same_layout(*old(dst), *final(dst)),
{
    match classify(dst.bytes.len(), dst.align) {
        Route::Fallback => fallback::atomic_or(&mut dst.bytes, val),
        _ => {
            proof {
                lemma_le_val_bound(dst.bytes@);
                lemma_le_val_bound(val@);
                lemma_bytes_round_trip(dst.bytes@);
                lemma_bytes_round_trip(val@);
            }
            let w = dst.bytes.len();
            let x = bytes_to_word(&dst.bytes);
            let y = bytes_to_word(&val);
            proof {
                lemma_bitwise_bounds(x, y, w as nat);
                lemma_word_or_bytes(x, y, w as nat);
            }
            let z = x | y;
            dst.bytes = word_to_bytes(z, w);
            word_to_bytes(x, w)
        },
    }
}

/// XORs the given pattern into the held one bytewise and returns the
/// pattern previously held.
pub fn atomic_xor(dst: &mut AtomicCell, val: Vec<u8>, order: MemOrder) -> (prev: Vec<u8>)
    requires
        val@.len() == old(dst)@.len(),
    ensures
        prev@ == old(dst)@,
        final(dst)@ == xor_bytes(old(dst)@, val@),
        same_layout(*old(dst), *final(dst)),
{
    match classify(dst.bytes.len(), dst.align) {
        Route::Fallback => fallback::atomic_xor(&mut dst.bytes, val),
        _ => {
            proof {
                lemma_le_val_bound(dst.bytes@);
                lemma_le_val_bound(val@);
                lemma_bytes_round_trip(dst.bytes@);
                lemma_bytes_round_trip(val@);
            }
            let w = dst.bytes.len();
            let x = bytes_to_word(&dst.bytes);
            let y = bytes_to_word(&val);
            proof {
                lemma_bitwise_bounds(x, y, w as nat);
                lemma_word_xor_bytes(x, y, w as nat);
            }
            let z = x ^ y;
            dst.bytes = word_to_bytes(z, w);
            word_to_bytes(x, w)
        },
    }
}

} // verus!
