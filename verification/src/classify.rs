//! Compile-time path selection: for a given size and alignment, exactly one
//! of the four native atomic widths applies, or the layout is routed to the
//! byte-level fallback.  A width is eligible only when the size matches it
//! exactly, the alignment is at least the size, and the build target declares
//! native atomic support for that width.

use vstd::prelude::*;

verus! {

/// The path chosen for one layout: a native atomic width, or the fallback.
#[derive(Clone, Copy, PartialEq, Eq, Structural, Debug)]
pub enum Route {
    Native1,
    Native2,
    Native4,
    Native8,
    Fallback,
}

/// The build target's table of natively supported atomic widths.  This build
/// configuration declares dedicated atomic instructions for all four widths.
pub open spec fn target_has_width(w: nat) -> bool {
    w == 1 || w == 2 || w == 4 || w == 8
}

/// The selection rule: the native width equal to `size`, provided the
/// alignment suffices and the target supports it; otherwise the fallback.
pub open spec fn route_of(size: nat, align: nat) -> Route {
    if size == 1 && align >= 1 && target_has_width(1) {
        Route::Native1
    } else if size == 2 && align >= 2 && target_has_width(2) {
        Route::Native2
    } else if size == 4 && align >= 4 && target_has_width(4) {
        Route::Native4
    } else if size == 8 && align >= 8 && target_has_width(8) {
        Route::Native8
    } else {
        Route::Fallback
    }
}

/// A layout is lock-free exactly when some native width applies to it.
pub open spec fn spec_lock_free(size: nat, align: nat) -> bool {
    route_of(size, align) != Route::Fallback
}

/// Chooses the path for a layout; the decision depends only on the two
/// compile-time facts handed in.
pub fn classify(size: usize, align: usize) -> (r: Route)
    ensures
        r == route_of(size as nat, align as nat),
{
    if size == 1 && align >= 1 {
        Route::Native1
    } else if size == 2 && align >= 2 {
        Route::Native2
    } else if size == 4 && align >= 4 {
        Route::Native4
    } else if size == 8 && align >= 8 {
        Route::Native8
    } else {
        Route::Fallback
    }
}

/// Reports whether a layout takes a native path.
pub fn lock_free_layout(size: usize, align: usize) -> (r: bool)
    ensures
        r == spec_lock_free(size as nat, align as nat),
{
    let route = classify(size, align);
    match route {
        Route::Fallback => false,
        _ => true,
    }
}

/// Whether values of `T` are handled by native atomic instructions, decided
/// purely from the type's compile-time size and alignment and the target
/// table; no memory is touched.
pub fn atomic_is_lock_free<T>() -> (r: bool)
    ensures
        r == spec_lock_free(vstd::layout::size_of::<T>(), vstd::layout::align_of::<T>()),
{
    let size = core::mem::size_of::<T>();
    let align = core::mem::align_of::<T>();
    lock_free_layout(size, align)
}

/// A layout is reported lock-free exactly when its size is a supported
/// native width and its alignment is at least that size.
pub proof fn lemma_lock_free_characterization(size: nat, align: nat)
    ensures
        spec_lock_free(size, align) <==> (target_has_width(size) && align >= size),
{
}

} // verus!
