//! The fallback operation set: the identical nine operations implemented
//! directly on the byte representation, for every layout that no native
//! atomic width covers.  No bridging occurs here; values of any byte width
//! are handled, and the lock-free query always answers no.

use vstd::prelude::*;
use vstd::arithmetic::div_mod::lemma_small_mod;
use vstd::arithmetic::div_mod::lemma_mod_sub_multiples_vanish;
use vstd::arithmetic::div_mod::lemma_fundamental_div_mod;
use crate::bridge::le_val;
use crate::bridge::le_bytes;
use crate::bridge::pow256;
use crate::bridge::lemma_le_val_bound;
use crate::bridge::lemma_bytes_round_trip;
use crate::bridge::lemma_prefix_extend;
use crate::bridge::lemma_le_val_push;
use crate::words::add_wrapped;
use crate::words::sub_wrapped;
use crate::words::and_bytes;
use crate::words::or_bytes;
use crate::words::xor_bytes;

verus! {

/// A fresh byte vector holding the same pattern.
pub fn copy_bytes(src: &Vec<u8>) -> (r: Vec<u8>)
    ensures
        r@ == src@,
{
    let mut out: Vec<u8> = Vec::new();
    let mut i: usize = 0;
    while i < src.len()
        invariant
            i <= src@.len(),
            out@ == src@.subrange(0, i as int),
        decreases src@.len() - i,
    {
        proof {
            assert(src@.subrange(0, i as int + 1) =~= src@.subrange(0, i as int).push(
                src@[i as int],
            ));
        }
        out.push(src[i]);
        i = i + 1;
    }
    proof {
        assert(src@.subrange(0, src@.len() as int) =~= src@);
    }
    out
}

/// Whether two byte vectors hold the identical pattern.
pub fn bytes_eq(a: &Vec<u8>, b: &Vec<u8>) -> (r: bool)
    ensures
        r == (a@ == b@),
{
    if a.len() != b.len() {
        return false;
    }
    let mut i: usize = 0;
    while i < a.len()
        invariant
            i <= a@.len(),
            a@.len() == b@.len(),
            forall|k: int| 0 <= k < i ==> a@[k] == b@[k],
        decreases a@.len() - i,
    {
        if a[i] != b[i] {
            return false;
        }
        i = i + 1;
    }
    proof {
        assert(a@ =~= b@);
    }
    true
}

/// The arithmetic recombination of one ripple-carry step.
proof fn lemma_carry_step(pi: nat, d: nat, c0: nat, c1: nat, ai: nat, bi: nat)
    requires
        d + 256 * c1 == ai + bi + c0,
    ensures
        pi * c0 + ai * pi + bi * pi == d * pi + (256 * pi) * c1,
{
    assert(pi * c0 + ai * pi + bi * pi == d * pi + (256 * pi) * c1) by (nonlinear_arith)
        requires
            d + 256 * c1 == ai + bi + c0,
    ;
}

/// The arithmetic recombination of one ripple-borrow step.
proof fn lemma_borrow_step(pi: int, d: int, c0: int, c1: int, ai: int, bi: int)
    requires
        c0 + d == ai - bi + 256 * c1,
    ensures
        pi * c0 + d * pi == ai * pi - bi * pi + (256 * pi) * c1,
{
    assert(pi * c0 + d * pi == ai * pi - bi * pi + (256 * pi) * c1) by (nonlinear_arith)
        requires
            c0 + d == ai - bi + 256 * c1,
    ;
}

/// Ripple-carry addition of two equal-width patterns, wrapping at the width.
pub fn add_bytes(a: &Vec<u8>, b: &Vec<u8>) -> (r: Vec<u8>)
    requires
        a@.len() == b@.len(),
    ensures
        r@ == le_bytes(add_wrapped(le_val(a@), le_val(b@), a@.len()), a@.len()),
        r@.len() == a@.len(),
{
    let len = a.len();
    let mut out: Vec<u8> = Vec::new();
    let mut carry: u16 = 0;
    let mut i: usize = 0;
    proof {
        assert(a@.subrange(0, 0) =~= Seq::<u8>::empty());
        assert(b@.subrange(0, 0) =~= Seq::<u8>::empty());
    }
    while i < len
        invariant
            i <= len,
            len == a@.len(),
            len == b@.len(),
            out@.len() == i,
            carry <= 1,
            le_val(out@) + pow256(i as nat) * (carry as nat) == le_val(a@.subrange(0, i as int))
                + le_val(b@.subrange(0, i as int)),
        decreases len - i,
    {
        let s: u16 = a[i] as u16 + b[i] as u16 + carry;
        let d: u8 = (s % 256) as u8;
        proof {
            let pi = pow256(i as nat);
            lemma_fundamental_div_mod(s as int, 256);
            lemma_le_val_push(out@, d);
            lemma_prefix_extend(a@, i as int);
            lemma_prefix_extend(b@, i as int);
            lemma_carry_step(
                pi,
                d as nat,
                carry as nat,
                (s / 256) as nat,
                a@[i as int] as nat,
                b@[i as int] as nat,
            );
        }
        out.push(d);
        carry = s / 256;
        i = i + 1;
    }
    proof {
        assert(a@.subrange(0, len as int) =~= a@);
        assert(b@.subrange(0, len as int) =~= b@);
        let m = pow256(len as nat);
        let total = le_val(a@) + le_val(b@);
        lemma_le_val_bound(out@);
        if carry == 0 {
            lemma_small_mod(total, m);
        } else {
            lemma_mod_sub_multiples_vanish(total as int, m as int);
            lemma_small_mod((total - m) as nat, m);
        }
        lemma_bytes_round_trip(out@);
    }
    out
}

/// Ripple-borrow subtraction of two equal-width patterns, wrapping at the
/// width.
pub fn sub_bytes(a: &Vec<u8>, b: &Vec<u8>) -> (r: Vec<u8>)
    requires
        a@.len() == b@.len(),
    ensures
        r@ == le_bytes(sub_wrapped(le_val(a@), le_val(b@), a@.len()), a@.len()),
        r@.len() == a@.len(),
{
    let len = a.len();
    let mut out: Vec<u8> = Vec::new();
    let mut borrow: u16 = 0;
    let mut i: usize = 0;
    proof {
        assert(a@.subrange(0, 0) =~= Seq::<u8>::empty());
        assert(b@.subrange(0, 0) =~= Seq::<u8>::empty());
    }
    while i < len
        invariant
            i <= len,
            len == a@.len(),
            len == b@.len(),
            out@.len() == i,
            borrow <= 1,
            le_val(out@) as int == le_val(a@.subrange(0, i as int)) - le_val(
                b@.subrange(0, i as int),
            ) + pow256(i as nat) * (borrow as int),
        decreases len - i,
    {
        let t: u16 = (256 + a[i] as u16) - (b[i] as u16) - borrow;
        let d: u8 = (t % 256) as u8;
        proof {
            let pi = pow256(i as nat) as int;
            lemma_fundamental_div_mod(t as int, 256);
            lemma_le_val_push(out@, d);
            lemma_prefix_extend(a@, i as int);
            lemma_prefix_extend(b@, i as int);
            lemma_borrow_step(
                pi,
                d as int,
                borrow as int,
                1 - (t / 256) as int,
                a@[i as int] as int,
                b@[i as int] as int,
            );
        }
        out.push(d);
        borrow = 1 - t / 256;
        i = i + 1;
    }
    proof {
        assert(a@.subrange(0, len as int) =~= a@);
        assert(b@.subrange(0, len as int) =~= b@);
        lemma_le_val_bound(out@);
        lemma_le_val_bound(a@);
        lemma_le_val_bound(b@);
        let av = le_val(a@);
        let bv = le_val(b@);
        let m = pow256(len as nat);
        if borrow == 0 {
            assert(le_val(out@) as int == av - bv);
            assert(le_val(out@) == sub_wrapped(av, bv, len as nat));
        } else {
            assert(le_val(out@) as int == av - bv + m);
            assert(av < bv);
            assert(le_val(out@) == sub_wrapped(av, bv, len as nat));
        }
        lemma_bytes_round_trip(out@);
    }
    out
}

/// Bytewise AND of two equal-width patterns.
pub fn bitand_bytes(a: &Vec<u8>, b: &Vec<u8>) -> (r: Vec<u8>)
    requires
        a@.len() == b@.len(),
    ensures
        r@ == and_bytes(a@, b@),
{
    let mut out: Vec<u8> = Vec::new();
    let mut i: usize = 0;
    while i < a.len()
        invariant
            i <= a@.len(),
            a@.len() == b@.len(),
            out@.len() == i,
            forall|k: int| 0 <= k < i ==> out@[k] == (a@[k] & b@[k]),
        decreases a@.len() - i,
    {
        out.push(a[i] & b[i]);
        i = i + 1;
    }
    proof {
        assert(out@ =~= and_bytes(a@, b@));
    }
    out
}

/// Bytewise OR of two equal-width patterns.
pub fn bitor_bytes(a: &Vec<u8>, b: &Vec<u8>) -> (r: Vec<u8>)
    requires
        a@.len() == b@.len(),
    ensures
        r@ == or_bytes(a@, b@),
{
    let mut out: Vec<u8> = Vec::new();
    let mut i: usize = 0;
    while i < a.len()
        invariant
            i <= a@.len(),
            a@.len() == b@.len(),
            out@.len() == i,
            forall|k: int| 0 <= k < i ==> out@[k] == (a@[k] | b@[k]),
        decreases a@.len() - i,
    {
        out.push(a[i] | b[i]);
        i = i + 1;
    }
    proof {
        assert(out@ =~= or_bytes(a@, b@));
    }
    out
}

/// Bytewise XOR of two equal-width patterns.
pub fn bitxor_bytes(a: &Vec<u8>, b: &Vec<u8>) -> (r: Vec<u8>)
    requires
        a@.len() == b@.len(),
    ensures
        r@ == xor_bytes(a@, b@),
{
    let mut out: Vec<u8> = Vec::new();
    let mut i: usize = 0;
    while i < a.len()
        invariant
            i <= a@.len(),
            a@.len() == b@.len(),
            out@.len() == i,
            forall|k: int| 0 <= k < i ==> out@[k] == (a@[k] ^ b@[k]),
        decreases a@.len() - i,
    {
        out.push(a[i] ^ b[i]);
        i = i + 1;
    }
    proof {
        assert(out@ =~= xor_bytes(a@, b@));
    }
    out
}

/// The fallback's capability query: nothing routed here is lock-free.
pub fn is_lock_free() -> (r: bool)
    ensures
        r == false,
{
    false
}

/// Reads the pattern currently held.
pub fn atomic_load(dst: &Vec<u8>) -> (r: Vec<u8>)
    ensures
        r@ == dst@,
{
    copy_bytes(dst)
}

/// Overwrites the pattern held.
pub fn atomic_store(dst: &mut Vec<u8>, val: Vec<u8>)
    requires
        val@.len() == old(dst)@.len(),
    ensures
        final(dst)@ == val@,
{
    *dst = val;
}

/// Overwrites the pattern held and returns the previous one.
pub fn atomic_swap(dst: &mut Vec<u8>, val: Vec<u8>) -> (prev: Vec<u8>)
    requires
        val@.len() == old(dst)@.len(),
    ensures
        prev@ == old(dst)@,
        final(dst)@ == val@,
{
    let prev = copy_bytes(dst);
    *dst = val;
    prev
}

/// Replaces the pattern with `new` exactly when it equals `current`;
/// reports the previously held pattern either way.
pub fn atomic_compare_exchange(dst: &mut Vec<u8>, current: Vec<u8>, new: Vec<u8>) -> (r: Result<
    Vec<u8>,
    Vec<u8>,
>)
    requires
        current@.len() == old(dst)@.len(),
        new@.len() == old(dst)@.len(),
    ensures
        old(dst)@ == current@ ==> final(dst)@ == new@ && (r matches Ok(p) && p@ == old(dst)@),
        old(dst)@ != current@ ==> final(dst)@ == old(dst)@ && (r matches Err(a) && a@ == old(
            dst,
        )@),
{
    let prev = copy_bytes(dst);
    if bytes_eq(dst, &current) {
        *dst = new;
        Ok(prev)
    } else {
        Err(prev)
    }
}

/// Adds modulo the width and returns the previous pattern.
pub fn atomic_add(dst: &mut Vec<u8>, val: Vec<u8>) -> (prev: Vec<u8>)
    requires
        val@.len() == old(dst)@.len(),
    ensures
        prev@ == old(dst)@,
        final(dst)@ == le_bytes(
            add_wrapped(le_val(old(dst)@), le_val(val@), old(dst)@.len()),
            old(dst)@.len(),
        ),
        final(dst)@.len() == old(dst)@.len(),
{
    let prev = copy_bytes(dst);
    let updated = add_bytes(dst, &val);
    *dst = updated;
    prev
}

/// Subtracts modulo the width and returns the previous pattern.
pub fn atomic_sub(dst: &mut Vec<u8>, val: Vec<u8>) -> (prev: Vec<u8>)
    requires
        val@.len() == old(dst)@.len(),
    ensures
        prev@ == old(dst)@,
        final(dst)@ == le_bytes(
            sub_wrapped(le_val(old(dst)@), le_val(val@), old(dst)@.len()),
            old(dst)@.len(),
        ),
        final(dst)@.len() == old(dst)@.len(),
{
    let prev = copy_bytes(dst);
    let updated = sub_bytes(dst, &val);
    *dst = updated;
    prev
}

/// ANDs bytewise and returns the previous pattern.
pub fn atomic_and(dst: &mut Vec<u8>, val: Vec<u8>) -> (prev: Vec<u8>)
    requires
        val@.len() == old(dst)@.len(),
    ensures
        prev@ == old(dst)@,
        final(dst)@ == and_bytes(old(dst)@, val@),
{
    let prev = copy_bytes(dst);
    let updated = bitand_bytes(dst, &val);
    *dst = updated;
    prev
}

/// ORs bytewise and returns the previous pattern.
pub fn atomic_or(dst: &mut Vec<u8>, val: Vec<u8>) -> (prev: Vec<u8>)
    requires
        val@.len() == old(dst)@.len(),
    ensures
        prev@ == old(dst)@,
        final(dst)@ == or_bytes(old(dst)@, val@),
{
    let prev = copy_bytes(dst);
    let updated = bitor_bytes(dst, &val);
    *dst = updated;
    prev
}

/// XORs bytewise and returns the previous pattern.
pub fn atomic_xor(dst: &mut Vec<u8>, val: Vec<u8>) -> (prev: Vec<u8>)
    requires
        val@.len() == old(dst)@.len(),
    ensures
        prev@ == old(dst)@,
        final(dst)@ == xor_bytes(old(dst)@, val@),
{
    let prev = copy_bytes(dst);
    let updated = bitxor_bytes(dst, &val);
    *dst = updated;
    prev
}

} // verus!
