//! Laws relating the two paths.  The byte-level transition that every
//! operation's contract states agrees, bit for bit, with the transition of a
//! raw native word of the same width, over any sequence of operations; and
//! repeated unit increments are never lost: their count, reduced at the
//! width, is exactly the value held.

use vstd::prelude::*;
use vstd::arithmetic::div_mod::lemma_small_mod;
use vstd::arithmetic::div_mod::lemma_mod_division_less_than_divisor;
use vstd::arithmetic::div_mod::lemma_add_mod_noop;
use vstd::arithmetic::div_mod::lemma_add_mod_noop_right;
use crate::bridge::pow256;
use crate::bridge::le_val;
use crate::bridge::le_bytes;
use crate::bridge::lemma_pow256_pos;
use crate::bridge::lemma_pow256_le;
use crate::bridge::lemma_le_bytes_len;
use crate::bridge::lemma_le_val_bound;
use crate::bridge::lemma_val_round_trip;
use crate::bridge::lemma_bytes_round_trip;
use crate::words::add_wrapped;
use crate::words::sub_wrapped;
use crate::words::and_bytes;
use crate::words::or_bytes;
use crate::words::xor_bytes;
use crate::words::lemma_bitwise_bounds;
use crate::words::lemma_word_and_bytes;
use crate::words::lemma_word_or_bytes;
use crate::words::lemma_word_xor_bytes;

verus! {

/// One operation of the catalogue that changes the held value, with its
/// operands given as words of the location's width.
pub enum WordOp {
    Store(u64),
    Swap(u64),
    CompareExchange(u64, u64),
    FetchAdd(u64),
    FetchSub(u64),
    FetchAnd(u64),
    FetchOr(u64),
    FetchXor(u64),
}

/// Every operand of the operation fits the width.
pub open spec fn op_in_range(op: WordOp, w: nat) -> bool {
    match op {
        WordOp::Store(v) => (v as nat) < pow256(w),
        WordOp::Swap(v) => (v as nat) < pow256(w),
        WordOp::CompareExchange(c, v) => (c as nat) < pow256(w) && (v as nat) < pow256(w),
        WordOp::FetchAdd(v) => (v as nat) < pow256(w),
        WordOp::FetchSub(v) => (v as nat) < pow256(w),
        WordOp::FetchAnd(v) => (v as nat) < pow256(w),
        WordOp::FetchOr(v) => (v as nat) < pow256(w),
        WordOp::FetchXor(v) => (v as nat) < pow256(w),
    }
}

/// The transition of a raw native atomic word of width `w`.
pub open spec fn word_step(x: u64, op: WordOp, w: nat) -> u64 {
    match op {
        WordOp::Store(v) => v,
        WordOp::Swap(v) => v,
        WordOp::CompareExchange(c, v) => if x == c {
            v
        } else {
            x
        },
        WordOp::FetchAdd(v) => add_wrapped(x as nat, v as nat, w) as u64,
        WordOp::FetchSub(v) => sub_wrapped(x as nat, v as nat, w) as u64,
        WordOp::FetchAnd(v) => x & v,
        WordOp::FetchOr(v) => x | v,
        WordOp::FetchXor(v) => x ^ v,
    }
}

/// The transition on the byte representation, as the operation contracts
/// state it.
pub open spec fn bytes_step(s: Seq<u8>, op: WordOp, w: nat) -> Seq<u8> {
    match op {
        WordOp::Store(v) => le_bytes(v as nat, w),
        WordOp::Swap(v) => le_bytes(v as nat, w),
        WordOp::CompareExchange(c, v) => if s == le_bytes(c as nat, w) {
            le_bytes(v as nat, w)
        } else {
            s
        },
        WordOp::FetchAdd(v) => le_bytes(add_wrapped(le_val(s), v as nat, w), w),
        WordOp::FetchSub(v) => le_bytes(sub_wrapped(le_val(s), v as nat, w), w),
        WordOp::FetchAnd(v) => and_bytes(s, le_bytes(v as nat, w)),
        WordOp::FetchOr(v) => or_bytes(s, le_bytes(v as nat, w)),
        WordOp::FetchXor(v) => xor_bytes(s, le_bytes(v as nat, w)),
    }
}

/// The word transition stays within the width.
pub proof fn lemma_word_step_in_range(x: u64, op: WordOp, w: nat)
    requires
        w == 1 || w == 2 || w == 4 || w == 8,
        (x as nat) < pow256(w),
        op_in_range(op, w),
    ensures
        (word_step(x, op, w) as nat) < pow256(w),
{
    lemma_pow256_pos(w);
    lemma_pow256_le(w, 8);
    assert(pow256(8) == 0x1_0000_0000_0000_0000) by {
        reveal_with_fuel(pow256, 9);
    }
    match op {
        WordOp::FetchAdd(v) => {
            lemma_mod_division_less_than_divisor((x as nat + v as nat) as int, pow256(w) as int);
        },
        WordOp::FetchAnd(v) => {
            lemma_bitwise_bounds(x, v, w);
        },
        WordOp::FetchOr(v) => {
            lemma_bitwise_bounds(x, v, w);
        },
        WordOp::FetchXor(v) => {
            lemma_bitwise_bounds(x, v, w);
        },
        _ => {},
    }
}

/// The byte transition preserves the width.
pub proof fn lemma_bytes_step_len(s: Seq<u8>, op: WordOp, w: nat)
    requires
        s.len() == w,
    ensures
        bytes_step(s, op, w).len() == w,
{
    match op {
        WordOp::Store(v) => {
            lemma_le_bytes_len(v as nat, w);
        },
        WordOp::Swap(v) => {
            lemma_le_bytes_len(v as nat, w);
        },
        WordOp::CompareExchange(c, v) => {
            lemma_le_bytes_len(v as nat, w);
        },
        WordOp::FetchAdd(v) => {
            lemma_le_bytes_len(add_wrapped(le_val(s), v as nat, w), w);
        },
        WordOp::FetchSub(v) => {
            lemma_le_bytes_len(sub_wrapped(le_val(s), v as nat, w), w);
        },
        WordOp::FetchAnd(v) => {},
        WordOp::FetchOr(v) => {},
        WordOp::FetchXor(v) => {},
    }
}

/// One operation on the byte representation agrees, bit for bit, with the
/// same operation on the bridged native word.
pub proof fn lemma_step_agrees(s: Seq<u8>, op: WordOp, w: nat)
    requires
        w == 1 || w == 2 || w == 4 || w == 8,
        s.len() == w,
        op_in_range(op, w),
    ensures
        bytes_step(s, op, w) == le_bytes(word_step(le_val(s) as u64, op, w) as nat, w),
{
    lemma_pow256_pos(w);
    lemma_pow256_le(w, 8);
    assert(pow256(8) == 0x1_0000_0000_0000_0000) by {
        reveal_with_fuel(pow256, 9);
    }
    lemma_le_val_bound(s);
    lemma_bytes_round_trip(s);
    let x = le_val(s) as u64;
    match op {
        WordOp::Store(v) => {},
        WordOp::Swap(v) => {},
        WordOp::CompareExchange(c, v) => {
            lemma_val_round_trip(c as nat, w);
            if s == le_bytes(c as nat, w) {
                assert(le_val(s) == c as nat);
            } else {
                assert(le_val(s) != c as nat);
            }
        },
        WordOp::FetchAdd(v) => {
            lemma_mod_division_less_than_divisor((x as nat + v as nat) as int, pow256(w) as int);
        },
        WordOp::FetchSub(v) => {},
        WordOp::FetchAnd(v) => {
            lemma_word_and_bytes(x, v, w);
        },
        WordOp::FetchOr(v) => {
            lemma_word_or_bytes(x, v, w);
        },
        WordOp::FetchXor(v) => {
            lemma_word_xor_bytes(x, v, w);
        },
    }
}

/// The value after running a sequence of operations on a raw native word.
pub open spec fn run_words(x: u64, ops: Seq<WordOp>, w: nat) -> u64
    decreases ops.len(),
{
    if ops.len() == 0 {
        x
    } else {
        run_words(word_step(x, ops[0], w), ops.drop_first(), w)
    }
}

/// The pattern after running a sequence of operations on the bytes.
pub open spec fn run_bytes(s: Seq<u8>, ops: Seq<WordOp>, w: nat) -> Seq<u8>
    decreases ops.len(),
{
    if ops.len() == 0 {
        s
    } else {
        run_bytes(bytes_step(s, ops[0], w), ops.drop_first(), w)
    }
}

pub open spec fn ops_in_range(ops: Seq<WordOp>, w: nat) -> bool {
    forall|i: int| 0 <= i < ops.len() ==> op_in_range(#[trigger] ops[i], w)
}

/// Native-path equivalence: any sequence of operations performed through
/// the byte representation of an eligible width leaves exactly the bit
/// pattern of the same sequence performed against a raw native atomic word
/// of that width holding identical bits.
pub proof fn lemma_native_matches_words(s: Seq<u8>, ops: Seq<WordOp>, w: nat)
    requires
        w == 1 || w == 2 || w == 4 || w == 8,
        s.len() == w,
        ops_in_range(ops, w),
    ensures
        run_bytes(s, ops, w) == le_bytes(run_words(le_val(s) as u64, ops, w) as nat, w),
    decreases ops.len(),
{
    lemma_le_val_bound(s);
    lemma_pow256_le(w, 8);
    assert(pow256(8) == 0x1_0000_0000_0000_0000) by {
        reveal_with_fuel(pow256, 9);
    }
    if ops.len() == 0 {
        lemma_bytes_round_trip(s);
    } else {
        let x = le_val(s) as u64;
        lemma_step_agrees(s, ops[0], w);
        lemma_bytes_step_len(s, ops[0], w);
        lemma_word_step_in_range(x, ops[0], w);
        let s1 = bytes_step(s, ops[0], w);
        let x1 = word_step(x, ops[0], w);
        lemma_val_round_trip(x1 as nat, w);
        assert(le_val(s1) == x1 as nat);
        assert(le_val(s1) as u64 == x1);
        assert(ops_in_range(ops.drop_first(), w)) by {
            assert(forall|i: int|
                0 <= i < ops.drop_first().len() ==> ops.drop_first()[i] == ops[i + 1]);
        }
        lemma_native_matches_words(s1, ops.drop_first(), w);
    }
}

/// No update is lost: however callers interleave, a sequence of unit
/// increments — the transition every `fetch_add` of one performs — leaves
/// the starting value raised by exactly their count, reduced at the width.
/// Issued by two callers a hundred thousand times each on an initially-zero
/// location, the held value is their combined total.
pub proof fn lemma_no_increment_lost(x: u64, ops: Seq<WordOp>, w: nat)
    requires
        1 <= w <= 8,
        (x as nat) < pow256(w),
        forall|i: int| 0 <= i < ops.len() ==> ops[i] == WordOp::FetchAdd(1u64),
    ensures
        run_words(x, ops, w) as nat == (x as nat + ops.len()) % pow256(w),
    decreases ops.len(),
{
    lemma_pow256_pos(w);
    lemma_pow256_le(w, 8);
    assert(pow256(8) == 0x1_0000_0000_0000_0000) by {
        reveal_with_fuel(pow256, 9);
    }
    let m = pow256(w);
    if ops.len() == 0 {
        lemma_small_mod(x as nat, m);
    } else {
        assert(ops[0] == WordOp::FetchAdd(1u64));
        lemma_mod_division_less_than_divisor((x as nat + 1) as int, m as int);
        let x1 = word_step(x, ops[0], w);
        assert(x1 as nat == (x as nat + 1) % m);
        assert(forall|i: int|
            0 <= i < ops.drop_first().len() ==> ops.drop_first()[i] == ops[i + 1]);
        lemma_no_increment_lost(x1, ops.drop_first(), w);
        let k = ops.drop_first().len() as int;
        lemma_add_mod_noop_right(x1 as int, k, m as int);
        lemma_small_mod(x1 as nat, m);
        lemma_add_mod_noop((x as int) + 1, k, m as int);
        lemma_small_mod((k % m as int) as nat, m);
    }
}

} // verus!
