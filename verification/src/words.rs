//! Native word operations and their byte-level meaning.  On a native path
//! every read-modify-write acts on the bridged word; the functions here give
//! those word operations exact contracts, and the lemmas relate each word
//! result back to the byte-pattern semantics that both paths share.

use vstd::prelude::*;
use vstd::arithmetic::div_mod::lemma_small_mod;
use vstd::arithmetic::div_mod::lemma_mod_sub_multiples_vanish;
use crate::bridge::pow256;
use crate::bridge::le_bytes;
use crate::bridge::lemma_pow256_le;
use crate::bridge::lemma_le_bytes_len;

verus! {

/// Modular addition at an n-byte width.
pub open spec fn add_wrapped(x: nat, y: nat, n: nat) -> nat {
    (x + y) % pow256(n)
}

/// Modular subtraction at an n-byte width.
pub open spec fn sub_wrapped(x: nat, y: nat, n: nat) -> nat
    recommends
        x < pow256(n),
        y < pow256(n),
{
    if x >= y {
        (x - y) as nat
    } else {
        (x + pow256(n) - y) as nat
    }
}

/// Bytewise AND of two equal-length patterns.
pub open spec fn and_bytes(a: Seq<u8>, b: Seq<u8>) -> Seq<u8>
    recommends
        a.len() == b.len(),
{
    Seq::new(a.len(), |i: int| a[i] & b[i])
}

/// Bytewise OR of two equal-length patterns.
pub open spec fn or_bytes(a: Seq<u8>, b: Seq<u8>) -> Seq<u8>
    recommends
        a.len() == b.len(),
{
    Seq::new(a.len(), |i: int| a[i] | b[i])
}

/// Bytewise XOR of two equal-length patterns.
pub open spec fn xor_bytes(a: Seq<u8>, b: Seq<u8>) -> Seq<u8>
    recommends
        a.len() == b.len(),
{
    Seq::new(a.len(), |i: int| a[i] ^ b[i])
}

/// 256^n as a word, for widths below the full word.
pub fn pow256_word(n: usize) -> (r: u64)
    requires
        n <= 7,
    ensures
        r as nat == pow256(n as nat),
{
    let mut m: u64 = 1;
    let mut i: usize = 0;
    while i < n
        invariant
            i <= n,
            n <= 7,
            m as nat == pow256(i as nat),
        decreases n - i,
    {
        proof {
            lemma_pow256_le(i as nat, 6);
            assert(pow256(6) == 0x1_0000_0000_0000) by {
                reveal_with_fuel(pow256, 7);
            }
        }
        m = m * 256;
        i = i + 1;
    }
    m
}

/// Addition on the bridged word, wrapping at the n-byte width.
pub fn word_add(x: u64, y: u64, n: usize) -> (r: u64)
    requires
        n <= 8,
        (x as nat) < pow256(n as nat),
        (y as nat) < pow256(n as nat),
    ensures
        r as nat == add_wrapped(x as nat, y as nat, n as nat),
{
    if n == 8 {
        proof {
            assert(pow256(8) == 0x1_0000_0000_0000_0000) by {
                reveal_with_fuel(pow256, 9);
            }
            let s = x as int + y as int;
            let m = pow256(8) as int;
            if s < m {
                lemma_small_mod(s as nat, pow256(8));
            } else {
                lemma_mod_sub_multiples_vanish(s, m);
                lemma_small_mod((s - m) as nat, pow256(8));
            }
        }
        x.wrapping_add(y)
    } else {
        let m = pow256_word(n);
        proof {
            lemma_pow256_le(n as nat, 7);
            assert(pow256(7) == 0x100_0000_0000_0000) by {
                reveal_with_fuel(pow256, 8);
            }
        }
        (x + y) % m
    }
}

/// Subtraction on the bridged word, wrapping at the n-byte width.
pub fn word_sub(x: u64, y: u64, n: usize) -> (r: u64)
    requires
        n <= 8,
        (x as nat) < pow256(n as nat),
        (y as nat) < pow256(n as nat),
    ensures
        r as nat == sub_wrapped(x as nat, y as nat, n as nat),
{
    if x >= y {
        x - y
    } else if n == 8 {
        proof {
            assert(pow256(8) == 0x1_0000_0000_0000_0000) by {
                reveal_with_fuel(pow256, 9);
            }
        }
        x.wrapping_sub(y)
    } else {
        let m = pow256_word(n);
        m - (y - x)
    }
}

/// On the four native widths, each bitwise word operation stays below the
/// width's bound.
pub proof fn lemma_bitwise_bounds(x: u64, y: u64, n: nat)
    requires
        n == 1 || n == 2 || n == 4 || n == 8,
        (x as nat) < pow256(n),
        (y as nat) < pow256(n),
    ensures
        ((x & y) as nat) < pow256(n),
        ((x | y) as nat) < pow256(n),
        ((x ^ y) as nat) < pow256(n),
{
    reveal_with_fuel(pow256, 9);
    assert(x & y <= x) by (bit_vector);
    if n == 1 {
        assert((x | y) < 0x100 && (x ^ y) < 0x100) by (bit_vector)
            requires
                x < 0x100,
                y < 0x100,
        ;
    } else if n == 2 {
        assert((x | y) < 0x1_0000 && (x ^ y) < 0x1_0000) by (bit_vector)
            requires
                x < 0x1_0000,
                y < 0x1_0000,
        ;
    } else if n == 4 {
        assert((x | y) < 0x1_0000_0000 && (x ^ y) < 0x1_0000_0000) by (bit_vector)
            requires
                x < 0x1_0000_0000,
                y < 0x1_0000_0000,
        ;
    }
}

/// AND on the bridged words is the bytewise AND of the two byte patterns.
pub proof fn lemma_word_and_bytes(x: u64, y: u64, n: nat)
    ensures
        le_bytes((x & y) as nat, n) == and_bytes(le_bytes(x as nat, n), le_bytes(y as nat, n)),
    decreases n,
{
    lemma_le_bytes_len((x & y) as nat, n);
    lemma_le_bytes_len(x as nat, n);
    lemma_le_bytes_len(y as nat, n);
    if n == 0 {
        assert(le_bytes((x & y) as nat, 0) =~= and_bytes(
            le_bytes(x as nat, 0),
            le_bytes(y as nat, 0),
        ));
    } else {
        assert((x & y) % 256 == (x % 256) & (y % 256)) by (bit_vector);
        assert((x & y) / 256 == (x / 256) & (y / 256)) by (bit_vector);
        assert(((x % 256) as u8) & ((y % 256) as u8) == (((x % 256) & (y % 256)) as u8))
            by (bit_vector);
        lemma_word_and_bytes(x / 256, y / 256, (n - 1) as nat);
        lemma_le_bytes_len(((x / 256) & (y / 256)) as nat, (n - 1) as nat);
        assert(le_bytes((x & y) as nat, n) =~= and_bytes(
            le_bytes(x as nat, n),
            le_bytes(y as nat, n),
        ));
    }
}

/// OR on the bridged words is the bytewise OR of the two byte patterns.
pub proof fn lemma_word_or_bytes(x: u64, y: u64, n: nat)
    ensures
        le_bytes((x | y) as nat, n) == or_bytes(le_bytes(x as nat, n), le_bytes(y as nat, n)),
    decreases n,
{
    lemma_le_bytes_len((x | y) as nat, n);
    lemma_le_bytes_len(x as nat, n);
    lemma_le_bytes_len(y as nat, n);
    if n == 0 {
        assert(le_bytes((x | y) as nat, 0) =~= or_bytes(
            le_bytes(x as nat, 0),
            le_bytes(y as nat, 0),
        ));
    } else {
        assert((x | y) % 256 == (x % 256) | (y % 256)) by (bit_vector);
        assert((x | y) / 256 == (x / 256) | (y / 256)) by (bit_vector);
        assert(((x % 256) as u8) | ((y % 256) as u8) == (((x % 256) | (y % 256)) as u8))
            by (bit_vector);
        lemma_word_or_bytes(x / 256, y / 256, (n - 1) as nat);
        lemma_le_bytes_len(((x / 256) | (y / 256)) as nat, (n - 1) as nat);
        assert(le_bytes((x | y) as nat, n) =~= or_bytes(
            le_bytes(x as nat, n),
            le_bytes(y as nat, n),
        ));
    }
}

/// XOR on the bridged words is the bytewise XOR of the two byte patterns.
pub proof fn lemma_word_xor_bytes(x: u64, y: u64, n: nat)
    ensures
        le_bytes((x ^ y) as nat, n) == xor_bytes(le_bytes(x as nat, n), le_bytes(y as nat, n)),
    decreases n,
{
    lemma_le_bytes_len((x ^ y) as nat, n);
    lemma_le_bytes_len(x as nat, n);
    lemma_le_bytes_len(y as nat, n);
    if n == 0 {
        assert(le_bytes((x ^ y) as nat, 0) =~= xor_bytes(
            le_bytes(x as nat, 0),
            le_bytes(y as nat, 0),
        ));
    } else {
        assert((x ^ y) % 256 == (x % 256) ^ (y % 256)) by (bit_vector);
        assert((x ^ y) / 256 == (x / 256) ^ (y / 256)) by (bit_vector);
        assert(((x % 256) as u8) ^ ((y % 256) as u8) == (((x % 256) ^ (y % 256)) as u8))
            by (bit_vector);
        lemma_word_xor_bytes(x / 256, y / 256, (n - 1) as nat);
        lemma_le_bytes_len(((x / 256) ^ (y / 256)) as nat, (n - 1) as nat);
        assert(le_bytes((x ^ y) as nat, n) =~= xor_bytes(
            le_bytes(x as nat, n),
            le_bytes(y as nat, n),
        ));
    }
}

} // verus!
