//! The representation bridge: a bit-preserving reinterpretation between a
//! plain-data value, held as its little-endian byte pattern, and the
//! equal-size unsigned word that the native atomic operations act on.
//! Round-tripping through the bridge reproduces the original bits exactly.

use vstd::prelude::*;
use vstd::arithmetic::div_mod::lemma_fundamental_div_mod;
use vstd::arithmetic::div_mod::lemma_fundamental_div_mod_converse;

verus! {

/// 256^n: the number of distinct bit patterns of an n-byte value.
pub open spec fn pow256(n: nat) -> nat
    decreases n,
{
    if n == 0 {
        1
    } else {
        256 * pow256((n - 1) as nat)
    }
}

/// The unsigned value of a byte sequence read little-endian.
pub open spec fn le_val(s: Seq<u8>) -> nat
    decreases s.len(),
{
    if s.len() == 0 {
        0
    } else {
        (s[0] as nat) + 256 * le_val(s.drop_first())
    }
}

/// The n-byte little-endian representation of `v` (reduced mod 256^n).
pub open spec fn le_bytes(v: nat, n: nat) -> Seq<u8>
    decreases n,
{
    if n == 0 {
        Seq::empty()
    } else {
        seq![(v % 256) as u8] + le_bytes(v / 256, (n - 1) as nat)
    }
}

pub proof fn lemma_pow256_pos(n: nat)
    ensures
        pow256(n) >= 1,
    decreases n,
{
    if n > 0 {
        lemma_pow256_pos((n - 1) as nat);
    }
}

pub proof fn lemma_pow256_le(a: nat, b: nat)
    requires
        a <= b,
    ensures
        pow256(a) <= pow256(b),
    decreases b,
{
    if a < b {
        lemma_pow256_le(a, (b - 1) as nat);
        lemma_pow256_pos((b - 1) as nat);
    }
}

/// An n-byte pattern always denotes a value below 256^n.
pub proof fn lemma_le_val_bound(s: Seq<u8>)
    ensures
        le_val(s) < pow256(s.len()),
    decreases s.len(),
{
    if s.len() > 0 {
        lemma_le_val_bound(s.drop_first());
    }
}

pub proof fn lemma_le_bytes_len(v: nat, n: nat)
    ensures
        le_bytes(v, n).len() == n,
    decreases n,
{
    if n > 0 {
        lemma_le_bytes_len(v / 256, (n - 1) as nat);
    }
}

/// Bridging a value to bytes and back returns the identical value.
pub proof fn lemma_val_round_trip(v: nat, n: nat)
    requires
        v < pow256(n),
    ensures
        le_val(le_bytes(v, n)) == v,
    decreases n,
{
    if n > 0 {
        lemma_fundamental_div_mod(v as int, 256);
        assert(256 * (v / 256) <= v);
        assert(v < 256 * pow256((n - 1) as nat));
        assert(v / 256 < pow256((n - 1) as nat));
        lemma_val_round_trip(v / 256, (n - 1) as nat);
        let s = le_bytes(v, n);
        assert(s.drop_first() =~= le_bytes(v / 256, (n - 1) as nat));
        assert(s[0] == (v % 256) as u8);
    }
}

/// Bridging a byte pattern to its word and back reproduces the original
/// bits exactly.
pub proof fn lemma_bytes_round_trip(s: Seq<u8>)
    ensures
        le_bytes(le_val(s), s.len()) == s,
    decreases s.len(),
{
    if s.len() > 0 {
        let r = le_val(s.drop_first());
        lemma_fundamental_div_mod_converse(le_val(s) as int, 256, r as int, s[0] as int);
        assert(le_val(s) % 256 == s[0] as int);
        assert(le_val(s) / 256 == r as int);
        lemma_bytes_round_trip(s.drop_first());
        assert(le_bytes(le_val(s), s.len()) =~= s);
    }
}

/// Two equal-length byte patterns with the same value are the same bits.
pub proof fn lemma_le_val_injective(a: Seq<u8>, b: Seq<u8>)
    requires
        a.len() == b.len(),
        le_val(a) == le_val(b),
    ensures
        a == b,
{
    lemma_bytes_round_trip(a);
    lemma_bytes_round_trip(b);
}

/// Appending a byte contributes its value at the next power of 256.
pub proof fn lemma_le_val_push(s: Seq<u8>, b: u8)
    ensures
        le_val(s.push(b)) == le_val(s) + (b as nat) * pow256(s.len()),
    decreases s.len(),
{
    if s.len() == 0 {
        assert(s.push(b).drop_first() =~= Seq::<u8>::empty());
        assert(s.push(b)[0] == b);
        assert(le_val(s.push(b)) == (b as nat) + 256 * le_val(s.push(b).drop_first()));
    } else {
        assert(s.push(b).drop_first() =~= s.drop_first().push(b));
        assert(s.push(b)[0] == s[0]);
        lemma_le_val_push(s.drop_first(), b);
        assert(le_val(s.push(b)) == (s[0] as nat) + 256 * le_val(s.drop_first().push(b)));
        assert(pow256(s.len()) == 256 * pow256((s.len() - 1) as nat));
        assert(256 * (le_val(s.drop_first()) + (b as nat) * pow256((s.len() - 1) as nat)) == 256
            * le_val(s.drop_first()) + (b as nat) * (256 * pow256((s.len() - 1) as nat)))
            by (nonlinear_arith);
    }
}

/// Extending a prefix by one byte contributes that byte at its own weight.
pub proof fn lemma_prefix_extend(s: Seq<u8>, i: int)
    requires
        0 <= i < s.len(),
    ensures
        le_val(s.subrange(0, i + 1)) == le_val(s.subrange(0, i)) + (s[i] as nat) * pow256(i as nat),
{
    assert(s.subrange(0, i + 1) =~= s.subrange(0, i).push(s[i]));
    lemma_le_val_push(s.subrange(0, i), s[i]);
}

/// Reading a suffix little-endian: the first byte is the low byte.
pub proof fn lemma_le_val_suffix(s: Seq<u8>, j: int)
    requires
        0 <= j < s.len(),
    ensures
        le_val(s.subrange(j, s.len() as int)) == (s[j] as nat) + 256 * le_val(
            s.subrange(j + 1, s.len() as int),
        ),
{
    let t = s.subrange(j, s.len() as int);
    assert(t[0] == s[j]);
    assert(t.drop_first() =~= s.subrange(j + 1, s.len() as int));
}

/// Reads a byte pattern of at most word size as its little-endian word.
pub fn bytes_to_word(b: &Vec<u8>) -> (r: u64)
    requires
        b@.len() <= 8,
    ensures
        r as nat == le_val(b@),
{
    let len = b.len();
    let mut acc: u64 = 0;
    let mut j: usize = len;
    proof {
        assert(b@.subrange(len as int, len as int) =~= Seq::<u8>::empty());
    }
    while j > 0
        invariant
            j <= len,
            len == b@.len(),
            len <= 8,
            acc as nat == le_val(b@.subrange(j as int, len as int)),
        decreases j,
    {
        j = j - 1;
        proof {
            lemma_le_val_bound(b@.subrange(j as int, len as int));
            lemma_pow256_le((len - j) as nat, 8);
            assert(pow256(8) == 0x1_0000_0000_0000_0000) by {
                reveal_with_fuel(pow256, 9);
            }
            lemma_le_val_suffix(b@, j as int);
        }
        acc = acc * 256 + (b[j] as u64);
    }
    proof {
        assert(b@.subrange(0, len as int) =~= b@);
    }
    acc
}

/// Writes the low `n` bytes of a word as its little-endian byte pattern.
pub fn word_to_bytes(v: u64, n: usize) -> (r: Vec<u8>)
    requires
        n <= 8,
        (v as nat) < pow256(n as nat),
    ensures
        r@ == le_bytes(v as nat, n as nat),
        r@.len() == n,
{
    let mut out: Vec<u8> = Vec::new();
    let mut cur: u64 = v;
    let mut i: usize = 0;
    while i < n
        invariant
            i <= n,
            out@.len() == i,
            le_bytes(v as nat, n as nat) == out@ + le_bytes(cur as nat, (n - i) as nat),
        decreases n - i,
    {
        let byte = (cur % 256) as u8;
        proof {
            let rest = le_bytes(cur as nat, (n - i) as nat);
            assert(rest == seq![byte] + le_bytes(cur as nat / 256, (n - i - 1) as nat));
            assert(out@.push(byte) + le_bytes(cur as nat / 256, (n - i - 1) as nat) =~= out@
                + rest);
        }
        out.push(byte);
        cur = cur / 256;
        i = i + 1;
    }
    proof {
        lemma_le_bytes_len(v as nat, n as nat);
        assert(le_bytes(cur as nat, 0) =~= Seq::<u8>::empty());
        assert(out@ + Seq::<u8>::empty() =~= out@);
    }
    out
}

} // verus!
