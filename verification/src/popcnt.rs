//! Population count: two implementations, both pinned to the recursive
//! binary [`popcount`].

use vstd::prelude::*;

use vstd::arithmetic::div_mod::{lemma_div_denominator, lemma_mod_breakdown};

verus! {

/// The number of set bits of a non-negative integer.
pub open spec fn popcount(v: nat) -> nat
    decreases v,
{
    if v == 0 {
        0
    } else {
        popcount(v / 2) + v % 2
    }
}

/// Two to the `n`.
pub open spec fn exp2(n: nat) -> nat
    decreases n,
{
    if n == 0 {
        1
    } else {
        2 * exp2((n - 1) as nat)
    }
}

/// A number below `exp2(bits)` has at most `bits` set bits.
pub proof fn lemma_popcount_bound(v: nat, bits: nat)
    requires
        v < exp2(bits),
    ensures
        popcount(v) <= bits,
    decreases bits,
{
    if bits == 0 {
        assert(v == 0);
    } else {
        assert(v / 2 < exp2((bits - 1) as nat));
        lemma_popcount_bound(v / 2, (bits - 1) as nat);
    }
}

/// Clearing the lowest set bit removes exactly one bit from the count and
/// strictly shrinks the value.
pub proof fn lemma_clear_lowest(v: u64)
    requires
        v > 0,
    ensures
        popcount(v as nat) >= 1,
        popcount((v & ((v - 1) as u64)) as nat) == popcount(v as nat) - 1,
        (v & ((v - 1) as u64)) < v,
    decreases v,
{
    let vm1: u64 = (v - 1) as u64;
    assert((v & vm1) < v) by (bit_vector)
        requires
            v > 0,
            vm1 == (v - 1) as u64,
    ;
    if v % 2 == 1 {
        assert(v & vm1 == vm1) by (bit_vector)
            requires
                v % 2 == 1,
                v > 0,
                vm1 == (v - 1) as u64,
        ;
        assert((v - 1) / 2 == v as nat / 2);
        assert(popcount((v - 1) as nat) == popcount(v as nat) - 1);
    } else {
        let w = v / 2;
        assert(w > 0 && w < v);
        let wm1: u64 = (w - 1) as u64;
        assert(v & vm1 == 2 * (w & wm1) && w & wm1 < 0x8000000000000000) by (bit_vector)
            requires
                v % 2 == 0,
                v > 0,
                vm1 == (v - 1) as u64,
                w == v / 2,
                wm1 == (w - 1) as u64,
        ;
        lemma_clear_lowest(w);
        let c = w & wm1;
        assert((2 * c) as nat / 2 == c as nat);
        assert(popcount((2 * c) as nat) == popcount(c as nat));
        assert(popcount(v as nat) == popcount(w as nat));
    }
}

/// Counts the set bits of `val` by repeatedly clearing the lowest one.
pub fn popcnt(val: u64) -> (r: u32)
    ensures
        r == popcount(val as nat),
{
    let ghost orig: nat = val as nat;
    let mut val = val;
    let mut count = 0u32;

    proof {
        assert(exp2(64) == 0x10000000000000000) by {
            reveal_with_fuel(exp2, 65);
        }
        lemma_popcount_bound(orig, 64);
    }
    while val != 0
        invariant
            count + popcount(val as nat) == popcount(orig),
            popcount(orig) <= 64,
        decreases val,
    {
        proof {
            lemma_clear_lowest(val);
        }
        count += 1;
        val &= val - 1;
    }

    count
}

/// Builds the byte table: entry `i` holds the number of set bits of `i`,
/// derived from the entry for `i / 2`.
pub fn compute_byte_table() -> (r: Vec<u8>)
    ensures
        r@.len() == 256,
        forall|i: int| 0 <= i < 256 ==> r@[i] == popcount(i as nat),
{
    let mut table: Vec<u8> = Vec::with_capacity(256);
    table.push(0);
    let mut i: usize = 1;
    while i < 256
        invariant
            1 <= i <= 256,
            table@.len() == i,
            forall|j: int| 0 <= j < i ==> table@[j] == popcount(j as nat),
        decreases 256 - i,
    {
        proof {
            assert(exp2(8) == 256) by {
                reveal_with_fuel(exp2, 9);
            }
            lemma_popcount_bound((i / 2) as nat, 8);
        }
        let entry = table[i / 2] + (i % 2) as u8;
        table.push(entry);
        i = i + 1;
    }
    table
}

/// Splitting off the low byte splits the popcount.
proof fn lemma_popcount_byte_split(v: nat)
    ensures
        popcount(v) == popcount(v % 256) + popcount(v / 256),
{
    lemma_popcount_split(v, 8);
    assert(exp2(8) == 256) by {
        reveal_with_fuel(exp2, 9);
    }
}

/// Splitting off the `k` low bits splits the popcount.
proof fn lemma_popcount_split(v: nat, k: nat)
    ensures
        popcount(v) == popcount(v % exp2(k)) + popcount(v / exp2(k)),
    decreases k,
{
    if k == 0 {
        assert(v % 1 == 0);
        assert(v / 1 == v);
    } else {
        let e = exp2((k - 1) as nat);
        lemma_popcount_split(v / 2, (k - 1) as nat);
        assert(e >= 1) by {
            lemma_exp2_positive((k - 1) as nat);
        }
        lemma_div_denominator(v as int, 2, e as int);
        lemma_mod_breakdown(v as int, 2, e as int);
        assert(v % (2 * e) == 2 * ((v / 2) % e) + v % 2);
        let a = (v / 2) % e;
        assert((2 * a + v % 2) / 2 == a);
        assert((2 * a + v % 2) % 2 == v % 2);
        assert(popcount(2 * a + v % 2) == popcount(a) + v % 2);
    }
}

/// Powers of two are positive.
proof fn lemma_exp2_positive(n: nat)
    ensures
        exp2(n) >= 1,
    decreases n,
{
    if n > 0 {
        lemma_exp2_positive((n - 1) as nat);
    }
}

/// Counts the set bits of `val` one byte at a time through the lookup
/// table.
pub fn popcnt_lookup(val: u64) -> (r: u32)
    ensures
        r == popcount(val as nat),
{
    let table = compute_byte_table();
    proof {
        lemma_lookup_bytes(val);
        assert(forall|b: u64| (b & 0xff) < 256) by (bit_vector);
    }
    (table[(val & 0xff) as usize] + table[((val >> 8) & 0xff) as usize] + table[((val >> 16)
        & 0xff) as usize] + table[((val >> 24) & 0xff) as usize] + table[((val >> 32)
        & 0xff) as usize] + table[((val >> 40) & 0xff) as usize] + table[((val >> 48)
        & 0xff) as usize] + table[((val >> 56) & 0xff) as usize]) as u32
}

/// `v` with its `8 * k` low bits dropped.
pub open spec fn byte_quotient(v: nat, k: nat) -> nat
    decreases k,
{
    if k == 0 {
        v
    } else {
        byte_quotient(v, (k - 1) as nat) / 256
    }
}

/// Shifting right by whole bytes is repeated division by 256.
proof fn lemma_shift_is_quotient(v: u64, k: u64)
    requires
        k < 8,
    ensures
        (v >> (8 * k)) as nat == byte_quotient(v as nat, k as nat),
    decreases k,
{
    if k == 0 {
        assert(v >> (8 * 0) == v) by (bit_vector);
    } else {
        let km1: u64 = (k - 1) as u64;
        lemma_shift_is_quotient(v, km1);
        assert(v >> (8 * k) == (v >> (8 * km1)) / 256) by (bit_vector)
            requires
                0 < k < 8,
                km1 == (k - 1) as u64,
        ;
    }
}

/// The masked shifted bytes of `v` carry its whole popcount, one byte's
/// worth each.
proof fn lemma_lookup_bytes(v: u64)
    ensures
        popcount(v as nat) == popcount(((v & 0xff) as nat)) + popcount((((v >> 8)
            & 0xff) as nat)) + popcount((((v >> 16) & 0xff) as nat)) + popcount((((v >> 24)
            & 0xff) as nat)) + popcount((((v >> 32) & 0xff) as nat)) + popcount((((v >> 40)
            & 0xff) as nat)) + popcount((((v >> 48) & 0xff) as nat)) + popcount((((v >> 56)
            & 0xff) as nat)),
        forall|b: u64| #[trigger] popcount((b & 0xff) as nat) <= 8,
{
    assert(exp2(8) == 256) by {
        reveal_with_fuel(exp2, 9);
    }
    assert forall|b: u64| #[trigger] popcount((b & 0xff) as nat) <= 8 by {
        assert(b & 0xff < 256) by (bit_vector);
        lemma_popcount_bound((b & 0xff) as nat, 8);
    }
    assert forall|k: u64| k < 8 implies ((v >> (8 * k)) & 0xff) as nat == byte_quotient(
        v as nat,
        k as nat,
    ) % 256 by {
        lemma_shift_is_quotient(v, k);
        let s = v >> (8 * k);
        assert(s & 0xff == s % 256) by (bit_vector);
    }
    assert(v >> (8 * 0) == v) by (bit_vector);
    assert((v & 0xff) as nat == byte_quotient(v as nat, 0) % 256) by {
        assert(v & 0xff == v % 256) by (bit_vector);
    }
    let q0 = v as nat;
    let q1 = byte_quotient(v as nat, 1);
    let q2 = byte_quotient(v as nat, 2);
    let q3 = byte_quotient(v as nat, 3);
    let q4 = byte_quotient(v as nat, 4);
    let q5 = byte_quotient(v as nat, 5);
    let q6 = byte_quotient(v as nat, 6);
    let q7 = byte_quotient(v as nat, 7);
    lemma_popcount_byte_split(q0);
    lemma_popcount_byte_split(q1);
    lemma_popcount_byte_split(q2);
    lemma_popcount_byte_split(q3);
    lemma_popcount_byte_split(q4);
    lemma_popcount_byte_split(q5);
    lemma_popcount_byte_split(q6);
    assert(q7 < 256);
    assert(q7 % 256 == q7);
}

} // verus!
