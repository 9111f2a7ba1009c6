//! Masks over the 128-bit backing word and the register width rule.
use vstd::arithmetic::div_mod::lemma_mod_breakdown;
use vstd::arithmetic::power2::{lemma_pow2_unfold, pow2};
use vstd::prelude::*;

verus! {

/// Every bit of the backing word set.
pub const ALL_ONES: u128 = 0xffff_ffff_ffff_ffff_ffff_ffff_ffff_ffffu128;

/// Widest width a register may be given.
pub const MAX_WIDTH: usize = 512;

/// The word whose low `n` bits are set (every bit when `n >= 128`).
pub open spec fn ones(n: u128) -> u128 {
    if n >= 128 {
        ALL_ONES
    } else {
        !(ALL_ONES << n)
    }
}

/// Whether bit `i` of `v` is set.
pub open spec fn bit(v: u128, i: u128) -> bool {
    (v >> i) & 1 == 1
}

/// The `w` bits of `v` that start at bit `lo`, moved down to bit 0.
pub open spec fn field(v: u128, lo: u128, w: u128) -> u128 {
    (v >> lo) & ones(w)
}

/// The bits of `v` outside the `w` bits that start at `lo`.
pub open spec fn outside(v: u128, lo: u128, w: u128) -> u128 {
    v & !(ones(w) << lo)
}

/// `v` with its `w` bits from `lo` replaced by the low `w` bits of `x`.
pub open spec fn with_field(v: u128, lo: u128, w: u128, x: u128) -> u128 {
    outside(v, lo, w) | ((x & ones(w)) << lo)
}

/// The width that a request for `n` bits is rounded up to: the least power of
/// two from 8 to 512 that is at least `n`.
pub open spec fn round_width(n: nat) -> nat {
    if n <= 8 {
        8
    } else if n <= 16 {
        16
    } else if n <= 32 {
        32
    } else if n <= 64 {
        64
    } else if n <= 128 {
        128
    } else if n <= 256 {
        256
    } else {
        512
    }
}

/// The widths a register may be rounded to.
pub open spec fn is_rounded_width(p: nat) -> bool {
    p == 8 || p == 16 || p == 32 || p == 64 || p == 128 || p == 256 || p == 512
}

/// Width rounding: for every request up to 512 bits, the rounded width is a
/// power of two from 8 to 512, at least the request, and the least such power
/// (half of it is below the request unless it is 8); it is the only width with
/// these properties.
pub proof fn lemma_round_width(n: nat)
    requires
        n <= 512,
    ensures
        is_rounded_width(round_width(n)),
        round_width(n) >= n,
        n <= 8 ==> round_width(n) == 8,
        n > 8 ==> round_width(n) / 2 < n,
        forall|p: nat|
            is_rounded_width(p) && p >= n && (p == 8 || p / 2 < n) ==> p == round_width(n),
{
}

proof fn lemma_ones_step(x: u128, n: u128)
    by (bit_vector)
    requires
        0 < n <= 128,
    ensures
        x & ones(n) == ((x / 2) & ones((n - 1) as u128)) * 2 + (x & 1),
        x & 1 == x % 2,
{
}

/// Masking with `ones(n)` keeps the value modulo `2^n`.
pub proof fn lemma_ones_is_mod(x: u128, n: u128)
    requires
        n <= 128,
    ensures
        (x & ones(n)) as int == x as int % pow2(n as nat) as int,
    decreases n,
{
    if n == 0 {
        assert(x & ones(0) == 0) by (bit_vector);
        vstd::arithmetic::power2::lemma2_to64();
    } else {
        lemma_ones_step(x, n);
        lemma_ones_is_mod(x / 2, (n - 1) as u128);
        lemma_pow2_unfold(n as nat);
        vstd::arithmetic::power2::lemma_pow2_pos((n - 1) as nat);
        lemma_mod_breakdown(x as int, 2, pow2((n - 1) as nat) as int);
    }
}

#[verifier::rlimit(100)]
proof fn lemma_shift_back(x: u128, lo: u128, w: u128)
    by (bit_vector)
    requires
        1 <= w,
        lo + w <= 128,
    ensures
        ((x & ones(w)) << lo) >> lo == x & ones(w),
        (((x & ones(w)) << lo) >> lo) & ones(w) == x & ones(w),
{
}

proof fn lemma_cleared_field(v: u128, lo: u128, w: u128)
    by (bit_vector)
    requires
        1 <= w,
        lo + w <= 128,
    ensures
        ((v & !(ones(w) << lo)) >> lo) & ones(w) == 0,
{
}

#[verifier::rlimit(100)]
proof fn lemma_or_field(a: u128, b: u128, lo: u128, m: u128)
    by (bit_vector)
    ensures
        ((a | b) >> lo) & m == (((a >> lo) & m) | ((b >> lo) & m)),
{
}

proof fn lemma_outside_kept(v: u128, x: u128, lo: u128, w: u128)
    by (bit_vector)
    requires
        1 <= w,
        lo + w <= 128,
    ensures
        ((x & ones(w)) << lo) & !(ones(w) << lo) == 0,
{
}

proof fn lemma_or_outside(a: u128, b: u128, k: u128)
    by (bit_vector)
    requires
        b & k == 0,
    ensures
        (a | b) & k == a & k,
        (a & k) & k == a & k,
{
}

/// Writing a field and reading it back gives the written bits, masked to the
/// field's width; the bits outside the field are kept.
pub proof fn lemma_with_field_round_trip(v: u128, lo: u128, w: u128, x: u128)
    requires
        1 <= w,
        lo + w <= 128,
    ensures
        field(with_field(v, lo, w, x), lo, w) == x & ones(w),
        outside(with_field(v, lo, w, x), lo, w) == outside(v, lo, w),
{
    let a = v & !(ones(w) << lo);
    let b = (x & ones(w)) << lo;
    lemma_shift_back(x, lo, w);
    lemma_cleared_field(v, lo, w);
    lemma_or_field(a, b, lo, ones(w));
    assert((0u128 | (x & ones(w))) == x & ones(w)) by (bit_vector);
    lemma_outside_kept(v, x, lo, w);
    lemma_or_outside(a, b, !(ones(w) << lo));
    assert((v & !(ones(w) << lo)) & !(ones(w) << lo) == v & !(ones(w) << lo)) by (bit_vector);
}

/// The mask of the low `n` bits.
pub fn mask_n_ones_from_right(n: usize) -> (r: u128)
    ensures
        r == ones(n as u128),
{
    if n >= 128 {
        ALL_ONES
    } else {
        let s = n as u128;
        !(ALL_ONES << s)
    }
}

/// The mask of bit `n` alone.
pub fn mask_nth_bit(n: usize) -> (r: u128)
    requires
        n < 128,
    ensures
        r == 1u128 << (n as u128),
        r == ones((n + 1) as u128) & !ones(n as u128),
{
    let s = n as u128;
    proof {
        assert((1u128 << s) == ones((s + 1) as u128) & !ones(s)) by (bit_vector)
            requires
                s < 128,
        ;
    }
    1u128 << s
}

/// The mask of bits `low` to `high_inclusive`.
pub fn mask_from_bit_to_bit(high_inclusive: usize, low: usize) -> (r: u128)
    requires
        low <= high_inclusive < 128,
    ensures
        r == ones((high_inclusive + 1 - low) as u128) << (low as u128),
{
    mask_n_ones_from_right(high_inclusive + 1 - low) << (low as u128)
}

/// Rounds a requested width up to the register width that holds it.
pub fn next_power_of_two_rounded_up(n: usize) -> (r: Result<usize, String>)
    ensures
        n <= MAX_WIDTH ==> r == Ok::<usize, String>(round_width(n as nat) as usize),
        n > MAX_WIDTH ==> r is Err,
{
    if n > MAX_WIDTH {
        return Err("length too big: a width cannot exceed 512 bits".to_owned());
    }
    let mut p: usize = 8;
    while p < n
        invariant
            n <= MAX_WIDTH,
            is_rounded_width(p as nat),
            p <= round_width(n as nat),
        decreases 512 - p,
    {
        p = p * 2;
    }
    Ok(p)
}

} // verus!
