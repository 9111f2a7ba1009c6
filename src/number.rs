//! The register: a value held in a 128-bit backing word, read and written by
//! bit ranges.
use crate::bits::{
    field, lemma_ones_is_mod, lemma_with_field_round_trip, outside, mask_n_ones_from_right, next_power_of_two_rounded_up, ones,
    round_width, with_field, ALL_ONES, MAX_WIDTH,
};
use crate::radix::{
    digit_value, digits, lemma_digits_round_trip, read_digits, valid_digits, value_of,
    write_digits,
};
use crate::text::{
    char_from_code, chars_of, control, is_control, len_utf8, scalar_value, string_of, utf8_len,
};
use rand::seq::SliceRandom;
use vstd::arithmetic::div_mod::{lemma_mod_mod, lemma_small_mod};
use vstd::arithmetic::power::pow;
use vstd::arithmetic::power2::{lemma2_to64, lemma_pow2_adds, lemma_pow2_pos, pow2};
use vstd::prelude::*;

verus! {

/// One end of a bit range, before it is resolved against a register.
#[derive(Debug, Clone, Copy, PartialEq, Eq, Structural)]
pub enum BitsIndex {
    HighestBit,
    LowestBit,
    IndexedBit(usize),
}

/// A range of bits: the high end, then the low end, both inclusive.
#[derive(Debug, Clone, Copy, PartialEq, Eq, Structural)]
pub struct BitsIndexRange(pub BitsIndex, pub BitsIndex);

/// How the bits of a register are read.
#[derive(Debug, Clone, Copy, PartialEq, Eq, Structural)]
pub enum NumberType {
    Integer,
    Float,
    Fixed,
}

/// A register: `effective_bits` low bits of `buffer` are in use, the rest are
/// zero.
#[derive(Debug, Clone, Copy)]
pub struct Number {
    buffer: u128,
    effective_bits: usize,
    number_type: NumberType,
    is_signed: bool,
    carry: bool,
}

/// `2^128`, the number of values of the backing word.
pub open spec fn word_range() -> int {
    pow2(128) as int
}

/// The size of the largest field of the backing word that a width can use.
pub open spec fn capped(w: nat) -> nat {
    if w > 128 {
        128
    } else {
        w
    }
}

/// `2^128` written out.
pub proof fn lemma_pow2_128()
    ensures
        pow2(128) == 0x1_0000_0000_0000_0000_0000_0000_0000_0000int,
        pow2(64) == 0x1_0000_0000_0000_0000int,
{
    lemma2_to64();
    lemma_pow2_adds(64, 64);
}

/// Reducing modulo the word first does not change a residue modulo `2^s`.
pub proof fn lemma_mod_word(v: int, s: nat)
    requires
        s <= 128,
    ensures
        (v % word_range()) % (pow2(s) as int) == v % (pow2(s) as int),
{
    lemma_pow2_pos(s);
    lemma_pow2_pos((128 - s) as nat);
    lemma_pow2_adds(s, (128 - s) as nat);
    lemma_mod_mod(v, pow2(s) as int, pow2((128 - s) as nat) as int);
}

proof fn lemma_field_within(b: u128, lo: u128, s: u128, x: u128, w: u128)
    by (bit_vector)
    requires
        b & ones(w) == b,
        1 <= s,
        lo + s <= w,
        lo + s <= 128,
    ensures
        with_field(b, lo, s, x) & ones(w) == with_field(b, lo, s, x),
{
}


/// `ones(n)` read as a number is `2^n - 1`.
pub proof fn lemma_ones_value(n: u128)
    requires
        n <= 128,
    ensures
        ones(n) as int == pow2(n as nat) - 1,
{
    lemma_ones_is_mod(ALL_ONES, n);
    assert(ALL_ONES & ones(n) == ones(n)) by (bit_vector);
    lemma_pow2_128();
    lemma_pow2_pos(n as nat);
    let m = pow2(n as nat) as int;
    let k = pow2((128 - n) as nat) as int;
    lemma_pow2_adds(n as nat, (128 - n) as nat);
    assert(n as nat + (128 - n) as nat == 128);
    assert(m * k == word_range());
    assert(ALL_ONES as int == m * k + (-1));
    vstd::arithmetic::div_mod::lemma_mod_multiples_vanish(k, -1, m);
    vstd::arithmetic::div_mod::lemma_mod_add_multiples_vanish(-1, m);
    lemma_small_mod((m - 1) as nat, m as nat);
}

/// Values equal modulo the word are equal modulo any smaller power of two.
pub proof fn lemma_congruent(v1: int, v2: int, s: nat)
    requires
        s <= 128,
        v1 % word_range() == v2 % word_range(),
    ensures
        v1 % (pow2(s) as int) == v2 % (pow2(s) as int),
{
    lemma_mod_word(v1, s);
    lemma_mod_word(v2, s);
}


/// The value of an `s`-bit field `a` shifted right by `c`, the vacated top
/// bits filled with copies of its top bit.
pub open spec fn shifted_right_signed(a: int, c: nat, s: nat) -> int {
    let kept = if c < s {
        c
    } else {
        s
    };
    a / pow2(c) as int + if a >= pow2((s - 1) as nat) {
        pow2(s) - pow2((s - kept) as nat)
    } else {
        0
    }
}

/// The value of an `s`-bit field `a` rotated left by `k < s`: its low `s - k`
/// bits move up by `k`, its top `k` bits come round to the bottom.
pub open spec fn rotated_left(a: int, k: nat, s: nat) -> int {
    (a % pow2((s - k) as nat) as int) * pow2(k) as int + a / pow2((s - k) as nat) as int
}

/// Sum of two words, read modulo the word, is the sum of their values.
proof fn lemma_wrapping_add(x: u128, y: u128)
    ensures
        (x.wrapping_add(y) as int) % word_range() == (x + y) % word_range(),
{
    lemma_pow2_128();
    if x + y > u128::MAX {
        vstd::arithmetic::div_mod::lemma_mod_sub_multiples_vanish(x + y, word_range());
    }
}

/// A product reduced modulo the word, plus a word, is the plain sum modulo
/// the word.
proof fn lemma_mul_then_add(x: u128, y: u128, z: u128)
    ensures
        (x.wrapping_mul(y).wrapping_add(z) as int) % word_range() == (x * y + z) % word_range(),
{
    lemma_pow2_128();
    let t = x.wrapping_mul(y);
    lemma_wrapping_add(t, z);
    vstd::arithmetic::div_mod::lemma_add_mod_noop(x * y, z as int, word_range());
    lemma_small_mod(z as nat, word_range() as nat);
    vstd::arithmetic::div_mod::lemma_mod_twice(x * y, word_range());
}


/// The number of significant bits of `v`.
pub open spec fn bit_len(v: nat) -> nat
    decreases v,
{
    if v == 0 {
        0
    } else {
        1 + bit_len(v / 2)
    }
}

/// A value lies below two to the power of its bit length, and that length
/// is at most any `k` with `v < 2^k`.
pub proof fn lemma_bit_len(v: nat, k: nat)
    ensures
        v < pow2(bit_len(v)),
        v < pow2(k) ==> bit_len(v) <= k,
    decreases v,
{
    lemma2_to64();
    if v > 0 {
        lemma_bit_len(v / 2, (k - 1) as nat);
        vstd::arithmetic::power2::lemma_pow2_unfold(bit_len(v));
        if v < pow2(k) && k > 0 {
            vstd::arithmetic::power2::lemma_pow2_unfold(k);
        }
        if k == 0 {
            assert(pow2(0) == 1);
        }
    }
}

/// The number of set bits among the low `n` bits of `a`.
pub open spec fn ones_count(a: int, n: nat) -> nat
    decreases n,
{
    if n == 0 {
        0
    } else {
        ones_count(a, (n - 1) as nat) + ((a / pow2((n - 1) as nat) as int) % 2) as nat
    }
}

/// The low `n` bits of `a` in reverse order: bit `i` moves to bit `n - 1 - i`.
pub open spec fn reversed(a: int, n: nat) -> int
    decreases n,
{
    if n == 0 {
        0
    } else {
        reversed(a, (n - 1) as nat) * 2 + (a / pow2((n - 1) as nat) as int) % 2
    }
}

/// Whether a literal starts with a minus sign.
pub open spec fn literal_negative(s: Seq<char>) -> bool {
    s.len() > 0 && s[0] == '-'
}

/// The digits of a literal, after its sign.
pub open spec fn literal_digits(s: Seq<char>) -> Seq<char> {
    if literal_negative(s) {
        s.drop_first()
    } else {
        s
    }
}

/// Whether a literal is digits of `radix`, after an optional minus sign,
/// whose value fits in 128 bits.
pub open spec fn literal_fits(s: Seq<char>, radix: nat) -> bool {
    valid_digits(literal_digits(s), radix) && value_of(literal_digits(s), radix) <= u128::MAX
}

/// The radix prefix written before digits.
pub open spec fn radix_prefix(radix: nat) -> Seq<char> {
    if radix == 2 {
        seq!['0', 'b']
    } else if radix == 8 {
        seq!['0', 'o']
    } else if radix == 10 {
        seq!['0', 'd']
    } else {
        seq!['0', 'x']
    }
}

/// The radixes a register can be written in.
pub open spec fn printable_radix(radix: nat) -> bool {
    radix == 2 || radix == 8 || radix == 10 || radix == 16
}

/// Bit `i` of `a` is `(a >> i) & 1`.
proof fn lemma_low_bit(a: u128, i: u128)
    requires
        i < 128,
    ensures
        ((a >> i) & 1) as int == (a as int / pow2(i as nat) as int) % 2,
{
    vstd::bits::lemma_u128_shr_is_div(a, i);
    lemma_ones_is_mod(a >> i, 1);
    assert(ones(1) == 1) by (bit_vector);
    lemma2_to64();
}

/// The significant bits of `v`.
fn bit_length(v: u128) -> (n: usize)
    ensures
        n == bit_len(v as nat),
        n <= 128,
{
    proof {
        lemma_pow2_128();
        lemma_bit_len(v as nat, 128);
    }
    let mut t = v;
    let mut n: usize = 0;
    while t != 0
        invariant
            bit_len(v as nat) == n + bit_len(t as nat),
            bit_len(v as nat) <= 128,
        decreases t,
    {
        t = t / 2;
        n = n + 1;
    }
    n
}

/// Relies on `SliceRandom::partial_shuffle` over the whole vector with the
/// thread's generator: it only swaps elements.
#[verifier::external_body]
fn shuffled(v: Vec<bool>) -> (r: Vec<bool>)
    ensures
        r@.to_multiset() == v@.to_multiset(),
        r@.len() == v@.len(),
{
    let mut v = v;
    let n = v.len();
    v.partial_shuffle(&mut rand::thread_rng(), n);
    v
}


/// Whether `v` is the `n`-th root of `a` rounded down.
pub open spec fn is_floor_root(v: int, a: int, n: nat) -> bool {
    0 <= v && pow(v, n) <= a < pow(v + 1, n)
}

proof fn lemma_pow_small_bases(n: nat)
    requires
        n >= 1,
    ensures
        pow(0, n) == 0,
        pow(1, n) == 1,
    decreases n,
{
    reveal(pow);
    assert(pow(0, 0) == 1 && pow(1, 0) == 1);
    if n > 1 {
        lemma_pow_small_bases((n - 1) as nat);
    }
}

proof fn lemma_pow_at_least_base(b: nat, n: nat)
    requires
        b >= 1,
        n >= 1,
    ensures
        pow(b as int, n) >= b,
{
    vstd::arithmetic::power::lemma_pow1(b as int);
    vstd::arithmetic::power::lemma_pow_increases(b, 1, n);
}

/// Whether `x` to the power `n` is at most `a`.
fn pow_at_most(x: u128, n: u128, a: u128) -> (r: bool)
    requires
        n >= 1,
    ensures
        r == (pow(x as int, n as nat) <= a),
{
    if x <= 1 {
        proof {
            lemma_pow_small_bases(n as nat);
        }
        return x <= a;
    }
    if a == 0 {
        proof {
            vstd::arithmetic::power::lemma_pow_positive(x as int, n as nat);
        }
        return false;
    }
    let mut acc: u128 = 1;
    let mut i: u128 = 0;
    proof {
        vstd::arithmetic::power::lemma_pow0(x as int);
    }
    while i < n
        invariant
            2 <= x,
            i <= n,
            acc as int == pow(x as int, i as nat),
            acc <= a,
        decreases n - i,
    {
        proof {
            reveal(pow);
            assert(pow(x as int, (i + 1) as nat) == x * pow(x as int, i as nat));
            vstd::arithmetic::mul::lemma_mul_is_commutative(x as int, acc as int);
        }
        match acc.checked_mul(x) {
            Some(m) => {
                if m > a {
                    proof {
                        vstd::arithmetic::power::lemma_pow_increases(x as nat, (i + 1) as nat, n as nat);
                    }
                    return false;
                }
                acc = m;
                i = i + 1;
            },
            None => {
                proof {
                    vstd::arithmetic::power::lemma_pow_increases(x as nat, (i + 1) as nat, n as nat);
                }
                return false;
            },
        }
    }
    true
}

/// The `n`-th root of `a`, rounded down.
fn floor_root(a: u128, n: u128) -> (r: u128)
    requires
        n >= 1,
    ensures
        is_floor_root(r as int, a as int, n as nat),
{
    let mut lo: u128 = 0;
    let mut hi: u128 = a;
    proof {
        lemma_pow_small_bases(n as nat);
        lemma_pow_at_least_base((a + 1) as nat, n as nat);
    }
    while lo < hi
        invariant
            n >= 1,
            lo <= hi <= a,
            pow(lo as int, n as nat) <= a,
            pow(hi + 1, n as nat) > a,
        decreases hi - lo,
    {
        let mid = lo + (hi - lo) / 2 + 1;
        if pow_at_most(mid, n, a) {
            lo = mid;
        } else {
            hi = mid - 1;
        }
    }
    lo
}


/// The low `n` bits of `a` as flags, bit 0 first.
pub open spec fn flags_of(a: int, n: nat) -> Seq<bool> {
    Seq::new(n, |i: int| (a / pow2(i as nat) as int) % 2 == 1)
}

/// The number whose bit `j` is flag `j` of `v`.
pub open spec fn flags_value(v: Seq<bool>) -> int
    decreases v.len(),
{
    if v.len() == 0 {
        0
    } else {
        flags_value(v.drop_last()) + if v.last() {
            pow2((v.len() - 1) as nat) as int
        } else {
            0
        }
    }
}

/// The number whose bit `j` is flag `j` of `v`.
pub fn bits_of_flags(v: &Vec<bool>) -> (r: u128)
    requires
        v@.len() <= 128,
    ensures
        r as int == flags_value(v@),
{
    let mut result: u128 = 0;
    let mut j: usize = 0;
    proof {
        lemma2_to64();
        lemma_pow2_128();
        assert(v@.subrange(0, 0) =~= Seq::<bool>::empty());
    }
    while j < v.len()
        invariant
            v@.len() <= 128,
            j <= v.len(),
            result as int == flags_value(v@.subrange(0, j as int)),
            (result as int) < pow2(j as nat),
            pow2(128) == 0x1_0000_0000_0000_0000_0000_0000_0000_0000int,
        decreases v.len() - j,
    {
        proof {
            assert(v@.subrange(0, j + 1).drop_last() =~= v@.subrange(0, j as int));
            lemma_pow2_pos(j as nat);
            vstd::arithmetic::power2::lemma_pow2_unfold((j + 1) as nat);
            if j + 1 < 128 {
                vstd::arithmetic::power2::lemma_pow2_strictly_increases((j + 1) as nat, 128);
            }
        }
        if v[j] {
            result = result + pow2_word(j);
        }
        j = j + 1;
    }
    proof {
        assert(v@.subrange(0, v@.len() as int) =~= v@);
    }
    result
}

/// `2^n` as a backing word.
fn pow2_word(n: usize) -> (r: u128)
    requires
        n < 128,
    ensures
        r as int == pow2(n as nat),
        r > 0,
{
    proof {
        lemma_pow2_pos(n as nat);
    }
    let mut r: u128 = 1;
    let mut i: usize = 0;
    proof {
        lemma2_to64();
    }
    while i < n
        invariant
            i <= n < 128,
            r as int == pow2(i as nat),
        decreases n - i,
    {
        proof {
            vstd::arithmetic::power2::lemma_pow2_unfold((i + 1) as nat);
            vstd::arithmetic::power2::lemma_pow2_strictly_increases((i + 1) as nat, 128);
            lemma_pow2_128();
        }
        r = r * 2;
        i = i + 1;
    }
    r
}

/// Relies on `u128::wrapping_pow`: the power reduced modulo `2^128`.
#[verifier::external_body]
fn wrapping_pow_word(base: u128, exp: u32) -> (r: u128)
    ensures
        r as int == vstd::arithmetic::power::pow(base as int, exp as nat) % word_range(),
{
    base.wrapping_pow(exp)
}

impl BitsIndexRange {
    /// The range of every bit of a register.
    pub fn full() -> (r: BitsIndexRange)
        ensures
            r == BitsIndexRange(BitsIndex::HighestBit, BitsIndex::LowestBit),
    {
        BitsIndexRange(BitsIndex::HighestBit, BitsIndex::LowestBit)
    }
}

impl Number {
    /// The backing word.
    pub closed spec fn magnitude(&self) -> u128 {
        self.buffer
    }

    /// The number of bits in use.
    pub closed spec fn width(&self) -> nat {
        self.effective_bits as nat
    }

    /// Whether the top bit in use is read as a sign.
    pub closed spec fn is_signed_spec(&self) -> bool {
        self.is_signed
    }

    /// How the bits are read.
    pub closed spec fn kind(&self) -> NumberType {
        self.number_type
    }

    /// The carry of the last operation.
    pub closed spec fn carry_flag(&self) -> bool {
        self.carry
    }

    /// A register is well formed when its width is from 1 to 512 bits and no
    /// bit above its width is set.
    pub open spec fn wf(&self) -> bool {
        &&& 1 <= self.width() <= 512
        &&& self.magnitude() & ones(self.width() as u128) == self.magnitude()
    }

    /// The bit position an index stands for in this register.
    pub open spec fn resolve(&self, i: BitsIndex) -> int {
        match i {
            BitsIndex::HighestBit => self.width() - 1,
            BitsIndex::LowestBit => 0,
            BitsIndex::IndexedBit(n) => n as int,
        }
    }

    pub open spec fn hi(&self, r: BitsIndexRange) -> int {
        self.resolve(r.0)
    }

    pub open spec fn lo(&self, r: BitsIndexRange) -> int {
        self.resolve(r.1)
    }

    /// The number of bits in a range.
    pub open spec fn span(&self, r: BitsIndexRange) -> nat {
        (self.hi(r) - self.lo(r) + 1) as nat
    }

    /// A range is valid when it is ordered, lies within the register's width
    /// and within the backing word.
    pub open spec fn valid_range(&self, r: BitsIndexRange) -> bool {
        0 <= self.lo(r) <= self.hi(r) < self.width() && self.hi(r) < 128
    }

    /// The value held by a range, shifted down to bit 0.
    pub open spec fn bits_at(&self, r: BitsIndexRange) -> u128 {
        field(self.magnitude(), self.lo(r) as u128, self.span(r) as u128)
    }

    /// Width, signedness and kind agree.
    pub open spec fn same_shape(&self, other: Number) -> bool {
        &&& self.width() == other.width()
        &&& self.is_signed_spec() == other.is_signed_spec()
        &&& self.kind() == other.kind()
    }

    /// `self` is `prev` with range `r` holding `value` wrapped to the range's
    /// width, every other bit kept.
    pub open spec fn stores(&self, prev: Number, r: BitsIndexRange, value: int) -> bool {
        &&& self.same_shape(prev)
        &&& self.magnitude() == with_field(
            prev.magnitude(),
            prev.lo(r) as u128,
            prev.span(r) as u128,
            (value % pow2(prev.span(r)) as int) as u128,
        )
    }

    /// `self` is the two's complement of `prev` within its width, signed.
    pub open spec fn is_negation_of(&self, prev: Number) -> bool {
        &&& self.wf()
        &&& self.width() == prev.width()
        &&& self.kind() == prev.kind()
        &&& self.carry_flag() == prev.carry_flag()
        &&& self.is_signed_spec()
        &&& self.magnitude() as int == (pow2(capped(prev.width())) - prev.magnitude()) % pow2(
            capped(prev.width()),
        ) as int
    }

    /// Negation involution: negating a signed register twice gives it back.
    pub proof fn lemma_negation_involution(v: Number, once: Number, twice: Number)
        requires
            v.wf(),
            v.is_signed_spec(),
            once.is_negation_of(v),
            twice.is_negation_of(once),
        ensures
            twice == v,
    {
        let c = capped(v.width());
        let m = pow2(c) as int;
        let b = v.magnitude() as int;
        lemma_pow2_pos(c);
        lemma_ones_is_mod(v.magnitude(), c as u128);
        assert(ones(v.width() as u128) == ones(c as u128));
        assert(b < m);
        if b == 0 {
            vstd::arithmetic::div_mod::lemma_mod_self_0(m);
        } else {
            lemma_small_mod((m - b) as nat, m as nat);
            lemma_small_mod(b as nat, m as nat);
        }
        assert(twice.magnitude() == v.magnitude());
    }

    /// Mask round trip: after a range of a well-formed register is written,
    /// reading it gives the written value masked to the range's width, and
    /// every bit outside the range is as before.
    pub proof fn lemma_set_then_get(prev: Number, next: Number, r: BitsIndexRange, x: u128)
        requires
            prev.wf(),
            prev.valid_range(r),
            next.stores(prev, r, x as int),
        ensures
            next.valid_range(r),
            next.bits_at(r) == x & ones(prev.span(r) as u128),
            outside(next.magnitude(), prev.lo(r) as u128, prev.span(r) as u128) == outside(
                prev.magnitude(),
                prev.lo(r) as u128,
                prev.span(r) as u128,
            ),
    {
        let s = prev.span(r);
        let t = (x as int % pow2(s) as int) as u128;
        lemma_pow2_pos(s);
        lemma_ones_is_mod(x, s as u128);
        lemma_small_mod(t as nat, pow2(s));
        lemma_ones_is_mod(t, s as u128);
        lemma_with_field_round_trip(prev.magnitude(), prev.lo(r) as u128, s as u128, t);
    }

    /// Literal round trip: the decimal digits of any 128-bit value read as a
    /// literal, and the register they give writes back the same digits.
    pub proof fn lemma_literal_round_trip(v: u128, n: Number)
        requires
            n.reads_literal(digits(v as nat, 10), 10),
        ensures
            literal_fits(digits(v as nat, 10), 10),
            n.formatted(10, false, false) == digits(v as nat, 10),
    {
        let d = digits(v as nat, 10);
        lemma_digits_round_trip(v as nat, 10);
        assert(digit_value(d[0]) >= 0);
        assert(!literal_negative(d));
        assert(literal_digits(d) == d);
        assert(!n.negative());
        assert(n.shown() == v as nat);
        assert(n.formatted(10, false, false) =~= d);
    }

    /// A zeroed register of the given kind and signedness, its width rounded up
    /// to a power of two.
    pub fn new(number_type: NumberType, is_signed: bool, size: usize) -> (r: Result<Self, String>)
        ensures
            size <= MAX_WIDTH <==> r is Ok,
            r matches Ok(n) ==> {
                &&& n.wf()
                &&& n.magnitude() == 0
                &&& n.width() == round_width(size as nat)
                &&& n.is_signed_spec() == is_signed
                &&& n.kind() == number_type
                &&& !n.carry_flag()
            },
    {
        match next_power_of_two_rounded_up(size) {
            Ok(size) => {
                proof {
                    assert(0u128 & ones(size as u128) == 0u128) by (bit_vector);
                }
                Ok(Self { buffer: 0u128, effective_bits: size, number_type, is_signed, carry: false })
            },
            Err(message) => Err(message),
        }
    }

    /// The bit position an index stands for in this register.
    pub fn resolve_bit_index(&self, bi: BitsIndex) -> (r: usize)
        requires
            self.wf(),
        ensures
            r as int == self.resolve(bi),
    {
        match bi {
            BitsIndex::IndexedBit(i) => i,
            BitsIndex::HighestBit => self.effective_bits - 1,
            BitsIndex::LowestBit => 0,
        }
    }

    /// Whether `range` can be read and written in this register.
    pub fn is_valid_range(&self, range: BitsIndexRange) -> (r: bool)
        requires
            self.wf(),
        ensures
            r == self.valid_range(range),
    {
        let high = self.resolve_bit_index(range.0);
        let low = self.resolve_bit_index(range.1);
        low <= high && high < self.effective_bits && high < 128
    }

    /// The bits of `range`, shifted down to bit 0.
    pub fn get_bits(&self, range: BitsIndexRange) -> (r: u128)
        requires
            self.wf(),
            self.valid_range(range),
        ensures
            r == self.bits_at(range),
            r as int == (self.magnitude() as int / pow2(self.lo(range) as nat) as int) % pow2(
                self.span(range),
            ) as int,
    {
        let high = self.resolve_bit_index(range.0);
        let low = self.resolve_bit_index(range.1);
        let shifted = self.buffer >> (low as u128);
        let r = shifted & mask_n_ones_from_right(high - low + 1);
        proof {
            vstd::bits::lemma_u128_shr_is_div(self.buffer, low as u128);
            lemma_ones_is_mod(shifted, (high - low + 1) as u128);
        }
        r
    }

    /// Writes the low bits of `source_bits` into `range`.
    pub fn set_bits(&mut self, range: BitsIndexRange, source_bits: u128)
        requires
            old(self).wf(),
            old(self).valid_range(range),
        ensures
            final(self).wf(),
            final(self).stores(*old(self), range, source_bits as int),
            final(self).carry_flag() == old(self).carry_flag(),
    {
        let high = self.resolve_bit_index(range.0);
        let low = self.resolve_bit_index(range.1);
        let s = high - low + 1;
        let m = mask_n_ones_from_right(s);
        let b = self.buffer;
        let nb = (b & !(m << (low as u128))) | ((source_bits & m) << (low as u128));
        proof {
            let lo = low as u128;
            let sp = s as u128;
            let w = self.effective_bits as u128;
            assert(nb == with_field(b, lo, sp, source_bits));
            lemma_field_within(b, lo, sp, source_bits, w);
            lemma_pow2_pos(s as nat);
            lemma_ones_is_mod(source_bits, sp);
            let t = (source_bits as int % pow2(s as nat) as int) as u128;
            lemma_small_mod(t as nat, pow2(s as nat));
            lemma_ones_is_mod(t, sp);
            assert(t & ones(sp) == source_bits & ones(sp));
        }
        self.buffer = nb;
    }
    /// A range `r` of `prev` that `self` stores `v1` in also stores any value
    /// that agrees with `v1` modulo the word.
    pub proof fn lemma_stores_congruent(&self, prev: Number, r: BitsIndexRange, v1: int, v2: int)
        requires
            prev.valid_range(r),
            self.stores(prev, r, v1),
            v1 % word_range() == v2 % word_range(),
        ensures
            self.stores(prev, r, v2),
    {
        lemma_congruent(v1, v2, prev.span(r));
    }

    /// Writes `result` into `range` and clears the carry.
    fn with_range_do_arithmetics(&mut self, range: BitsIndexRange, result: u128)
        requires
            old(self).wf(),
            old(self).valid_range(range),
        ensures
            final(self).wf(),
            final(self).stores(*old(self), range, result as int),
            !final(self).carry_flag(),
    {
        self.carry = false;
        self.set_bits(range, result);
    }

    /// Adds `additive` to `range`, wrapping within the range.
    pub fn range_add_bits(&mut self, range: BitsIndexRange, additive: u128)
        requires
            old(self).wf(),
            old(self).valid_range(range),
        ensures
            final(self).wf(),
            !final(self).carry_flag(),
            final(self).stores(*old(self), range, old(self).bits_at(range) + additive),
    {
        let a = self.get_bits(range);
        let r = a.wrapping_add(additive);
        proof {
            lemma_pow2_128();
            if a + additive > u128::MAX {
                vstd::arithmetic::div_mod::lemma_mod_sub_multiples_vanish(
                    a + additive,
                    word_range(),
                );
            }
        }
        self.with_range_do_arithmetics(range, r);
        proof {
            self.lemma_stores_congruent(*old(self), range, r as int, a + additive);
        }
    }

    /// Subtracts `subtractive` from `range`, wrapping within the range.
    pub fn range_subtract_bits(&mut self, range: BitsIndexRange, subtractive: u128)
        requires
            old(self).wf(),
            old(self).valid_range(range),
        ensures
            final(self).wf(),
            !final(self).carry_flag(),
            final(self).stores(*old(self), range, old(self).bits_at(range) - subtractive),
    {
        let a = self.get_bits(range);
        let r = a.wrapping_sub(subtractive);
        proof {
            lemma_pow2_128();
            if a - subtractive < 0 {
                vstd::arithmetic::div_mod::lemma_mod_add_multiples_vanish(
                    a - subtractive,
                    word_range(),
                );
            }
        }
        self.with_range_do_arithmetics(range, r);
        proof {
            self.lemma_stores_congruent(*old(self), range, r as int, a - subtractive);
        }
    }

    /// Multiplies `range` by `multiplier`, wrapping within the range.
    pub fn range_multiply_bits(&mut self, range: BitsIndexRange, multiplier: u128)
        requires
            old(self).wf(),
            old(self).valid_range(range),
        ensures
            final(self).wf(),
            !final(self).carry_flag(),
            final(self).stores(*old(self), range, old(self).bits_at(range) * multiplier),
    {
        let a = self.get_bits(range);
        let r = a.wrapping_mul(multiplier);
        proof {
            lemma_pow2_128();
            vstd::arithmetic::div_mod::lemma_mod_twice(a * multiplier, word_range());
        }
        self.with_range_do_arithmetics(range, r);
        proof {
            self.lemma_stores_congruent(*old(self), range, r as int, a * multiplier);
        }
    }

    /// Divides `range` by `divisor`; a zero divisor is refused and leaves the
    /// register as it was.
    pub fn range_div_bits(&mut self, range: BitsIndexRange, divisor: u128) -> (r: Result<(), String>)
        requires
            old(self).wf(),
            old(self).valid_range(range),
        ensures
            final(self).wf(),
            divisor != 0 ==> !final(self).carry_flag(),
            divisor == 0 <==> r is Err,
            divisor == 0 ==> *final(self) == *old(self),
            divisor != 0 ==> final(self).stores(*old(self), range, (old(self).bits_at(range) / divisor) as int),
    {
        if divisor == 0 {
            return Err("Cannot divide by 0".to_owned());
        }
        let a = self.get_bits(range);
        self.with_range_do_arithmetics(range, a / divisor);
        Ok(())
    }

    /// Replaces `range` by its remainder modulo `divisor`; a zero divisor is
    /// refused and leaves the register as it was.
    pub fn range_mod_bits(&mut self, range: BitsIndexRange, divisor: u128) -> (r: Result<(), String>)
        requires
            old(self).wf(),
            old(self).valid_range(range),
        ensures
            final(self).wf(),
            divisor != 0 ==> !final(self).carry_flag(),
            divisor == 0 <==> r is Err,
            divisor == 0 ==> *final(self) == *old(self),
            divisor != 0 ==> final(self).stores(*old(self), range, (old(self).bits_at(range) % divisor) as int),
    {
        if divisor == 0 {
            return Err("Cannot divide by 0".to_owned());
        }
        let a = self.get_bits(range);
        self.with_range_do_arithmetics(range, a % divisor);
        Ok(())
    }

    /// Raises `range` to the power given by the low 32 bits of `magnitude`,
    /// wrapping within the range.
    pub fn range_pow_bits(&mut self, range: BitsIndexRange, magnitude: u128)
        requires
            old(self).wf(),
            old(self).valid_range(range),
        ensures
            final(self).wf(),
            !final(self).carry_flag(),
            final(self).stores(
                *old(self),
                range,
                vstd::arithmetic::power::pow(
                    old(self).bits_at(range) as int,
                    (magnitude as int % 0x1_0000_0000) as nat,
                ),
            ),
    {
        let a = self.get_bits(range);
        let low = magnitude & 0xffff_ffffu128;
        proof {
            assert(magnitude & 0xffff_ffffu128 == magnitude % 0x1_0000_0000u128) by (bit_vector);
        }
        let e = low as u32;
        let r = wrapping_pow_word(a, e);
        proof {
            lemma_pow2_128();
            vstd::arithmetic::div_mod::lemma_mod_twice(
                vstd::arithmetic::power::pow(a as int, e as nat),
                word_range(),
            );
        }
        self.with_range_do_arithmetics(range, r);
        proof {
            self.lemma_stores_congruent(
                *old(self),
                range,
                r as int,
                vstd::arithmetic::power::pow(a as int, e as nat),
            );
        }
    }

    /// Replaces `range` by its bitwise exclusive or with `second_operand`.
    pub fn range_xor_bits(&mut self, range: BitsIndexRange, second_operand: u128)
        requires
            old(self).wf(),
            old(self).valid_range(range),
        ensures
            final(self).wf(),
            !final(self).carry_flag(),
            final(self).stores(*old(self), range, (old(self).bits_at(range) ^ second_operand) as int),
    {
        let a = self.get_bits(range);
        self.with_range_do_arithmetics(range, a ^ second_operand);
    }

    /// Replaces `range` by its bitwise and with `second_operand`.
    pub fn range_and_bits(&mut self, range: BitsIndexRange, second_operand: u128)
        requires
            old(self).wf(),
            old(self).valid_range(range),
        ensures
            final(self).wf(),
            !final(self).carry_flag(),
            final(self).stores(*old(self), range, (old(self).bits_at(range) & second_operand) as int),
    {
        let a = self.get_bits(range);
        self.with_range_do_arithmetics(range, a & second_operand);
    }

    /// Replaces `range` by its bitwise or with `second_operand`.
    pub fn range_or_bits(&mut self, range: BitsIndexRange, second_operand: u128)
        requires
            old(self).wf(),
            old(self).valid_range(range),
        ensures
            final(self).wf(),
            !final(self).carry_flag(),
            final(self).stores(*old(self), range, (old(self).bits_at(range) | second_operand) as int),
    {
        let a = self.get_bits(range);
        self.with_range_do_arithmetics(range, a | second_operand);
    }
    /// Every value a valid range holds is below `2^span`.
    pub proof fn lemma_bits_at_bound(&self, r: BitsIndexRange)
        requires
            self.valid_range(r),
        ensures
            (self.bits_at(r) as int) < pow2(self.span(r)) as int,
    {
        lemma_ones_is_mod(self.magnitude() >> (self.lo(r) as u128), self.span(r) as u128);
        lemma_pow2_pos(self.span(r));
    }

    /// Shifts `range` left by `count`; bits that leave the range's top are lost.
    pub fn signed_shift_left(&mut self, range: BitsIndexRange, count: usize)
        requires
            old(self).wf(),
            old(self).valid_range(range),
        ensures
            final(self).wf(),
            !final(self).carry_flag(),
            final(self).stores(
                *old(self),
                range,
                old(self).bits_at(range) * pow2(count as nat) as int,
            ),
    {
        let a = self.get_bits(range);
        let s = self.resolve_bit_index(range.0) - self.resolve_bit_index(range.1) + 1;
        if count >= s {
            proof {
                let k = pow2((count - s) as nat) as int;
                let ps = pow2(s as nat) as int;
                lemma_pow2_pos(s as nat);
                lemma_pow2_adds(s as nat, (count - s) as nat);
                assert(s as nat + (count - s) as nat == count as nat);
                assert(pow2(count as nat) == ps * k);
                vstd::arithmetic::mul::lemma_mul_is_associative(a as int, ps, k);
                vstd::arithmetic::mul::lemma_mul_is_commutative(a as int, ps);
                vstd::arithmetic::mul::lemma_mul_is_associative(ps, a as int, k);
                assert(a * pow2(count as nat) == ps * (a * k));
                vstd::arithmetic::div_mod::lemma_mod_multiples_vanish(a * k, 0, ps);
                assert((a * pow2(count as nat)) % (pow2(s as nat) as int) == 0);
            }
            self.with_range_do_arithmetics(range, 0);
        } else {
            let r = a.wrapping_mul(pow2_word(count));
            proof {
                lemma_pow2_128();
                vstd::arithmetic::div_mod::lemma_mod_twice(a * pow2(count as nat), word_range());
            }
            self.with_range_do_arithmetics(range, r);
            proof {
                self.lemma_stores_congruent(*old(self), range, r as int, a * pow2(count as nat));
            }
        }
    }

    /// Shifts `range` right by `count`, filling the vacated top bits with
    /// copies of the range's own top bit.
    pub fn signed_shift_right(&mut self, range: BitsIndexRange, count: usize)
        requires
            old(self).wf(),
            old(self).valid_range(range),
        ensures
            final(self).wf(),
            !final(self).carry_flag(),
            final(self).stores(
                *old(self),
                range,
                shifted_right_signed(
                    old(self).bits_at(range) as int,
                    count as nat,
                    old(self).span(range),
                ),
            ),
    {
        let a = self.get_bits(range);
        let s = self.resolve_bit_index(range.0) - self.resolve_bit_index(range.1) + 1;
        proof {
            self.lemma_bits_at_bound(range);
            lemma_pow2_128();
        }
        let shifted = if count >= 128 {
            proof {
                if count > 128 {
                    vstd::arithmetic::power2::lemma_pow2_strictly_increases(128, count as nat);
                }
                if s < 128 {
                    vstd::arithmetic::power2::lemma_pow2_strictly_increases(s as nat, 128);
                }
                vstd::arithmetic::div_mod::lemma_basic_div(a as int, pow2(count as nat) as int);
            }
            0
        } else {
            proof {
                vstd::bits::lemma_u128_shr_is_div(a, count as u128);
            }
            a >> (count as u128)
        };
        let top = a >= pow2_word(s - 1);
        let kept = if count < s {
            count
        } else {
            s
        };
        let fill = if top {
            let all = mask_n_ones_from_right(s);
            let low = mask_n_ones_from_right(s - kept);
            proof {
                lemma_ones_value(s as u128);
                lemma_ones_value((s - kept) as u128);
                if kept > 0 {
                    vstd::arithmetic::power2::lemma_pow2_strictly_increases((s - kept) as nat, s as nat);
                }
            }
            all - low
        } else {
            0
        };
        let r = shifted.wrapping_add(fill);
        proof {
            lemma_wrapping_add(shifted, fill);
        }
        self.with_range_do_arithmetics(range, r);
        proof {
            self.lemma_stores_congruent(
                *old(self),
                range,
                r as int,
                shifted_right_signed(a as int, count as nat, s as nat),
            );
        }
    }

    /// Shifts `range` right by `count`, filling the vacated top bits with zeros.
    pub fn unsigned_shift_right(&mut self, range: BitsIndexRange, count: usize)
        requires
            old(self).wf(),
            old(self).valid_range(range),
        ensures
            final(self).wf(),
            !final(self).carry_flag(),
            final(self).stores(
                *old(self),
                range,
                old(self).bits_at(range) as int / pow2(count as nat) as int,
            ),
    {
        let a = self.get_bits(range);
        let r = if count >= 128 {
            proof {
                lemma_pow2_128();
                if count > 128 {
                    vstd::arithmetic::power2::lemma_pow2_strictly_increases(128, count as nat);
                }
                vstd::arithmetic::div_mod::lemma_basic_div(a as int, pow2(count as nat) as int);
            }
            0
        } else {
            proof {
                vstd::bits::lemma_u128_shr_is_div(a, count as u128);
            }
            a >> (count as u128)
        };
        self.with_range_do_arithmetics(range, r);
    }

    /// Rotates `range` left by `count` modulo the range's width.
    pub fn unsigned_cyclic_shift_left(&mut self, range: BitsIndexRange, count: usize)
        requires
            old(self).wf(),
            old(self).valid_range(range),
        ensures
            final(self).wf(),
            !final(self).carry_flag(),
            final(self).stores(
                *old(self),
                range,
                rotated_left(
                    old(self).bits_at(range) as int,
                    count as nat % old(self).span(range),
                    old(self).span(range),
                ),
            ),
    {
        let a = self.get_bits(range);
        let s = self.resolve_bit_index(range.0) - self.resolve_bit_index(range.1) + 1;
        let k = count % s;
        self.rotate_field_left(range, a, s, k);
    }

    /// Rotates `range` right by `count` modulo the range's width.
    pub fn unsigned_cyclic_shift_right(&mut self, range: BitsIndexRange, count: usize)
        requires
            old(self).wf(),
            old(self).valid_range(range),
        ensures
            final(self).wf(),
            !final(self).carry_flag(),
            final(self).stores(
                *old(self),
                range,
                rotated_left(
                    old(self).bits_at(range) as int,
                    ((old(self).span(range) - count as nat % old(self).span(range)) as nat)
                        % old(self).span(range),
                    old(self).span(range),
                ),
            ),
    {
        let a = self.get_bits(range);
        let s = self.resolve_bit_index(range.0) - self.resolve_bit_index(range.1) + 1;
        let k = (s - count % s) % s;
        self.rotate_field_left(range, a, s, k);
    }

    fn rotate_field_left(&mut self, range: BitsIndexRange, a: u128, s: usize, k: usize)
        requires
            old(self).wf(),
            old(self).valid_range(range),
            a == old(self).bits_at(range),
            s == old(self).span(range),
            k < s,
        ensures
            final(self).wf(),
            !final(self).carry_flag(),
            final(self).stores(*old(self), range, rotated_left(a as int, k as nat, s as nat)),
    {
        proof {
            self.lemma_bits_at_bound(range);
        }
        if k == 0 {
            proof {
                lemma_pow2_pos(s as nat);
                lemma_small_mod(a as nat, pow2(s as nat));
                vstd::arithmetic::div_mod::lemma_basic_div(a as int, pow2(s as nat) as int);
                lemma2_to64();
            }
            self.with_range_do_arithmetics(range, a);
        } else {
            let p_low = pow2_word(s - k);
            let p_k = pow2_word(k);
            let r = (a % p_low).wrapping_mul(p_k).wrapping_add(a / p_low);
            proof {
                lemma_mul_then_add(a % p_low, p_k, a / p_low);
            }
            self.with_range_do_arithmetics(range, r);
            proof {
                self.lemma_stores_congruent(
                    *old(self),
                    range,
                    r as int,
                    rotated_left(a as int, k as nat, s as nat),
                );
            }
        }
    }

    /// Whether the value reads as negative: it is signed and its top bit in use
    /// is set.
    pub open spec fn negative(&self) -> bool {
        self.is_signed_spec() && self.width() <= 128 && self.magnitude() as int >= pow2(
            (self.width() - 1) as nat,
        )
    }

    /// Replaces the whole value by its two's complement within the width, and
    /// marks the register signed.
    pub fn negate(&mut self)
        requires
            old(self).wf(),
        ensures
            final(self).is_negation_of(*old(self)),
    {
        self.is_signed = true;
        let b = self.buffer;
        let t = 0u128.wrapping_sub(b);
        let m = mask_n_ones_from_right(self.effective_bits);
        let nb = t & m;
        proof {
            let c = capped(self.effective_bits as nat);
            let w = self.effective_bits as u128;
            assert(ones(w) == ones(c as u128));
            lemma_ones_is_mod(t, c as u128);
            lemma_pow2_128();
            if b > 0 {
                vstd::arithmetic::div_mod::lemma_mod_add_multiples_vanish(-b, word_range());
            }
            lemma_congruent(t as int, -b, c);
            lemma_pow2_pos(c);
            vstd::arithmetic::div_mod::lemma_mod_add_multiples_vanish(-b, pow2(c) as int);
            assert((t & m) & m == t & m) by (bit_vector);
        }
        self.buffer = nb;
    }

    /// The widest register this one holds: its width.
    pub fn max_size(&self) -> (r: usize)
        ensures
            r as nat == self.width(),
    {
        self.effective_bits
    }

    /// Widens (or narrows) the register to `new_max_size` bits; a negative
    /// value has its new top bits filled with ones.
    pub fn signed_extend_to(&mut self, new_max_size: usize)
        requires
            old(self).wf(),
            1 <= new_max_size <= MAX_WIDTH,
        ensures
            final(self).wf(),
            final(self).width() == new_max_size,
            final(self).is_signed_spec() == old(self).is_signed_spec(),
            final(self).kind() == old(self).kind(),
            final(self).magnitude() == (if old(self).negative() {
                old(self).magnitude() | !ones(old(self).width() as u128)
            } else {
                old(self).magnitude()
            }) & ones(new_max_size as u128),
    {
        let b = if self.is_negative() {
            self.buffer | !mask_n_ones_from_right(self.effective_bits)
        } else {
            self.buffer
        };
        let m = mask_n_ones_from_right(new_max_size);
        proof {
            assert((b & m) & m == b & m) by (bit_vector);
        }
        self.buffer = b & m;
        self.effective_bits = new_max_size;
    }

    /// Gives the register a new kind, signedness and width, dropping the bits
    /// above the new width.
    pub fn convert(&mut self, number_type: NumberType, signed: bool, size: usize)
        requires
            old(self).wf(),
            1 <= size <= MAX_WIDTH,
        ensures
            final(self).wf(),
            final(self).width() == size,
            final(self).is_signed_spec() == signed,
            final(self).kind() == number_type,
            final(self).magnitude() as int == old(self).magnitude() as int % pow2(capped(size as nat)) as int,
    {
        let m = mask_n_ones_from_right(size);
        let b = self.buffer;
        proof {
            assert((b & m) & m == b & m) by (bit_vector);
            assert(ones(size as u128) == ones(capped(size as nat) as u128));
            lemma_ones_is_mod(b, capped(size as nat) as u128);
        }
        self.number_type = number_type;
        self.is_signed = signed;
        self.effective_bits = size;
        self.buffer = b & m;
    }

    /// The low bits of the backing word that fit a `usize`.
    pub fn to_usize(&self) -> (r: usize)
        ensures
            r == self.magnitude() as usize,
    {
        self.buffer as usize
    }

    /// The backing word.
    pub fn to_u128(&self) -> (r: u128)
        ensures
            r == self.magnitude(),
    {
        self.buffer
    }

    /// Whether the value reads as negative.
    pub fn is_negative(&self) -> (r: bool)
        requires
            self.wf(),
        ensures
            r == self.negative(),
    {
        if self.is_signed && self.effective_bits <= 128 {
            self.buffer >= pow2_word(self.effective_bits - 1)
        } else {
            false
        }
    }

    /// The carry of the last operation.
    pub fn carry(&self) -> (r: bool)
        ensures
            r == self.carry_flag(),
    {
        self.carry
    }

    /// Whether the register is signed.
    pub fn signed(&self) -> (r: bool)
        ensures
            r == self.is_signed_spec(),
    {
        self.is_signed
    }
    /// `self` is the register a literal in `radix` reads as: the width is the
    /// least power of two from 8 that holds the digits' value, and a negative
    /// nonzero value is stored as its two's complement in that width.
    pub open spec fn reads_literal(&self, s: Seq<char>, radix: nat) -> bool {
        let v = value_of(literal_digits(s), radix);
        let w = round_width(bit_len(v as nat));
        &&& self.wf()
        &&& self.width() == w
        &&& w <= 128
        &&& self.magnitude() as int == if literal_negative(s) && v != 0 {
            pow2(w) - v
        } else {
            v
        }
        &&& self.is_signed_spec() == literal_negative(s)
        &&& self.kind() == NumberType::Integer
        &&& !self.carry_flag()
    }

    /// A register holding the code of `c`, as wide as its UTF-8 encoding.
    pub fn from_char(c: char) -> (r: Result<Self, String>)
        ensures
            r matches Ok(n) && n.wf() && n.magnitude() == c as u32 && n.width() == 8 * utf8_len(c)
                && !n.is_signed_spec() && n.kind() == NumberType::Integer,
    {
        let code = c as u32;
        let width = len_utf8(c) * 8;
        let b = code as u128;
        proof {
            lemma_pow2_pos(width as nat);
            lemma2_to64();
            vstd::arithmetic::power2::lemma_pow2_strictly_increases(21, 24);
            assert(pow2(24) == 0x1000000) by {
                lemma2_to64();
            }
            if width == 8 {
                assert(b < pow2(8));
            } else if width == 16 {
                assert(b < pow2(16));
            } else if width == 24 {
                assert(b < pow2(24));
            } else {
                assert(b < pow2(32));
            }
            lemma_ones_is_mod(b, width as u128);
            lemma_small_mod(b as nat, pow2(width as nat));
        }
        Ok(
            Self {
                buffer: b,
                effective_bits: width,
                number_type: NumberType::Integer,
                is_signed: false,
                carry: false,
            },
        )
    }

    /// Reads an optionally negative literal of digits in `radix`. The width is
    /// the least power of two from 8 that holds the digits' value; a negative
    /// nonzero value is stored as its two's complement in that width.
    pub fn from_str(number_literal: &str, radix: u32) -> (r: Result<Self, String>)
        ensures
            r is Ok <==> literal_fits(number_literal@, radix as nat),
            r matches Ok(n) ==> n.reads_literal(number_literal@, radix as nat),
    {
        let chars = chars_of(number_literal);
        let is_negative = chars.len() > 0 && chars[0] == '-';
        let mut body: Vec<char> = Vec::new();
        let mut i: usize = if is_negative {
            1
        } else {
            0
        };
        let start = i;
        while i < chars.len()
            invariant
                start <= i <= chars.len(),
                body@ == chars@.subrange(start as int, i as int),
            decreases chars.len() - i,
        {
            body.push(chars[i]);
            i = i + 1;
        }
        proof {
            assert(body@ =~= literal_digits(number_literal@));
        }
        let v = match read_digits(&body, radix) {
            Some(v) => v,
            None => {
                return Err("the literal is not a number in the given radix, or exceeds 128 bits".to_owned());
            },
        };
        let n = bit_length(v);
        let w = match next_power_of_two_rounded_up(n) {
            Ok(w) => w,
            Err(m) => {
                return Err(m);
            },
        };
        proof {
            lemma_bit_len(v as nat, 128);
            lemma_pow2_pos(w as nat);
            if bit_len(v as nat) < w {
                vstd::arithmetic::power2::lemma_pow2_strictly_increases(bit_len(v as nat), w as nat);
            }
            lemma_ones_is_mod(v, w as u128);
            lemma_small_mod(v as nat, pow2(w as nat));
        }
        let m = mask_n_ones_from_right(w);
        let buffer = if is_negative && v != 0 {
            let t = 0u128.wrapping_sub(v);
            proof {
                lemma_ones_is_mod(t, w as u128);
                lemma_pow2_128();
                vstd::arithmetic::div_mod::lemma_mod_add_multiples_vanish(-v, word_range());
                lemma_congruent(t as int, -v, w as nat);
                vstd::arithmetic::div_mod::lemma_mod_add_multiples_vanish(-v, pow2(w as nat) as int);
                lemma_small_mod((pow2(w as nat) - v) as nat, pow2(w as nat));
                assert((t & m) & m == t & m) by (bit_vector);
            }
            t & m
        } else {
            v
        };
        Ok(
            Self {
                buffer,
                effective_bits: w,
                number_type: NumberType::Integer,
                is_signed: is_negative,
                carry: false,
            },
        )
    }

    /// Counts the bits of `range` that equal `one_or_zero` (1 or 0); any
    /// other digit gives `usize::MAX`.
    pub fn range_count_bits(&mut self, range: BitsIndexRange, one_or_zero: u8) -> (r: usize)
        requires
            old(self).wf(),
            old(self).valid_range(range),
        ensures
            *final(self) == *old(self),
            one_or_zero == 1 ==> r == ones_count(old(self).bits_at(range) as int, old(self).span(range)),
            one_or_zero == 0 ==> r == old(self).span(range) - ones_count(
                old(self).bits_at(range) as int,
                old(self).span(range),
            ),
            one_or_zero > 1 ==> r == usize::MAX,
    {
        let a = self.get_bits(range);
        let s = self.resolve_bit_index(range.0) - self.resolve_bit_index(range.1) + 1;
        let mut count: usize = 0;
        let mut i: usize = 0;
        while i < s
            invariant
                s <= 128,
                i <= s,
                count <= i,
                count == ones_count(a as int, i as nat),
            decreases s - i,
        {
            proof {
                lemma_low_bit(a, i as u128);
            }
            if (a >> (i as u128)) & 1 == 1 {
                count = count + 1;
            }
            i = i + 1;
        }
        match one_or_zero {
            0 => s - count,
            1 => count,
            _ => usize::MAX,
        }
    }

    /// Reverses the order of the bits of `range`.
    pub fn range_reverse_bits(&mut self, range: BitsIndexRange)
        requires
            old(self).wf(),
            old(self).valid_range(range),
        ensures
            final(self).wf(),
            !final(self).carry_flag(),
            final(self).stores(
                *old(self),
                range,
                reversed(old(self).bits_at(range) as int, old(self).span(range)),
            ),
    {
        let a = self.get_bits(range);
        let s = self.resolve_bit_index(range.0) - self.resolve_bit_index(range.1) + 1;
        let mut r: u128 = 0;
        let mut i: usize = 0;
        proof {
            lemma2_to64();
            lemma_pow2_128();
        }
        while i < s
            invariant
                s <= 128,
                i <= s,
                r as int == reversed(a as int, i as nat),
                (r as int) < pow2(i as nat),
                pow2(128) == 0x1_0000_0000_0000_0000_0000_0000_0000_0000int,
            decreases s - i,
        {
            proof {
                lemma_low_bit(a, i as u128);
                vstd::arithmetic::power2::lemma_pow2_unfold((i + 1) as nat);
                if i + 1 < 128 {
                    vstd::arithmetic::power2::lemma_pow2_strictly_increases((i + 1) as nat, 128);
                }
            }
            r = r * 2 + ((a >> (i as u128)) & 1);
            i = i + 1;
        }
        self.with_range_do_arithmetics(range, r);
    }

    /// Moves the bits of `range` to random positions within it: the range's
    /// flags, bit 0 first, are permuted and written back.
    pub fn range_shuffle_bits(&mut self, range: BitsIndexRange)
        requires
            old(self).wf(),
            old(self).valid_range(range),
        ensures
            final(self).wf(),
            !final(self).carry_flag(),
            exists|p: Seq<bool>|
                p.len() == old(self).span(range) && p.to_multiset() == flags_of(
                    old(self).bits_at(range) as int,
                    old(self).span(range),
                ).to_multiset() && #[trigger] final(self).stores(*old(self), range, flags_value(p)),
    {
        let a = self.get_bits(range);
        let s = self.resolve_bit_index(range.0) - self.resolve_bit_index(range.1) + 1;
        let mut values: Vec<bool> = Vec::new();
        let mut i: usize = 0;
        proof {
            assert(values@ =~= flags_of(a as int, 0));
        }
        while i < s
            invariant
                s <= 128,
                i <= s,
                values@ == flags_of(a as int, i as nat),
            decreases s - i,
        {
            let b = (a >> (i as u128)) & 1 == 1;
            proof {
                lemma_low_bit(a, i as u128);
            }
            values.push(b);
            i = i + 1;
            proof {
                assert(values@ =~= flags_of(a as int, i as nat));
            }
        }
        let values = shuffled(values);
        let result = bits_of_flags(&values);
        self.with_range_do_arithmetics(range, result);
        proof {
            assert(self.stores(*old(self), range, flags_value(values@)));
        }
    }

    /// The magnitude written when the value is shown: for a negative value,
    /// its two's complement taken within one bit less than the width.
    pub open spec fn shown(&self) -> nat {
        if self.negative() {
            ((pow2(self.width()) - self.magnitude()) % pow2((self.width() - 1) as nat) as int) as nat
        } else {
            self.magnitude() as nat
        }
    }

    /// The number of digits the widest value of this register takes in
    /// `radix`.
    pub open spec fn pad_len(&self, radix: nat) -> nat {
        digits(ones(self.width() as u128) as nat, radix).len()
    }

    /// The text `to_string` writes.
    pub open spec fn formatted(&self, radix: nat, with_prefix: bool, zero_pad: bool) -> Seq<char> {
        let d = digits(self.shown(), radix);
        let padded = if zero_pad && d.len() < self.pad_len(radix) {
            Seq::new((self.pad_len(radix) - d.len()) as nat, |i: int| '0') + d
        } else {
            d
        };
        (if self.negative() {
            seq!['-']
        } else {
            Seq::<char>::empty()
        }) + (if with_prefix {
            radix_prefix(radix)
        } else {
            Seq::<char>::empty()
        }) + padded
    }

    /// The magnitude written when the value is shown.
    fn shown_magnitude(&self) -> (r: u128)
        requires
            self.wf(),
        ensures
            r as nat == self.shown(),
    {
        if self.is_negative() {
            let b = self.buffer;
            let w = self.effective_bits;
            proof {
                lemma_pow2_pos((w - 1) as nat);
            }
            let t = !(b - 1);
            let r = t & mask_n_ones_from_right(w - 1);
            proof {
                let m = pow2((w - 1) as nat) as int;
                assert(!((b - 1) as u128) == ALL_ONES - (b - 1)) by (bit_vector)
                    requires
                        b >= 1,
                ;
                lemma_ones_is_mod(t, (w - 1) as u128);
                lemma_pow2_128();
                lemma_pow2_adds((w - 1) as nat, (129 - w) as nat);
                assert((w - 1) as nat + (129 - w) as nat == 128);
                vstd::arithmetic::mul::lemma_mul_is_commutative(m, pow2((129 - w) as nat) as int);
                vstd::arithmetic::div_mod::lemma_mod_multiples_vanish(
                    pow2((129 - w) as nat) as int,
                    -b,
                    m,
                );
                vstd::arithmetic::power2::lemma_pow2_unfold(w as nat);
                vstd::arithmetic::div_mod::lemma_mod_multiples_vanish(2, -b, m);
                vstd::arithmetic::mul::lemma_mul_is_commutative(m, 2);
            }
            r
        } else {
            self.buffer
        }
    }

    /// Writes the value in `radix` (2, 8, 10 or 16), lowercase, with a `-`
    /// before a negative value, the radix prefix when asked, and zeros up to
    /// the digit count of the register's widest value when asked.
    pub fn to_string(&self, radix: u32, with_prefix: bool, zero_pad: bool) -> (r: String)
        requires
            self.wf(),
            printable_radix(radix as nat),
        ensures
            r@ == self.formatted(radix as nat, with_prefix, zero_pad),
    {
        let d = write_digits(self.shown_magnitude(), radix);
        let mut out: Vec<char> = Vec::new();
        if self.is_negative() {
            out.push('-');
        }
        if with_prefix {
            out.push('0');
            if radix == 2 {
                out.push('b');
            } else if radix == 8 {
                out.push('o');
            } else if radix == 10 {
                out.push('d');
            } else {
                out.push('x');
            }
        }
        let ghost head = out@;
        if zero_pad {
            let widest = write_digits(mask_n_ones_from_right(self.effective_bits), radix);
            if d.len() < widest.len() {
                let mut k: usize = d.len();
                while k < widest.len()
                    invariant
                        d.len() <= k <= widest.len(),
                        out@ == head + Seq::new((k - d.len()) as nat, |i: int| '0'),
                    decreases widest.len() - k,
                {
                    out.push('0');
                    k = k + 1;
                    proof {
                        assert(out@ =~= head + Seq::new((k - d.len()) as nat, |i: int| '0'));
                    }
                }
            }
        }
        let ghost before = out@;
        let mut j: usize = 0;
        while j < d.len()
            invariant
                j <= d.len(),
                out@ == before + d@.subrange(0, j as int),
            decreases d.len() - j,
        {
            out.push(d[j]);
            j = j + 1;
        }
        proof {
            assert(d@.subrange(0, d.len() as int) =~= d@);
            let f = self.formatted(radix as nat, with_prefix, zero_pad);
            assert(out@ =~= f);
        }
        string_of(&out)
    }

    /// The value in `radix` with its radix prefix.
    pub fn to_string_prefixed(&self, radix: u32) -> (r: String)
        requires
            self.wf(),
            printable_radix(radix as nat),
        ensures
            r@ == self.formatted(radix as nat, true, false),
    {
        self.to_string(radix, true, false)
    }

    /// The low 32 bits as a quoted character, or ` ? ` when they are not a
    /// printable character.
    pub fn to_string_as_char(&self) -> (r: String)
        ensures
            ({
                let code = (self.magnitude() % 0x1_0000_0000) as u32;
                r@ == if scalar_value(code) && !control(code as char) {
                    seq!['\'', code as char, '\'']
                } else {
                    seq![' ', '?', ' ']
                }
            }),
    {
        let b = self.buffer;
        let low = b & 0xffff_ffffu128;
        proof {
            assert(b & 0xffff_ffffu128 == b % 0x1_0000_0000u128) by (bit_vector);
        }
        let code = low as u32;
        let mut out: Vec<char> = Vec::new();
        match char_from_code(code) {
            Some(c) => {
                if !is_control(c) {
                    out.push('\'');
                    out.push(c);
                    out.push('\'');
                } else {
                    out.push(' ');
                    out.push('?');
                    out.push(' ');
                }
            },
            None => {
                out.push(' ');
                out.push('?');
                out.push(' ');
            },
        }
        string_of(&out)
    }
    /// The whole register is a valid range and holds the backing word, when
    /// the width fits the word.
    pub proof fn lemma_full_range(&self)
        requires
            self.wf(),
            self.width() <= 128,
        ensures
            self.valid_range(BitsIndexRange(BitsIndex::HighestBit, BitsIndex::LowestBit)),
            self.bits_at(BitsIndexRange(BitsIndex::HighestBit, BitsIndex::LowestBit))
                == self.magnitude(),
    {
        let m = self.magnitude();
        let w = self.width() as u128;
        assert((m >> 0u128) & ones(w) == m) by (bit_vector)
            requires
                m & ones(w) == m,
        ;
    }

    /// Replaces `range` by its `power`-th root rounded down. The root is exact:
    /// the largest `x` with `x^power` at most the range's value, found in
    /// integers by bisection rather than through logarithms. A root of degree
    /// zero has no such `x` bound and is refused, leaving the register as it
    /// was.
    pub fn range_root_bits(&mut self, range: BitsIndexRange, power: u128) -> (r: Result<(), String>)
        requires
            old(self).wf(),
            old(self).valid_range(range),
        ensures
            final(self).wf(),
            power != 0 ==> !final(self).carry_flag(),
            power == 0 <==> r is Err,
            power == 0 ==> *final(self) == *old(self),
            power != 0 ==> exists|v: int|
                is_floor_root(v, old(self).bits_at(range) as int, power as nat)
                    && #[trigger] final(self).stores(*old(self), range, v),
    {
        if power == 0 {
            return Err("Cannot take a root of degree 0".to_owned());
        }
        let a = self.get_bits(range);
        let v = floor_root(a, power);
        self.with_range_do_arithmetics(range, v);
        Ok(())
    }
}

} // verus!
