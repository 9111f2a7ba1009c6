//! Digit strings in a radix: what they denote, reading them and writing them.
use vstd::arithmetic::div_mod::{lemma_fundamental_div_mod, lemma_div_pos_is_pos};
use vstd::prelude::*;

verus! {

/// The value a character stands for as a digit: `0`-`9`, then the letters
/// of either case from 10 up; -1 for any other character.
pub open spec fn digit_value(c: char) -> int {
    if '0' <= c <= '9' {
        c as int - '0' as int
    } else if 'a' <= c <= 'z' {
        c as int - 'a' as int + 10
    } else if 'A' <= c <= 'Z' {
        c as int - 'A' as int + 10
    } else {
        -1
    }
}

/// Whether every character of `s` is a digit of `radix`.
pub open spec fn valid_digits(s: Seq<char>, radix: nat) -> bool {
    forall|i: int| 0 <= i < s.len() ==> 0 <= #[trigger] digit_value(s[i]) < radix
}

/// The number a digit string denotes, most significant digit first.
pub open spec fn value_of(s: Seq<char>, radix: nat) -> int
    decreases s.len(),
{
    if s.len() == 0 {
        0
    } else {
        value_of(s.drop_last(), radix) * radix + digit_value(s.last())
    }
}

/// The lowercase character of a digit below 36.
pub open spec fn digit_char(d: nat) -> char {
    if d < 10 {
        (d + '0' as nat) as char
    } else {
        (d - 10 + 'a' as nat) as char
    }
}

/// The digits of `v` in `radix`, without leading zeros (`0` for zero).
pub open spec fn digits(v: nat, radix: nat) -> Seq<char>
    decreases v via digits_decreases
{
    if radix < 2 || v < radix {
        seq![digit_char(v)]
    } else {
        digits(v / radix, radix).push(digit_char(v % radix))
    }
}

#[via_fn]
proof fn digits_decreases(v: nat, radix: nat) {
    if !(radix < 2 || v < radix) {
        vstd::arithmetic::div_mod::lemma_div_decreases(v as int, radix as int);
    }
}

/// A digit's character reads back as the digit.
pub proof fn lemma_digit_char(d: nat)
    requires
        d < 36,
    ensures
        digit_value(digit_char(d)) == d,
{
    if d < 10 {
        assert(digit_char(d) as int == d + 48);
    } else {
        assert(digit_char(d) as int == d - 10 + 97);
    }
}

/// The digits that `digits` writes read back as the number they came from.
pub proof fn lemma_digits_round_trip(v: nat, radix: nat)
    requires
        2 <= radix <= 36,
    ensures
        valid_digits(digits(v, radix), radix),
        value_of(digits(v, radix), radix) == v,
        digits(v, radix).len() >= 1,
    decreases v,
{
    if v < radix {
        let s = digits(v, radix);
        lemma_digit_char(v);
        assert(s.drop_last() =~= Seq::<char>::empty());
        assert(value_of(s.drop_last(), radix) == 0);
        assert(value_of(s, radix) == value_of(s.drop_last(), radix) * radix + digit_value(s.last()));
    } else {
        lemma_digit_char(v % radix);
        lemma_div_pos_is_pos(v as int, radix as int);
        vstd::arithmetic::div_mod::lemma_div_decreases(v as int, radix as int);
        lemma_digits_round_trip(v / radix, radix);
        lemma_fundamental_div_mod(v as int, radix as int);
        let s = digits(v, radix);
        let p = digits(v / radix, radix);
        assert(s.drop_last() =~= p);
        assert(value_of(s, radix) == value_of(p, radix) * radix + digit_value(s.last()));
        vstd::arithmetic::mul::lemma_mul_is_commutative(radix as int, (v / radix) as int);
        assert forall|i: int| 0 <= i < s.len() implies 0 <= #[trigger] digit_value(s[i]) < radix by {
            if i < p.len() {
                assert(s[i] == p[i]);
            }
        }
    }
}

/// A digit string's value grows with each digit added: a prefix denotes no
/// more than the whole.
pub proof fn lemma_prefix_value_le(s: Seq<char>, radix: nat, i: int)
    requires
        valid_digits(s, radix),
        0 <= i <= s.len(),
    ensures
        0 <= value_of(s.subrange(0, i), radix) <= value_of(s, radix),
    decreases s.len(),
{
    if s.len() == 0 {
        assert(s.subrange(0, i) =~= s);
    } else if i == s.len() {
        assert(s.subrange(0, i) =~= s);
        lemma_value_nonneg(s, radix);
    } else {
        let d = s.drop_last();
        assert(valid_digits(d, radix)) by {
            assert forall|j: int| 0 <= j < d.len() implies 0 <= #[trigger] digit_value(d[j]) < radix by {
                assert(d[j] == s[j]);
            }
        }
        lemma_prefix_value_le(d, radix, i);
        assert(d.subrange(0, i) =~= s.subrange(0, i));
        lemma_value_nonneg(d, radix);
        assert(0 <= digit_value(s[s.len() - 1]) < radix);
        assert(radix >= 1);
        if value_of(d, radix) > 0 {
            vstd::arithmetic::mul::lemma_mul_increases(radix as int, value_of(d, radix));
            vstd::arithmetic::mul::lemma_mul_is_commutative(radix as int, value_of(d, radix));
        }
    }
}

/// A string of digits denotes a number that is not negative.
pub proof fn lemma_value_nonneg(s: Seq<char>, radix: nat)
    requires
        valid_digits(s, radix),
    ensures
        value_of(s, radix) >= 0,
    decreases s.len(),
{
    if s.len() > 0 {
        let d = s.drop_last();
        assert(valid_digits(d, radix)) by {
            assert forall|j: int| 0 <= j < d.len() implies 0 <= #[trigger] digit_value(d[j]) < radix by {
                assert(d[j] == s[j]);
            }
        }
        lemma_value_nonneg(d, radix);
        assert(0 <= digit_value(s[s.len() - 1]));
        vstd::arithmetic::mul::lemma_mul_nonnegative(value_of(d, radix), radix as int);
    }
}

/// The value of `c` as a digit, if it is one of `0`-`9`, `a`-`z`, `A`-`Z`.
pub fn digit_of(c: char) -> (r: Option<u32>)
    ensures
        r is Some <==> digit_value(c) >= 0,
        r matches Some(d) ==> d as int == digit_value(c),
{
    if '0' <= c && c <= '9' {
        Some(c as u32 - '0' as u32)
    } else if 'a' <= c && c <= 'z' {
        Some(c as u32 - 'a' as u32 + 10)
    } else if 'A' <= c && c <= 'Z' {
        Some(c as u32 - 'A' as u32 + 10)
    } else {
        None
    }
}

/// The lowercase character of digit `d`.
pub fn char_of_digit(d: u32) -> (r: char)
    requires
        d < 36,
    ensures
        r == digit_char(d as nat),
{
    if d < 10 {
        ((d + 48) as u8) as char
    } else {
        ((d - 10 + 97) as u8) as char
    }
}

/// Reads `s` as digits of `radix`; `None` when a character is not such a
/// digit or the value does not fit in 128 bits.
pub fn read_digits(s: &Vec<char>, radix: u32) -> (r: Option<u128>)
    ensures
        r is Some <==> (valid_digits(s@, radix as nat) && value_of(s@, radix as nat) <= u128::MAX),
        r matches Some(v) ==> v as int == value_of(s@, radix as nat),
{
    let mut acc: u128 = 0;
    let mut i: usize = 0;
    while i < s.len()
        invariant
            i <= s.len(),
            valid_digits(s@.subrange(0, i as int), radix as nat),
            acc as int == value_of(s@.subrange(0, i as int), radix as nat),
        decreases s.len() - i,
    {
        let c = s[i];
        proof {
            let p = s@.subrange(0, i as int + 1);
            assert(p.drop_last() =~= s@.subrange(0, i as int));
        }
        match digit_of(c) {
            Some(d) => {
                if d >= radix {
                    assert(!valid_digits(s@, radix as nat)) by {
                        assert(digit_value(s@[i as int]) >= radix);
                    }
                    return None;
                }
                let next = match acc.checked_mul(radix as u128) {
                    Some(m) => m.checked_add(d as u128),
                    None => None,
                };
                match next {
                    Some(v) => {
                        proof {
                            let p = s@.subrange(0, i as int + 1);
                            assert forall|j: int| 0 <= j < p.len() implies 0 <= #[trigger] digit_value(p[j]) < radix by {
                                if j < i {
                                    assert(p[j] == s@.subrange(0, i as int)[j]);
                                }
                            }
                        }
                        acc = v;
                    },
                    None => {
                        proof {
                            let p = s@.subrange(0, i as int + 1);
                            vstd::arithmetic::mul::lemma_mul_nonnegative(acc as int, radix as int);
                            if valid_digits(s@, radix as nat) {
                                lemma_prefix_value_le(s@, radix as nat, i + 1);
                            }
                        }
                        return None;
                    },
                }
            },
            None => {
                assert(!valid_digits(s@, radix as nat)) by {
                    assert(digit_value(s@[i as int]) < 0);
                }
                return None;
            },
        }
        i = i + 1;
    }
    assert(s@.subrange(0, s.len() as int) =~= s@);
    Some(acc)
}

/// The digits of `v` in `radix`, most significant first.
pub fn write_digits(v: u128, radix: u32) -> (r: Vec<char>)
    requires
        2 <= radix <= 36,
    ensures
        r@ == digits(v as nat, radix as nat),
{
    let mut t = v;
    let mut acc: Vec<char> = Vec::new();
    let rd = radix as u128;
    while t >= rd
        invariant
            2 <= rd <= 36,
            rd == radix,
            digits(v as nat, radix as nat) == digits(t as nat, radix as nat) + acc@,
        decreases t,
    {
        let d = (t % rd) as u32;
        let c = char_of_digit(d);
        proof {
            let ghost rest = digits(t as nat / radix as nat, radix as nat);
            assert(digits(t as nat, radix as nat) == rest.push(c));
            assert(rest.push(c) + acc@ =~= rest + seq![c].add(acc@));
        }
        acc.insert(0, c);
        t = t / rd;
    }
    let c = char_of_digit(t as u32);
    acc.insert(0, c);
    proof {
        assert(digits(t as nat, radix as nat) == seq![c]);
    }
    acc
}

} // verus!
