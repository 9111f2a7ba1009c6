//! The operators a command can name, and what each does to the register.
use crate::bits::{ones, MAX_WIDTH};
use crate::number::{
    flags_of, flags_value,
    is_floor_root, ones_count, reversed, rotated_left, shifted_right_signed, BitsIndex,
    BitsIndexRange, Number, NumberType,
};
use crate::radix::write_digits;
use crate::syntax::{LeftOperandSource, RightOperandSource};
use crate::text::string_of;
use colored::Colorize;
use vstd::arithmetic::power::pow;
use vstd::arithmetic::power2::pow2;
use vstd::prelude::*;
use vstd::string::StringExecFns;

verus! {

/// What the caller does with the register after a handler ran.
#[derive(Debug, Clone, Copy, PartialEq, Eq, Structural)]
pub enum HandlerResult {
    /// The register changed: keep a snapshot for undo.
    Historical,
    /// The register did not change.
    Nonhistorical,
    /// Put back the previous snapshot.
    Undo,
    /// Put back the next snapshot.
    Redo,
}

/// What a handler returns: the effect and a message to show, or an error.
pub type OperationResult = Result<(HandlerResult, Option<String>), String>;

/// An operator of the command language.
#[derive(Debug, Clone, Copy, PartialEq, Eq, Structural)]
pub enum Operator {
    ShowHelp,
    Assign,
    Sum,
    Sub,
    Mul,
    Div,
    Mod,
    Pow,
    Root,
    Xor,
    And,
    Or,
    Not,
    Reverse,
    Random,
    Shuffle,
    SignedShiftLeft,
    SignedShiftRight,
    UnsignedShiftRight,
    UnsignedCyclicShiftRight,
    UnsignedCyclicShiftLeft,
    IntBitsWidth,
    Count,
    Signed,
    Unsigned,
    Greater,
    Less,
    Equals,
    Swap,
    Negate,
    Undo,
    Redo,
}

/// A register's value carried to width `w`, a negative value sign-extended.
pub open spec fn widened(n: Number, w: nat) -> u128 {
    (if n.negative() {
        n.magnitude() | !ones(n.width() as u128)
    } else {
        n.magnitude()
    }) & ones(w as u128)
}

/// The value a right operand stands for against register `b`: an immediate
/// carried to `b`'s width, or the bits of a range of `b`.
pub open spec fn operand(b: Number, right: RightOperandSource) -> Option<u128> {
    match right {
        RightOperandSource::DirectSource(n) => if b.width() <= 128 {
            Some(widened(n, b.width()))
        } else {
            Option::<u128>::None
        },
        RightOperandSource::RangeSource(r) => if b.valid_range(r) {
            Some(b.bits_at(r))
        } else {
            Option::<u128>::None
        },
        _ => Option::<u128>::None,
    }
}

/// What a two-operand handler acts on: `None` for an error, `Some(None)` when
/// it does nothing, or the target range and the operand's value.
pub open spec fn binary_case(b: Number, left: LeftOperandSource, right: RightOperandSource) -> Option<
    Option<(BitsIndexRange, u128)>,
> {
    match right {
        RightOperandSource::Empty => Option::<Option<(BitsIndexRange, u128)>>::None,
        RightOperandSource::NamedAccessSource(_) => Some(Option::<(BitsIndexRange, u128)>::None),
        _ => match left {
            LeftOperandSource::NamedAccessSource(_) => Some(
                Option::<(BitsIndexRange, u128)>::None,
            ),
            LeftOperandSource::RangeSource(t) => match operand(b, right) {
                Some(x) => if b.valid_range(t) {
                    Some(Some((t, x)))
                } else {
                    Option::<Option<(BitsIndexRange, u128)>>::None
                },
                None => Option::<Option<(BitsIndexRange, u128)>>::None,
            },
        },
    }
}

/// The success that changes the register.
pub open spec fn historical() -> OperationResult {
    Ok((HandlerResult::Historical, Option::<String>::None))
}

/// The value a two-operand operator computes from the target's bits `a` and
/// the operand `x`.
pub open spec fn arithmetic_value(op: Operator, a: int, x: int) -> int {
    match op {
        Operator::Assign => x,
        Operator::Sum => a + x,
        Operator::Sub => a - x,
        Operator::Mul => a * x,
        Operator::Div => a / x,
        Operator::Mod => a % x,
        Operator::Pow => pow(a, (x % 0x1_0000_0000) as nat),
        Operator::Xor => ((a as u128) ^ (x as u128)) as int,
        Operator::And => ((a as u128) & (x as u128)) as int,
        Operator::Or => ((a as u128) | (x as u128)) as int,
        _ => a,
    }
}

/// A two-operand handler for `op` that writes `arithmetic_value` into the
/// target range; division and remainder refuse a zero operand.
pub open spec fn arithmetic_outcome(
    prev: Number,
    next: Number,
    case: Option<Option<(BitsIndexRange, u128)>>,
    r: OperationResult,
    op: Operator,
) -> bool {
    match case {
        None => r is Err && next == prev,
        Some(None) => r == historical() && next == prev,
        Some(Some((t, x))) => if (op == Operator::Div || op == Operator::Mod) && x == 0 {
            r is Err && next == prev
        } else {
            r == historical() && next.wf() && next.stores(
                prev,
                t,
                arithmetic_value(op, prev.bits_at(t) as int, x as int),
            )
        },
    }
}

/// What a power or root handler acts on: as `binary_case`, the exponent two
/// when no operand is given.
pub open spec fn power_case(b: Number, left: LeftOperandSource, right: RightOperandSource) -> Option<
    Option<(BitsIndexRange, u128)>,
> {
    match right {
        RightOperandSource::Empty => match left {
            LeftOperandSource::RangeSource(t) => if b.valid_range(t) {
                Some(Some((t, 2u128)))
            } else {
                Option::<Option<(BitsIndexRange, u128)>>::None
            },
            _ => Some(Option::<(BitsIndexRange, u128)>::None),
        },
        _ => binary_case(b, left, right),
    }
}

/// The count a shift handler shifts by: the immediate's backing word, the
/// bits of a range, or one when no operand is given.
pub open spec fn shift_count(b: Number, right: RightOperandSource) -> Option<usize> {
    match right {
        RightOperandSource::DirectSource(n) => Some(n.magnitude() as usize),
        RightOperandSource::RangeSource(r) => if b.valid_range(r) {
            Some(b.bits_at(r) as usize)
        } else {
            Option::<usize>::None
        },
        RightOperandSource::Empty => Some(1usize),
        _ => Option::<usize>::None,
    }
}

/// What a shift handler acts on.
pub open spec fn shift_case(b: Number, left: LeftOperandSource, right: RightOperandSource) -> Option<
    Option<(BitsIndexRange, usize)>,
> {
    match right {
        RightOperandSource::NamedAccessSource(_) => Some(Option::<(BitsIndexRange, usize)>::None),
        _ => match left {
            LeftOperandSource::NamedAccessSource(_) => Some(
                Option::<(BitsIndexRange, usize)>::None,
            ),
            LeftOperandSource::RangeSource(t) => match shift_count(b, right) {
                Some(c) => if b.valid_range(t) {
                    Some(Some((t, c)))
                } else {
                    Option::<Option<(BitsIndexRange, usize)>>::None
                },
                None => Option::<Option<(BitsIndexRange, usize)>>::None,
            },
        },
    }
}

/// The value a shift operator computes from the target's bits `a`, the
/// count `c` and the target's width `s`.
pub open spec fn shift_value(op: Operator, a: int, c: nat, s: nat) -> int {
    match op {
        Operator::SignedShiftLeft => a * pow2(c) as int,
        Operator::SignedShiftRight => shifted_right_signed(a, c, s),
        Operator::UnsignedShiftRight => a / pow2(c) as int,
        Operator::UnsignedCyclicShiftLeft => rotated_left(a, c % s, s),
        Operator::UnsignedCyclicShiftRight => rotated_left(a, ((s - c % s) as nat) % s, s),
        _ => a,
    }
}

/// A shift handler for `op` that writes `shift_value` into the target range.
pub open spec fn shift_outcome(
    prev: Number,
    next: Number,
    case: Option<Option<(BitsIndexRange, usize)>>,
    r: OperationResult,
    op: Operator,
) -> bool {
    match case {
        None => r is Err && next == prev,
        Some(None) => r == historical() && next == prev,
        Some(Some((t, c))) => r == historical() && next.wf() && next.stores(
            prev,
            t,
            shift_value(op, prev.bits_at(t) as int, c as nat, prev.span(t)),
        ),
    }
}

/// What a handler that takes no right operand acts on: the target range, or
/// nothing for a named part; an operand is an error.
pub open spec fn unary_case(b: Number, left: LeftOperandSource, right: RightOperandSource) -> Option<
    Option<BitsIndexRange>,
> {
    match right {
        RightOperandSource::NamedAccessSource(_) => Some(Option::<BitsIndexRange>::None),
        RightOperandSource::Empty => match left {
            LeftOperandSource::RangeSource(t) => if b.valid_range(t) {
                Some(Some(t))
            } else {
                Option::<Option<BitsIndexRange>>::None
            },
            _ => Some(Option::<BitsIndexRange>::None),
        },
        _ => Option::<Option<BitsIndexRange>>::None,
    }
}

/// `yes` or `no`.
pub open spec fn answer(b: bool) -> Seq<char> {
    if b {
        seq!['y', 'e', 's']
    } else {
        seq!['n', 'o']
    }
}

/// The two values a comparison compares: the target range's bits and the
/// operand's (an immediate's backing word, not widened).
pub open spec fn compare_case(b: Number, left: LeftOperandSource, right: RightOperandSource) -> Option<
    Option<(u128, u128)>,
> {
    match right {
        RightOperandSource::Empty => Option::<Option<(u128, u128)>>::None,
        RightOperandSource::NamedAccessSource(_) => Some(Option::<(u128, u128)>::None),
        _ => match left {
            LeftOperandSource::NamedAccessSource(_) => Some(Option::<(u128, u128)>::None),
            LeftOperandSource::RangeSource(t) => {
                let second = match right {
                    RightOperandSource::DirectSource(n) => if n.width() <= 128 {
                        Some(n.magnitude())
                    } else {
                        Option::<u128>::None
                    },
                    RightOperandSource::RangeSource(s) => if b.valid_range(s) {
                        Some(b.bits_at(s))
                    } else {
                        Option::<u128>::None
                    },
                    _ => Option::<u128>::None,
                };
                match second {
                    Some(y) => if b.valid_range(t) {
                        Some(Some((b.bits_at(t), y)))
                    } else {
                        Option::<Option<(u128, u128)>>::None
                    },
                    None => Option::<Option<(u128, u128)>>::None,
                }
            },
        },
    }
}

/// Whether comparison `op` holds between `x` and `y`.
pub open spec fn compare_holds(op: Operator, x: u128, y: u128) -> bool {
    match op {
        Operator::Greater => x > y,
        Operator::Less => x < y,
        _ => x == y,
    }
}

/// A comparison handler: `yes` or `no` by `compare_holds`, the register
/// untouched.
pub open spec fn compare_outcome(
    prev: Number,
    next: Number,
    case: Option<Option<(u128, u128)>>,
    r: OperationResult,
    op: Operator,
) -> bool {
    &&& next == prev
    &&& match case {
        None => r is Err,
        Some(None) => r == historical(),
        Some(Some((x, y))) => r matches Ok((HandlerResult::Nonhistorical, Some(m))) && m@ == answer(
            compare_holds(op, x, y),
        ),
    }
}

fn no_second_operand() -> (r: OperationResult)
    ensures
        r is Err,
{
    Err("No second operand!".to_owned())
}

fn out_of_range() -> (r: OperationResult)
    ensures
        r is Err,
{
    Err("The range does not fit the register".to_owned())
}

fn done() -> (r: OperationResult)
    ensures
        r == historical(),
{
    Ok((HandlerResult::Historical, None))
}

/// The value of the right operand against `buffer`.
fn operand_bits(buffer: &Number, right: &RightOperandSource) -> (r: Option<u128>)
    requires
        buffer.wf(),
        right.wf(),
    ensures
        r == operand(*buffer, *right),
{
    match right {
        RightOperandSource::DirectSource(n) => {
            if buffer.max_size() > 128 {
                return None;
            }
            let mut m = *n;
            m.signed_extend_to(buffer.max_size());
            proof {
                m.lemma_full_range();
            }
            Some(m.get_bits(BitsIndexRange::full()))
        },
        RightOperandSource::RangeSource(r) => {
            if buffer.is_valid_range(*r) {
                Some(buffer.get_bits(*r))
            } else {
                None
            }
        },
        _ => None,
    }
}

/// Works out what a two-operand handler acts on.
fn binary_operands(buffer: &Number, left: LeftOperandSource, right: RightOperandSource) -> (r: Result<
    Option<(BitsIndexRange, u128)>,
    String,
>)
    requires
        buffer.wf(),
        right.wf(),
    ensures
        r is Err <==> binary_case(*buffer, left, right) is None,
        r matches Ok(o) ==> binary_case(*buffer, left, right) == Some(o),
{
    match right {
        RightOperandSource::Empty => Err("No second operand!".to_owned()),
        RightOperandSource::NamedAccessSource(_) => Ok(None),
        _ => match left {
            LeftOperandSource::NamedAccessSource(_) => Ok(None),
            LeftOperandSource::RangeSource(t) => match operand_bits(buffer, &right) {
                Some(x) => {
                    if buffer.is_valid_range(t) {
                        Ok(Some((t, x)))
                    } else {
                        Err("The range does not fit the register".to_owned())
                    }
                },
                None => Err("The operand does not fit the register".to_owned()),
            },
        },
    }
}

/// Works out what a power or root handler acts on.
fn power_operands(buffer: &Number, left: LeftOperandSource, right: RightOperandSource) -> (r: Result<
    Option<(BitsIndexRange, u128)>,
    String,
>)
    requires
        buffer.wf(),
        right.wf(),
    ensures
        r is Err <==> power_case(*buffer, left, right) is None,
        r matches Ok(o) ==> power_case(*buffer, left, right) == Some(o),
{
    match right {
        RightOperandSource::Empty => match left {
            LeftOperandSource::RangeSource(t) => {
                if buffer.is_valid_range(t) {
                    Ok(Some((t, 2)))
                } else {
                    Err("The range does not fit the register".to_owned())
                }
            },
            _ => Ok(None),
        },
        _ => binary_operands(buffer, left, right),
    }
}

/// Works out what a shift handler acts on.
fn shift_operands(buffer: &Number, left: LeftOperandSource, right: RightOperandSource) -> (r: Result<
    Option<(BitsIndexRange, usize)>,
    String,
>)
    requires
        buffer.wf(),
        right.wf(),
    ensures
        r is Err <==> shift_case(*buffer, left, right) is None,
        r matches Ok(o) ==> shift_case(*buffer, left, right) == Some(o),
{
    match right {
        RightOperandSource::NamedAccessSource(_) => Ok(None),
        _ => match left {
            LeftOperandSource::NamedAccessSource(_) => Ok(None),
            LeftOperandSource::RangeSource(t) => {
                let count = match right {
                    RightOperandSource::DirectSource(n) => n.to_usize(),
                    RightOperandSource::RangeSource(s) => {
                        if buffer.is_valid_range(s) {
                            buffer.get_bits(s) as usize
                        } else {
                            return Err("The range does not fit the register".to_owned());
                        }
                    },
                    _ => 1,
                };
                if buffer.is_valid_range(t) {
                    Ok(Some((t, count)))
                } else {
                    Err("The range does not fit the register".to_owned())
                }
            },
        },
    }
}

/// Works out what a handler without a right operand acts on.
fn unary_operands(buffer: &Number, left: LeftOperandSource, right: RightOperandSource) -> (r: Result<
    Option<BitsIndexRange>,
    String,
>)
    requires
        buffer.wf(),
    ensures
        r is Err <==> unary_case(*buffer, left, right) is None,
        r matches Ok(o) ==> unary_case(*buffer, left, right) == Some(o),
{
    match right {
        RightOperandSource::NamedAccessSource(_) => Ok(None),
        RightOperandSource::Empty => match left {
            LeftOperandSource::RangeSource(t) => {
                if buffer.is_valid_range(t) {
                    Ok(Some(t))
                } else {
                    Err("The range does not fit the register".to_owned())
                }
            },
            _ => Ok(None),
        },
        _ => Err("No second operand allowed!".to_owned()),
    }
}

/// Writes the operand into the target range.
pub fn operator_assign(buffer: &mut Number, left: LeftOperandSource, right: RightOperandSource) -> (r:
    OperationResult)
    requires
        old(buffer).wf(),
        right.wf(),
    ensures
        arithmetic_outcome(
            *old(buffer),
            *final(buffer),
            binary_case(*old(buffer), left, right),
            r,
            Operator::Assign,
        ),
{
    match binary_operands(buffer, left, right) {
        Err(m) => Err(m),
        Ok(None) => done(),
        Ok(Some((t, x))) => {
            buffer.set_bits(t, x);
            done()
        },
    }
}

/// Adds the operand to the target range.
pub fn operator_sum(buffer: &mut Number, left: LeftOperandSource, right: RightOperandSource) -> (r:
    OperationResult)
    requires
        old(buffer).wf(),
        right.wf(),
    ensures
        arithmetic_outcome(
            *old(buffer),
            *final(buffer),
            binary_case(*old(buffer), left, right),
            r,
            Operator::Sum,
        ),
{
    match binary_operands(buffer, left, right) {
        Err(m) => Err(m),
        Ok(None) => done(),
        Ok(Some((t, x))) => {
            buffer.range_add_bits(t, x);
            done()
        },
    }
}

/// Subtracts the operand from the target range.
pub fn operator_sub(buffer: &mut Number, left: LeftOperandSource, right: RightOperandSource) -> (r:
    OperationResult)
    requires
        old(buffer).wf(),
        right.wf(),
    ensures
        arithmetic_outcome(
            *old(buffer),
            *final(buffer),
            binary_case(*old(buffer), left, right),
            r,
            Operator::Sub,
        ),
{
    match binary_operands(buffer, left, right) {
        Err(m) => Err(m),
        Ok(None) => done(),
        Ok(Some((t, x))) => {
            buffer.range_subtract_bits(t, x);
            done()
        },
    }
}

/// Multiplies the target range by the operand.
pub fn operator_mul(buffer: &mut Number, left: LeftOperandSource, right: RightOperandSource) -> (r:
    OperationResult)
    requires
        old(buffer).wf(),
        right.wf(),
    ensures
        arithmetic_outcome(
            *old(buffer),
            *final(buffer),
            binary_case(*old(buffer), left, right),
            r,
            Operator::Mul,
        ),
{
    match binary_operands(buffer, left, right) {
        Err(m) => Err(m),
        Ok(None) => done(),
        Ok(Some((t, x))) => {
            buffer.range_multiply_bits(t, x);
            done()
        },
    }
}

/// Divides the target range by the operand; dividing by zero is an error.
pub fn operator_div(buffer: &mut Number, left: LeftOperandSource, right: RightOperandSource) -> (r:
    OperationResult)
    requires
        old(buffer).wf(),
        right.wf(),
    ensures
        arithmetic_outcome(
            *old(buffer),
            *final(buffer),
            binary_case(*old(buffer), left, right),
            r,
            Operator::Div,
        ),
{
    match binary_operands(buffer, left, right) {
        Err(m) => Err(m),
        Ok(None) => done(),
        Ok(Some((t, x))) => match buffer.range_div_bits(t, x) {
            Ok(()) => done(),
            Err(m) => Err(m),
        },
    }
}

/// Replaces the target range by its remainder modulo the operand; a zero
/// operand is an error.
pub fn operator_mod(buffer: &mut Number, left: LeftOperandSource, right: RightOperandSource) -> (r:
    OperationResult)
    requires
        old(buffer).wf(),
        right.wf(),
    ensures
        arithmetic_outcome(
            *old(buffer),
            *final(buffer),
            binary_case(*old(buffer), left, right),
            r,
            Operator::Mod,
        ),
{
    match binary_operands(buffer, left, right) {
        Err(m) => Err(m),
        Ok(None) => done(),
        Ok(Some((t, x))) => match buffer.range_mod_bits(t, x) {
            Ok(()) => done(),
            Err(m) => Err(m),
        },
    }
}

/// Raises the target range to the operand's power (its low 32 bits); with
/// no operand, squares it.
pub fn operator_pow(buffer: &mut Number, left: LeftOperandSource, right: RightOperandSource) -> (r:
    OperationResult)
    requires
        old(buffer).wf(),
        right.wf(),
    ensures
        arithmetic_outcome(
            *old(buffer),
            *final(buffer),
            power_case(*old(buffer), left, right),
            r,
            Operator::Pow,
        ),
{
    match power_operands(buffer, left, right) {
        Err(m) => Err(m),
        Ok(None) => done(),
        Ok(Some((t, x))) => {
            buffer.range_pow_bits(t, x);
            done()
        },
    }
}

/// Replaces the target range by its root of the operand's degree, rounded
/// down exactly (see `Number::range_root_bits`); with no operand, its square
/// root. A root of degree zero is an error.
pub fn operator_root(buffer: &mut Number, left: LeftOperandSource, right: RightOperandSource) -> (r:
    OperationResult)
    requires
        old(buffer).wf(),
        right.wf(),
    ensures
        root_outcome(*old(buffer), *final(buffer), power_case(*old(buffer), left, right), r),
{
    match power_operands(buffer, left, right) {
        Err(m) => Err(m),
        Ok(None) => done(),
        Ok(Some((t, x))) => match buffer.range_root_bits(t, x) {
            Ok(()) => done(),
            Err(m) => Err(m),
        },
    }
}

/// Replaces the target range by its exclusive or with the operand.
pub fn operator_xor(buffer: &mut Number, left: LeftOperandSource, right: RightOperandSource) -> (r:
    OperationResult)
    requires
        old(buffer).wf(),
        right.wf(),
    ensures
        arithmetic_outcome(
            *old(buffer),
            *final(buffer),
            binary_case(*old(buffer), left, right),
            r,
            Operator::Xor,
        ),
{
    match binary_operands(buffer, left, right) {
        Err(m) => Err(m),
        Ok(None) => done(),
        Ok(Some((t, x))) => {
            buffer.range_xor_bits(t, x);
            done()
        },
    }
}

/// Replaces the target range by its bitwise and with the operand.
pub fn operator_and(buffer: &mut Number, left: LeftOperandSource, right: RightOperandSource) -> (r:
    OperationResult)
    requires
        old(buffer).wf(),
        right.wf(),
    ensures
        arithmetic_outcome(
            *old(buffer),
            *final(buffer),
            binary_case(*old(buffer), left, right),
            r,
            Operator::And,
        ),
{
    match binary_operands(buffer, left, right) {
        Err(m) => Err(m),
        Ok(None) => done(),
        Ok(Some((t, x))) => {
            buffer.range_and_bits(t, x);
            done()
        },
    }
}

/// Replaces the target range by its bitwise or with the operand.
pub fn operator_or(buffer: &mut Number, left: LeftOperandSource, right: RightOperandSource) -> (r:
    OperationResult)
    requires
        old(buffer).wf(),
        right.wf(),
    ensures
        arithmetic_outcome(
            *old(buffer),
            *final(buffer),
            binary_case(*old(buffer), left, right),
            r,
            Operator::Or,
        ),
{
    match binary_operands(buffer, left, right) {
        Err(m) => Err(m),
        Ok(None) => done(),
        Ok(Some((t, x))) => {
            buffer.range_or_bits(t, x);
            done()
        },
    }
}

/// Relies on `colored`'s `Colorize::bright_green` and `ColoredString`'s
/// `Display`: the text, with colour escape codes when the output takes them.
#[verifier::external_body]
fn bright_green(s: &str) -> String {
    s.bright_green().to_string()
}

/// Relies on `rand::random`: a value drawn from the thread's generator.
pub assume_specification<T>[ rand::random::<T> ]() -> (r: T)
    where
        rand::distributions::Standard: rand::distributions::Distribution<T>,
;

/// `n` in decimal.
fn decimal(n: usize) -> (r: String)
    ensures
        r@ == crate::radix::digits(n as nat, 10),
{
    string_of(&write_digits(n as u128, 10))
}

/// A handler without a right operand: `Some(v)` stored into the target, or
/// the register untouched for a named part.
pub open spec fn unary_outcome(
    prev: Number,
    next: Number,
    case: Option<Option<BitsIndexRange>>,
    r: OperationResult,
    value: Option<int>,
) -> bool {
    match case {
        None => r is Err && next == prev,
        Some(None) => r == historical() && next == prev,
        Some(Some(t)) => r == historical() && next.wf() && match value {
            Some(v) => next.stores(prev, t, v),
            None => exists|v: int| #[trigger] next.stores(prev, t, v),
        },
    }
}

/// The complement handler: the operand range's (or, with no operand, the
/// target's) complemented bits written into the target.
pub open spec fn not_outcome(
    prev: Number,
    next: Number,
    left: LeftOperandSource,
    right: RightOperandSource,
    r: OperationResult,
) -> bool {
    match right {
        RightOperandSource::DirectSource(_) => r is Err && next == prev,
        RightOperandSource::RangeSource(s) => match left {
            LeftOperandSource::RangeSource(t) => if prev.valid_range(s) && prev.valid_range(t) {
                r == historical() && next.wf() && next.stores(prev, t, (!prev.bits_at(s)) as int)
            } else {
                r is Err && next == prev
            },
            _ => r == historical() && next == prev,
        },
        _ => unary_outcome(
            prev,
            next,
            unary_case(prev, left, right),
            r,
            match left {
                LeftOperandSource::RangeSource(t) => Some((!prev.bits_at(t)) as int),
                _ => Option::<int>::None,
            },
        ),
    }
}

/// The root handler: the target's root of the operand's degree, rounded
/// down; degree zero is an error.
pub open spec fn root_outcome(
    prev: Number,
    next: Number,
    case: Option<Option<(BitsIndexRange, u128)>>,
    r: OperationResult,
) -> bool {
    match case {
        None => r is Err && next == prev,
        Some(None) => r == historical() && next == prev,
        Some(Some((t, x))) => if x == 0 {
            r is Err && next == prev
        } else {
            r == historical() && next.wf() && exists|v: int|
                is_floor_root(v, prev.bits_at(t) as int, x as nat) && #[trigger] next.stores(
                    prev,
                    t,
                    v,
                )
        },
    }
}

/// The width handler: an immediate from 1 to 512 becomes the width, the
/// value cut to it.
pub open spec fn width_outcome(
    prev: Number,
    next: Number,
    right: RightOperandSource,
    r: OperationResult,
) -> bool {
    match right {
        RightOperandSource::DirectSource(n) => {
            let size = n.magnitude() as usize;
            if 1 <= size <= MAX_WIDTH {
                r == historical() && next.wf() && next.width() == size && next.is_signed_spec()
                    == prev.is_signed_spec() && next.kind() == NumberType::Integer
                    && next.magnitude() as int == prev.magnitude() as int % pow2(
                    crate::number::capped(size as nat),
                ) as int
            } else {
                r is Err && next == prev
            }
        },
        _ => r is Err && next == prev,
    }
}

/// The count handler: the number of set bits of the target (of clear bits
/// with operand 0), in decimal; the register untouched.
pub open spec fn count_outcome(
    prev: Number,
    next: Number,
    left: LeftOperandSource,
    right: RightOperandSource,
    r: OperationResult,
) -> bool {
    &&& next == prev
    &&& match (left, right) {
        (_, RightOperandSource::NamedAccessSource(_)) => r == historical(),
        (LeftOperandSource::NamedAccessSource(_), RightOperandSource::Empty) => r == historical(),
        (LeftOperandSource::RangeSource(t), RightOperandSource::Empty) => if prev.valid_range(t) {
            r matches Ok((HandlerResult::Nonhistorical, Some(m))) && m@ == crate::radix::digits(
                ones_count(prev.bits_at(t) as int, prev.span(t)),
                10,
            )
        } else {
            r is Err
        },
        (LeftOperandSource::RangeSource(t), RightOperandSource::DirectSource(n)) => {
            let ones = ones_count(prev.bits_at(t) as int, prev.span(t));
            if prev.valid_range(t) && n.magnitude() <= 1 {
                r matches Ok((HandlerResult::Nonhistorical, Some(m))) && m@ == crate::radix::digits(
                    if n.magnitude() == 1 {
                        ones
                    } else {
                        (prev.span(t) - ones) as nat
                    },
                    10,
                )
            } else {
                r is Err
            }
        },
        _ => r is Err,
    }
}

/// The signedness handlers: the same bits, read as `signed` from now on.
pub open spec fn sign_outcome(prev: Number, next: Number, r: OperationResult, signed: bool) -> bool {
    &&& r == historical()
    &&& next.wf()
    &&& next.is_signed_spec() == signed
    &&& next.kind() == NumberType::Integer
    &&& next.width() == prev.width()
    &&& next.magnitude() == prev.magnitude()
}

/// The swap handler: the target gets the operand range's bits, then the
/// operand range gets the target's former bits.
pub open spec fn swap_outcome(
    prev: Number,
    next: Number,
    left: LeftOperandSource,
    right: RightOperandSource,
    r: OperationResult,
) -> bool {
    match (left, right) {
        (_, RightOperandSource::NamedAccessSource(_)) => r == historical() && next == prev,
        (LeftOperandSource::NamedAccessSource(_), RightOperandSource::RangeSource(_)) => r
            == historical() && next == prev,
        (LeftOperandSource::RangeSource(t), RightOperandSource::RangeSource(s)) => if prev.valid_range(
            t,
        ) && prev.valid_range(s) {
            r == historical() && next.wf() && exists|mid: Number|
                #[trigger] mid.stores(prev, t, prev.bits_at(s) as int) && next.stores(
                    mid,
                    s,
                    prev.bits_at(t) as int,
                )
        } else {
            r is Err && next == prev
        },
        _ => r is Err && next == prev,
    }
}

/// The negation handler: the whole register's two's complement, signed;
/// any other operand shape is an error.
pub open spec fn negate_outcome(
    prev: Number,
    next: Number,
    left: LeftOperandSource,
    right: RightOperandSource,
    r: OperationResult,
) -> bool {
    if negation_allowed(left, right) {
        r == historical() && next.is_negation_of(prev)
    } else {
        r is Err && next == prev
    }
}

/// Complements the operand range (or, with no operand, the target range) and
/// writes it into the target range.
pub fn operator_not(buffer: &mut Number, left: LeftOperandSource, right: RightOperandSource) -> (r:
    OperationResult)
    requires
        old(buffer).wf(),
    ensures
        not_outcome(*old(buffer), *final(buffer), left, right, r),
{
    match right {
        RightOperandSource::DirectSource(_) => Err("No second operand allowed!".to_owned()),
        RightOperandSource::RangeSource(s) => match left {
            LeftOperandSource::RangeSource(t) => {
                if !buffer.is_valid_range(s) || !buffer.is_valid_range(t) {
                    return out_of_range();
                }
                let bits = !buffer.get_bits(s);
                buffer.set_bits(t, bits);
                done()
            },
            _ => done(),
        },
        _ => match unary_operands(buffer, left, right) {
            Err(m) => Err(m),
            Ok(None) => done(),
            Ok(Some(t)) => {
                let bits = !buffer.get_bits(t);
                buffer.set_bits(t, bits);
                done()
            },
        },
    }
}

/// Reverses the order of the target range's bits.
pub fn operator_reverse(buffer: &mut Number, left: LeftOperandSource, right: RightOperandSource) -> (r:
    OperationResult)
    requires
        old(buffer).wf(),
    ensures
        unary_outcome(
            *old(buffer),
            *final(buffer),
            unary_case(*old(buffer), left, right),
            r,
            match left {
                LeftOperandSource::RangeSource(t) => Some(
                    reversed(old(buffer).bits_at(t) as int, old(buffer).span(t)),
                ),
                _ => Option::<int>::None,
            },
        ),
{
    match unary_operands(buffer, left, right) {
        Err(m) => Err(m),
        Ok(None) => done(),
        Ok(Some(t)) => {
            buffer.range_reverse_bits(t);
            done()
        },
    }
}

/// Fills the target range with random bits.
pub fn operator_random(buffer: &mut Number, left: LeftOperandSource, right: RightOperandSource) -> (r:
    OperationResult)
    requires
        old(buffer).wf(),
    ensures
        unary_outcome(
            *old(buffer),
            *final(buffer),
            unary_case(*old(buffer), left, right),
            r,
            Option::<int>::None,
        ),
{
    match unary_operands(buffer, left, right) {
        Err(m) => Err(m),
        Ok(None) => done(),
        Ok(Some(t)) => {
            let bits = rand::random::<u128>();
            buffer.set_bits(t, bits);
            done()
        },
    }
}

/// The shuffle handler: the target's flags, bit 0 first, permuted and
/// written back.
pub open spec fn shuffle_outcome(
    prev: Number,
    next: Number,
    case: Option<Option<BitsIndexRange>>,
    r: OperationResult,
) -> bool {
    match case {
        None => r is Err && next == prev,
        Some(None) => r == historical() && next == prev,
        Some(Some(t)) => r == historical() && next.wf() && exists|p: Seq<bool>|
            p.len() == prev.span(t) && p.to_multiset() == flags_of(
                prev.bits_at(t) as int,
                prev.span(t),
            ).to_multiset() && #[trigger] next.stores(prev, t, flags_value(p)),
    }
}

/// Moves the target range's bits to random positions within it.
pub fn operator_shuffle(buffer: &mut Number, left: LeftOperandSource, right: RightOperandSource) -> (r:
    OperationResult)
    requires
        old(buffer).wf(),
    ensures
        shuffle_outcome(*old(buffer), *final(buffer), unary_case(*old(buffer), left, right), r),
{
    match unary_operands(buffer, left, right) {
        Err(m) => Err(m),
        Ok(None) => done(),
        Ok(Some(t)) => {
            buffer.range_shuffle_bits(t);
            done()
        },
    }
}

/// Shifts the target range left, by one when no count is given.
pub fn operator_signed_shift_left(
    buffer: &mut Number,
    left: LeftOperandSource,
    right: RightOperandSource,
) -> (r: OperationResult)
    requires
        old(buffer).wf(),
        right.wf(),
    ensures
        shift_outcome(
            *old(buffer),
            *final(buffer),
            shift_case(*old(buffer), left, right),
            r,
            Operator::SignedShiftLeft,
        ),
{
    match shift_operands(buffer, left, right) {
        Err(m) => Err(m),
        Ok(None) => done(),
        Ok(Some((t, c))) => {
            buffer.signed_shift_left(t, c);
            done()
        },
    }
}

/// Shifts the target range right, copying its top bit, by one when no count
/// is given.
pub fn operator_signed_shift_right(
    buffer: &mut Number,
    left: LeftOperandSource,
    right: RightOperandSource,
) -> (r: OperationResult)
    requires
        old(buffer).wf(),
        right.wf(),
    ensures
        shift_outcome(
            *old(buffer),
            *final(buffer),
            shift_case(*old(buffer), left, right),
            r,
            Operator::SignedShiftRight,
        ),
{
    match shift_operands(buffer, left, right) {
        Err(m) => Err(m),
        Ok(None) => done(),
        Ok(Some((t, c))) => {
            buffer.signed_shift_right(t, c);
            done()
        },
    }
}

/// Shifts the target range right, filling with zeros, by one when no count
/// is given.
pub fn operator_unsigned_shift_right(
    buffer: &mut Number,
    left: LeftOperandSource,
    right: RightOperandSource,
) -> (r: OperationResult)
    requires
        old(buffer).wf(),
        right.wf(),
    ensures
        shift_outcome(
            *old(buffer),
            *final(buffer),
            shift_case(*old(buffer), left, right),
            r,
            Operator::UnsignedShiftRight,
        ),
{
    match shift_operands(buffer, left, right) {
        Err(m) => Err(m),
        Ok(None) => done(),
        Ok(Some((t, c))) => {
            buffer.unsigned_shift_right(t, c);
            done()
        },
    }
}

/// Rotates the target range right, by one when no count is given.
pub fn operator_unsigned_cyclic_shift_right(
    buffer: &mut Number,
    left: LeftOperandSource,
    right: RightOperandSource,
) -> (r: OperationResult)
    requires
        old(buffer).wf(),
        right.wf(),
    ensures
        shift_outcome(
            *old(buffer),
            *final(buffer),
            shift_case(*old(buffer), left, right),
            r,
            Operator::UnsignedCyclicShiftRight,
        ),
{
    match shift_operands(buffer, left, right) {
        Err(m) => Err(m),
        Ok(None) => done(),
        Ok(Some((t, c))) => {
            buffer.unsigned_cyclic_shift_right(t, c);
            done()
        },
    }
}

/// Rotates the target range left, by one when no count is given.
pub fn operator_unsigned_cyclic_shift_left(
    buffer: &mut Number,
    left: LeftOperandSource,
    right: RightOperandSource,
) -> (r: OperationResult)
    requires
        old(buffer).wf(),
        right.wf(),
    ensures
        shift_outcome(
            *old(buffer),
            *final(buffer),
            shift_case(*old(buffer), left, right),
            r,
            Operator::UnsignedCyclicShiftLeft,
        ),
{
    match shift_operands(buffer, left, right) {
        Err(m) => Err(m),
        Ok(None) => done(),
        Ok(Some((t, c))) => {
            buffer.unsigned_cyclic_shift_left(t, c);
            done()
        },
    }
}

/// Makes the register an integer of the width the operand gives (1 to 512
/// bits), keeping its signedness and dropping bits above the new width.
pub fn operator_int_bits_width(
    buffer: &mut Number,
    left: LeftOperandSource,
    right: RightOperandSource,
) -> (r: OperationResult)
    requires
        old(buffer).wf(),
    ensures
        width_outcome(*old(buffer), *final(buffer), right, r),
{
    match right {
        RightOperandSource::DirectSource(number) => {
            let size = number.to_usize();
            if size < 1 || size > MAX_WIDTH {
                return Err("The width must be from 1 to 512 bits".to_owned());
            }
            let signed = buffer.signed();
            buffer.convert(NumberType::Integer, signed, size);
            done()
        },
        _ => Err("Bit width is a necessary argument".to_owned()),
    }
}

/// Counts the target range's set bits, or with operand 0 its clear bits.
pub fn operator_count(buffer: &mut Number, left: LeftOperandSource, right: RightOperandSource) -> (r:
    OperationResult)
    requires
        old(buffer).wf(),
    ensures
        count_outcome(*old(buffer), *final(buffer), left, right, r),
{
    match right {
        RightOperandSource::DirectSource(second_operand) => match left {
            LeftOperandSource::RangeSource(t) => {
                if !buffer.is_valid_range(t) {
                    return out_of_range();
                }
                let which = second_operand.to_u128();
                if which > 1 {
                    return Err("Counting only 1 and 0".to_owned());
                }
                let count = buffer.range_count_bits(t, which as u8);
                Ok((HandlerResult::Nonhistorical, Some(decimal(count))))
            },
            _ => Err("Counting is only defined for integer ranges".to_owned()),
        },
        RightOperandSource::RangeSource(_) => Err(
            "Count operation does not read range, specify 1 or 0".to_owned(),
        ),
        RightOperandSource::NamedAccessSource(_) => done(),
        RightOperandSource::Empty => match left {
            LeftOperandSource::RangeSource(t) => {
                if !buffer.is_valid_range(t) {
                    return out_of_range();
                }
                let count = buffer.range_count_bits(t, 1);
                Ok((HandlerResult::Nonhistorical, Some(decimal(count))))
            },
            LeftOperandSource::NamedAccessSource(_) => done(),
        },
    }
}

/// Reads the register as signed from now on.
pub fn operator_signed(buffer: &mut Number, left: LeftOperandSource, right: RightOperandSource) -> (r:
    OperationResult)
    requires
        old(buffer).wf(),
    ensures
        sign_outcome(*old(buffer), *final(buffer), r, true),
{
    let size = buffer.max_size();
    proof {
        let b = old(buffer).magnitude();
        let w = size as u128;
        crate::bits::lemma_ones_is_mod(b, crate::number::capped(size as nat) as u128);
        assert(ones(w) == ones(crate::number::capped(size as nat) as u128));
    }
    buffer.convert(NumberType::Integer, true, size);
    done()
}

/// Reads the register as unsigned from now on.
pub fn operator_unsigned(buffer: &mut Number, left: LeftOperandSource, right: RightOperandSource) -> (r:
    OperationResult)
    requires
        old(buffer).wf(),
    ensures
        sign_outcome(*old(buffer), *final(buffer), r, false),
{
    let size = buffer.max_size();
    proof {
        let b = old(buffer).magnitude();
        let w = size as u128;
        crate::bits::lemma_ones_is_mod(b, crate::number::capped(size as nat) as u128);
        assert(ones(w) == ones(crate::number::capped(size as nat) as u128));
    }
    buffer.convert(NumberType::Integer, false, size);
    done()
}

/// Works out what a comparison compares.
fn compare_operands(buffer: &Number, left: LeftOperandSource, right: RightOperandSource) -> (r: Result<
    Option<(u128, u128)>,
    String,
>)
    requires
        buffer.wf(),
        right.wf(),
    ensures
        r is Err <==> compare_case(*buffer, left, right) is None,
        r matches Ok(o) ==> compare_case(*buffer, left, right) == Some(o),
{
    match right {
        RightOperandSource::Empty => Err("No second operand!".to_owned()),
        RightOperandSource::NamedAccessSource(_) => Ok(None),
        _ => match left {
            LeftOperandSource::NamedAccessSource(_) => Ok(None),
            LeftOperandSource::RangeSource(t) => {
                let second = match right {
                    RightOperandSource::DirectSource(n) => {
                        if n.max_size() > 128 {
                            return Err("The operand does not fit the register".to_owned());
                        }
                        proof {
                            n.lemma_full_range();
                        }
                        n.get_bits(BitsIndexRange::full())
                    },
                    RightOperandSource::RangeSource(s) => {
                        if !buffer.is_valid_range(s) {
                            return Err("The range does not fit the register".to_owned());
                        }
                        buffer.get_bits(s)
                    },
                    _ => {
                        return Err("No second operand!".to_owned());
                    },
                };
                if !buffer.is_valid_range(t) {
                    return Err("The range does not fit the register".to_owned());
                }
                Ok(Some((buffer.get_bits(t), second)))
            },
        },
    }
}

fn yes_no(b: bool) -> (r: String)
    ensures
        r@ == answer(b),
{
    let mut v: Vec<char> = Vec::new();
    if b {
        v.push('y');
        v.push('e');
        v.push('s');
    } else {
        v.push('n');
        v.push('o');
    }
    proof {
        assert(v@ =~= answer(b));
    }
    string_of(&v)
}

/// Answers whether the target range is greater than the operand.
pub fn operator_greater(buffer: &mut Number, left: LeftOperandSource, right: RightOperandSource) -> (r:
    OperationResult)
    requires
        old(buffer).wf(),
        right.wf(),
    ensures
        compare_outcome(
            *old(buffer),
            *final(buffer),
            compare_case(*old(buffer), left, right),
            r,
            Operator::Greater,
        ),
{
    match compare_operands(buffer, left, right) {
        Err(m) => Err(m),
        Ok(None) => done(),
        Ok(Some((x, y))) => Ok((HandlerResult::Nonhistorical, Some(yes_no(x > y)))),
    }
}

/// Answers whether the target range is less than the operand.
pub fn operator_less(buffer: &mut Number, left: LeftOperandSource, right: RightOperandSource) -> (r:
    OperationResult)
    requires
        old(buffer).wf(),
        right.wf(),
    ensures
        compare_outcome(
            *old(buffer),
            *final(buffer),
            compare_case(*old(buffer), left, right),
            r,
            Operator::Less,
        ),
{
    match compare_operands(buffer, left, right) {
        Err(m) => Err(m),
        Ok(None) => done(),
        Ok(Some((x, y))) => Ok((HandlerResult::Nonhistorical, Some(yes_no(x < y)))),
    }
}

/// Answers whether the target range equals the operand.
pub fn operator_equals(buffer: &mut Number, left: LeftOperandSource, right: RightOperandSource) -> (r:
    OperationResult)
    requires
        old(buffer).wf(),
        right.wf(),
    ensures
        compare_outcome(
            *old(buffer),
            *final(buffer),
            compare_case(*old(buffer), left, right),
            r,
            Operator::Equals,
        ),
{
    match compare_operands(buffer, left, right) {
        Err(m) => Err(m),
        Ok(None) => done(),
        Ok(Some((x, y))) => Ok((HandlerResult::Nonhistorical, Some(yes_no(x == y)))),
    }
}

/// Exchanges the contents of the target range and the operand range.
pub fn operator_swap(buffer: &mut Number, left: LeftOperandSource, right: RightOperandSource) -> (r:
    OperationResult)
    requires
        old(buffer).wf(),
    ensures
        swap_outcome(*old(buffer), *final(buffer), left, right, r),
{
    match right {
        RightOperandSource::DirectSource(_) => Err("Cannot swap with rvalue!".to_owned()),
        RightOperandSource::RangeSource(s) => match left {
            LeftOperandSource::RangeSource(t) => {
                if !buffer.is_valid_range(s) || !buffer.is_valid_range(t) {
                    return out_of_range();
                }
                let second = buffer.get_bits(s);
                let first = buffer.get_bits(t);
                buffer.set_bits(t, second);
                let ghost mid = *buffer;
                buffer.set_bits(s, first);
                proof {
                    assert(mid.stores(*old(buffer), t, old(buffer).bits_at(s) as int));
                }
                done()
            },
            LeftOperandSource::NamedAccessSource(_) => done(),
        },
        RightOperandSource::NamedAccessSource(_) => done(),
        RightOperandSource::Empty => no_second_operand(),
    }
}

/// Whether a negation may run: the whole register, no operand.
pub open spec fn negation_allowed(left: LeftOperandSource, right: RightOperandSource) -> bool {
    left == LeftOperandSource::RangeSource(BitsIndexRange(BitsIndex::HighestBit, BitsIndex::LowestBit))
        && right is Empty
}

/// Replaces the whole register by its two's complement and makes it signed.
pub fn operator_negate(buffer: &mut Number, left: LeftOperandSource, right: RightOperandSource) -> (r:
    OperationResult)
    requires
        old(buffer).wf(),
    ensures
        negate_outcome(*old(buffer), *final(buffer), left, right, r),
{
    match left {
        LeftOperandSource::NamedAccessSource(_) => {
            return Err("Only [max:min] range is acceptable for negation.".to_owned());
        },
        LeftOperandSource::RangeSource(range) => {
            match range.0 {
                BitsIndex::HighestBit => {},
                _ => {
                    return Err("Left bound of range can be only highest index.".to_owned());
                },
            }
            match range.1 {
                BitsIndex::LowestBit => {},
                _ => {
                    return Err("Right bound of range can be only lowest index.".to_owned());
                },
            }
        },
    }
    match right {
        RightOperandSource::Empty => {},
        _ => {
            return Err("Negation takes no second operand.".to_owned());
        },
    }
    buffer.negate();
    done()
}

/// Asks the caller to put back the previous snapshot.
pub fn operator_undo(buffer: &mut Number, left: LeftOperandSource, right: RightOperandSource) -> (r:
    OperationResult)
    ensures
        r == Ok::<(HandlerResult, Option<String>), String>((HandlerResult::Undo, Option::<String>::None)),
        *final(buffer) == *old(buffer),
{
    Ok((HandlerResult::Undo, None))
}

/// Asks the caller to put back the next snapshot.
pub fn operator_redo(buffer: &mut Number, left: LeftOperandSource, right: RightOperandSource) -> (r:
    OperationResult)
    ensures
        r == Ok::<(HandlerResult, Option<String>), String>((HandlerResult::Redo, Option::<String>::None)),
        *final(buffer) == *old(buffer),
{
    Ok((HandlerResult::Redo, None))
}

/// The help text around its five headings `h`, each as the terminal shows
/// it.
pub open spec fn help_message(h: Seq<Seq<char>>) -> Seq<char> {
    h[0] + " >> << + - >>> * / % > < ^ & | <<~ ~>> == = <> pow root cnt\r\n"@ + h[1]
        + " ! ~ rnd shf rev\r\n"@ + h[2] + " [] [i] [:] [i:] [:j] [i:j] c; e f\r\n"@ + h[3]
        + " 1 -0; 'a'\r\n"@ + h[4] + " intX signed unsigned undo redo ?"@
}

/// The list of operators and operands, as a message.
pub fn operator_show_help(buffer: &mut Number, left: LeftOperandSource, right: RightOperandSource) -> (r:
    OperationResult)
    ensures
        r matches Ok((HandlerResult::Nonhistorical, Some(m))) && exists|h: Seq<Seq<char>>|
            h.len() == 5 && #[trigger] help_message(h) == m@,
        *final(buffer) == *old(buffer),
{
    let mut text = String::new();
    let h0 = bright_green("X operator Y:");
    text.append(h0.as_str());
    text.append(" >> << + - >>> * / % > < ^ & | <<~ ~>> == = <> pow root cnt\r\n");
    let h1 = bright_green("operator X:");
    text.append(h1.as_str());
    text.append(" ! ~ rnd shf rev\r\n");
    let h2 = bright_green("X and Y can be:");
    text.append(h2.as_str());
    text.append(" [] [i] [:] [i:] [:j] [i:j] c; e f\r\n");
    let h3 = bright_green("only Y can be:");
    text.append(h3.as_str());
    text.append(" 1 -0; 'a'\r\n");
    let h4 = bright_green("commands:");
    text.append(h4.as_str());
    text.append(" intX signed unsigned undo redo ?");
    proof {
        let h = seq![h0@, h1@, h2@, h3@, h4@];
        assert(text@ =~= help_message(h));
    }
    Ok((HandlerResult::Nonhistorical, Some(text)))
}

/// What running `op` does, as its handler states it.
pub open spec fn handler_outcome(
    op: Operator,
    prev: Number,
    next: Number,
    left: LeftOperandSource,
    right: RightOperandSource,
    r: OperationResult,
) -> bool {
    match op {
        Operator::Assign | Operator::Sum | Operator::Sub | Operator::Mul | Operator::Div
        | Operator::Mod | Operator::Xor | Operator::And | Operator::Or => arithmetic_outcome(
            prev,
            next,
            binary_case(prev, left, right),
            r,
            op,
        ),
        Operator::Pow => arithmetic_outcome(prev, next, power_case(prev, left, right), r, op),
        Operator::SignedShiftLeft | Operator::SignedShiftRight | Operator::UnsignedShiftRight
        | Operator::UnsignedCyclicShiftLeft | Operator::UnsignedCyclicShiftRight => shift_outcome(
            prev,
            next,
            shift_case(prev, left, right),
            r,
            op,
        ),
        Operator::Greater | Operator::Less | Operator::Equals => compare_outcome(
            prev,
            next,
            compare_case(prev, left, right),
            r,
            op,
        ),
        Operator::Reverse => unary_outcome(
            prev,
            next,
            unary_case(prev, left, right),
            r,
            match left {
                LeftOperandSource::RangeSource(t) => Some(
                    reversed(prev.bits_at(t) as int, prev.span(t)),
                ),
                _ => Option::<int>::None,
            },
        ),
        Operator::Shuffle => shuffle_outcome(prev, next, unary_case(prev, left, right), r),
        Operator::Random => unary_outcome(
            prev,
            next,
            unary_case(prev, left, right),
            r,
            Option::<int>::None,
        ),
        Operator::Negate => negate_outcome(prev, next, left, right, r),
        Operator::Not => not_outcome(prev, next, left, right, r),
        Operator::Root => root_outcome(prev, next, power_case(prev, left, right), r),
        Operator::IntBitsWidth => width_outcome(prev, next, right, r),
        Operator::Count => count_outcome(prev, next, left, right, r),
        Operator::Signed => sign_outcome(prev, next, r, true),
        Operator::Unsigned => sign_outcome(prev, next, r, false),
        Operator::Swap => swap_outcome(prev, next, left, right, r),
        Operator::Undo => r == Ok::<(HandlerResult, Option<String>), String>(
            (HandlerResult::Undo, Option::<String>::None),
        ) && next == prev,
        Operator::Redo => r == Ok::<(HandlerResult, Option<String>), String>(
            (HandlerResult::Redo, Option::<String>::None),
        ) && next == prev,
        Operator::ShowHelp => next == prev && (r matches Ok((HandlerResult::Nonhistorical, Some(m)))
            && exists|h: Seq<Seq<char>>| h.len() == 5 && #[trigger] help_message(h) == m@),
    }
}

/// Runs operator `op` on the register.
pub fn execute(buffer: &mut Number, op: Operator, left: LeftOperandSource, right: RightOperandSource) -> (r:
    OperationResult)
    requires
        old(buffer).wf(),
        right.wf(),
    ensures
        final(buffer).wf(),
        handler_outcome(op, *old(buffer), *final(buffer), left, right, r),
{
    match op {
        Operator::ShowHelp => operator_show_help(buffer, left, right),
        Operator::Assign => operator_assign(buffer, left, right),
        Operator::Sum => operator_sum(buffer, left, right),
        Operator::Sub => operator_sub(buffer, left, right),
        Operator::Mul => operator_mul(buffer, left, right),
        Operator::Div => operator_div(buffer, left, right),
        Operator::Mod => operator_mod(buffer, left, right),
        Operator::Pow => operator_pow(buffer, left, right),
        Operator::Root => operator_root(buffer, left, right),
        Operator::Xor => operator_xor(buffer, left, right),
        Operator::And => operator_and(buffer, left, right),
        Operator::Or => operator_or(buffer, left, right),
        Operator::Not => operator_not(buffer, left, right),
        Operator::Reverse => operator_reverse(buffer, left, right),
        Operator::Random => operator_random(buffer, left, right),
        Operator::Shuffle => operator_shuffle(buffer, left, right),
        Operator::SignedShiftLeft => operator_signed_shift_left(buffer, left, right),
        Operator::SignedShiftRight => operator_signed_shift_right(buffer, left, right),
        Operator::UnsignedShiftRight => operator_unsigned_shift_right(buffer, left, right),
        Operator::UnsignedCyclicShiftRight => operator_unsigned_cyclic_shift_right(buffer, left, right),
        Operator::UnsignedCyclicShiftLeft => operator_unsigned_cyclic_shift_left(buffer, left, right),
        Operator::IntBitsWidth => operator_int_bits_width(buffer, left, right),
        Operator::Count => operator_count(buffer, left, right),
        Operator::Signed => operator_signed(buffer, left, right),
        Operator::Unsigned => operator_unsigned(buffer, left, right),
        Operator::Greater => operator_greater(buffer, left, right),
        Operator::Less => operator_less(buffer, left, right),
        Operator::Equals => operator_equals(buffer, left, right),
        Operator::Swap => operator_swap(buffer, left, right),
        Operator::Negate => operator_negate(buffer, left, right),
        Operator::Undo => operator_undo(buffer, left, right),
        Operator::Redo => operator_redo(buffer, left, right),
    }
}

} // verus!
