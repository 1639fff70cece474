//! The binary operators: what they compute, and the functions that
//! compute it.

use crate::ast::Operator;
use crate::error::{EvalError, Fault};
use crate::value::{Val, Value};
use vstd::prelude::*;

verus! {

/// The integer that stands for a truth value.
pub open spec fn truth(b: bool) -> i64 {
    if b {
        1
    } else {
        0
    }
}

/// The distance of `n` from zero.
pub open spec fn magnitude(n: int) -> int {
    if n < 0 {
        -n
    } else {
        n
    }
}

/// The quotient of `a` by `b`, rounded toward zero.
pub open spec fn truncating_quotient(a: int, b: int) -> int
    recommends
        b != 0,
{
    let q = magnitude(a) / magnitude(b);
    if (a < 0) != (b < 0) {
        -q
    } else {
        q
    }
}

/// The remainder that goes with `truncating_quotient`: it has the sign of `a`.
pub open spec fn truncating_remainder(a: int, b: int) -> int
    recommends
        b != 0,
{
    let r = magnitude(a) % magnitude(b);
    if a < 0 {
        -r
    } else {
        r
    }
}

/// `n` as a 64-bit integer, or an overflow where it does not fit.
pub open spec fn checked(n: int) -> Result<i64, Fault> {
    if i64::MIN <= n <= i64::MAX {
        Ok(n as i64)
    } else {
        Err(Fault::IntegerOverflow)
    }
}

/// `l op r` on integers.
pub open spec fn integer_op(op: Operator, l: i64, r: i64) -> Result<i64, Fault> {
    match op {
        Operator::BinOpAdd => checked(l + r),
        Operator::BinOpSub => checked(l - r),
        Operator::BinOpMul => checked(l * r),
        Operator::BinOpDiv => if r == 0 {
            Err(Fault::DivisionByZero)
        } else {
            checked(truncating_quotient(l as int, r as int))
        },
        Operator::BinOpMod => if r == 0 {
            Err(Fault::DivisionByZero)
        } else if l == i64::MIN && r == -1 {
            Err(Fault::IntegerOverflow)
        } else {
            checked(truncating_remainder(l as int, r as int))
        },
        Operator::BinOpLess => Ok(truth(l < r)),
        Operator::BinOpLessEq => Ok(truth(l <= r)),
        Operator::BinOpGreater => Ok(truth(l > r)),
        Operator::BinOpGreaterEq => Ok(truth(l >= r)),
        Operator::BinOpEquals => Ok(truth(l == r)),
        Operator::BinOpAnd => Ok(l & r),
        Operator::BinOpOr => Ok(l | r),
        Operator::BinOpDot => Err(Fault::UnsupportedOperator(op)),
    }
}

/// `l op r`: two integers combine as `integer_op` says, two strings can
/// only be compared for equality.
pub open spec fn binary(op: Operator, l: Val, r: Val) -> Result<Val, Fault> {
    match (l, r) {
        (Val::Integer(a), Val::Integer(b)) => match integer_op(op, a, b) {
            Ok(i) => Ok(Val::Integer(i)),
            Err(fault) => Err(fault),
        },
        (Val::String(a), Val::String(b)) => match op {
            Operator::BinOpEquals => Ok(Val::Integer(truth(a == b))),
            _ => Err(Fault::UnsupportedOperator(op)),
        },
        _ => Err(Fault::OperandMismatch),
    }
}

/// Truncating division, characterised: quotient and remainder make up
/// the dividend, and the remainder is nearer to zero than the divisor and
/// never of the opposite sign to the dividend.
pub proof fn law_truncating_division(a: int, b: int)
    requires
        b != 0,
    ensures
        b * truncating_quotient(a, b) + truncating_remainder(a, b) == a,
        magnitude(truncating_remainder(a, b)) < magnitude(b),
        a >= 0 ==> truncating_remainder(a, b) >= 0,
        a <= 0 ==> truncating_remainder(a, b) <= 0,
{
    let x = magnitude(a);
    let d = magnitude(b);
    vstd::arithmetic::div_mod::lemma_fundamental_div_mod(x, d);
    vstd::arithmetic::div_mod::lemma_mod_bound(x, d);
    let q = x / d;
    assert(b * (-q) == -(b * q)) by (nonlinear_arith);
    assert((-b) * q == -(b * q)) by (nonlinear_arith);
}

/// On the integers that stand for truth values, `&` is "and" and `|` is
/// "or".
pub proof fn law_and_or_of_truth_values(a: bool, b: bool)
    ensures
        truth(a) & truth(b) == truth(a && b),
        truth(a) | truth(b) == truth(a || b),
{
    assert(0i64 & 0i64 == 0i64) by (bit_vector);
    assert(0i64 & 1i64 == 0i64) by (bit_vector);
    assert(1i64 & 0i64 == 0i64) by (bit_vector);
    assert(1i64 & 1i64 == 1i64) by (bit_vector);
    assert(0i64 | 0i64 == 0i64) by (bit_vector);
    assert(0i64 | 1i64 == 1i64) by (bit_vector);
    assert(1i64 | 0i64 == 1i64) by (bit_vector);
    assert(1i64 | 1i64 == 1i64) by (bit_vector);
}

/// The distance of `n` from zero.
fn magnitude_of(n: i64) -> (m: u64)
    ensures
        m == magnitude(n as int),
{
    if n < 0 {
        (0 - n as i128) as u64
    } else {
        n as u64
    }
}

/// The integer that stands for `b`.
pub(crate) fn truth_of(b: bool) -> (i: i64)
    ensures
        i == truth(b),
{
    if b {
        1
    } else {
        0
    }
}

/// `n` as a 64-bit integer, where it fits.
fn narrow(n: i128) -> (narrowed: Result<i64, EvalError>)
    ensures
        match narrowed {
            Ok(i) => checked(n as int) == Ok::<i64, Fault>(i),
            Err(error) => checked(n as int) == Err::<i64, Fault>(error@),
        },
{
    if n < -0x8000_0000_0000_0000 || n > 0x7fff_ffff_ffff_ffff {
        Err(EvalError::IntegerOverflow)
    } else {
        Ok(n as i64)
    }
}

/// `l op r` on integers.
pub fn integer_operation(op: Operator, l: i64, r: i64) -> (computed: Result<i64, EvalError>)
    ensures
        match computed {
            Ok(i) => integer_op(op, l, r) == Ok::<i64, Fault>(i),
            Err(error) => integer_op(op, l, r) == Err::<i64, Fault>(error@),
        },
{
    match op {
        Operator::BinOpAdd => narrow(l as i128 + r as i128),
        Operator::BinOpSub => narrow(l as i128 - r as i128),
        Operator::BinOpMul => {
            assert(-0x8000_0000_0000_0000 * 0x8000_0000_0000_0000 <= l * r
                <= 0x8000_0000_0000_0000 * 0x8000_0000_0000_0000) by (nonlinear_arith)
                requires
                    -0x8000_0000_0000_0000 <= l < 0x8000_0000_0000_0000,
                    -0x8000_0000_0000_0000 <= r < 0x8000_0000_0000_0000,
            ;
            narrow(l as i128 * r as i128)
        },
        Operator::BinOpDiv => {
            if r == 0 {
                Err(EvalError::DivisionByZero)
            } else {
                let q: u64 = magnitude_of(l) / magnitude_of(r);
                if (l < 0) != (r < 0) {
                    narrow(0 - q as i128)
                } else {
                    narrow(q as i128)
                }
            }
        },
        Operator::BinOpMod => {
            if r == 0 {
                Err(EvalError::DivisionByZero)
            } else if l == i64::MIN && r == -1 {
                Err(EvalError::IntegerOverflow)
            } else {
                let m: u64 = magnitude_of(l) % magnitude_of(r);
                if l < 0 {
                    narrow(0 - m as i128)
                } else {
                    narrow(m as i128)
                }
            }
        },
        Operator::BinOpLess => Ok(truth_of(l < r)),
        Operator::BinOpLessEq => Ok(truth_of(l <= r)),
        Operator::BinOpGreater => Ok(truth_of(l > r)),
        Operator::BinOpGreaterEq => Ok(truth_of(l >= r)),
        Operator::BinOpEquals => Ok(truth_of(l == r)),
        Operator::BinOpAnd => Ok(l & r),
        Operator::BinOpOr => Ok(l | r),
        Operator::BinOpDot => Err(EvalError::UnsupportedOperator(op)),
    }
}

/// `l op r` on values.
pub fn binary_operation<'a>(op: Operator, l: &Value<'a>, r: &Value<'a>) -> (computed: Result<
    Value<'a>,
    EvalError,
>)
    ensures
        match computed {
            Ok(value) => binary(op, l@, r@) == Ok::<Val, Fault>(value@),
            Err(error) => binary(op, l@, r@) == Err::<Val, Fault>(error@),
        },
{
    match (l, r) {
        (Value::Integer(a), Value::Integer(b)) => match integer_operation(op, *a, *b) {
            Ok(i) => Ok(Value::Integer(i)),
            Err(error) => Err(error),
        },
        (Value::String(a), Value::String(b)) => match op {
            Operator::BinOpEquals => Ok(Value::Integer(truth_of(**a == **b))),
            _ => Err(EvalError::UnsupportedOperator(op)),
        },
        _ => Err(EvalError::OperandMismatch),
    }
}

} // verus!
