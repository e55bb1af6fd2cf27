//! Instructions that compute: arithmetic, comparison and logic.
use vstd::prelude::*;
use crate::bytecode::Opcode;
use crate::common::Number;
use crate::vm::runtime_error::{RuntimeError, RuntimeErrorCause};
use crate::vm::runtime_value::RuntimeValue;
use crate::vm::{
    arithmetic,
    binary_value,
    power,
    truncated_remainder,
    unary_value,
    MachineResult,
    OperationResult,
    VM,
};

verus! {

/// The distance of an integer from zero.
pub open spec fn magnitude(x: int) -> int {
    if x < 0 {
        -x
    } else {
        x
    }
}

proof fn lemma_magnitude_of_product(x: int, y: int)
    ensures
        magnitude(x * y) == magnitude(x) * magnitude(y),
{
    assert(magnitude(x * y) == magnitude(x) * magnitude(y)) by (nonlinear_arith);
}

/// Powers of zero, of one and of minus one.
pub proof fn lemma_power_of_unit(exponent: nat)
    ensures
        power(1, exponent) == 1,
        exponent > 0 ==> power(0, exponent) == 0,
        power(-1, exponent) == if exponent % 2 == 0 {
            1int
        } else {
            -1int
        },
    decreases exponent,
{
    if exponent > 0 {
        lemma_power_of_unit((exponent - 1) as nat);
    }
}

/// The powers of a base that is at least two away from zero move away from
/// zero as the exponent grows.
pub proof fn lemma_power_grows(base: int, low: nat, high: nat)
    requires
        magnitude(base) >= 2,
        low <= high,
    ensures
        magnitude(power(base, low)) >= 1,
        magnitude(power(base, low)) <= magnitude(power(base, high)),
        low < high ==> magnitude(power(base, low)) < magnitude(power(base, high)),
    decreases high,
{
    if low == 0 {
        assert(power(base, 0) == 1);
    } else {
        lemma_power_grows(base, (low - 1) as nat, (low - 1) as nat);
        lemma_magnitude_of_product(base, power(base, (low - 1) as nat));
        let m = magnitude(power(base, (low - 1) as nat));
        let b = magnitude(base);
        assert(b * m >= 1) by (nonlinear_arith)
            requires
                b >= 2,
                m >= 1,
        ;
    }
    if low < high {
        lemma_power_grows(base, low, (high - 1) as nat);
        lemma_magnitude_of_product(base, power(base, (high - 1) as nat));
        let m = magnitude(power(base, (high - 1) as nat));
        let b = magnitude(base);
        assert(b * m > m) by (nonlinear_arith)
            requires
                b >= 2,
                m >= 1,
        ;
    }
}

/// `base` to the power of `exponent`, if that is a number of the
/// language.
pub fn checked_power(base: Number, exponent: Number) -> (result: Option<Number>)
    requires
        exponent >= 0,
    ensures
        result == if i64::MIN <= power(base as int, exponent as nat) <= i64::MAX {
            Some(power(base as int, exponent as nat) as i64)
        } else {
            None::<i64>
        },
{
    proof {
        lemma_power_of_unit(exponent as nat);
    }
    if exponent == 0 || base == 1 {
        return Some(1);
    }
    if base == 0 {
        return Some(0);
    }
    if base == -1 {
        return Some(
            if exponent % 2 == 0 {
                1
            } else {
                -1
            },
        );
    }
    let mut result: Number = 1;
    let mut done: Number = 0;
    while done < exponent
        invariant
            0 <= done <= exponent,
            magnitude(base as int) >= 2,
            result == power(base as int, done as nat),
        decreases exponent - done,
    {
        match result.checked_mul(base) {
            Some(next) => {
                assert(power(base as int, (done + 1) as nat) == base * power(
                    base as int,
                    done as nat,
                ));
                assert(base * result == result * base) by (nonlinear_arith);
                result = next;
                done += 1;
            },
            None => {
                proof {
                    let reached = power(base as int, (done + 1) as nat);
                    assert(reached == base * power(base as int, done as nat));
                    assert(base * result == result * base) by (nonlinear_arith);
                    lemma_power_grows(base as int, (done + 1) as nat, exponent as nat);
                }
                return None;
            },
        }
    }
    Some(result)
}

/// The number that an operation on two numbers gives.
pub fn compute_arithmetic(op: Opcode, a: Number, b: Number) -> (result: Result<
    Number,
    RuntimeErrorCause,
>)
    ensures
        result == arithmetic(op, a as int, b as int),
{
    let outcome = match op {
        Opcode::Add => a.checked_add(b),
        Opcode::Sub => a.checked_sub(b),
        Opcode::Mul => a.checked_mul(b),
        Opcode::Div => {
            if b == 0 {
                return Err(RuntimeErrorCause::UndefinedResult);
            }
            a.checked_div(b)
        },
        Opcode::Mod => {
            if b == 0 {
                return Err(RuntimeErrorCause::UndefinedResult);
            }
            if b == -1 {
                proof {
                    assert(magnitude(a as int) % 1 == 0);
                }
                Some(0)
            } else {
                a.checked_rem(b)
            }
        },
        Opcode::Pow => {
            if b < 0 {
                return Err(RuntimeErrorCause::UndefinedResult);
            }
            checked_power(a, b)
        },
        _ => {
            return Err(RuntimeErrorCause::UndefinedResult);
        },
    };
    match outcome {
        Some(number) => Ok(number),
        None => {
            proof {
                if op == Opcode::Mod {
                    lemma_remainder_fits(a as int, b as int);
                }
            }
            Err(RuntimeErrorCause::NumberOverflow)
        },
    }
}

/// A remainder is no further from zero than the dividend.
pub proof fn lemma_remainder_fits(a: int, b: int)
    requires
        b != 0,
    ensures
        magnitude(truncated_remainder(a, b)) <= magnitude(a),
{
    let x = magnitude(a);
    let d = magnitude(b);
    assert(0 <= x % d <= x) by (nonlinear_arith)
        requires
            x >= 0,
            d > 0,
    ;
}

/// What an instruction with two operands makes of them.
pub fn compute_binary(op: Opcode, a: &RuntimeValue, b: &RuntimeValue) -> (result: MachineResult<
    RuntimeValue,
>)
    ensures
        match binary_value(op, a@, b@) {
            Ok(value) => result matches Ok(computed) && computed@ == value,
            Err(cause) => result == Err::<RuntimeValue, RuntimeError>(RuntimeError { cause }),
        },
{
    match op {
        Opcode::Add | Opcode::Sub | Opcode::Mul | Opcode::Div | Opcode::Mod | Opcode::Pow => {
            match (a, b) {
                (RuntimeValue::Number(x), RuntimeValue::Number(y)) => match compute_arithmetic(
                    op,
                    *x,
                    *y,
                ) {
                    Ok(number) => Ok(RuntimeValue::Number(number)),
                    Err(cause) => Err(RuntimeError { cause }),
                },
                _ => Err(RuntimeError { cause: RuntimeErrorCause::ExpectedNumber }),
            }
        },
        Opcode::Lt | Opcode::Le | Opcode::Gt | Opcode::Ge => {
            match (a, b) {
                (RuntimeValue::Number(x), RuntimeValue::Number(y)) => Ok(
                    RuntimeValue::Bool(
                        match op {
                            Opcode::Lt => *x < *y,
                            Opcode::Le => *x <= *y,
                            Opcode::Gt => *x > *y,
                            _ => *x >= *y,
                        },
                    ),
                ),
                _ => Err(RuntimeError { cause: RuntimeErrorCause::ExpectedNumber }),
            }
        },
        Opcode::Eq => Ok(RuntimeValue::Bool(a.same_as(b))),
        Opcode::Ne => Ok(RuntimeValue::Bool(!a.same_as(b))),
        Opcode::Or | Opcode::And => {
            match (a, b) {
                (RuntimeValue::Bool(x), RuntimeValue::Bool(y)) => Ok(
                    RuntimeValue::Bool(
                        if op == Opcode::Or {
                            *x || *y
                        } else {
                            *x && *y
                        },
                    ),
                ),
                _ => Err(RuntimeError { cause: RuntimeErrorCause::ExpectedBool }),
            }
        },
        _ => Err(RuntimeError { cause: RuntimeErrorCause::ExpectedNumber }),
    }
}

/// What an instruction with one operand makes of it.
pub fn compute_unary(op: Opcode, a: &RuntimeValue) -> (result: MachineResult<RuntimeValue>)
    ensures
        match unary_value(op, a@) {
            Ok(value) => result matches Ok(computed) && computed@ == value,
            Err(cause) => result == Err::<RuntimeValue, RuntimeError>(RuntimeError { cause }),
        },
{
    match op {
        Opcode::Not => match a {
            RuntimeValue::Bool(x) => Ok(RuntimeValue::Bool(!*x)),
            _ => Err(RuntimeError { cause: RuntimeErrorCause::ExpectedBool }),
        },
        _ => match a {
            RuntimeValue::Number(x) => match 0i64.checked_sub(*x) {
                Some(negated) => Ok(RuntimeValue::Number(negated)),
                None => Err(RuntimeError { cause: RuntimeErrorCause::NumberOverflow }),
            },
            _ => Err(RuntimeError { cause: RuntimeErrorCause::ExpectedNumber }),
        },
    }
}

impl VM {
    /// Replaces the two operands on top by what `op` makes of them. Fails,
    /// and changes nothing, when the frame holds fewer than two operands or
    /// `op` does not take the two.
    pub fn op_binary(&mut self, op: Opcode) -> (result: OperationResult)
        ensures
            final(self).trace() == old(self).trace(),
            match old(self)@.binary(op) {
                Ok(vm) => result is Ok && final(self)@ == vm,
                Err(cause) => result == Err::<(), RuntimeError>(RuntimeError { cause })
                    && final(self)@ == old(self)@,
            },
    {
        if self.available() < 2 {
            return Err(RuntimeError { cause: RuntimeErrorCause::PoppedFromEmptyStack });
        }
        let len = self.operands.len();
        let value = match compute_binary(op, &self.operands[len - 2], &self.operands[len - 1]) {
            Ok(value) => value,
            Err(error) => {
                return Err(error);
            },
        };
        self.drop_operands(2);
        self.push_operand(value);
        Ok(())
    }

    /// Replaces the operand on top by what `op` makes of it. Fails, and
    /// changes nothing, when the frame holds no operand or `op` does not
    /// take the one it holds.
    pub fn op_unary(&mut self, op: Opcode) -> (result: OperationResult)
        ensures
            final(self).trace() == old(self).trace(),
            match old(self)@.unary(op) {
                Ok(vm) => result is Ok && final(self)@ == vm,
                Err(cause) => result == Err::<(), RuntimeError>(RuntimeError { cause })
                    && final(self)@ == old(self)@,
            },
    {
        if self.available() < 1 {
            return Err(RuntimeError { cause: RuntimeErrorCause::PoppedFromEmptyStack });
        }
        let len = self.operands.len();
        let value = match compute_unary(op, &self.operands[len - 1]) {
            Ok(value) => value,
            Err(error) => {
                return Err(error);
            },
        };
        self.drop_operands(1);
        self.push_operand(value);
        Ok(())
    }
}

} // verus!
