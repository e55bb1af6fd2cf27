//! Laws of the machine: what short runs of instructions do to it.
use vstd::prelude::*;
use crate::bytecode::chunk::ConstantView;
use crate::bytecode::Opcode;
use crate::vm::runtime_error::RuntimeErrorCause;
use crate::vm::runtime_value::{value_of, ValueView};
use crate::vm::basic_expr::magnitude;
use crate::vm::{
    binary_value, lemma_advanced_add, truncated_quotient, truncated_remainder, TickOutcome, VMView,
};

verus! {

/// The machine at another place with other operands.
pub open spec fn at(vm: VMView, ip: int, operands: Seq<ValueView>) -> VMView {
    VMView { ip: ip as usize, operands, ..vm }
}

/// The chunk that the machine runs is within what an instruction can name,
/// and the innermost frame starts within the operand stack.
pub open spec fn steady(vm: VMView) -> bool {
    &&& vm.call_stack.len() > 0
    &&& vm.floor() <= vm.operands.len()
    &&& vm.call_stack.last().chunk.opcodes.len() <= isize::MAX
    &&& vm.call_stack.last().chunk.constants.len() <= usize::MAX
}

/// `part` stands in `all` from `from` on.
pub open spec fn holds<T>(all: Seq<T>, from: int, part: Seq<T>) -> bool {
    &&& 0 <= from
    &&& from + part.len() <= all.len()
    &&& all.subrange(from, from + part.len()) == part
}

/// After `steps` steps the machine has `computed` on top of the operands
/// that were there and the pointer `length` further on; or a step has
/// failed with the error that `computed` is.
pub open spec fn yields(
    vm: VMView,
    steps: nat,
    length: nat,
    computed: Result<ValueView, RuntimeErrorCause>,
) -> bool {
    vm.advanced(steps) == match computed {
        Ok(result) => Some(
            Ok::<VMView, RuntimeErrorCause>(at(vm, vm.ip + length, vm.operands.push(result))),
        ),
        Err(cause) => Some(Err::<VMView, RuntimeErrorCause>(cause)),
    }
}

/// One step.
pub proof fn lemma_one_step(vm: VMView)
    ensures
        vm.advanced(1) == match vm.step() {
            Err(cause) => Some(Err::<VMView, RuntimeErrorCause>(cause)),
            Ok((_, TickOutcome::FinishProgram)) => None,
            Ok((next, _)) => Some(Ok(next)),
        },
{
    reveal_with_fuel(VMView::advanced, 2);
}

/// A part of what stands in a sequence stands in it.
pub proof fn lemma_holds_part<T>(all: Seq<T>, from: int, whole: Seq<T>, offset: int, part: Seq<T>)
    requires
        holds(all, from, whole),
        holds(whole, offset, part),
    ensures
        holds(all, from + offset, part),
{
    assert forall|i: int| 0 <= i < part.len() implies all[from + offset + i] == part[i] by {
        assert(whole.subrange(offset, offset + part.len())[i] == whole[offset + i]);
        assert(all.subrange(from, from + whole.len())[offset + i] == all[from + offset + i]);
    }
    assert(all.subrange(from + offset, from + offset + part.len()) =~= part);
}

/// What stands in a sequence is there, item by item.
pub proof fn lemma_holds_item<T>(all: Seq<T>, from: int, part: Seq<T>, i: int)
    requires
        holds(all, from, part),
        0 <= i < part.len(),
    ensures
        all[from + i] == part[i],
{
    assert(all.subrange(from, from + part.len())[i] == part[i]);
}

/// An instruction that drops nothing only moves the pointer.
pub proof fn lemma_landing(vm: VMView)
    requires
        steady(vm),
        vm.has_next(),
        vm.next() == Opcode::Pop(0),
    ensures
        vm.advanced(1) == Some(Ok::<VMView, RuntimeErrorCause>(at(vm, vm.ip + 1, vm.operands))),
{
    lemma_one_step(vm);
    assert(vm.dropped(0).operands =~= vm.operands);
}

/// A jump on the boolean on top: the boolean is dropped, and the pointer
/// moves by the distance if it is false, to the next instruction if it is
/// true.
pub proof fn lemma_jif_runs(vm: VMView, distance: nat)
    requires
        steady(vm),
        vm.available() >= 1,
        vm.has_next(),
        distance <= isize::MAX,
        vm.next() == Opcode::Jif(distance as isize),
    ensures
        vm.advanced(1) == match vm.top() {
            ValueView::Bool(true) => Some(
                Ok::<VMView, RuntimeErrorCause>(at(vm, vm.ip + 1, vm.operands.drop_last())),
            ),
            ValueView::Bool(false) => Some(
                Ok::<VMView, RuntimeErrorCause>(
                    at(vm, vm.ip + distance, vm.operands.drop_last()),
                ),
            ),
            _ => Some(Err::<VMView, RuntimeErrorCause>(RuntimeErrorCause::ExpectedBool)),
        },
{
    lemma_one_step(vm);
    assert(vm.dropped(1).operands =~= vm.operands.drop_last());
}

/// A jump moves the pointer by its distance.
pub proof fn lemma_jp_runs(vm: VMView, distance: nat)
    requires
        steady(vm),
        vm.has_next(),
        distance <= isize::MAX,
        vm.next() == Opcode::Jp(distance as isize),
    ensures
        vm.advanced(1) == Some(
            Ok::<VMView, RuntimeErrorCause>(at(vm, vm.ip + distance, vm.operands)),
        ),
{
    lemma_one_step(vm);
}

/// A single instruction that pushes the constant at `index` yields the
/// value of that constant.
pub proof fn lemma_constant_runs(vm: VMView, index: nat, constant: ConstantView)
    requires
        steady(vm),
        vm.has_next(),
        vm.next() == Opcode::Constant(index as usize),
        index < vm.call_stack.last().chunk.constants.len(),
        vm.call_stack.last().chunk.constants[index as int] == constant,
    ensures
        yields(vm, 1, 1, Ok(value_of(constant))),
{
    lemma_one_step(vm);
}

/// Two constants and an operation: the two constants at `i` and `j` are
/// pushed and the operation makes one value of them, which lies on top of
/// the operands that were there; or the run fails with the error of the
/// operation. For `Add`, `Sub`, `Mul`, `Div`, `Mod` and `Pow` that value is
/// the exact result on two numbers, `NumberOverflow` where the result is no
/// number of the language, `UndefinedResult` where there is none, and
/// `ExpectedNumber` where one of the two is no number: see `binary_value`.
pub proof fn lemma_operation_runs(vm: VMView, i: usize, j: usize, op: Opcode)
    requires
        steady(vm),
        holds(
            vm.call_stack.last().chunk.opcodes,
            vm.ip as int,
            seq![Opcode::Constant(i), Opcode::Constant(j), op],
        ),
        i < vm.call_stack.last().chunk.constants.len(),
        j < vm.call_stack.last().chunk.constants.len(),
        op is Add || op is Sub || op is Mul || op is Div || op is Mod || op is Pow,
    ensures
        yields(
            vm,
            3,
            3,
            binary_value(
                op,
                value_of(vm.call_stack.last().chunk.constants[i as int]),
                value_of(vm.call_stack.last().chunk.constants[j as int]),
            ),
        ),
{
    let chunk = vm.call_stack.last().chunk;
    let program = seq![Opcode::Constant(i), Opcode::Constant(j), op];
    let a = value_of(chunk.constants[i as int]);
    let b = value_of(chunk.constants[j as int]);
    lemma_holds_item(chunk.opcodes, vm.ip as int, program, 0);
    lemma_holds_item(chunk.opcodes, vm.ip as int, program, 1);
    lemma_holds_item(chunk.opcodes, vm.ip as int, program, 2);
    lemma_constant_runs(vm, i as nat, chunk.constants[i as int]);
    let second = at(vm, vm.ip + 1, vm.operands.push(a));
    lemma_constant_runs(second, j as nat, chunk.constants[j as int]);
    let third = at(vm, vm.ip + 2, vm.operands.push(a).push(b));
    lemma_one_step(third);
    assert(third.dropped(2).operands =~= vm.operands);
    lemma_advanced_add(vm, 1, 2);
    lemma_advanced_add(second, 1, 1);
}

/// Arithmetic on what is no number is an error, and on two numbers it is
/// the exact result: the sum, the difference, the product, the quotient
/// cut towards zero or the remainder that goes with it, where that is a
/// number of the language.
pub proof fn lemma_arithmetic(op: Opcode, a: ValueView, b: ValueView)
    requires
        op is Add || op is Sub || op is Mul || op is Div || op is Mod,
    ensures
        !(a is Number && b is Number) ==> binary_value(op, a, b) == Err::<
            ValueView,
            RuntimeErrorCause,
        >(RuntimeErrorCause::ExpectedNumber),
        (a is Number && b is Number) ==> ({
            let x = a->Number_0 as int;
            let y = b->Number_0 as int;
            let result = match op {
                Opcode::Add => x + y,
                Opcode::Sub => x - y,
                Opcode::Mul => x * y,
                Opcode::Div => truncated_quotient(x, y),
                _ => truncated_remainder(x, y),
            };
            binary_value(op, a, b) == if (op is Div || op is Mod) && y == 0 {
                Err::<ValueView, RuntimeErrorCause>(RuntimeErrorCause::UndefinedResult)
            } else if i64::MIN <= result <= i64::MAX {
                Ok(ValueView::Number(result as i64))
            } else {
                Err(RuntimeErrorCause::NumberOverflow)
            }
        }),
{
}

/// Quotient and remainder belong together: the quotient times the divisor
/// and the remainder make the dividend, the remainder is nearer to zero
/// than the divisor, and it is zero or has the sign of the dividend.
pub proof fn lemma_truncated_division(a: int, b: int)
    requires
        b != 0,
    ensures
        a == truncated_quotient(a, b) * b + truncated_remainder(a, b),
        magnitude(truncated_remainder(a, b)) < magnitude(b),
        truncated_remainder(a, b) == 0 || (truncated_remainder(a, b) > 0) == (a > 0),
{
    let x = magnitude(a);
    let d = magnitude(b);
    assert(x == (x / d) * d + x % d && 0 <= x % d < d) by (nonlinear_arith)
        requires
            x >= 0,
            d > 0,
    ;
    let q = x / d;
    let r = x % d;
    assert((-q) * b == q * (-b) && (-q) * b == -(q * b) && (-q) * (-b) == q * b)
        by (nonlinear_arith);
}

/// A block that ends: three constants are pushed and the two below the
/// top are dropped; the third lies on top of the operands that were there,
/// and nothing else was added.
pub proof fn lemma_block_keeps_result(vm: VMView, i: usize, j: usize, k: usize)
    requires
        steady(vm),
        holds(
            vm.call_stack.last().chunk.opcodes,
            vm.ip as int,
            seq![Opcode::Constant(i), Opcode::Constant(j), Opcode::Constant(k), Opcode::Block(2)],
        ),
        i < vm.call_stack.last().chunk.constants.len(),
        j < vm.call_stack.last().chunk.constants.len(),
        k < vm.call_stack.last().chunk.constants.len(),
    ensures
        yields(vm, 4, 4, Ok(value_of(vm.call_stack.last().chunk.constants[k as int]))),
{
    let chunk = vm.call_stack.last().chunk;
    let program = seq![
        Opcode::Constant(i),
        Opcode::Constant(j),
        Opcode::Constant(k),
        Opcode::Block(2),
    ];
    let x = value_of(chunk.constants[i as int]);
    let y = value_of(chunk.constants[j as int]);
    let z = value_of(chunk.constants[k as int]);
    lemma_holds_item(chunk.opcodes, vm.ip as int, program, 0);
    lemma_holds_item(chunk.opcodes, vm.ip as int, program, 1);
    lemma_holds_item(chunk.opcodes, vm.ip as int, program, 2);
    lemma_holds_item(chunk.opcodes, vm.ip as int, program, 3);
    lemma_constant_runs(vm, i as nat, chunk.constants[i as int]);
    let second = at(vm, vm.ip + 1, vm.operands.push(x));
    lemma_constant_runs(second, j as nat, chunk.constants[j as int]);
    let third = at(vm, vm.ip + 2, vm.operands.push(x).push(y));
    lemma_constant_runs(third, k as nat, chunk.constants[k as int]);
    let fourth = at(vm, vm.ip + 3, vm.operands.push(x).push(y).push(z));
    lemma_one_step(fourth);
    assert(fourth.dropped(3).operands =~= vm.operands);
    lemma_advanced_add(vm, 1, 3);
    lemma_advanced_add(second, 1, 2);
    lemma_advanced_add(third, 1, 1);
}

/// A write is seen by the read after it: where the constant at `a` is the
/// address of a slot of the machine and the constant at `v` any value, the
/// code that assigns the value to the address and then reads the address
/// leaves the value in the slot and on top, and the other operands as they
/// were.
pub proof fn lemma_assignment_is_read_back(vm: VMView, a: usize, v: usize)
    requires
        steady(vm),
        holds(
            vm.call_stack.last().chunk.opcodes,
            vm.ip as int,
            seq![
                Opcode::Constant(a),
                Opcode::Constant(v),
                Opcode::Asg,
                Opcode::Constant(a),
                Opcode::Get,
            ],
        ),
        a < vm.call_stack.last().chunk.constants.len(),
        v < vm.call_stack.last().chunk.constants.len(),
        vm.call_stack.last().chunk.constants[a as int] matches ConstantView::MemoryAddress(address)
            && (vm.slot(address) matches Ok(slot) && 0 <= slot < vm.operands.len()),
    ensures
        ({
            let chunk = vm.call_stack.last().chunk;
            let written = value_of(chunk.constants[v as int]);
            let slot = vm.slot(chunk.constants[a as int]->MemoryAddress_0)->Ok_0;
            vm.advanced(5) == Some(
                Ok::<VMView, RuntimeErrorCause>(
                    at(vm, vm.ip + 5, vm.operands.update(slot, written).push(written)),
                ),
            )
        }),
{
    let chunk = vm.call_stack.last().chunk;
    let program = seq![
        Opcode::Constant(a),
        Opcode::Constant(v),
        Opcode::Asg,
        Opcode::Constant(a),
        Opcode::Get,
    ];
    let address = chunk.constants[a as int]->MemoryAddress_0;
    let named = ValueView::MemoryAddress(address);
    let written = value_of(chunk.constants[v as int]);
    let slot = vm.slot(address)->Ok_0;
    lemma_holds_item(chunk.opcodes, vm.ip as int, program, 0);
    lemma_holds_item(chunk.opcodes, vm.ip as int, program, 1);
    lemma_holds_item(chunk.opcodes, vm.ip as int, program, 2);
    lemma_holds_item(chunk.opcodes, vm.ip as int, program, 3);
    lemma_holds_item(chunk.opcodes, vm.ip as int, program, 4);
    lemma_constant_runs(vm, a as nat, chunk.constants[a as int]);
    let second = at(vm, vm.ip + 1, vm.operands.push(named));
    lemma_constant_runs(second, v as nat, chunk.constants[v as int]);
    let third = at(vm, vm.ip + 2, vm.operands.push(named).push(written));
    lemma_one_step(third);
    assert(third.slot(address) == vm.slot(address));
    assert(third.operands.take(third.operands.len() - 2) =~= vm.operands);
    let stored = vm.operands.update(slot, written);
    let fourth = at(vm, vm.ip + 3, stored);
    assert(third.advanced(1) == Some(Ok::<VMView, RuntimeErrorCause>(fourth)));
    lemma_constant_runs(fourth, a as nat, chunk.constants[a as int]);
    let fifth = at(vm, vm.ip + 4, stored.push(named));
    lemma_one_step(fifth);
    assert(fifth.slot(address) == vm.slot(address));
    assert(fifth.dropped(1).operands =~= stored);
    lemma_advanced_add(vm, 1, 4);
    lemma_advanced_add(second, 1, 3);
    lemma_advanced_add(third, 1, 2);
    lemma_advanced_add(fourth, 1, 1);
}

} // verus!
