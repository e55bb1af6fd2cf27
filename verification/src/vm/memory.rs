//! Instructions that move values between the operand stack and the places
//! that addresses name.
use vstd::prelude::*;
use crate::bytecode::MemoryAddress;
use crate::common::{lemma_views_update, str_eq, views};
use crate::vm::runtime_error::{RuntimeError, RuntimeErrorCause};
use crate::vm::runtime_value::{Callable, RuntimeValue, ValueView};
use crate::vm::{find_global, MachineResult, OperationResult, VMView, VM};

verus! {

impl VM {
    /// Drops the `amount` operands on top. Fails, and changes nothing,
    /// exactly when the innermost frame holds fewer.
    pub fn op_pop(&mut self, amount: usize) -> (result: OperationResult)
        ensures
            final(self).trace() == old(self).trace(),
            match old(self)@.pop(amount) {
                Ok(vm) => result is Ok && final(self)@ == vm,
                Err(cause) => result == Err::<(), RuntimeError>(RuntimeError { cause })
                    && final(self)@ == old(self)@,
            },
    {
        if self.available() < amount {
            return Err(RuntimeError { cause: RuntimeErrorCause::PoppedFromEmptyStack });
        }
        self.drop_operands(amount);
        Ok(())
    }

    /// Drops the `amount` operands below the top one, which stays. Fails,
    /// and changes nothing, exactly when the innermost frame holds fewer
    /// than `amount` and one.
    pub fn op_block(&mut self, amount: usize) -> (result: OperationResult)
        ensures
            final(self).trace() == old(self).trace(),
            match old(self)@.block(amount) {
                Ok(vm) => result is Ok && final(self)@ == vm,
                Err(cause) => result == Err::<(), RuntimeError>(RuntimeError { cause })
                    && final(self)@ == old(self)@,
            },
    {
        if self.available() <= amount {
            return Err(RuntimeError { cause: RuntimeErrorCause::PoppedFromEmptyStack });
        }
        let block_result = match self.pop_operand() {
            Ok(value) => value,
            Err(error) => {
                return Err(error);
            },
        };
        self.drop_operands(amount);
        self.push_operand(block_result);
        proof {
            assert(old(self)@.dropped(1).dropped(amount as int).operands =~= old(self)@.dropped(
                amount + 1,
            ).operands);
        }
        Ok(())
    }

    /// The slot that an address names, counted from the bottom of the
    /// operand stack. A global has none; neither has an upvalue that the
    /// running function does not have, nor a slot beyond all counting.
    pub fn resolve_slot(&self, address: &MemoryAddress) -> (result: MachineResult<usize>)
        ensures
            match self@.slot(address@) {
                Ok(slot) => if slot <= usize::MAX {
                    result == Ok::<usize, RuntimeError>(slot as usize)
                } else {
                    result == Err::<usize, RuntimeError>(
                        RuntimeError { cause: RuntimeErrorCause::StackOverflow },
                    )
                },
                Err(cause) => result == Err::<usize, RuntimeError>(RuntimeError { cause }),
            },
    {
        let relative = match address {
            MemoryAddress::Local(index) => *index,
            MemoryAddress::Upvalue { index, is_ref } => {
                if *is_ref {
                    if self.call_stack.len() == 0 {
                        return Err(RuntimeError { cause: RuntimeErrorCause::StackOverflow });
                    }
                    let frame = &self.call_stack[self.call_stack.len() - 1];
                    if *index >= frame.upvalues.len() {
                        return Err(RuntimeError { cause: RuntimeErrorCause::StackOverflow });
                    }
                    return Ok(frame.upvalues[*index]);
                }
                *index
            },
            MemoryAddress::Global(_) => {
                return Err(RuntimeError { cause: RuntimeErrorCause::NotAssignable });
            },
        };
        match self.floor().checked_add(relative) {
            Some(slot) => Ok(slot),
            None => Err(RuntimeError { cause: RuntimeErrorCause::StackOverflow }),
        }
    }

    /// Writes `value` to the slot that `address` names. Fails, and changes
    /// nothing, exactly when the address names no slot of the operand
    /// stack.
    pub fn assign_value(&mut self, value: RuntimeValue, address: MemoryAddress) -> (result:
        OperationResult)
        ensures
            final(self).trace() == old(self).trace(),
            match old(self)@.slot(address@) {
                Ok(slot) => if slot < old(self)@.operands.len() {
                    result is Ok && final(self)@ == (VMView {
                        operands: old(self)@.operands.update(slot, value@),
                        ..old(self)@
                    })
                } else {
                    result == Err::<(), RuntimeError>(
                        RuntimeError { cause: RuntimeErrorCause::StackOverflow },
                    ) && final(self)@ == old(self)@
                },
                Err(cause) => result == Err::<(), RuntimeError>(RuntimeError { cause })
                    && final(self)@ == old(self)@,
            },
    {
        let len = self.operands.len();
        proof {
            assert(self@.operands.len() == len);
        }
        let slot = match self.resolve_slot(&address) {
            Ok(slot) => slot,
            Err(error) => {
                return Err(error);
            },
        };
        if slot >= len {
            return Err(RuntimeError { cause: RuntimeErrorCause::StackOverflow });
        }
        let ghost before = self.operands@;
        self.operands[slot] = value;
        proof {
            lemma_views_update(before, slot as int, value);
            assert(self.operands@ =~= before.update(slot as int, value));
        }
        Ok(())
    }

    /// Writes the value on top to the slot that the address below it
    /// names, and drops both. Fails, and changes nothing, when the
    /// innermost frame holds fewer than two operands, the second is no
    /// address, or the address names no slot below the two.
    pub fn op_asg(&mut self) -> (result: OperationResult)
        ensures
            final(self).trace() == old(self).trace(),
            match old(self)@.asg() {
                Ok(vm) => result is Ok && final(self)@ == vm,
                Err(cause) => result == Err::<(), RuntimeError>(RuntimeError { cause })
                    && final(self)@ == old(self)@,
            },
    {
        if self.available() < 2 {
            return Err(RuntimeError { cause: RuntimeErrorCause::PoppedFromEmptyStack });
        }
        let len = self.operands.len();
        let slot = match &self.operands[len - 2] {
            RuntimeValue::MemoryAddress(address) => match self.resolve_slot(address) {
                Ok(slot) => slot,
                Err(error) => {
                    return Err(error);
                },
            },
            _ => {
                return Err(RuntimeError { cause: RuntimeErrorCause::ExpectedAddress });
            },
        };
        if slot >= len - 2 {
            return Err(RuntimeError { cause: RuntimeErrorCause::StackOverflow });
        }
        let to_assign = self.operands.pop().unwrap();
        let address = self.operands.pop().unwrap();
        let ghost before = self.operands@;
        self.operands[slot] = to_assign;
        proof {
            lemma_views_update(before, slot as int, to_assign);
            assert(self.operands@ =~= before.update(slot as int, to_assign));
            assert(before =~= old(self).operands@.take(len - 2));
            assert(views(before) =~= old(self)@.operands.take(len - 2));
        }
        Ok(())
    }

    /// Pushes a copy of the value in the slot `local_address` of the
    /// innermost frame. Fails, and changes nothing, exactly when the operand
    /// stack has no such slot.
    pub fn get_local_variable(&mut self, local_address: usize) -> (result: OperationResult)
        ensures
            final(self).trace() == old(self).trace(),
            if old(self)@.floor() + local_address < old(self)@.operands.len() {
                result is Ok && final(self)@ == old(self)@.pushed(
                    old(self)@.operands[old(self)@.floor() + local_address],
                )
            } else {
                result == Err::<(), RuntimeError>(
                    RuntimeError { cause: RuntimeErrorCause::StackOverflow },
                ) && final(self)@ == old(self)@
            },
    {
        let len = self.operands.len();
        proof {
            assert(self@.operands.len() == len);
        }
        let slot = match self.floor().checked_add(local_address) {
            Some(slot) => slot,
            None => {
                return Err(RuntimeError { cause: RuntimeErrorCause::StackOverflow });
            },
        };
        if slot >= len {
            return Err(RuntimeError { cause: RuntimeErrorCause::StackOverflow });
        }
        let value = self.operands[slot].clone();
        self.push_operand(value);
        Ok(())
    }

    /// A copy of the first global called `name`.
    pub fn lookup_global(&self, name: &str) -> (found: Option<Callable>)
        ensures
            match find_global(self@.globals, name@) {
                Some(callable) => found matches Some(copy) && copy@ == callable,
                None => found is None,
            },
    {
        let mut i: usize = 0;
        while i < self.globals.len()
            invariant
                i <= self.globals@.len(),
                find_global(self@.globals.take(i as int), name@) is None,
            decreases self.globals@.len() - i,
        {
            proof {
                assert(self@.globals.take(i + 1).drop_last() =~= self@.globals.take(i as int));
            }
            if str_eq(self.globals[i].name.as_str(), name) {
                proof {
                    lemma_find_global_prefix(self@.globals, name@, i + 1);
                }
                return Some(self.globals[i].callable.clone());
            }
            i += 1;
        }
        proof {
            assert(self@.globals.take(i as int) =~= self@.globals);
        }
        None
    }

    /// Pushes the global called `name`. Fails, and changes nothing, exactly
    /// when there is none.
    pub fn get_global_variable(&mut self, name: &str) -> (result: OperationResult)
        ensures
            final(self).trace() == old(self).trace(),
            match find_global(old(self)@.globals, name@) {
                Some(callable) => result is Ok && final(self)@ == old(self)@.pushed(
                    ValueView::Callable(callable),
                ),
                None => result == Err::<(), RuntimeError>(
                    RuntimeError { cause: RuntimeErrorCause::NotDefined },
                ) && final(self)@ == old(self)@,
            },
    {
        match self.lookup_global(name) {
            Some(callable) => {
                self.push_operand(RuntimeValue::Callable(callable));
                Ok(())
            },
            None => Err(RuntimeError { cause: RuntimeErrorCause::NotDefined }),
        }
    }

    /// Replaces the address on top by the value that it names. Fails, and
    /// changes nothing, when the innermost frame holds no operand, the
    /// operand on top is no address, or the address names nothing.
    pub fn op_get(&mut self) -> (result: OperationResult)
        ensures
            final(self).trace() == old(self).trace(),
            match old(self)@.get() {
                Ok(vm) => result is Ok && final(self)@ == vm,
                Err(cause) => result == Err::<(), RuntimeError>(RuntimeError { cause })
                    && final(self)@ == old(self)@,
            },
    {
        if self.available() < 1 {
            return Err(RuntimeError { cause: RuntimeErrorCause::PoppedFromEmptyStack });
        }
        let len = self.operands.len();
        let value = match &self.operands[len - 1] {
            RuntimeValue::MemoryAddress(MemoryAddress::Global(name)) => {
                match self.lookup_global(name.as_str()) {
                    Some(callable) => RuntimeValue::Callable(callable),
                    None => {
                        return Err(RuntimeError { cause: RuntimeErrorCause::NotDefined });
                    },
                }
            },
            RuntimeValue::MemoryAddress(address) => {
                let slot = match self.resolve_slot(address) {
                    Ok(slot) => slot,
                    Err(error) => {
                        return Err(error);
                    },
                };
                if slot >= len - 1 {
                    return Err(RuntimeError { cause: RuntimeErrorCause::StackOverflow });
                }
                self.operands[slot].clone()
            },
            _ => {
                return Err(RuntimeError { cause: RuntimeErrorCause::ExpectedAddress });
            },
        };
        self.drop_operands(1);
        self.push_operand(value);
        Ok(())
    }
}

/// A global found among the first `n` is the one found among all.
pub proof fn lemma_find_global_prefix(
    globals: Seq<crate::vm::GlobalView>,
    name: Seq<char>,
    n: int,
)
    requires
        0 <= n <= globals.len(),
        find_global(globals.take(n), name) is Some,
    ensures
        find_global(globals, name) == find_global(globals.take(n), name),
    decreases globals.len() - n,
{
    if n < globals.len() {
        assert(globals.take(n + 1).drop_last() =~= globals.take(n));
        lemma_find_global_prefix(globals, name, n + 1);
    } else {
        assert(globals.take(n) =~= globals);
    }
}

} // verus!
