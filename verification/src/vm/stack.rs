//! The operand stack of the innermost frame.
use vstd::prelude::*;
use crate::common::{lemma_views_push, lemma_views_take};
use crate::vm::runtime_error::{RuntimeError, RuntimeErrorCause};
use crate::vm::runtime_value::RuntimeValue;
use crate::vm::{MachineResult, VM};

verus! {

impl VM {
    /// The first slot of the innermost frame.
    pub fn floor(&self) -> (floor: usize)
        ensures
            floor == self@.floor(),
    {
        if self.call_stack.len() == 0 {
            0
        } else {
            self.call_stack[self.call_stack.len() - 1].stack_start
        }
    }

    /// Number of operands that the innermost frame holds.
    pub fn available(&self) -> (count: usize)
        ensures
            count == self@.available(),
    {
        let floor = self.floor();
        if self.operands.len() > floor {
            self.operands.len() - floor
        } else {
            0
        }
    }

    /// Pushes an operand.
    pub fn push_operand(&mut self, value: RuntimeValue)
        ensures
            final(self)@ == old(self)@.pushed(value@),
            final(self).trace() == old(self).trace(),
    {
        proof {
            lemma_views_push(self.operands@, value);
        }
        self.operands.push(value);
    }

    /// Takes the operand on top. Fails, and changes nothing, exactly when
    /// the innermost frame holds no operand.
    pub fn pop_operand(&mut self) -> (result: MachineResult<RuntimeValue>)
        ensures
            final(self).trace() == old(self).trace(),
            old(self)@.available() >= 1 ==> (result matches Ok(value) && value@ == old(self)@.top())
                && final(self)@ == old(self)@.dropped(1),
            old(self)@.available() < 1 ==> result == Err::<RuntimeValue, RuntimeError>(
                RuntimeError { cause: RuntimeErrorCause::PoppedFromEmptyStack },
            ) && final(self)@ == old(self)@,
    {
        if self.available() < 1 {
            return Err(RuntimeError { cause: RuntimeErrorCause::PoppedFromEmptyStack });
        }
        let ghost before = self.operands@;
        let value = self.operands.pop().unwrap();
        proof {
            lemma_views_take(before, before.len() - 1);
            assert(self.operands@ =~= before.take(before.len() - 1));
        }
        Ok(value)
    }

    /// Drops the `count` operands on top.
    pub fn drop_operands(&mut self, count: usize)
        requires
            count <= old(self)@.operands.len(),
        ensures
            final(self)@ == old(self)@.dropped(count as int),
            final(self).trace() == old(self).trace(),
    {
        let ghost before = self.operands@;
        let keep = self.operands.len() - count;
        self.operands.truncate(keep);
        proof {
            lemma_views_take(before, keep as int);
        }
    }
}

} // verus!
