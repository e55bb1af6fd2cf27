//! The record that the machine keeps of each call under way.
use vstd::prelude::*;
use crate::bytecode::chunk::{Chunk, ChunkView};
use crate::common::{lemma_views_push, lemma_views_take, views, ProgramText};
use crate::vm::runtime_error::{RuntimeError, RuntimeErrorCause};
use crate::vm::runtime_value::{Callable, RuntimeValue};
use crate::vm::{OperationResult, VMView, VM};

verus! {

/// One call under way.
#[derive(Debug, PartialEq)]
pub struct CallFrame {
    /// The first operand-stack slot of the call: the slots below it belong
    /// to the callers.
    pub stack_start: usize,
    pub name: ProgramText,
    pub chunk: Chunk,
    /// Where the caller goes on after the call.
    pub return_ip: usize,
    /// The slots that the running function reaches through upvalues.
    pub upvalues: Vec<usize>,
}

/// Mathematical value of a [`CallFrame`].
pub struct FrameView {
    pub stack_start: usize,
    pub name: Seq<char>,
    pub chunk: ChunkView,
    pub return_ip: usize,
    pub upvalues: Seq<usize>,
}

impl View for CallFrame {
    type V = FrameView;

    open spec fn view(&self) -> FrameView {
        FrameView {
            stack_start: self.stack_start,
            name: self.name@,
            chunk: self.chunk@,
            return_ip: self.return_ip,
            upvalues: self.upvalues@,
        }
    }
}

impl VM {
    /// Opens a frame.
    pub fn add_call_frame(&mut self, frame: CallFrame)
        ensures
            final(self)@ == (VMView {
                call_stack: old(self)@.call_stack.push(frame@),
                ..old(self)@
            }),
            final(self).trace() == old(self).trace(),
    {
        proof {
            lemma_views_push(self.call_stack@, frame);
        }
        self.call_stack.push(frame);
    }

    /// Closes the innermost frame, if there is one, and returns it.
    pub fn remove_call_frame(&mut self) -> (removed: Option<CallFrame>)
        ensures
            final(self).trace() == old(self).trace(),
            old(self)@.call_stack.len() > 0 ==> (removed matches Some(frame)
                && frame@ == old(self)@.call_stack.last())
                && final(self)@ == (VMView {
                call_stack: old(self)@.call_stack.drop_last(),
                ..old(self)@
            }),
            old(self)@.call_stack.len() == 0 ==> removed is None && final(self)@ == old(self)@,
    {
        let ghost before = self.call_stack@;
        let removed = self.call_stack.pop();
        proof {
            if before.len() > 0 {
                lemma_views_take(before, before.len() - 1);
                assert(self.call_stack@ =~= before.take(before.len() - 1));
                assert(views(before).take(before.len() - 1) =~= views(before).drop_last());
            }
        }
        removed
    }

    /// Calls the callable on top. Fails, and changes nothing, when the
    /// innermost frame holds no operand, the operand on top cannot be
    /// called, or fewer arguments lie below it than the function takes.
    pub fn op_call(&mut self) -> (result: OperationResult)
        ensures
            final(self).trace() == old(self).trace(),
            match old(self)@.call() {
                Ok(vm) => result is Ok && final(self)@ == vm,
                Err(cause) => result == Err::<(), RuntimeError>(RuntimeError { cause })
                    && final(self)@ == old(self)@,
            },
    {
        let available = self.available();
        if available < 1 {
            return Err(RuntimeError { cause: RuntimeErrorCause::PoppedFromEmptyStack });
        }
        let len = self.operands.len();
        let arity = match &self.operands[len - 1] {
            RuntimeValue::Callable(callable) => callable.function.arity,
            _ => {
                return Err(RuntimeError { cause: RuntimeErrorCause::ExpectedCallable });
            },
        };
        if available - 1 < arity {
            return Err(RuntimeError { cause: RuntimeErrorCause::PoppedFromEmptyStack });
        }
        let return_ip = match self.ip.checked_add(1) {
            Some(return_ip) => return_ip,
            None => {
                return Err(RuntimeError { cause: RuntimeErrorCause::StackOverflow });
            },
        };
        let ghost before = self.operands@;
        match self.operands.pop() {
            Some(RuntimeValue::Callable(callable)) => {
                proof {
                    lemma_views_take(before, before.len() - 1);
                    assert(self.operands@ =~= before.take(before.len() - 1));
                    assert(views(before).take(before.len() - 1) =~= views(before).drop_last());
                }
                let frame = CallFrame {
                    stack_start: len - 1 - arity,
                    name: callable.function.name,
                    chunk: callable.function.chunk,
                    return_ip,
                    upvalues: callable.upvalues,
                };
                self.add_call_frame(frame);
                self.ip = 0;
                Ok(())
            },
            _ => Err(RuntimeError { cause: RuntimeErrorCause::ExpectedCallable }),
        }
    }

    /// Returns from the innermost frame with the value on top. Fails, and
    /// changes nothing, exactly when the innermost frame holds no operand
    /// or there is no frame.
    pub fn op_return(&mut self) -> (result: OperationResult)
        ensures
            final(self).trace() == old(self).trace(),
            match old(self)@.ret() {
                Ok(vm) => result is Ok && final(self)@ == vm,
                Err(cause) => result == Err::<(), RuntimeError>(RuntimeError { cause })
                    && final(self)@ == old(self)@,
            },
    {
        if self.available() < 1 {
            return Err(RuntimeError { cause: RuntimeErrorCause::PoppedFromEmptyStack });
        }
        if self.call_stack.len() == 0 {
            return Err(RuntimeError { cause: RuntimeErrorCause::StackOverflow });
        }
        let ghost before = self.operands@;
        let ghost floor = self@.floor();
        proof {
            assert(self@.operands.len() == before.len());
            assert(floor < before.len());
        }
        let value = match self.pop_operand() {
            Ok(value) => value,
            Err(error) => {
                return Err(error);
            },
        };
        let frame = match self.remove_call_frame() {
            Some(frame) => frame,
            None => {
                return Err(RuntimeError { cause: RuntimeErrorCause::StackOverflow });
            },
        };
        let ghost popped = self.operands@;
        proof {
            assert(views(popped).len() == popped.len());
            assert(views(popped) == views(before).take(before.len() - 1));
            assert(frame.stack_start == floor);
        }
        self.operands.truncate(frame.stack_start);
        proof {
            lemma_views_take(popped, floor);
            assert(views(before).take(before.len() - 1).take(floor) =~= views(before).take(floor));
        }
        self.push_operand(value);
        self.ip = frame.return_ip;
        Ok(())
    }

    /// Pushes the function at `index` of the table as a callable that
    /// reaches no upvalue yet. Fails, and changes nothing, exactly when the
    /// table has no such function.
    pub fn op_closure(&mut self, index: usize) -> (result: OperationResult)
        ensures
            final(self).trace() == old(self).trace(),
            match old(self)@.closure(index) {
                Ok(vm) => result is Ok && final(self)@ == vm,
                Err(cause) => result == Err::<(), RuntimeError>(RuntimeError { cause })
                    && final(self)@ == old(self)@,
            },
    {
        if index >= self.functions.len() {
            return Err(RuntimeError { cause: RuntimeErrorCause::UndefinedFunction });
        }
        let callable = Callable::new(self.functions[index].clone());
        self.push_operand(RuntimeValue::Callable(callable));
        Ok(())
    }

    /// Gives the callable on top `slot` as one more upvalue. Fails, and
    /// changes nothing, when the innermost frame holds no operand, the
    /// operand on top cannot be called, or the operand stack has no such
    /// slot.
    pub fn capture(&mut self, slot: usize) -> (result: OperationResult)
        ensures
            final(self).trace() == old(self).trace(),
            match old(self)@.captured(slot as int) {
                Ok(vm) => result is Ok && final(self)@ == vm,
                Err(cause) => result == Err::<(), RuntimeError>(RuntimeError { cause })
                    && final(self)@ == old(self)@,
            },
    {
        if self.available() < 1 {
            return Err(RuntimeError { cause: RuntimeErrorCause::PoppedFromEmptyStack });
        }
        let len = self.operands.len();
        match &self.operands[len - 1] {
            RuntimeValue::Callable(_) => {},
            _ => {
                return Err(RuntimeError { cause: RuntimeErrorCause::ExpectedCallable });
            },
        }
        if slot >= len {
            return Err(RuntimeError { cause: RuntimeErrorCause::StackOverflow });
        }
        let ghost before = self.operands@;
        match self.operands.pop() {
            Some(RuntimeValue::Callable(callable)) => {
                proof {
                    lemma_views_take(before, before.len() - 1);
                    assert(self.operands@ =~= before.take(before.len() - 1));
                }
                let mut callable = callable;
                callable.upvalues.push(slot);
                self.push_operand(RuntimeValue::Callable(callable));
                Ok(())
            },
            _ => Err(RuntimeError { cause: RuntimeErrorCause::ExpectedCallable }),
        }
    }

    /// Gives the callable on top the slot `index` of the current frame as
    /// one more upvalue.
    pub fn op_capture_local(&mut self, index: usize) -> (result: OperationResult)
        ensures
            final(self).trace() == old(self).trace(),
            match old(self)@.capture_local(index) {
                Ok(vm) => result is Ok && final(self)@ == vm,
                Err(cause) => result == Err::<(), RuntimeError>(RuntimeError { cause })
                    && final(self)@ == old(self)@,
            },
    {
        let len = self.operands.len();
        proof {
            assert(self@.operands.len() == len);
        }
        match self.floor().checked_add(index) {
            Some(slot) => self.capture(slot),
            None => {
                if self.available() < 1 {
                    return Err(RuntimeError { cause: RuntimeErrorCause::PoppedFromEmptyStack });
                }
                match &self.operands[len - 1] {
                    RuntimeValue::Callable(_) => Err(
                        RuntimeError { cause: RuntimeErrorCause::StackOverflow },
                    ),
                    _ => Err(RuntimeError { cause: RuntimeErrorCause::ExpectedCallable }),
                }
            },
        }
    }

    /// Gives the callable on top the upvalue `index` of the running
    /// function as one more upvalue.
    pub fn op_capture_upvalue(&mut self, index: usize) -> (result: OperationResult)
        ensures
            final(self).trace() == old(self).trace(),
            match old(self)@.capture_upvalue(index) {
                Ok(vm) => result is Ok && final(self)@ == vm,
                Err(cause) => result == Err::<(), RuntimeError>(RuntimeError { cause })
                    && final(self)@ == old(self)@,
            },
    {
        if self.call_stack.len() > 0 {
            let frame = &self.call_stack[self.call_stack.len() - 1];
            if index < frame.upvalues.len() {
                let slot = frame.upvalues[index];
                return self.capture(slot);
            }
        }
        if self.available() < 1 {
            Err(RuntimeError { cause: RuntimeErrorCause::PoppedFromEmptyStack })
        } else {
            Err(RuntimeError { cause: RuntimeErrorCause::StackOverflow })
        }
    }
}

/// Call and return: when the frame that a call has opened is the innermost
/// one again and returns, the call stack is as it was before the call, the
/// caller goes on behind the call, and in place of the arguments and the
/// callable the operand stack holds the one value that was returned. So it
/// holds one value more than before the arguments and the callable were
/// pushed.
pub proof fn lemma_call_return(before: VMView, during: VMView)
    requires
        before.operands.len() <= usize::MAX,
        before.call() is Ok,
        during.call_stack == before.call().unwrap().call_stack,
        during.available() >= 1,
    ensures
        before.top() is Callable,
        during.ret() is Ok,
        during.ret().unwrap().call_stack == before.call_stack,
        during.ret().unwrap().ip == before.ip + 1,
        during.ret().unwrap().operands.len() == before.operands.len() - 1
            - before.top()->Callable_0.function.arity + 1,
        during.ret().unwrap().operands.last() == during.top(),
        during.ret().unwrap().operands.take(during.floor()) == during.operands.take(
            during.floor(),
        ),
{
    let entered = before.call().unwrap();
    assert(entered.call_stack.drop_last() =~= before.call_stack);
    assert(during.floor() == before.operands.len() - 1 - before.top()->Callable_0.function.arity);
    let after = during.ret().unwrap();
    assert(after.operands.take(during.floor()) =~= during.operands.take(during.floor()));
}

} // verus!
