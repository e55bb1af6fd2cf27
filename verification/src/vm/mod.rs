//! The stack machine: one shared operand stack, a stack of call frames and
//! an instruction pointer into the chunk of the innermost frame.
use vstd::prelude::*;
use crate::bytecode::callables::{Function, FunctionView};

use crate::bytecode::{MemoryAddressView, Opcode, Program};
use crate::common::{lemma_views_push, views, ProgramText};
use crate::vm::call::{CallFrame, FrameView};
use crate::vm::runtime_error::{RuntimeError, RuntimeErrorCause};
use crate::vm::runtime_value::{value_of, Callable, CallableView, RuntimeValue, ValueView};

pub mod runtime_error;
pub mod runtime_value;
pub mod call;
pub mod stack;
pub mod basic_expr;
pub mod memory;
pub mod laws;

verus! {

/// What the machine runs.
pub type ProgramBytecode = Program;

/// The outcome of a run.
pub type ProgramOutput = Result<RuntimeValue, RuntimeError>;

/// The outcome of a part of a step.
pub type MachineResult<T> = Result<T, RuntimeError>;

/// The outcome of a part of a step that yields nothing.
pub type OperationResult = MachineResult<()>;

/// The most steps that one run may take, unless the machine is told
/// another limit.
pub const STEP_LIMIT: u64 = 0xffff_ffff_ffff_ffff;

/// What a step tells the loop that drives the machine.
#[derive(Debug, Clone, Copy, PartialEq, Eq, Structural)]
pub enum TickOutcome {
    FinishProgram,
    BreakFromLoop,
    ContinueExecution,
}

/// An entry of the table of globals.
#[derive(Debug, PartialEq)]
pub struct Global {
    pub name: ProgramText,
    pub callable: Callable,
}

/// Mathematical value of a [`Global`].
pub struct GlobalView {
    pub name: Seq<char>,
    pub callable: CallableView,
}

impl View for Global {
    type V = GlobalView;

    open spec fn view(&self) -> GlobalView {
        GlobalView { name: self.name@, callable: self.callable@ }
    }
}

/// One line of the trace: an instruction that was fetched, and where.
#[derive(Debug, Clone, Copy, PartialEq, Eq, Structural)]
pub struct TraceEvent {
    pub ip: usize,
    pub opcode: Opcode,
}

/// The machine.
#[derive(Debug)]
pub struct VM {
    pub operands: Vec<RuntimeValue>,
    pub call_stack: Vec<CallFrame>,
    pub ip: usize,
    /// The callables that programs reach by name.
    pub globals: Vec<Global>,
    /// The functions that `Closure` instructions make callables of.
    pub functions: Vec<Function>,
    /// The most steps that one run may take.
    pub step_limit: u64,
    /// The trace, if one is kept. It is written and never read.
    pub debug: Option<Vec<TraceEvent>>,
}

/// Mathematical value of a [`VM`]: all of it but the trace.
pub struct VMView {
    pub operands: Seq<ValueView>,
    pub call_stack: Seq<FrameView>,
    pub ip: usize,
    pub globals: Seq<GlobalView>,
    pub functions: Seq<FunctionView>,
    pub step_limit: u64,
}

/// The first global called `name`.
pub open spec fn find_global(globals: Seq<GlobalView>, name: Seq<char>) -> Option<CallableView>
    decreases globals.len(),
{
    if globals.len() == 0 {
        None
    } else {
        match find_global(globals.drop_last(), name) {
            Some(callable) => Some(callable),
            None => if globals.last().name == name {
                Some(globals.last().callable)
            } else {
                None
            },
        }
    }
}

/// The quotient of two integers, rounded towards zero.
pub open spec fn truncated_quotient(a: int, b: int) -> int
    recommends
        b != 0,
{
    if a >= 0 && b > 0 {
        a / b
    } else if a < 0 && b < 0 {
        (-a) / (-b)
    } else if a < 0 {
        -((-a) / b)
    } else {
        -(a / (-b))
    }
}

/// The remainder that goes with `truncated_quotient`: it has the sign of
/// the dividend.
pub open spec fn truncated_remainder(a: int, b: int) -> int
    recommends
        b != 0,
{
    if a >= 0 && b > 0 {
        a % b
    } else if a < 0 && b < 0 {
        -((-a) % (-b))
    } else if a < 0 {
        -((-a) % b)
    } else {
        a % (-b)
    }
}

/// `base` multiplied with itself `exponent` times.
pub open spec fn power(base: int, exponent: nat) -> int
    decreases exponent,
{
    if exponent == 0 {
        1
    } else {
        base * power(base, (exponent - 1) as nat)
    }
}

/// The exact result of an operation on two numbers, where it has one.
pub open spec fn exact(op: Opcode, a: int, b: int) -> Option<int> {
    match op {
        Opcode::Add => Some(a + b),
        Opcode::Sub => Some(a - b),
        Opcode::Mul => Some(a * b),
        Opcode::Div => if b == 0 {
            None
        } else {
            Some(truncated_quotient(a, b))
        },
        Opcode::Mod => if b == 0 {
            None
        } else {
            Some(truncated_remainder(a, b))
        },
        Opcode::Pow => if b < 0 {
            None
        } else {
            Some(power(a, b as nat))
        },
        _ => None,
    }
}

/// The number that an operation on two numbers gives: the exact result, if
/// there is one and it is a number of the language.
pub open spec fn arithmetic(op: Opcode, a: int, b: int) -> Result<i64, RuntimeErrorCause> {
    match exact(op, a, b) {
        None => Err(RuntimeErrorCause::UndefinedResult),
        Some(result) => if i64::MIN <= result <= i64::MAX {
            Ok(result as i64)
        } else {
            Err(RuntimeErrorCause::NumberOverflow)
        },
    }
}

/// What an instruction with two operands makes of them, `a` being the one
/// that was pushed first.
pub open spec fn binary_value(op: Opcode, a: ValueView, b: ValueView) -> Result<
    ValueView,
    RuntimeErrorCause,
> {
    match op {
        Opcode::Add | Opcode::Sub | Opcode::Mul | Opcode::Div | Opcode::Mod | Opcode::Pow => match (
            a,
            b,
        ) {
            (ValueView::Number(x), ValueView::Number(y)) => match arithmetic(
                op,
                x as int,
                y as int,
            ) {
                Ok(n) => Ok(ValueView::Number(n)),
                Err(cause) => Err(cause),
            },
            _ => Err(RuntimeErrorCause::ExpectedNumber),
        },
        Opcode::Lt | Opcode::Le | Opcode::Gt | Opcode::Ge => match (a, b) {
            (ValueView::Number(x), ValueView::Number(y)) => Ok(
                ValueView::Bool(
                    match op {
                        Opcode::Lt => x < y,
                        Opcode::Le => x <= y,
                        Opcode::Gt => x > y,
                        _ => x >= y,
                    },
                ),
            ),
            _ => Err(RuntimeErrorCause::ExpectedNumber),
        },
        Opcode::Eq => Ok(ValueView::Bool(a == b)),
        Opcode::Ne => Ok(ValueView::Bool(a != b)),
        Opcode::Or | Opcode::And => match (a, b) {
            (ValueView::Bool(x), ValueView::Bool(y)) => Ok(
                ValueView::Bool(
                    if op == Opcode::Or {
                        x || y
                    } else {
                        x && y
                    },
                ),
            ),
            _ => Err(RuntimeErrorCause::ExpectedBool),
        },
        _ => Err(RuntimeErrorCause::ExpectedNumber),
    }
}

/// What an instruction with one operand makes of it.
pub open spec fn unary_value(op: Opcode, a: ValueView) -> Result<ValueView, RuntimeErrorCause> {
    match op {
        Opcode::Not => match a {
            ValueView::Bool(x) => Ok(ValueView::Bool(!x)),
            _ => Err(RuntimeErrorCause::ExpectedBool),
        },
        _ => match a {
            ValueView::Number(x) => if x == i64::MIN {
                Err(RuntimeErrorCause::NumberOverflow)
            } else {
                Ok(ValueView::Number((-x) as i64))
            },
            _ => Err(RuntimeErrorCause::ExpectedNumber),
        },
    }
}

impl VMView {
    /// The first slot of the innermost frame. The slots below it belong to
    /// the callers, and no instruction pops them.
    pub open spec fn floor(self) -> int {
        if self.call_stack.len() == 0 {
            0
        } else {
            self.call_stack.last().stack_start as int
        }
    }

    /// Number of operands that the innermost frame holds.
    pub open spec fn available(self) -> int {
        if self.operands.len() > self.floor() {
            self.operands.len() - self.floor()
        } else {
            0
        }
    }

    /// The operand pushed last.
    pub open spec fn top(self) -> ValueView {
        self.operands.last()
    }

    /// The operand below the top.
    pub open spec fn second(self) -> ValueView {
        self.operands[self.operands.len() - 2]
    }

    /// Without the `n` operands pushed last.
    pub open spec fn dropped(self, n: int) -> VMView {
        VMView { operands: self.operands.take(self.operands.len() - n), ..self }
    }

    /// With one more operand.
    pub open spec fn pushed(self, value: ValueView) -> VMView {
        VMView { operands: self.operands.push(value), ..self }
    }

    /// With the instruction pointer moved by `distance`; an error if that
    /// leaves the range of positions.
    pub open spec fn moved(self, distance: int) -> Result<VMView, RuntimeErrorCause> {
        if 0 <= self.ip + distance <= usize::MAX {
            Ok(VMView { ip: (self.ip + distance) as usize, ..self })
        } else {
            Err(RuntimeErrorCause::StackOverflow)
        }
    }

    /// The slots that the running function reaches through upvalues.
    pub open spec fn environment(self) -> Seq<usize> {
        if self.call_stack.len() == 0 {
            Seq::empty()
        } else {
            self.call_stack.last().upvalues
        }
    }

    /// The slot that an address names, counted from the bottom of the
    /// operand stack; none for a global.
    pub open spec fn slot(self, address: MemoryAddressView) -> Result<int, RuntimeErrorCause> {
        match address {
            MemoryAddressView::Local(index) => Ok(self.floor() + index),
            MemoryAddressView::Upvalue { index, is_ref } => if !is_ref {
                Ok(self.floor() + index)
            } else if index < self.environment().len() {
                Ok(self.environment()[index as int] as int)
            } else {
                Err(RuntimeErrorCause::StackOverflow)
            },
            MemoryAddressView::Global(_) => Err(RuntimeErrorCause::NotAssignable),
        }
    }

    /// One operand made into another.
    pub open spec fn unary(self, op: Opcode) -> Result<VMView, RuntimeErrorCause> {
        if self.available() < 1 {
            Err(RuntimeErrorCause::PoppedFromEmptyStack)
        } else {
            match unary_value(op, self.top()) {
                Ok(value) => Ok(self.dropped(1).pushed(value)),
                Err(cause) => Err(cause),
            }
        }
    }

    /// Two operands made into one.
    pub open spec fn binary(self, op: Opcode) -> Result<VMView, RuntimeErrorCause> {
        if self.available() < 2 {
            Err(RuntimeErrorCause::PoppedFromEmptyStack)
        } else {
            match binary_value(op, self.second(), self.top()) {
                Ok(value) => Ok(self.dropped(2).pushed(value)),
                Err(cause) => Err(cause),
            }
        }
    }

    /// `Constant`: the pool entry is pushed.
    pub open spec fn constant(self, index: usize) -> Result<VMView, RuntimeErrorCause> {
        if self.call_stack.len() > 0 && index < self.call_stack.last().chunk.constants.len() {
            Ok(self.pushed(value_of(self.call_stack.last().chunk.constants[index as int])))
        } else {
            Err(RuntimeErrorCause::UndefinedConstant)
        }
    }

    /// `Closure`: the function of the table is pushed as a callable that
    /// reaches no upvalue yet.
    pub open spec fn closure(self, index: usize) -> Result<VMView, RuntimeErrorCause> {
        if index < self.functions.len() {
            Ok(
                self.pushed(
                    ValueView::Callable(
                        CallableView {
                            function: self.functions[index as int],
                            upvalues: Seq::empty(),
                        },
                    ),
                ),
            )
        } else {
            Err(RuntimeErrorCause::UndefinedFunction)
        }
    }

    /// The callable on top gets `slot` as one more upvalue.
    pub open spec fn captured(self, slot: int) -> Result<VMView, RuntimeErrorCause> {
        if self.available() < 1 {
            Err(RuntimeErrorCause::PoppedFromEmptyStack)
        } else {
            match self.top() {
                ValueView::Callable(callable) => if 0 <= slot < self.operands.len() {
                    Ok(
                        self.dropped(1).pushed(
                            ValueView::Callable(
                                CallableView {
                                    upvalues: callable.upvalues.push(slot as usize),
                                    ..callable
                                },
                            ),
                        ),
                    )
                } else {
                    Err(RuntimeErrorCause::StackOverflow)
                },
                _ => Err(RuntimeErrorCause::ExpectedCallable),
            }
        }
    }

    /// `CaptureLocal`: the callable on top gets a slot of the current
    /// frame as one more upvalue.
    pub open spec fn capture_local(self, index: usize) -> Result<VMView, RuntimeErrorCause> {
        self.captured(self.floor() + index)
    }

    /// `CaptureUpvalue`: the callable on top gets an upvalue of the running
    /// function as one more upvalue.
    pub open spec fn capture_upvalue(self, index: usize) -> Result<VMView, RuntimeErrorCause> {
        if index < self.environment().len() {
            self.captured(self.environment()[index as int] as int)
        } else if self.available() < 1 {
            Err(RuntimeErrorCause::PoppedFromEmptyStack)
        } else {
            Err(RuntimeErrorCause::StackOverflow)
        }
    }

    /// `Pop`: the `amount` operands pushed last are dropped.
    pub open spec fn pop(self, amount: usize) -> Result<VMView, RuntimeErrorCause> {
        if self.available() < amount {
            Err(RuntimeErrorCause::PoppedFromEmptyStack)
        } else {
            Ok(self.dropped(amount as int))
        }
    }

    /// `Block`: the `amount` operands below the top are dropped, the top
    /// stays.
    pub open spec fn block(self, amount: usize) -> Result<VMView, RuntimeErrorCause> {
        if self.available() < amount + 1 {
            Err(RuntimeErrorCause::PoppedFromEmptyStack)
        } else {
            Ok(self.dropped(amount + 1).pushed(self.top()))
        }
    }

    /// `Get`: the address on top is replaced by what it names.
    pub open spec fn get(self) -> Result<VMView, RuntimeErrorCause> {
        if self.available() < 1 {
            Err(RuntimeErrorCause::PoppedFromEmptyStack)
        } else {
            match self.top() {
                ValueView::MemoryAddress(MemoryAddressView::Global(name)) => match find_global(
                    self.globals,
                    name,
                ) {
                    Some(callable) => Ok(self.dropped(1).pushed(ValueView::Callable(callable))),
                    None => Err(RuntimeErrorCause::NotDefined),
                },
                ValueView::MemoryAddress(address) => match self.slot(address) {
                    Ok(slot) => if slot < self.operands.len() - 1 {
                        Ok(self.dropped(1).pushed(self.operands[slot]))
                    } else {
                        Err(RuntimeErrorCause::StackOverflow)
                    },
                    Err(cause) => Err(cause),
                },
                _ => Err(RuntimeErrorCause::ExpectedAddress),
            }
        }
    }

    /// `Asg`: the value on top is written to the slot that the address
    /// below it names; both leave the stack.
    pub open spec fn asg(self) -> Result<VMView, RuntimeErrorCause> {
        if self.available() < 2 {
            Err(RuntimeErrorCause::PoppedFromEmptyStack)
        } else {
            match self.second() {
                ValueView::MemoryAddress(address) => match self.slot(address) {
                    Ok(slot) => if slot < self.operands.len() - 2 {
                        Ok(
                            VMView {
                                operands: self.operands.take(self.operands.len() - 2).update(
                                    slot,
                                    self.top(),
                                ),
                                ..self
                            },
                        )
                    } else {
                        Err(RuntimeErrorCause::StackOverflow)
                    },
                    Err(cause) => Err(cause),
                },
                _ => Err(RuntimeErrorCause::ExpectedAddress),
            }
        }
    }

    /// `Jif`: the boolean on top is dropped; if it is false the pointer
    /// moves by `distance`, else by one.
    pub open spec fn jif(self, distance: isize) -> Result<VMView, RuntimeErrorCause> {
        if self.available() < 1 {
            Err(RuntimeErrorCause::PoppedFromEmptyStack)
        } else {
            match self.top() {
                ValueView::Bool(condition) => self.dropped(1).moved(
                    if condition {
                        1
                    } else {
                        distance as int
                    },
                ),
                _ => Err(RuntimeErrorCause::ExpectedBool),
            }
        }
    }

    /// `Break`: the pointer moves by `distance`, then by one.
    pub open spec fn leave_loop(self, distance: isize) -> Result<VMView, RuntimeErrorCause> {
        match self.moved(distance as int) {
            Ok(vm) => vm.moved(1),
            Err(cause) => Err(cause),
        }
    }

    /// `Call`: the callable on top is dropped and a frame is opened for
    /// it. The frame starts at the first of the arguments, which lie just
    /// below the callable, as many as the function takes. The caller will
    /// go on at the next instruction; the callee starts at its first.
    pub open spec fn call(self) -> Result<VMView, RuntimeErrorCause> {
        if self.available() < 1 {
            Err(RuntimeErrorCause::PoppedFromEmptyStack)
        } else {
            match self.top() {
                ValueView::Callable(callable) => if self.available() - 1
                    < callable.function.arity {
                    Err(RuntimeErrorCause::PoppedFromEmptyStack)
                } else if self.ip + 1 > usize::MAX {
                    Err(RuntimeErrorCause::StackOverflow)
                } else {
                    Ok(
                        VMView {
                            operands: self.operands.drop_last(),
                            call_stack: self.call_stack.push(
                                FrameView {
                                    stack_start: (self.operands.len() - 1
                                        - callable.function.arity) as usize,
                                    name: callable.function.name,
                                    chunk: callable.function.chunk,
                                    return_ip: (self.ip + 1) as usize,
                                    upvalues: callable.upvalues,
                                },
                            ),
                            ip: 0,
                            ..self
                        },
                    )
                },
                _ => Err(RuntimeErrorCause::ExpectedCallable),
            }
        }
    }

    /// `Return`: the innermost frame is closed. Its slots leave the
    /// operand stack and the value that was on top takes their place; the
    /// pointer goes where the caller was to go on.
    pub open spec fn ret(self) -> Result<VMView, RuntimeErrorCause> {
        if self.available() < 1 {
            Err(RuntimeErrorCause::PoppedFromEmptyStack)
        } else if self.call_stack.len() == 0 {
            Err(RuntimeErrorCause::StackOverflow)
        } else {
            Ok(
                VMView {
                    operands: self.operands.take(self.floor()).push(self.top()),
                    call_stack: self.call_stack.drop_last(),
                    ip: self.call_stack.last().return_ip,
                    ..self
                },
            )
        }
    }

    /// There is an instruction at the pointer.
    pub open spec fn has_next(self) -> bool {
        self.call_stack.len() > 0 && self.ip < self.call_stack.last().chunk.opcodes.len()
    }

    /// The instruction at the pointer.
    pub open spec fn next(self) -> Opcode
        recommends
            self.has_next(),
    {
        self.call_stack.last().chunk.opcodes[self.ip as int]
    }

    /// What an instruction does to the stacks, the pointer left alone.
    /// Jumps, calls and returns are not among these.
    pub open spec fn execute(self, op: Opcode) -> Result<VMView, RuntimeErrorCause> {
        match op {
            Opcode::Constant(index) => self.constant(index),
            Opcode::Null => Ok(self.pushed(ValueView::Null)),
            Opcode::Not | Opcode::Neg => self.unary(op),
            Opcode::Pop(amount) => self.pop(amount),
            Opcode::Block(amount) => self.block(amount),
            Opcode::Get => self.get(),
            Opcode::Asg => self.asg(),
            Opcode::Closure(index) => self.closure(index),
            Opcode::CaptureLocal(index) => self.capture_local(index),
            Opcode::CaptureUpvalue(index) => self.capture_upvalue(index),
            _ => self.binary(op),
        }
    }

    /// One instruction: what it does to the machine.
    pub open spec fn dispatch(self, op: Opcode) -> Result<VMView, RuntimeErrorCause> {
        match op {
            Opcode::Jif(distance) => self.jif(distance),
            Opcode::Jp(distance) => self.moved(distance as int),
            Opcode::Break(distance) => self.leave_loop(distance),
            Opcode::Call => self.call(),
            Opcode::Return => self.ret(),
            _ => match self.execute(op) {
                Ok(vm) => vm.moved(1),
                Err(cause) => Err(cause),
            },
        }
    }

    /// One step: the run is over if there is no instruction at the
    /// pointer; else the instruction there is carried out.
    pub open spec fn step(self) -> Result<(VMView, TickOutcome), RuntimeErrorCause> {
        if !self.has_next() {
            Ok((self, TickOutcome::FinishProgram))
        } else {
            match self.dispatch(self.next()) {
                Ok(vm) => Ok((vm, TickOutcome::ContinueExecution)),
                Err(cause) => Err(cause),
            }
        }
    }

    /// Steps until the run is over, `limit` steps at most.
    pub open spec fn steps(self, limit: nat) -> Result<VMView, RuntimeErrorCause>
        decreases limit,
    {
        if limit == 0 {
            Err(RuntimeErrorCause::StepLimitExceeded)
        } else {
            match self.step() {
                Err(cause) => Err(cause),
                Ok((vm, TickOutcome::FinishProgram)) => Ok(vm),
                Ok((vm, _)) => vm.steps((limit - 1) as nat),
            }
        }
    }

    /// The machine after `count` steps, each of which carries out an
    /// instruction; the error of the first step that fails; nothing if the
    /// run is over before.
    pub open spec fn advanced(self, count: nat) -> Option<Result<VMView, RuntimeErrorCause>>
        decreases count,
    {
        if count == 0 {
            Some(Ok(self))
        } else {
            match self.step() {
                Err(cause) => Some(Err(cause)),
                Ok((_, TickOutcome::FinishProgram)) => None,
                Ok((vm, _)) => vm.advanced((count - 1) as nat),
            }
        }
    }

    /// The machine where the steps end: at the end of the run, before the
    /// step that fails, or after `limit` steps.
    pub open spec fn stopped(self, limit: nat) -> VMView
        decreases limit,
    {
        if limit == 0 {
            self
        } else {
            match self.step() {
                Err(_) => self,
                Ok((vm, TickOutcome::FinishProgram)) => vm,
                Ok((vm, _)) => vm.stopped((limit - 1) as nat),
            }
        }
    }

    /// The instructions that the steps fetch, each with its place, `limit`
    /// steps at most.
    pub open spec fn fetched(self, limit: nat) -> Seq<TraceEvent>
        decreases limit,
    {
        if limit == 0 || !self.has_next() {
            Seq::empty()
        } else {
            let event = TraceEvent { ip: self.ip, opcode: self.next() };
            match self.step() {
                Ok((vm, TickOutcome::ContinueExecution)) => seq![event] + vm.fetched(
                    (limit - 1) as nat,
                ),
                _ => seq![event],
            }
        }
    }

    /// With a frame for `function` that starts at the bottom of the
    /// operand stack.
    pub open spec fn entered(self, function: FunctionView) -> VMView {
        VMView {
            call_stack: self.call_stack.push(
                FrameView {
                    stack_start: 0,
                    name: function.name,
                    chunk: function.chunk,
                    return_ip: 0,
                    upvalues: Seq::empty(),
                },
            ),
            ..self
        }
    }

    /// A whole run of `function`: the machine at its end and the value
    /// that the run yields, which is the operand on top.
    pub open spec fn run(self, function: FunctionView) -> Result<
        (VMView, ValueView),
        RuntimeErrorCause,
    > {
        match self.entered(function).steps(self.step_limit as nat) {
            Err(cause) => Err(cause),
            Ok(vm) => if vm.available() < 1 {
                Err(RuntimeErrorCause::PoppedFromEmptyStack)
            } else {
                Ok((vm.dropped(1), vm.top()))
            },
        }
    }
}

/// How many operands an instruction takes from the stack; a call and a
/// return, whose effect depends on the function, are counted with what
/// they take at least.
pub open spec fn pops(op: Opcode) -> nat {
    match op {
        Opcode::Constant(_) | Opcode::Null | Opcode::Jp(_) | Opcode::Break(_)
        | Opcode::Closure(_) => 0,
        Opcode::Not | Opcode::Neg | Opcode::Jif(_) | Opcode::Get | Opcode::Call | Opcode::Return
        | Opcode::CaptureLocal(_) | Opcode::CaptureUpvalue(_) => 1,
        Opcode::Pop(amount) => amount as nat,
        Opcode::Block(amount) => (amount + 1) as nat,
        _ => 2,
    }
}

/// How many operands an instruction puts on the stack.
pub open spec fn pushes(op: Opcode) -> nat {
    match op {
        Opcode::Jif(_) | Opcode::Jp(_) | Opcode::Break(_) | Opcode::Pop(_) | Opcode::Asg
        | Opcode::Call => 0,
        _ => 1,
    }
}

/// Stack effect: an instruction that is carried out takes and puts as many
/// operands as its kind says, but for a return, which also drops the slots
/// of the frame that it closes.
pub proof fn lemma_stack_effect(vm: VMView, op: Opcode)
    requires
        vm.dispatch(op) is Ok,
        op != Opcode::Return,
    ensures
        vm.available() >= pops(op),
        vm.dispatch(op).unwrap().operands.len() == vm.operands.len() - pops(op) + pushes(op),
        vm.dispatch(op).unwrap().operands.take(vm.operands.len() - pops(op)) == vm.operands.take(
            vm.operands.len() - pops(op),
        ) || op == Opcode::Asg,
{
    let after = vm.dispatch(op).unwrap();
    let kept = vm.operands.len() - pops(op);
    if op != Opcode::Asg {
        assert(after.operands.take(kept) =~= vm.operands.take(kept));
    }
}

/// Steps add up: `first` steps and then `second` steps are as many steps
/// at once.
pub proof fn lemma_advanced_add(vm: VMView, first: nat, second: nat)
    ensures
        vm.advanced(first + second) == match vm.advanced(first) {
            Some(Ok(between)) => between.advanced(second),
            other => other,
        },
    decreases first,
{
    if first > 0 {
        match vm.step() {
            Ok((next, TickOutcome::ContinueExecution)) => {
                lemma_advanced_add(next, (first - 1) as nat, second);
                assert(vm.advanced(first + second) == next.advanced((first + second - 1) as nat));
            },
            Ok((next, TickOutcome::BreakFromLoop)) => {
                lemma_advanced_add(next, (first - 1) as nat, second);
                assert(vm.advanced(first + second) == next.advanced((first + second - 1) as nat));
            },
            _ => {},
        }
    }
}

/// A run goes through what its first steps reach: after `count` steps that
/// carry out instructions the run goes on from the machine that they
/// reach, and an error among them is the error of the run.
pub proof fn lemma_steps_after(vm: VMView, count: nat, limit: nat)
    requires
        count <= limit,
    ensures
        match vm.advanced(count) {
            Some(Ok(reached)) => vm.steps(limit) == reached.steps((limit - count) as nat),
            Some(Err(cause)) => vm.steps(limit) == Err::<VMView, RuntimeErrorCause>(cause),
            None => true,
        },
    decreases count,
{
    if count > 0 {
        match vm.step() {
            Ok((next, TickOutcome::ContinueExecution)) => {
                lemma_steps_after(next, (count - 1) as nat, (limit - 1) as nat);
            },
            Ok((next, TickOutcome::BreakFromLoop)) => {
                lemma_steps_after(next, (count - 1) as nat, (limit - 1) as nat);
            },
            _ => {},
        }
    }
}

/// In a chunk that is well formed every `Constant` instruction finds its
/// constant.
pub proof fn lemma_constant_is_there(vm: VMView)
    requires
        vm.has_next(),
        vm.call_stack.last().chunk.well_formed(),
        vm.next() is Constant,
    ensures
        vm.execute(vm.next()) is Ok,
{
}

impl View for VM {
    type V = VMView;

    open spec fn view(&self) -> VMView {
        VMView {
            operands: views(self.operands@),
            call_stack: views(self.call_stack@),
            ip: self.ip,
            globals: views(self.globals@),
            functions: views(self.functions@),
            step_limit: self.step_limit,
        }
    }
}

/// A machine with nothing on its stacks, no globals and no functions, that
/// may take `STEP_LIMIT` steps.
pub open spec fn fresh_machine() -> VMView {
    VMView {
        operands: Seq::empty(),
        call_stack: Seq::empty(),
        ip: 0,
        globals: Seq::empty(),
        functions: Seq::empty(),
        step_limit: STEP_LIMIT,
    }
}

impl VM {
    /// The trace kept so far, if one is kept.
    pub open spec fn trace(&self) -> Option<Seq<TraceEvent>> {
        match self.debug {
            Some(events) => Some(events@),
            None => None,
        }
    }

    /// A machine with nothing on its stacks, no globals and no trace.
    pub fn new() -> (vm: Self)
        ensures
            vm@ == fresh_machine(),
            vm.trace() is None,
    {
        let vm = VM {
            operands: Vec::new(),
            call_stack: Vec::new(),
            ip: 0,
            globals: Vec::new(),
            functions: Vec::new(),
            step_limit: STEP_LIMIT,
            debug: None,
        };
        proof {
            assert(vm@.operands =~= Seq::empty());
            assert(vm@.call_stack =~= Seq::empty());
            assert(vm@.globals =~= Seq::empty());
            assert(vm@.functions =~= Seq::empty());
        }
        vm
    }

    /// The same machine, keeping a trace from now on.
    pub fn with_debug(self) -> (vm: Self)
        ensures
            vm@ == self@,
            vm.trace() == Some(Seq::<TraceEvent>::empty()),
    {
        let mut vm = self;
        vm.debug = Some(Vec::new());
        vm
    }

    /// The same machine with one more global.
    pub fn with_global(self, name: ProgramText, callable: Callable) -> (vm: Self)
        ensures
            vm@ == (VMView {
                globals: self@.globals.push(GlobalView { name: name@, callable: callable@ }),
                ..self@
            }),
            vm.trace() == self.trace(),
    {
        let mut vm = self;
        let global = Global { name, callable };
        proof {
            lemma_views_push(vm.globals@, global);
        }
        vm.globals.push(global);
        vm
    }

    /// The same machine with `functions` as the table that `Closure`
    /// instructions read.
    pub fn with_functions(self, functions: Vec<Function>) -> (vm: Self)
        ensures
            vm@ == (VMView { functions: views(functions@), ..self@ }),
            vm.trace() == self.trace(),
    {
        let mut vm = self;
        vm.functions = functions;
        vm
    }

    /// The same machine with another limit on the steps of a run.
    pub fn with_step_limit(self, step_limit: u64) -> (vm: Self)
        ensures
            vm@ == (VMView { step_limit, ..self@ }),
            vm.trace() == self.trace(),
    {
        let mut vm = self;
        vm.step_limit = step_limit;
        vm
    }

    /// Writes a line to the trace, if one is kept.
    pub fn debug(&mut self, event: TraceEvent)
        ensures
            final(self)@ == old(self)@,
            final(self).trace() == match old(self).trace() {
                Some(events) => Some(events.push(event)),
                None => None,
            },
    {
        match &mut self.debug {
            Some(events) => {
                events.push(event);
            },
            None => {},
        }
    }

    /// The innermost frame.
    pub fn current_frame(&self) -> (frame: &CallFrame)
        requires
            self@.call_stack.len() > 0,
        ensures
            frame@ == self@.call_stack.last(),
    {
        &self.call_stack[self.call_stack.len() - 1]
    }

    /// Moves the instruction pointer by `distance`. Fails, and changes
    /// nothing, exactly when that leaves the range of positions.
    pub fn move_pointer(&mut self, distance: isize) -> (result: OperationResult)
        ensures
            final(self).trace() == old(self).trace(),
            match old(self)@.moved(distance as int) {
                Ok(vm) => result is Ok && final(self)@ == vm,
                Err(cause) => result == Err::<(), RuntimeError>(RuntimeError { cause })
                    && final(self)@ == old(self)@,
            },
    {
        if distance >= 0 {
            match self.ip.checked_add(distance as usize) {
                Some(new_ip) => {
                    self.ip = new_ip;
                    Ok(())
                },
                None => Err(RuntimeError { cause: RuntimeErrorCause::StackOverflow }),
            }
        } else {
            let back: usize = if distance == isize::MIN {
                (isize::MAX as usize) + 1
            } else {
                (-distance) as usize
            };
            match self.ip.checked_sub(back) {
                Some(new_ip) => {
                    self.ip = new_ip;
                    Ok(())
                },
                None => Err(RuntimeError { cause: RuntimeErrorCause::StackOverflow }),
            }
        }
    }

    /// Where the instruction pointer gets to when it moves by `distance`.
    pub fn target(&self, distance: isize) -> (result: MachineResult<usize>)
        ensures
            match self@.moved(distance as int) {
                Ok(vm) => result == Ok::<usize, RuntimeError>(vm.ip),
                Err(cause) => result == Err::<usize, RuntimeError>(RuntimeError { cause }),
            },
    {
        let moved = if distance >= 0 {
            self.ip.checked_add(distance as usize)
        } else if distance == isize::MIN {
            self.ip.checked_sub((isize::MAX as usize) + 1)
        } else {
            self.ip.checked_sub((-distance) as usize)
        };
        match moved {
            Some(ip) => Ok(ip),
            None => Err(RuntimeError { cause: RuntimeErrorCause::StackOverflow }),
        }
    }

    /// Pushes the pool entry at `index` of the running chunk. Fails, and
    /// changes nothing, exactly when the pool has no such entry.
    pub fn op_constant(&mut self, index: usize) -> (result: OperationResult)
        ensures
            final(self).trace() == old(self).trace(),
            match old(self)@.constant(index) {
                Ok(vm) => result is Ok && final(self)@ == vm,
                Err(cause) => result == Err::<(), RuntimeError>(RuntimeError { cause })
                    && final(self)@ == old(self)@,
            },
    {
        if self.call_stack.len() == 0 {
            return Err(RuntimeError { cause: RuntimeErrorCause::UndefinedConstant });
        }
        let value = match self.current_frame().chunk.read_constant(index) {
            Some(constant) => RuntimeValue::from_constant(constant),
            None => {
                return Err(RuntimeError { cause: RuntimeErrorCause::UndefinedConstant });
            },
        };
        self.push_operand(value);
        Ok(())
    }

    /// Drops the boolean on top and moves the pointer: by `distance` if the
    /// boolean is false, else by one. Fails, and changes nothing, when the
    /// innermost frame holds no operand, the operand on top is no boolean,
    /// or the pointer would leave the range of positions.
    pub fn op_jif(&mut self, distance: isize) -> (result: OperationResult)
        ensures
            final(self).trace() == old(self).trace(),
            match old(self)@.jif(distance) {
                Ok(vm) => result is Ok && final(self)@ == vm,
                Err(cause) => result == Err::<(), RuntimeError>(RuntimeError { cause })
                    && final(self)@ == old(self)@,
            },
    {
        if self.available() < 1 {
            return Err(RuntimeError { cause: RuntimeErrorCause::PoppedFromEmptyStack });
        }
        let len = self.operands.len();
        let condition = match self.operands[len - 1].to_bool(self) {
            Ok(condition) => condition,
            Err(error) => {
                return Err(error);
            },
        };
        let target = match self.target(
            if condition {
                1
            } else {
                distance
            },
        ) {
            Ok(target) => target,
            Err(error) => {
                return Err(error);
            },
        };
        self.drop_operands(1);
        self.ip = target;
        Ok(())
    }

    /// Moves the pointer by `distance` and then by one. Fails, and changes
    /// nothing, exactly when one of the moves leaves the range of
    /// positions.
    pub fn op_break(&mut self, distance: isize) -> (result: OperationResult)
        ensures
            final(self).trace() == old(self).trace(),
            match old(self)@.leave_loop(distance) {
                Ok(vm) => result is Ok && final(self)@ == vm,
                Err(cause) => result == Err::<(), RuntimeError>(RuntimeError { cause })
                    && final(self)@ == old(self)@,
            },
    {
        let landed = match self.target(distance) {
            Ok(landed) => landed,
            Err(error) => {
                return Err(error);
            },
        };
        match landed.checked_add(1) {
            Some(target) => {
                self.ip = target;
                Ok(())
            },
            None => Err(RuntimeError { cause: RuntimeErrorCause::StackOverflow }),
        }
    }

    /// One step. If there is no instruction at the pointer the run is
    /// over. Else the instruction there is carried out; if it cannot be,
    /// the step fails and changes nothing but the trace. The trace, if one
    /// is kept, gets a line for the instruction.
    pub fn tick(&mut self) -> (result: MachineResult<TickOutcome>)
        ensures
            match old(self)@.step() {
                Ok((vm, outcome)) => result == Ok::<TickOutcome, RuntimeError>(outcome)
                    && final(self)@ == vm,
                Err(cause) => result == Err::<TickOutcome, RuntimeError>(RuntimeError { cause })
                    && final(self)@ == old(self)@,
            },
            final(self).trace() == match old(self).trace() {
                Some(events) => Some(
                    if old(self)@.has_next() {
                        events.push(TraceEvent { ip: old(self)@.ip, opcode: old(self)@.next() })
                    } else {
                        events
                    },
                ),
                None => None,
            },
    {
        if self.call_stack.len() == 0 {
            return Ok(TickOutcome::FinishProgram);
        }
        let has_next_opcode = self.ip < self.current_frame().chunk.opcodes_len();
        if !has_next_opcode {
            return Ok(TickOutcome::FinishProgram);
        }
        let next = self.current_frame().chunk.read_opcode(self.ip);
        self.debug(TraceEvent { ip: self.ip, opcode: next });
        let executed = match next {
            Opcode::Jif(distance) => {
                return match self.op_jif(distance) {
                    Ok(()) => Ok(TickOutcome::ContinueExecution),
                    Err(error) => Err(error),
                };
            },
            Opcode::Jp(distance) => {
                return match self.move_pointer(distance) {
                    Ok(()) => Ok(TickOutcome::ContinueExecution),
                    Err(error) => Err(error),
                };
            },
            Opcode::Break(distance) => {
                return match self.op_break(distance) {
                    Ok(()) => Ok(TickOutcome::ContinueExecution),
                    Err(error) => Err(error),
                };
            },
            Opcode::Call => {
                return match self.op_call() {
                    Ok(()) => Ok(TickOutcome::ContinueExecution),
                    Err(error) => Err(error),
                };
            },
            Opcode::Return => {
                return match self.op_return() {
                    Ok(()) => Ok(TickOutcome::ContinueExecution),
                    Err(error) => Err(error),
                };
            },
            Opcode::Constant(index) => self.op_constant(index),
            Opcode::Null => {
                self.push_operand(RuntimeValue::Null);
                Ok(())
            },
            Opcode::Not | Opcode::Neg => self.op_unary(next),
            Opcode::Pop(amount) => self.op_pop(amount),
            Opcode::Block(amount) => self.op_block(amount),
            Opcode::Get => self.op_get(),
            Opcode::Asg => self.op_asg(),
            Opcode::Closure(index) => self.op_closure(index),
            Opcode::CaptureLocal(index) => self.op_capture_local(index),
            Opcode::CaptureUpvalue(index) => self.op_capture_upvalue(index),
            _ => self.op_binary(next),
        };
        match executed {
            Ok(()) => {},
            Err(error) => {
                return Err(error);
            },
        }
        match self.move_pointer(1) {
            Ok(()) => Ok(TickOutcome::ContinueExecution),
            Err(error) => Err(error),
        }
    }

    /// Runs `main_fn` in a frame that starts at the bottom of the operand
    /// stack, until no instruction is left at the pointer, and yields the
    /// operand that is then on top. The first step that fails, a missing
    /// value at the end, or a run of more steps than the machine may take aborts
    /// the run with that error; the machine is then as it was before the
    /// step that failed. The trace, if one is kept, gets a line for each
    /// instruction that was fetched.
    pub fn run(&mut self, main_fn: Function) -> (result: ProgramOutput)
        ensures
            match old(self)@.run(main_fn@) {
                Ok((vm, value)) => result matches Ok(yielded)
                    && yielded@ == value
                    && final(self)@ == vm,
                Err(cause) => result == Err::<RuntimeValue, RuntimeError>(RuntimeError { cause })
                    && final(self)@ == old(self)@.entered(main_fn@).stopped(
                    old(self)@.step_limit as nat,
                ),
            },
            final(self).trace() == match old(self).trace() {
                Some(events) => Some(
                    events + old(self)@.entered(main_fn@).fetched(old(self)@.step_limit as nat),
                ),
                None => None,
            },
    {
        let initial_frame = CallFrame {
            stack_start: 0,
            name: main_fn.name,
            chunk: main_fn.chunk,
            return_ip: 0,
            upvalues: Vec::new(),
        };
        self.add_call_frame(initial_frame);
        let ghost start = self@;
        let step_limit = self.step_limit;
        let ghost limit = step_limit as nat;
        let mut steps: u64 = 0;
        let mut finished = false;
        proof {
            if let Some(events) = old(self).trace() {
                assert(events + Seq::<TraceEvent>::empty() =~= events);
            }
        }
        while steps < step_limit && !finished
            invariant
                start == old(self)@.entered(main_fn@),
                limit == step_limit,
                steps <= step_limit,
                step_limit == old(self)@.step_limit,
                if finished {
                    &&& start.steps(limit) == Ok::<VMView, RuntimeErrorCause>(self@)
                    &&& start.stopped(limit) == self@
                    &&& self.trace() == match old(self).trace() {
                        Some(events) => Some(events + start.fetched(limit)),
                        None => None,
                    }
                } else {
                    &&& start.steps(limit) == self@.steps((limit - steps) as nat)
                    &&& start.stopped(limit) == self@.stopped((limit - steps) as nat)
                    &&& match (old(self).trace(), self.trace()) {
                        (Some(events), Some(now)) => events + start.fetched(limit) == now
                            + self@.fetched((limit - steps) as nat),
                        (None, None) => true,
                        _ => false,
                    }
                },
            decreases step_limit - steps, if finished { 0int } else { 1int },
        {
            let ghost before = self@;
            let ghost traced = self.trace();
            let ghost left = (limit - steps) as nat;
            match self.tick() {
                Err(error) => {
                    proof {
                        if let Some(now) = traced {
                            assert(now + before.fetched(left) =~= now.push(
                                TraceEvent { ip: before.ip, opcode: before.next() },
                            ));
                        }
                    }
                    return Err(error);
                },
                Ok(TickOutcome::FinishProgram) => {
                    proof {
                        if let Some(now) = traced {
                            assert(now + before.fetched(left) =~= now);
                        }
                    }
                    finished = true;
                },
                Ok(_) => {
                    proof {
                        if let Some(now) = traced {
                            let event = TraceEvent { ip: before.ip, opcode: before.next() };
                            assert(now + (seq![event] + self@.fetched((left - 1) as nat))
                                =~= now.push(event) + self@.fetched((left - 1) as nat));
                        }
                    }
                    steps += 1;
                },
            }
        }
        if !finished {
            proof {
                if let Some(now) = self.trace() {
                    assert(now + Seq::<TraceEvent>::empty() =~= now);
                }
            }
            return Err(RuntimeError { cause: RuntimeErrorCause::StepLimitExceeded });
        }
        self.pop_operand()
    }
}

/// Runs a program on a machine of its own and yields the value that the
/// run ends with, or the error that aborted it. With `debug` the machine
/// keeps a trace, which changes nothing of the outcome.
pub fn run(bytecode: ProgramBytecode, debug: bool) -> (result: ProgramOutput)
    ensures
        match (VMView { functions: bytecode@.functions, ..fresh_machine() }).run(
            bytecode@.main,
        ) {
            Ok((_, value)) => result matches Ok(yielded) && yielded@ == value,
            Err(cause) => result == Err::<RuntimeValue, RuntimeError>(RuntimeError { cause }),
        },
{
    let mut vm = VM::new().with_functions(bytecode.functions);
    if debug {
        vm = vm.with_debug();
    }
    vm.run(bytecode.main)
}

} // verus!
