//! The values that the machine computes with.
use vstd::prelude::*;
use crate::bytecode::callables::{Function, FunctionView};
use crate::bytecode::chunk::{Constant, ConstantView};
use crate::bytecode::{MemoryAddress, MemoryAddressView};
use crate::common::{str_eq, Number, ProgramText};
use crate::vm::runtime_error::{RuntimeError, RuntimeErrorCause};
use crate::vm::{MachineResult, VM};

verus! {

/// A function as a value: its code and the operand-stack slots that it
/// reaches through upvalues.
#[derive(Debug, PartialEq)]
pub struct Callable {
    pub function: Function,
    /// For each upvalue of the function the slot it refers to, counted from
    /// the bottom of the operand stack.
    pub upvalues: Vec<usize>,
}

/// Mathematical value of a [`Callable`].
pub struct CallableView {
    pub function: FunctionView,
    pub upvalues: Seq<usize>,
}

impl View for Callable {
    type V = CallableView;

    open spec fn view(&self) -> CallableView {
        CallableView { function: self.function@, upvalues: self.upvalues@ }
    }
}

/// Copies a list of slots.
pub fn clone_slots(slots: &Vec<usize>) -> (copy: Vec<usize>)
    ensures
        copy@ == slots@,
{
    let mut copy: Vec<usize> = Vec::new();
    let mut i: usize = 0;
    while i < slots.len()
        invariant
            i <= slots@.len(),
            copy@ == slots@.take(i as int),
        decreases slots@.len() - i,
    {
        copy.push(slots[i]);
        i += 1;
    }
    proof {
        assert(copy@ =~= slots@);
    }
    copy
}

impl Clone for Callable {
    fn clone(&self) -> (copy: Self)
        ensures
            copy@ == self@,
    {
        Callable { function: self.function.clone(), upvalues: clone_slots(&self.upvalues) }
    }
}

impl Callable {
    /// A function that reaches no upvalue.
    pub fn new(function: Function) -> (callable: Self)
        ensures
            callable@ == (CallableView { function: function@, upvalues: Seq::empty() }),
    {
        Callable { function, upvalues: Vec::new() }
    }

    /// Tells whether two callables are the same function with the same
    /// upvalues.
    pub fn same_as(&self, other: &Callable) -> (same: bool)
        ensures
            same == (self@ == other@),
    {
        if !self.function.same_as(&other.function) {
            return false;
        }
        if self.upvalues.len() != other.upvalues.len() {
            return false;
        }
        let mut i: usize = 0;
        while i < self.upvalues.len()
            invariant
                i <= self.upvalues@.len(),
                self.upvalues@.len() == other.upvalues@.len(),
                forall|k: int| 0 <= k < i ==> self.upvalues@[k] == other.upvalues@[k],
            decreases self.upvalues@.len() - i,
        {
            if self.upvalues[i] != other.upvalues[i] {
                return false;
            }
            i += 1;
        }
        proof {
            assert(self.upvalues@ =~= other.upvalues@);
        }
        true
    }
}

/// A value on the operand stack.
#[derive(Debug, PartialEq)]
pub enum RuntimeValue {
    Number(Number),
    Bool(bool),
    Null,
    Text(String),
    /// An address that a constant has put on the stack for `Get` or `Asg`.
    MemoryAddress(MemoryAddress),
    Callable(Callable),
    /// An instance of the class of that name.
    Instance(ProgramText),
}

/// Mathematical value of a [`RuntimeValue`]. Two values are equal in the
/// language exactly when their mathematical values are equal: numbers and
/// booleans by value, texts by content, null only to null, callables when
/// they are the same function.
pub enum ValueView {
    Number(Number),
    Bool(bool),
    Null,
    Text(Seq<char>),
    MemoryAddress(MemoryAddressView),
    Callable(CallableView),
    Instance(Seq<char>),
}

impl View for RuntimeValue {
    type V = ValueView;

    open spec fn view(&self) -> ValueView {
        match *self {
            RuntimeValue::Number(n) => ValueView::Number(n),
            RuntimeValue::Bool(b) => ValueView::Bool(b),
            RuntimeValue::Null => ValueView::Null,
            RuntimeValue::Text(t) => ValueView::Text(t@),
            RuntimeValue::MemoryAddress(a) => ValueView::MemoryAddress(a@),
            RuntimeValue::Callable(c) => ValueView::Callable(c@),
            RuntimeValue::Instance(class) => ValueView::Instance(class@),
        }
    }
}

/// The value that a constant stands for.
pub open spec fn value_of(constant: ConstantView) -> ValueView {
    match constant {
        ConstantView::Number(n) => ValueView::Number(n),
        ConstantView::Bool(b) => ValueView::Bool(b),
        ConstantView::Text(t) => ValueView::Text(t),
        ConstantView::MemoryAddress(a) => ValueView::MemoryAddress(a),
    }
}

impl Clone for RuntimeValue {
    fn clone(&self) -> (copy: Self)
        ensures
            copy@ == self@,
    {
        match self {
            RuntimeValue::Number(n) => RuntimeValue::Number(*n),
            RuntimeValue::Bool(b) => RuntimeValue::Bool(*b),
            RuntimeValue::Null => RuntimeValue::Null,
            RuntimeValue::Text(t) => RuntimeValue::Text(t.clone()),
            RuntimeValue::MemoryAddress(a) => RuntimeValue::MemoryAddress(a.clone()),
            RuntimeValue::Callable(c) => RuntimeValue::Callable(c.clone()),
            RuntimeValue::Instance(class) => RuntimeValue::Instance(class.clone()),
        }
    }
}

impl RuntimeValue {
    /// The value that a constant stands for.
    pub fn from_constant(constant: &Constant) -> (value: Self)
        ensures
            value@ == value_of(constant@),
    {
        match constant {
            Constant::Number(n) => RuntimeValue::Number(*n),
            Constant::Bool(b) => RuntimeValue::Bool(*b),
            Constant::Text(t) => RuntimeValue::Text(t.clone()),
            Constant::MemoryAddress(a) => RuntimeValue::MemoryAddress(a.clone()),
        }
    }

    /// Tells whether two values are equal in the language.
    pub fn same_as(&self, other: &RuntimeValue) -> (same: bool)
        ensures
            same == (self@ == other@),
    {
        match (self, other) {
            (RuntimeValue::Number(a), RuntimeValue::Number(b)) => *a == *b,
            (RuntimeValue::Bool(a), RuntimeValue::Bool(b)) => *a == *b,
            (RuntimeValue::Null, RuntimeValue::Null) => true,
            (RuntimeValue::Text(a), RuntimeValue::Text(b)) => str_eq(a.as_str(), b.as_str()),
            (RuntimeValue::MemoryAddress(a), RuntimeValue::MemoryAddress(b)) => a.same_as(b),
            (RuntimeValue::Callable(a), RuntimeValue::Callable(b)) => a.same_as(b),
            (RuntimeValue::Instance(a), RuntimeValue::Instance(b)) => str_eq(
                a.as_str(),
                b.as_str(),
            ),
            _ => false,
        }
    }

    /// Equality of the language, asked in the context of a machine, which
    /// it leaves alone. Values of different kinds are unequal; no
    /// comparison fails.
    pub fn eq(&self, other: &RuntimeValue, vm: &VM) -> (result: MachineResult<bool>)
        ensures
            result == Ok::<bool, RuntimeError>(self@ == other@),
    {
        Ok(self.same_as(other))
    }

    /// The truth of a boolean. Any other value is an error.
    pub fn to_bool(&self, vm: &VM) -> (result: MachineResult<bool>)
        ensures
            result == match self@ {
                ValueView::Bool(b) => Ok::<bool, RuntimeError>(b),
                _ => Err::<bool, RuntimeError>(
                    RuntimeError { cause: RuntimeErrorCause::ExpectedBool },
                ),
            },
    {
        match self {
            RuntimeValue::Bool(b) => Ok(*b),
            _ => Err(RuntimeError { cause: RuntimeErrorCause::ExpectedBool }),
        }
    }
}

} // verus!
