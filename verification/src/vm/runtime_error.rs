//! Why a run was aborted.
use vstd::prelude::*;

verus! {

/// The cause of a runtime error. The causes form a flat set.
#[derive(Debug, Clone, Copy, PartialEq, Eq, Structural)]
pub enum RuntimeErrorCause {
    /// An instruction needed more operands than the frame holds.
    PoppedFromEmptyStack,
    /// The instruction pointer would leave the range of positions, or a
    /// slot was addressed that the operand stack does not have.
    StackOverflow,
    /// An operand had to be a number.
    ExpectedNumber,
    /// An operand had to be a boolean.
    ExpectedBool,
    /// An operand had to be a memory address.
    ExpectedAddress,
    /// An operand had to be callable.
    ExpectedCallable,
    /// No global has the name that was looked up.
    NotDefined,
    /// A global was the target of an assignment.
    NotAssignable,
    /// A `Constant` instruction named no entry of the pool.
    UndefinedConstant,
    /// A `Closure` instruction named no function of the program.
    UndefinedFunction,
    /// The result of an operation on numbers is not a number of the
    /// language.
    NumberOverflow,
    /// An operation on numbers has no result: a division by zero, a
    /// negative exponent.
    UndefinedResult,
    /// The run took more steps than a run may take.
    StepLimitExceeded,
}

/// A runtime error: the outcome of a run that was aborted.
#[derive(Debug, Clone, Copy, PartialEq, Eq, Structural)]
pub struct RuntimeError {
    pub cause: RuntimeErrorCause,
}

} // verus!
