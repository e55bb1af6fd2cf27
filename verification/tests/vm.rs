use gravitas::bytecode::callables::Function;
use gravitas::bytecode::chunk::{Chunk, Constant};
use gravitas::bytecode::{MemoryAddress, Opcode};
use gravitas::common::MAIN_FUNCTION_NAME;
use gravitas::vm::call::CallFrame;
use gravitas::vm::runtime_error::RuntimeError;
use gravitas::vm::runtime_value::RuntimeValue;
use gravitas::vm::VM;

fn main_fn(chunk: Chunk) -> Function {
    Function { arity: 0, chunk, name: MAIN_FUNCTION_NAME.to_owned() }
}

fn new_vm(chunk: Chunk) -> VM {
    let mut vm = VM::new();
    let function = main_fn(chunk);
    vm.add_call_frame(CallFrame {
        stack_start: 0,
        name: function.name,
        chunk: function.chunk,
        return_ip: 0,
        upvalues: vec![],
    });
    vm
}

#[test]
fn op_pop() -> Result<(), RuntimeError> {
    let mut vm = new_vm(Chunk::new(
        vec![
            Opcode::Constant(0),
            Opcode::Constant(1),
            Opcode::Constant(2),
            Opcode::Pop(3),
        ],
        vec![
            Constant::Bool(true),
            Constant::Bool(true),
            Constant::Bool(true),
        ],
    ));

    // let's push the constants onto the stack
    vm.tick()?;
    vm.tick()?;
    vm.tick()?;

    assert_eq!(vm.operands.len(), 3);

    vm.tick()?;

    // Pop(3) will pop 3 operands from the stack
    // so after the operation finishes the operands stack length will be equal to 0
    assert_eq!(vm.operands.len(), 0);

    Ok(())
}

#[test]
fn op_get() -> Result<(), RuntimeError> {
    let mut vm = new_vm(Chunk::new(
        vec![Opcode::Constant(0), Opcode::Constant(1), Opcode::Get],
        vec![
            Constant::Bool(true),
            Constant::MemoryAddress(MemoryAddress::Local(0)),
        ],
    ));

    // push the constants onto the stack
    vm.tick()?;
    vm.tick()?;
    // execute get
    vm.tick()?;
    // only Constant::Bool(true) should be present on the stack after it got pushed back there
    let leftover_value = vm.operands[0].clone();

    assert!(leftover_value
        .eq(&RuntimeValue::Bool(true), &mut vm)
        .unwrap());

    Ok(())
}

#[test]
fn op_asg() -> Result<(), RuntimeError> {
    let mut vm = new_vm(Chunk::new(
        vec![
            Opcode::Constant(0),
            Opcode::Constant(1),
            Opcode::Constant(2),
            Opcode::Asg,
        ],
        vec![
            Constant::Number(127.0 as i64),
            Constant::MemoryAddress(MemoryAddress::Local(0)),
            Constant::Number(7.0 as i64),
        ],
    ));

    // push the constants onto the stack
    vm.tick()?;
    vm.tick()?;
    vm.tick()?;

    // the first operand on the stack is the initial value of the variable
    let first_operand = vm.operands[0].clone();
    assert!(first_operand
        .eq(&RuntimeValue::Number(127.0 as i64), &mut vm)
        .unwrap());

    // execute Opcode::Asg
    vm.tick()?;

    // but after the execution the first operand on the stack will change to the assigned value
    let assigned_value = vm.operands[0].clone();
    assert!(assigned_value
        .eq(&RuntimeValue::Number(7.0 as i64), &mut vm)
        .unwrap());

    Ok(())
}

use gravitas::bytecode::Program;
use gravitas::vm::runtime_error::RuntimeErrorCause;
use gravitas::vm::runtime_value::Callable;
use gravitas::vm::{run, TickOutcome, TraceEvent};

fn program(opcodes: Vec<Opcode>, constants: Vec<Constant>) -> Program {
    Program { main: main_fn(Chunk::new(opcodes, constants)), functions: vec![] }
}

fn outcome(opcodes: Vec<Opcode>, constants: Vec<Constant>) -> Result<RuntimeValue, RuntimeErrorCause> {
    run(program(opcodes, constants), false).map_err(|error| error.cause)
}

fn two_operands(opcode: Opcode, a: Constant, b: Constant) -> Result<RuntimeValue, RuntimeErrorCause> {
    outcome(vec![Opcode::Constant(0), Opcode::Constant(1), opcode], vec![a, b])
}

#[test]
fn arithmetic_on_two_constants() {
    let n = Constant::Number;
    assert_eq!(two_operands(Opcode::Add, n(2), n(3)), Ok(RuntimeValue::Number(5)));
    assert_eq!(two_operands(Opcode::Sub, n(2), n(3)), Ok(RuntimeValue::Number(-1)));
    assert_eq!(two_operands(Opcode::Mul, n(2), n(3)), Ok(RuntimeValue::Number(6)));
    assert_eq!(two_operands(Opcode::Div, n(7), n(2)), Ok(RuntimeValue::Number(3)));
    assert_eq!(two_operands(Opcode::Mod, n(7), n(2)), Ok(RuntimeValue::Number(1)));
    assert_eq!(two_operands(Opcode::Pow, n(2), n(3)), Ok(RuntimeValue::Number(8)));
    assert_eq!(two_operands(Opcode::Div, n(-7), n(-2)), Ok(RuntimeValue::Number(3)));
    assert_eq!(two_operands(Opcode::Div, n(7), n(-2)), Ok(RuntimeValue::Number(-3)));
    assert_eq!(two_operands(Opcode::Mod, n(-7), n(-2)), Ok(RuntimeValue::Number(-1)));
}

#[test]
fn arithmetic_on_what_is_no_number_is_an_error() {
    for opcode in [Opcode::Add, Opcode::Sub, Opcode::Mul, Opcode::Div, Opcode::Mod, Opcode::Pow] {
        assert_eq!(
            two_operands(opcode, Constant::Number(2), Constant::Bool(true)),
            Err(RuntimeErrorCause::ExpectedNumber)
        );
        assert_eq!(
            two_operands(opcode, Constant::Text("2".to_owned()), Constant::Number(3)),
            Err(RuntimeErrorCause::ExpectedNumber)
        );
    }
}

#[test]
fn comparison_and_logic_on_two_constants() {
    let n = Constant::Number;
    let b = Constant::Bool;
    assert_eq!(two_operands(Opcode::Lt, n(2), n(3)), Ok(RuntimeValue::Bool(true)));
    assert_eq!(two_operands(Opcode::Le, n(3), n(3)), Ok(RuntimeValue::Bool(true)));
    assert_eq!(two_operands(Opcode::Gt, n(2), n(3)), Ok(RuntimeValue::Bool(false)));
    assert_eq!(two_operands(Opcode::Ge, n(2), n(3)), Ok(RuntimeValue::Bool(false)));
    assert_eq!(two_operands(Opcode::Eq, n(2), n(2)), Ok(RuntimeValue::Bool(true)));
    assert_eq!(two_operands(Opcode::Ne, n(2), n(2)), Ok(RuntimeValue::Bool(false)));
    assert_eq!(two_operands(Opcode::Eq, n(1), b(true)), Ok(RuntimeValue::Bool(false)));
    assert_eq!(two_operands(Opcode::Or, b(false), b(true)), Ok(RuntimeValue::Bool(true)));
    assert_eq!(two_operands(Opcode::And, b(false), b(true)), Ok(RuntimeValue::Bool(false)));
    assert_eq!(two_operands(Opcode::And, n(1), b(true)), Err(RuntimeErrorCause::ExpectedBool));
    assert_eq!(two_operands(Opcode::Lt, n(1), b(true)), Err(RuntimeErrorCause::ExpectedNumber));
}

#[test]
fn an_instruction_that_lacks_operands_fails() {
    assert_eq!(outcome(vec![Opcode::Add], vec![]), Err(RuntimeErrorCause::PoppedFromEmptyStack));
    assert_eq!(outcome(vec![Opcode::Not], vec![]), Err(RuntimeErrorCause::PoppedFromEmptyStack));
    assert_eq!(outcome(vec![Opcode::Pop(1)], vec![]), Err(RuntimeErrorCause::PoppedFromEmptyStack));
    assert_eq!(outcome(vec![Opcode::Block(0)], vec![]), Err(RuntimeErrorCause::PoppedFromEmptyStack));
    assert_eq!(outcome(vec![Opcode::Get], vec![]), Err(RuntimeErrorCause::PoppedFromEmptyStack));
    assert_eq!(outcome(vec![Opcode::Asg], vec![]), Err(RuntimeErrorCause::PoppedFromEmptyStack));
    assert_eq!(outcome(vec![Opcode::Jif(1)], vec![]), Err(RuntimeErrorCause::PoppedFromEmptyStack));
    assert_eq!(outcome(vec![Opcode::Call], vec![]), Err(RuntimeErrorCause::PoppedFromEmptyStack));
    assert_eq!(outcome(vec![Opcode::Return], vec![]), Err(RuntimeErrorCause::PoppedFromEmptyStack));
    // a run that ends with nothing on the stack yields nothing
    assert_eq!(outcome(vec![], vec![]), Err(RuntimeErrorCause::PoppedFromEmptyStack));
}

#[test]
fn a_failing_step_changes_nothing() {
    let mut vm = new_vm(Chunk::new(
        vec![Opcode::Constant(0), Opcode::Constant(1), Opcode::Add],
        vec![Constant::Number(1), Constant::Bool(true)],
    ));
    vm.tick().unwrap();
    vm.tick().unwrap();
    assert_eq!(vm.tick().unwrap_err().cause, RuntimeErrorCause::ExpectedNumber);
    assert_eq!(vm.operands, vec![RuntimeValue::Number(1), RuntimeValue::Bool(true)]);
    assert_eq!(vm.ip, 2);
    assert_eq!(vm.call_stack.len(), 1);
}

#[test]
fn block_keeps_the_value_on_top() {
    let mut vm = new_vm(Chunk::new(
        vec![
            Opcode::Constant(0),
            Opcode::Constant(1),
            Opcode::Constant(2),
            Opcode::Block(2),
        ],
        vec![Constant::Number(10), Constant::Number(20), Constant::Number(30)],
    ));
    for _ in 0..4 {
        assert_eq!(vm.tick().unwrap(), TickOutcome::ContinueExecution);
    }
    assert_eq!(vm.operands, vec![RuntimeValue::Number(30)]);
    assert_eq!(vm.tick().unwrap(), TickOutcome::FinishProgram);
}

#[test]
fn an_assignment_is_seen_by_the_reads_after_it() {
    let result = outcome(
        vec![
            Opcode::Constant(0),
            Opcode::Constant(1),
            Opcode::Constant(2),
            Opcode::Asg,
            Opcode::Constant(1),
            Opcode::Get,
        ],
        vec![
            Constant::Number(127),
            Constant::MemoryAddress(MemoryAddress::Local(0)),
            Constant::Number(7),
        ],
    );
    assert_eq!(result, Ok(RuntimeValue::Number(7)));
}

#[test]
fn slots_that_are_not_there_cannot_be_read_or_written() {
    let local = |index| Constant::MemoryAddress(MemoryAddress::Local(index));
    assert_eq!(
        outcome(vec![Opcode::Constant(0), Opcode::Get], vec![local(0)]),
        Err(RuntimeErrorCause::StackOverflow)
    );
    assert_eq!(
        outcome(
            vec![Opcode::Constant(0), Opcode::Constant(1), Opcode::Asg],
            vec![local(0), Constant::Number(1)]
        ),
        Err(RuntimeErrorCause::StackOverflow)
    );
    assert_eq!(
        outcome(
            vec![Opcode::Constant(0), Opcode::Get],
            vec![Constant::MemoryAddress(MemoryAddress::Upvalue { index: 0, is_ref: true })]
        ),
        Err(RuntimeErrorCause::StackOverflow)
    );
    assert_eq!(
        outcome(vec![Opcode::Constant(0), Opcode::Get], vec![Constant::Number(1)]),
        Err(RuntimeErrorCause::ExpectedAddress)
    );
    assert_eq!(
        outcome(
            vec![Opcode::Constant(0), Opcode::Constant(0), Opcode::Asg],
            vec![Constant::Number(1)]
        ),
        Err(RuntimeErrorCause::ExpectedAddress)
    );
}

#[test]
fn an_upvalue_that_is_no_reference_names_a_slot_of_the_frame() {
    let result = outcome(
        vec![Opcode::Constant(0), Opcode::Constant(1), Opcode::Get],
        vec![
            Constant::Number(5),
            Constant::MemoryAddress(MemoryAddress::Upvalue { index: 0, is_ref: false }),
        ],
    );
    assert_eq!(result, Ok(RuntimeValue::Number(5)));
}

fn seven() -> Function {
    Function {
        arity: 0,
        name: "seven".to_owned(),
        chunk: Chunk::new(vec![Opcode::Constant(0), Opcode::Return], vec![Constant::Number(7)]),
    }
}

#[test]
fn globals_are_found_by_their_name() {
    let global = |name: &str| Constant::MemoryAddress(MemoryAddress::Global(name.to_owned()));
    let mut vm = VM::new().with_global("seven".to_owned(), Callable::new(seven()));
    let found = vm.run(main_fn(Chunk::new(
        vec![Opcode::Constant(0), Opcode::Get],
        vec![global("seven")],
    )));
    assert_eq!(found.unwrap(), RuntimeValue::Callable(Callable::new(seven())));

    let mut vm = VM::new().with_global("seven".to_owned(), Callable::new(seven()));
    let missing = vm.run(main_fn(Chunk::new(
        vec![Opcode::Constant(0), Opcode::Get],
        vec![global("eight")],
    )));
    assert_eq!(missing.unwrap_err().cause, RuntimeErrorCause::NotDefined);

    let mut vm = VM::new().with_global("seven".to_owned(), Callable::new(seven()));
    let written = vm.run(main_fn(Chunk::new(
        vec![Opcode::Constant(0), Opcode::Constant(1), Opcode::Asg],
        vec![global("seven"), Constant::Number(1)],
    )));
    assert_eq!(written.unwrap_err().cause, RuntimeErrorCause::NotAssignable);
}

#[test]
fn a_call_and_its_return_leave_one_value_more() {
    let mut vm = VM::new().with_global("seven".to_owned(), Callable::new(seven()));
    vm.add_call_frame(CallFrame {
        stack_start: 0,
        name: "main".to_owned(),
        chunk: Chunk::new(
            vec![Opcode::Constant(0), Opcode::Constant(1), Opcode::Get, Opcode::Call],
            vec![
                Constant::Bool(false),
                Constant::MemoryAddress(MemoryAddress::Global("seven".to_owned())),
            ],
        ),
        return_ip: 0,
        upvalues: vec![],
    });
    // something of the caller's lies on the stack
    vm.tick().unwrap();
    let operands_before = vm.operands.len();
    let frames_before = vm.call_stack.len();
    // the callable is pushed and called
    vm.tick().unwrap();
    vm.tick().unwrap();
    vm.tick().unwrap();
    assert_eq!(vm.call_stack.len(), frames_before + 1);
    assert_eq!(vm.call_stack[1].stack_start, 1);
    assert_eq!(vm.call_stack[1].return_ip, 4);
    assert_eq!(vm.ip, 0);
    // the callee pushes its value and returns
    vm.tick().unwrap();
    vm.tick().unwrap();
    assert_eq!(vm.call_stack.len(), frames_before);
    assert_eq!(vm.operands.len(), operands_before + 1);
    assert_eq!(vm.operands, vec![RuntimeValue::Bool(false), RuntimeValue::Number(7)]);
    assert_eq!(vm.ip, 4);
}

#[test]
fn a_callee_does_not_pop_what_is_its_callers() {
    let greedy = Function {
        arity: 0,
        name: "greedy".to_owned(),
        chunk: Chunk::new(vec![Opcode::Pop(1)], vec![]),
    };
    let mut vm = VM::new().with_global("greedy".to_owned(), Callable::new(greedy));
    let result = vm.run(main_fn(Chunk::new(
        vec![Opcode::Constant(0), Opcode::Constant(1), Opcode::Get, Opcode::Call],
        vec![
            Constant::Number(1),
            Constant::MemoryAddress(MemoryAddress::Global("greedy".to_owned())),
        ],
    )));
    assert_eq!(result.unwrap_err().cause, RuntimeErrorCause::PoppedFromEmptyStack);
}

#[test]
fn only_what_can_be_called_is_called() {
    assert_eq!(
        outcome(vec![Opcode::Constant(0), Opcode::Call], vec![Constant::Number(1)]),
        Err(RuntimeErrorCause::ExpectedCallable)
    );
    let needy = Function {
        arity: 2,
        name: "needy".to_owned(),
        chunk: Chunk::new(vec![Opcode::Null, Opcode::Return], vec![]),
    };
    let mut vm = VM::new().with_global("needy".to_owned(), Callable::new(needy));
    let result = vm.run(main_fn(Chunk::new(
        vec![Opcode::Constant(0), Opcode::Constant(1), Opcode::Get, Opcode::Call],
        vec![
            Constant::Number(1),
            Constant::MemoryAddress(MemoryAddress::Global("needy".to_owned())),
        ],
    )));
    assert_eq!(result.unwrap_err().cause, RuntimeErrorCause::PoppedFromEmptyStack);
}

#[test]
fn closures_are_made_of_the_functions_of_the_program() {
    let with_function = Program {
        main: main_fn(Chunk::new(vec![Opcode::Closure(0), Opcode::Call], vec![])),
        functions: vec![seven()],
    };
    assert_eq!(run(with_function, false).unwrap(), RuntimeValue::Number(7));
    assert_eq!(
        outcome(vec![Opcode::Closure(0)], vec![]),
        Err(RuntimeErrorCause::UndefinedFunction)
    );
    assert_eq!(
        outcome(vec![Opcode::Null, Opcode::CaptureLocal(0)], vec![]),
        Err(RuntimeErrorCause::ExpectedCallable)
    );
    assert_eq!(
        outcome(vec![Opcode::CaptureUpvalue(0)], vec![]),
        Err(RuntimeErrorCause::PoppedFromEmptyStack)
    );
    let captured = Program {
        main: main_fn(Chunk::new(
            vec![Opcode::Null, Opcode::Closure(0), Opcode::CaptureLocal(0)],
            vec![],
        )),
        functions: vec![seven()],
    };
    assert_eq!(
        run(captured, false).unwrap(),
        RuntimeValue::Callable(Callable { function: seven(), upvalues: vec![0] })
    );
    let nowhere = Program {
        main: main_fn(Chunk::new(vec![Opcode::Closure(0), Opcode::CaptureLocal(1)], vec![])),
        functions: vec![seven()],
    };
    assert_eq!(run(nowhere, false).unwrap_err().cause, RuntimeErrorCause::StackOverflow);
}

#[test]
fn jumps_move_the_pointer_by_their_distance() {
    let b = Constant::Bool;
    // a jump that is taken lands on the instruction at its distance
    assert_eq!(
        outcome(
            vec![Opcode::Constant(0), Opcode::Jif(2), Opcode::Constant(1), Opcode::Null],
            vec![b(false), b(true)]
        ),
        Ok(RuntimeValue::Null)
    );
    // a jump that is not taken goes on with the next instruction
    assert_eq!(
        outcome(
            vec![Opcode::Constant(0), Opcode::Jif(3), Opcode::Constant(0), Opcode::Null],
            vec![b(true)]
        ),
        Ok(RuntimeValue::Null)
    );
    assert_eq!(
        outcome(vec![Opcode::Constant(0), Opcode::Jif(2)], vec![Constant::Number(0)]),
        Err(RuntimeErrorCause::ExpectedBool)
    );
    assert_eq!(
        outcome(vec![Opcode::Jp(2), Opcode::Add, Opcode::Null], vec![]),
        Ok(RuntimeValue::Null)
    );
    assert_eq!(
        outcome(vec![Opcode::Break(2), Opcode::Add, Opcode::Add, Opcode::Null], vec![]),
        Ok(RuntimeValue::Null)
    );
    // the pointer does not go before the first instruction
    assert_eq!(outcome(vec![Opcode::Jp(-1)], vec![]), Err(RuntimeErrorCause::StackOverflow));
    assert_eq!(
        outcome(vec![Opcode::Null, Opcode::Break(-3)], vec![]),
        Err(RuntimeErrorCause::StackOverflow)
    );
    assert_eq!(
        outcome(vec![Opcode::Constant(0), Opcode::Jif(-2)], vec![b(false)]),
        Err(RuntimeErrorCause::StackOverflow)
    );
}

#[test]
fn the_pointer_moves_within_the_range_of_positions() {
    let mut vm = VM::new();
    vm.move_pointer(5).unwrap();
    assert_eq!(vm.ip, 5);
    vm.move_pointer(-5).unwrap();
    assert_eq!(vm.ip, 0);
    assert_eq!(vm.move_pointer(-1).unwrap_err().cause, RuntimeErrorCause::StackOverflow);
    assert_eq!(vm.move_pointer(isize::MIN).unwrap_err().cause, RuntimeErrorCause::StackOverflow);
    vm.ip = usize::MAX;
    assert_eq!(vm.move_pointer(1).unwrap_err().cause, RuntimeErrorCause::StackOverflow);
    assert_eq!(vm.ip, usize::MAX);
}

#[test]
fn truth_is_asked_of_booleans_only() {
    let vm = VM::new();
    assert_eq!(RuntimeValue::Bool(true).to_bool(&vm).unwrap(), true);
    assert_eq!(RuntimeValue::Bool(false).to_bool(&vm).unwrap(), false);
    assert_eq!(
        RuntimeValue::Number(1).to_bool(&vm).unwrap_err().cause,
        RuntimeErrorCause::ExpectedBool
    );
    assert_eq!(
        RuntimeValue::Null.to_bool(&vm).unwrap_err().cause,
        RuntimeErrorCause::ExpectedBool
    );
}

#[test]
fn values_are_equal_to_their_like() {
    let vm = VM::new();
    let text = |t: &str| RuntimeValue::Text(t.to_owned());
    assert!(text("a").eq(&text("a"), &vm).unwrap());
    assert!(!text("a").eq(&text("b"), &vm).unwrap());
    assert!(RuntimeValue::Null.eq(&RuntimeValue::Null, &vm).unwrap());
    assert!(!RuntimeValue::Null.eq(&RuntimeValue::Bool(false), &vm).unwrap());
    assert!(!RuntimeValue::Number(0).eq(&RuntimeValue::Bool(false), &vm).unwrap());
    let callable = |f: Function| RuntimeValue::Callable(Callable::new(f));
    assert!(callable(seven()).eq(&callable(seven()), &vm).unwrap());
    let mut eight = seven();
    eight.chunk.constants[0] = Constant::Number(8);
    assert!(!callable(seven()).eq(&callable(eight), &vm).unwrap());
    let instance = |class: &str| RuntimeValue::Instance(class.to_owned());
    assert!(instance("a").eq(&instance("a"), &vm).unwrap());
    assert!(!instance("a").eq(&instance("b"), &vm).unwrap());
}

#[test]
fn the_trace_tells_what_was_fetched_and_changes_nothing() {
    let chunk = || {
        Chunk::new(
            vec![Opcode::Constant(0), Opcode::Constant(1), Opcode::Add],
            vec![Constant::Number(2), Constant::Number(3)],
        )
    };
    let mut traced = VM::new().with_debug();
    let mut silent = VM::new();
    assert_eq!(traced.run(main_fn(chunk())), silent.run(main_fn(chunk())));
    assert_eq!(traced.operands, silent.operands);
    assert_eq!(traced.ip, silent.ip);
    assert_eq!(silent.debug, None);
    assert_eq!(
        traced.debug,
        Some(vec![
            TraceEvent { ip: 0, opcode: Opcode::Constant(0) },
            TraceEvent { ip: 1, opcode: Opcode::Constant(1) },
            TraceEvent { ip: 2, opcode: Opcode::Add },
        ])
    );
    assert_eq!(
        run(Program { main: main_fn(chunk()), functions: vec![] }, true),
        run(Program { main: main_fn(chunk()), functions: vec![] }, false)
    );
}

#[test]
fn a_step_without_an_instruction_ends_the_run() {
    let mut vm = VM::new();
    assert_eq!(vm.tick().unwrap(), TickOutcome::FinishProgram);
    let mut vm = new_vm(Chunk::new(vec![Opcode::Null], vec![]));
    assert_eq!(vm.tick().unwrap(), TickOutcome::ContinueExecution);
    assert_eq!(vm.tick().unwrap(), TickOutcome::FinishProgram);
    assert_eq!(vm.tick().unwrap(), TickOutcome::FinishProgram);
    assert_eq!(vm.operands, vec![RuntimeValue::Null]);
}

#[test]
fn a_run_takes_no_more_steps_than_it_may() {
    let forever = || main_fn(Chunk::new(vec![Opcode::Null, Opcode::Pop(1), Opcode::Jp(-2)], vec![]));
    let mut vm = VM::new().with_step_limit(100).with_debug();
    assert_eq!(vm.run(forever()).unwrap_err().cause, RuntimeErrorCause::StepLimitExceeded);
    assert_eq!(vm.debug.as_ref().map(|events| events.len()), Some(100));
    // the hundredth step was a `Null`
    assert_eq!(vm.operands, vec![RuntimeValue::Null]);
    assert_eq!(vm.ip, 1);
    let mut vm = VM::new().with_step_limit(3);
    let short = main_fn(Chunk::new(vec![Opcode::Null, Opcode::Null, Opcode::Null], vec![]));
    // three steps are taken; the run would end with the fourth
    assert_eq!(vm.run(short).unwrap_err().cause, RuntimeErrorCause::StepLimitExceeded);
    let mut vm = VM::new().with_step_limit(3);
    let shorter = main_fn(Chunk::new(vec![Opcode::Null, Opcode::Null], vec![]));
    assert_eq!(vm.run(shorter), Ok(RuntimeValue::Null));
    let mut vm = VM::new().with_step_limit(0);
    assert_eq!(
        vm.run(main_fn(Chunk::new(vec![], vec![]))).unwrap_err().cause,
        RuntimeErrorCause::StepLimitExceeded
    );
}

#[test]
fn an_aborted_run_leaves_the_machine_before_the_step_that_failed() {
    let mut vm = VM::new().with_debug();
    let result = vm.run(main_fn(Chunk::new(
        vec![Opcode::Constant(0), Opcode::Not, Opcode::Null],
        vec![Constant::Number(3)],
    )));
    assert_eq!(result.unwrap_err().cause, RuntimeErrorCause::ExpectedBool);
    assert_eq!(vm.operands, vec![RuntimeValue::Number(3)]);
    assert_eq!(vm.ip, 1);
    assert_eq!(vm.call_stack.len(), 1);
    assert_eq!(
        vm.debug,
        Some(vec![
            TraceEvent { ip: 0, opcode: Opcode::Constant(0) },
            TraceEvent { ip: 1, opcode: Opcode::Not },
        ])
    );
}

#[test]
fn two_constants_and_an_addition_leave_their_sum() {
    let mut vm = new_vm(Chunk::new(
        vec![Opcode::Constant(0), Opcode::Constant(1), Opcode::Add],
        vec![Constant::Number(2.0 as i64), Constant::Number(3.0 as i64)],
    ));
    vm.tick().unwrap();
    vm.tick().unwrap();
    assert_eq!(vm.operands.len(), 2);
    vm.tick().unwrap();
    assert_eq!(vm.operands, vec![RuntimeValue::Number(5)]);
    assert_eq!(vm.ip, 3);
}
