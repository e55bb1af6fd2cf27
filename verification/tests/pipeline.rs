use gravitas::bytecode::callables::Function;
use gravitas::bytecode::chunk::{Chunk, Constant};
use gravitas::bytecode::state::GenerationFault;
use gravitas::bytecode::{
    generate_bytecode, BytecodeFrom, BytecodeGenerator, MemoryAddress, Opcode, Program,
};
use gravitas::syntax::parse::Parser;
use gravitas::syntax::token::Span;
use gravitas::syntax::tree::{AtomicValue, BinaryOperator, Expr, Spanned, Stmt};
use gravitas::vm::runtime_error::RuntimeErrorCause;
use gravitas::vm::runtime_value::RuntimeValue;
use gravitas::vm::{run, VM};

fn nowhere() -> Span {
    Span { start: 0, end: 0 }
}

fn atom(val: AtomicValue) -> Expr {
    Expr::Atom(Spanned { val, span: nowhere() })
}

fn number(n: i64) -> Expr {
    atom(AtomicValue::Number(n))
}

fn boolean(b: bool) -> Expr {
    atom(AtomicValue::Boolean(b))
}

fn name(text: &str) -> Expr {
    atom(AtomicValue::Identifier(text.to_owned()))
}

fn binary(lhs: Expr, op: BinaryOperator, rhs: Expr) -> Expr {
    Expr::Binary {
        lhs: Box::new(lhs),
        op: Spanned { val: op, span: nowhere() },
        rhs: Box::new(rhs),
    }
}

fn assign(target: &str, value: Expr) -> Expr {
    Expr::Assignment { target: target.to_owned(), value: Box::new(value) }
}

fn declare(text: &str, expr: Expr) -> Stmt {
    Stmt::VariableDeclaration { name: text.to_owned(), expr }
}

fn compile(expr: Expr) -> Function {
    let mut generator = BytecodeGenerator::new();
    generator.generate(expr).unwrap();
    generator.code()
}

fn alone(main: Function) -> Program {
    Program { main, functions: vec![] }
}

fn evaluate(expr: Expr) -> Result<RuntimeValue, RuntimeErrorCause> {
    let mut generator = BytecodeGenerator::new();
    generator.generate(expr).unwrap();
    run(generator.program(), false).map_err(|error| error.cause)
}

fn call(callee: &str, args: Vec<Expr>) -> Expr {
    Expr::Call { callee: Box::new(name(callee)), args }
}

fn define(text: &str, params: &[&str], body: Expr) -> Stmt {
    Stmt::FunctionDeclaration {
        name: text.to_owned(),
        params: params.iter().map(|p| p.to_string()).collect(),
        body,
    }
}

fn run_statements(statements: Vec<Stmt>) -> Result<RuntimeValue, RuntimeErrorCause> {
    run(generate_bytecode(statements).unwrap(), false).map_err(|error| error.cause)
}

fn evaluate_text(text: &str) -> Result<RuntimeValue, RuntimeErrorCause> {
    let mut parser = Parser::new(text);
    evaluate(parser.parse_expression().unwrap())
}

#[test]
fn text_is_parsed_lowered_and_run() {
    assert_eq!(evaluate_text("2 + 3"), Ok(RuntimeValue::Number(5)));
    assert_eq!(evaluate_text("2 + 3 * 4"), Ok(RuntimeValue::Number(14)));
    assert_eq!(evaluate_text("2 ** 10"), Ok(RuntimeValue::Number(1024)));
    assert_eq!(evaluate_text("7 / 2"), Ok(RuntimeValue::Number(3)));
    assert_eq!(evaluate_text("-7 / 2"), Ok(RuntimeValue::Number(-3)));
    assert_eq!(evaluate_text("-7 % 2"), Ok(RuntimeValue::Number(-1)));
    assert_eq!(evaluate_text("7 % -2"), Ok(RuntimeValue::Number(1)));
    assert_eq!(evaluate_text("1 < 2"), Ok(RuntimeValue::Bool(true)));
    assert_eq!(evaluate_text("2 <= 1"), Ok(RuntimeValue::Bool(false)));
    assert_eq!(evaluate_text("1 == 1"), Ok(RuntimeValue::Bool(true)));
    assert_eq!(evaluate_text("1 != 1"), Ok(RuntimeValue::Bool(false)));
    assert_eq!(evaluate_text("1 == true"), Ok(RuntimeValue::Bool(false)));
    assert_eq!(evaluate_text("null == null"), Ok(RuntimeValue::Bool(true)));
    assert_eq!(evaluate_text("\"a\" == \"a\""), Ok(RuntimeValue::Bool(true)));
    assert_eq!(evaluate_text("\"a\" == \"b\""), Ok(RuntimeValue::Bool(false)));
    assert_eq!(evaluate_text("!true"), Ok(RuntimeValue::Bool(false)));
    assert_eq!(evaluate_text("- 5"), Ok(RuntimeValue::Number(-5)));
}

#[test]
fn operators_refuse_operands_of_the_wrong_kind() {
    assert_eq!(evaluate_text("1 + true"), Err(RuntimeErrorCause::ExpectedNumber));
    assert_eq!(evaluate_text("true - 1"), Err(RuntimeErrorCause::ExpectedNumber));
    assert_eq!(evaluate_text("null * 1"), Err(RuntimeErrorCause::ExpectedNumber));
    assert_eq!(evaluate_text("1 / \"a\""), Err(RuntimeErrorCause::ExpectedNumber));
    assert_eq!(evaluate_text("1 % true"), Err(RuntimeErrorCause::ExpectedNumber));
    assert_eq!(evaluate_text("1 < true"), Err(RuntimeErrorCause::ExpectedNumber));
    assert_eq!(evaluate_text("!1"), Err(RuntimeErrorCause::ExpectedBool));
    assert_eq!(evaluate_text("- true"), Err(RuntimeErrorCause::ExpectedNumber));
    assert_eq!(evaluate_text("1 and true"), Err(RuntimeErrorCause::ExpectedBool));
}

#[test]
fn numbers_that_cannot_be_are_errors() {
    assert_eq!(evaluate_text("1 / 0"), Err(RuntimeErrorCause::UndefinedResult));
    assert_eq!(evaluate_text("1 % 0"), Err(RuntimeErrorCause::UndefinedResult));
    assert_eq!(evaluate_text("2 ** -1"), Err(RuntimeErrorCause::UndefinedResult));
    assert_eq!(
        evaluate_text("9223372036854775807 + 1"),
        Err(RuntimeErrorCause::NumberOverflow)
    );
    assert_eq!(evaluate_text("2 ** 63"), Err(RuntimeErrorCause::NumberOverflow));
    assert_eq!(evaluate_text("-2 ** 63"), Ok(RuntimeValue::Number(i64::MIN)));
    assert_eq!(evaluate_text("-2 ** 64"), Err(RuntimeErrorCause::NumberOverflow));
    assert_eq!(evaluate_text("1 ** 9223372036854775807"), Ok(RuntimeValue::Number(1)));
    assert_eq!(evaluate_text("-1 ** 9223372036854775807"), Ok(RuntimeValue::Number(-1)));
    assert_eq!(evaluate_text("0 ** 0"), Ok(RuntimeValue::Number(1)));
    assert_eq!(
        evaluate(binary(number(-2), BinaryOperator::Power, number(63))),
        Ok(RuntimeValue::Number(i64::MIN))
    );
    assert_eq!(
        evaluate(binary(number(i64::MIN), BinaryOperator::Division, number(-1))),
        Err(RuntimeErrorCause::NumberOverflow)
    );
    assert_eq!(
        evaluate(binary(number(i64::MIN), BinaryOperator::Modulo, number(-1))),
        Ok(RuntimeValue::Number(0))
    );
}

#[test]
fn logic_takes_the_short_way() {
    assert_eq!(evaluate_text("true and false"), Ok(RuntimeValue::Bool(false)));
    assert_eq!(evaluate_text("true and true"), Ok(RuntimeValue::Bool(true)));
    assert_eq!(evaluate_text("false or true"), Ok(RuntimeValue::Bool(true)));
    assert_eq!(evaluate_text("false or false"), Ok(RuntimeValue::Bool(false)));
    // the right side is not evaluated where the left side decides
    assert_eq!(evaluate_text("false and 1 / 0 == 1"), Ok(RuntimeValue::Bool(false)));
    assert_eq!(evaluate_text("true or 1 / 0 == 1"), Ok(RuntimeValue::Bool(true)));
    assert_eq!(
        evaluate_text("true and 1 / 0 == 1"),
        Err(RuntimeErrorCause::UndefinedResult)
    );
}

#[test]
fn a_conditional_takes_one_branch() {
    let conditional = |condition: bool, else_expr: Option<Expr>| Expr::If {
        condition: Box::new(boolean(condition)),
        body: Box::new(number(1)),
        else_expr: else_expr.map(Box::new),
    };
    assert_eq!(evaluate(conditional(true, Some(number(2)))), Ok(RuntimeValue::Number(1)));
    assert_eq!(evaluate(conditional(false, Some(number(2)))), Ok(RuntimeValue::Number(2)));
    assert_eq!(evaluate(conditional(true, None)), Ok(RuntimeValue::Number(1)));
    assert_eq!(evaluate(conditional(false, None)), Ok(RuntimeValue::Null));
}

#[test]
fn declared_variables_are_the_operands_of_the_frame() {
    let program = generate_bytecode(vec![
        declare("a", number(2)),
        declare("b", binary(name("a"), BinaryOperator::Addition, number(3))),
        Stmt::Expression { expr: binary(name("a"), BinaryOperator::Multiplication, name("b")) },
        declare("c", binary(name("b"), BinaryOperator::Subtraction, name("a"))),
    ])
    .unwrap();
    let mut vm = VM::new();
    // the run yields the operand on top, which is the last variable
    assert_eq!(vm.run(program.main).map_err(|error| error.cause), Ok(RuntimeValue::Number(3)));
    assert_eq!(vm.operands, vec![RuntimeValue::Number(2), RuntimeValue::Number(5)]);
}

#[test]
fn a_name_reads_the_first_variable_of_that_name() {
    let program = vec![
        declare("a", number(1)),
        declare("a", number(2)),
        declare("b", name("a")),
    ];
    assert_eq!(run_statements(program), Ok(RuntimeValue::Number(1)));
}

#[test]
fn a_choice_needs_a_boolean() {
    let conditional = Expr::If {
        condition: Box::new(number(1)),
        body: Box::new(number(2)),
        else_expr: None,
    };
    assert_eq!(evaluate(conditional), Err(RuntimeErrorCause::ExpectedBool));
    assert_eq!(
        evaluate(binary(number(1), BinaryOperator::And, boolean(true))),
        Err(RuntimeErrorCause::ExpectedBool)
    );
    assert_eq!(
        evaluate(binary(number(1), BinaryOperator::Or, boolean(true))),
        Err(RuntimeErrorCause::ExpectedBool)
    );
    // what the right side yields is not looked at
    assert_eq!(
        evaluate(binary(boolean(true), BinaryOperator::And, number(7))),
        Ok(RuntimeValue::Number(7))
    );
}

#[test]
fn a_conditional_is_two_jumps_and_two_places_to_land() {
    let code = compile(Expr::If {
        condition: Box::new(boolean(true)),
        body: Box::new(number(1)),
        else_expr: Some(Box::new(number(2))),
    });
    assert_eq!(
        code.chunk.opcodes,
        vec![
            Opcode::Constant(0),
            Opcode::Jif(3),
            Opcode::Constant(1),
            Opcode::Jp(3),
            Opcode::Pop(0),
            Opcode::Constant(2),
            Opcode::Pop(0),
        ]
    );
}

#[test]
fn a_loop_runs_while_its_condition_holds() {
    // var i = 0; var sum = 0; while i < 4 { sum = sum + i; i = i + 1; } ; sum
    let program = Expr::Block {
        stmts: vec![
            declare("i", number(0)),
            declare("sum", number(0)),
            Stmt::Expression {
                expr: Expr::While {
                    condition: Box::new(binary(name("i"), BinaryOperator::LesserThan, number(4))),
                    body: Box::new(Expr::Block {
                        stmts: vec![
                            Stmt::Expression {
                                expr: assign(
                                    "sum",
                                    binary(name("sum"), BinaryOperator::Addition, name("i")),
                                ),
                            },
                            Stmt::Expression {
                                expr: assign(
                                    "i",
                                    binary(name("i"), BinaryOperator::Addition, number(1)),
                                ),
                            },
                        ],
                        return_expr: None,
                    }),
                },
            },
        ],
        return_expr: Some(Box::new(name("sum"))),
    };
    // the variables are declared in a block, so the loop's block reaches
    // them only if a function or the global scope declares them
    assert_eq!(
        BytecodeGenerator::new().generate(program),
        Err(GenerationFault::UndeclaredName)
    );

    let statements = vec![
        declare("i", number(0)),
        declare("sum", number(0)),
        Stmt::Expression {
            expr: Expr::While {
                condition: Box::new(binary(name("i"), BinaryOperator::LesserThan, number(4))),
                body: Box::new(Expr::Block {
                    stmts: vec![
                        Stmt::Expression {
                            expr: assign(
                                "sum",
                                binary(name("sum"), BinaryOperator::Addition, name("i")),
                            ),
                        },
                        Stmt::Expression {
                            expr: assign(
                                "i",
                                binary(name("i"), BinaryOperator::Addition, number(1)),
                            ),
                        },
                    ],
                    return_expr: None,
                }),
            },
        },
    ];
    // the run yields the slot on top, which is that of `sum`
    assert_eq!(run_statements(statements), Ok(RuntimeValue::Number(6)));
}

#[test]
fn a_block_drops_its_variables_and_keeps_its_value() {
    let block = Expr::Block {
        stmts: vec![declare("a", number(2)), declare("b", number(3))],
        return_expr: Some(Box::new(binary(name("a"), BinaryOperator::Multiplication, name("b")))),
    };
    let code = compile(block);
    assert_eq!(code.chunk.opcodes.last(), Some(&Opcode::Block(2)));
    assert_eq!(run(alone(code), false).map_err(|e| e.cause), Ok(RuntimeValue::Number(6)));
}

#[test]
fn an_assignment_yields_what_it_assigned() {
    let statements = vec![
        declare("x", number(1)),
        declare("y", assign("x", number(5))),
        declare("z", binary(name("x"), BinaryOperator::Addition, name("y"))),
    ];
    assert_eq!(run_statements(statements), Ok(RuntimeValue::Number(10)));
}

#[test]
fn a_name_that_nothing_declares_is_a_fault() {
    let mut generator = BytecodeGenerator::new();
    assert_eq!(generator.generate(name("nobody")), Err(GenerationFault::UndeclaredName));
}

#[test]
fn constants_are_pushed_from_the_pool() {
    let code = Function {
        arity: 0,
        name: "main".to_owned(),
        chunk: Chunk::new(
            vec![Opcode::Constant(0), Opcode::Constant(1), Opcode::Add],
            vec![Constant::Number(2), Constant::Number(3)],
        ),
    };
    assert_eq!(run(alone(code), false).map_err(|e| e.cause), Ok(RuntimeValue::Number(5)));
    let broken = Function {
        arity: 0,
        name: "main".to_owned(),
        chunk: Chunk::new(vec![Opcode::Constant(1)], vec![Constant::Number(2)]),
    };
    assert_eq!(
        run(alone(broken), true).map_err(|e| e.cause),
        Err(RuntimeErrorCause::UndefinedConstant)
    );
    let address = Function {
        arity: 0,
        name: "main".to_owned(),
        chunk: Chunk::new(
            vec![Opcode::Constant(0)],
            vec![Constant::MemoryAddress(MemoryAddress::Local(3))],
        ),
    };
    assert_eq!(
        run(alone(address), false).map_err(|e| e.cause),
        Ok(RuntimeValue::MemoryAddress(MemoryAddress::Local(3)))
    );
}

#[test]
fn a_function_is_called_with_its_arguments() {
    let statements = vec![
        define("add", &["a", "b"], binary(name("a"), BinaryOperator::Addition, name("b"))),
        declare("result", call("add", vec![number(2), number(3)])),
    ];
    assert_eq!(run_statements(statements), Ok(RuntimeValue::Number(5)));
}

#[test]
fn a_function_may_call_itself() {
    // def sum(n) -> if n < 1 { 0 } else { n + sum(n - 1) }
    let statements = vec![
        define(
            "sum",
            &["n"],
            Expr::If {
                condition: Box::new(binary(name("n"), BinaryOperator::LesserThan, number(1))),
                body: Box::new(number(0)),
                else_expr: Some(Box::new(binary(
                    name("n"),
                    BinaryOperator::Addition,
                    call("sum", vec![binary(name("n"), BinaryOperator::Subtraction, number(1))]),
                ))),
            },
        ),
        declare("result", call("sum", vec![number(10)])),
    ];
    assert_eq!(run_statements(statements), Ok(RuntimeValue::Number(55)));
}

#[test]
fn a_closure_writes_to_the_variable_it_captured() {
    let statements = vec![
        declare("counter", number(0)),
        define(
            "bump",
            &[],
            assign("counter", binary(name("counter"), BinaryOperator::Addition, number(1))),
        ),
        Stmt::Expression { expr: call("bump", vec![]) },
        Stmt::Expression { expr: call("bump", vec![]) },
        declare("result", name("counter")),
    ];
    let program = generate_bytecode(statements).unwrap();
    // the one link of `bump` takes a slot of the frame around it
    assert_eq!(
        program.main.chunk.opcodes[1..3],
        [Opcode::Closure(0), Opcode::CaptureLocal(0)]
    );
    assert_eq!(run(program, false).map_err(|e| e.cause), Ok(RuntimeValue::Number(2)));
}

#[test]
fn a_closure_reaches_through_the_functions_around_it() {
    // var x = 10; def outer() -> { def inner() -> x; inner() }; outer()
    let statements = vec![
        declare("x", number(10)),
        define(
            "outer",
            &[],
            Expr::Block {
                stmts: vec![define("inner", &[], name("x"))],
                return_expr: Some(Box::new(call("inner", vec![]))),
            },
        ),
        declare("result", call("outer", vec![])),
    ];
    let program = generate_bytecode(statements).unwrap();
    assert_eq!(program.functions.len(), 2);
    assert_eq!(program.functions[0].name, "inner");
    assert_eq!(program.functions[1].name, "outer");
    // inside `outer`, `inner` is made of the link that `outer` holds
    assert!(program.functions[1]
        .chunk
        .opcodes
        .windows(2)
        .any(|pair| pair == [Opcode::Closure(0), Opcode::CaptureUpvalue(0)]));
    // the code around `outer` gives it the slot of `x`
    assert!(program
        .main
        .chunk
        .opcodes
        .windows(2)
        .any(|pair| pair == [Opcode::Closure(1), Opcode::CaptureLocal(0)]));
    assert_eq!(run(program, false).map_err(|e| e.cause), Ok(RuntimeValue::Number(10)));
}

#[test]
fn a_return_ends_the_function_early() {
    let statements = vec![
        define(
            "early",
            &["n"],
            Expr::Block {
                stmts: vec![Stmt::Expression {
                    expr: Expr::If {
                        condition: Box::new(binary(
                            name("n"),
                            BinaryOperator::GreaterThan,
                            number(0),
                        )),
                        body: Box::new(Expr::Return { value: Some(Box::new(number(1))) }),
                        else_expr: None,
                    },
                }],
                return_expr: Some(Box::new(number(2))),
            },
        ),
        declare("a", call("early", vec![number(5)])),
        declare("b", call("early", vec![number(-5)])),
        declare("result", binary(
            binary(name("a"), BinaryOperator::Multiplication, number(10)),
            BinaryOperator::Addition,
            name("b"),
        )),
    ];
    assert_eq!(run_statements(statements), Ok(RuntimeValue::Number(12)));
}

#[test]
fn an_anonymous_function_is_a_value() {
    let statements = vec![
        declare(
            "twice",
            Expr::Closure {
                params: vec!["n".to_owned()],
                body: Box::new(binary(name("n"), BinaryOperator::Multiplication, number(2))),
            },
        ),
        declare("result", call("twice", vec![number(21)])),
    ];
    let program = generate_bytecode(statements).unwrap();
    assert_eq!(program.functions[0].name, "closure");
    assert_eq!(program.functions[0].arity, 1);
    assert_eq!(run(program, false).map_err(|e| e.cause), Ok(RuntimeValue::Number(42)));
}

#[test]
fn trees_are_written_with_their_operators_in_front() {
    let program = Expr::Block {
        stmts: vec![
            declare("x", number(1)),
            define("f", &["a", "b"], Expr::Return { value: None }),
            Stmt::Expression { expr: assign("x", call("f", vec![number(1), boolean(true)])) },
        ],
        return_expr: Some(Box::new(Expr::While {
            condition: Box::new(boolean(false)),
            body: Box::new(Expr::If {
                condition: Box::new(atom(AtomicValue::Null)),
                body: Box::new(atom(AtomicValue::Text("t".to_owned()))),
                else_expr: Some(Box::new(Expr::Closure {
                    params: vec![],
                    body: Box::new(Expr::Return { value: Some(Box::new(number(-3))) }),
                })),
            }),
        })),
    };
    assert_eq!(
        program.to_string(),
        "(block (var x 1) (def f a b -> (return)) (expr (= x (call f 1 true))) \
         (while false (if null t (fn -> (return -3)))))"
    );
}
