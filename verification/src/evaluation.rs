//! What lowered code computes. For expressions made of literals, names,
//! operators and conditionals, the machine that runs the lowered code
//! yields the value of the expression, or fails as the expression does.
//! For programs that declare variables and evaluate such expressions, it
//! ends with the values of the variables on the stack, each at the slot
//! that the generator has counted for it.
use vstd::prelude::*;
use crate::bytecode::chunk::{ChunkView, ConstantView};
use crate::bytecode::expr::{
    binary_opcode, generated_atom, generated_binary, generated_expr, generated_if,
    generated_stmt, generated_stmts, jumped, landed, unary_opcode,
};
use crate::bytecode::state::{
    first_variable, frame_count, lemma_first_variable, next_slot, non_block_count,
    GenerationFault, ScopeView,
};
use crate::bytecode::{initial_generator, GeneratorView, MemoryAddressView, Opcode, VariableView};
use crate::syntax::tree::{AtomicValue, BinaryOperator, Expr, Stmt};
use crate::vm::runtime_error::RuntimeErrorCause;
use crate::vm::runtime_value::{value_of, ValueView};
use crate::vm::laws::{
    at, holds, lemma_constant_runs, lemma_holds_item, lemma_holds_part, lemma_jif_runs,
    lemma_jp_runs, lemma_landing, lemma_one_step, steady, yields,
};
use crate::vm::{
    binary_value, fresh_machine, lemma_advanced_add, lemma_steps_after, unary_value, VMView,
};

verus! {

/// The slot of the first of the variables that is called `name`.
pub open spec fn slot_of(locals: Seq<VariableView>, name: Seq<char>) -> usize {
    locals[first_variable(locals, name).unwrap()].index
}

/// The slot of each of the variables is among the first `count` of its
/// frame.
pub open spec fn within(locals: Seq<VariableView>, count: nat) -> bool {
    forall|i: int| 0 <= i < locals.len() ==> #[trigger] locals[i].index < count
}

/// The operands of the innermost frame begin with `env`.
pub open spec fn framed(vm: VMView, env: Seq<ValueView>) -> bool {
    &&& 0 <= vm.floor()
    &&& vm.floor() + env.len() <= vm.operands.len()
    &&& forall|i: int| 0 <= i < env.len() ==> vm.operands[vm.floor() + i] == env[i]
}

/// The expression is made of literals, operators, conditionals and the
/// names of `locals`.
pub open spec fn plain(expr: Expr, locals: Seq<VariableView>) -> bool
    decreases expr,
{
    match expr {
        Expr::Atom(atom) => match atom.val {
            AtomicValue::Identifier(name) => first_variable(locals, name@) is Some,
            _ => true,
        },
        Expr::Unary { op, rhs } => plain(*rhs, locals),
        Expr::Binary { lhs, op, rhs } => plain(*lhs, locals) && plain(*rhs, locals),
        Expr::If { condition, body, else_expr } => plain(*condition, locals) && plain(
            *body,
            locals,
        ) && match else_expr {
            Some(other) => plain(*other, locals),
            None => true,
        },
        _ => false,
    }
}

/// The constant that a literal is lowered into; none for null, which has an
/// instruction of its own.
pub open spec fn literal(value: AtomicValue) -> Option<ConstantView> {
    match value {
        AtomicValue::Number(n) => Some(ConstantView::Number(n)),
        AtomicValue::Boolean(b) => Some(ConstantView::Bool(b)),
        AtomicValue::Text(t) => Some(ConstantView::Text(t@)),
        _ => None,
    }
}

/// What a choice is worth: the first thing if the condition is true, the
/// second if it is false; an error if the condition is one, or is no
/// boolean.
pub open spec fn chosen(
    condition: Result<ValueView, RuntimeErrorCause>,
    first: Result<ValueView, RuntimeErrorCause>,
    second: Result<ValueView, RuntimeErrorCause>,
) -> Result<ValueView, RuntimeErrorCause> {
    match condition {
        Err(cause) => Err(cause),
        Ok(ValueView::Bool(true)) => first,
        Ok(ValueView::Bool(false)) => second,
        Ok(_) => Err(RuntimeErrorCause::ExpectedBool),
    }
}

/// The value of a plain expression where the variables have the values
/// `env`, each in its slot; or the error that the evaluation ends in. A
/// name is worth what its variable holds. Operands are evaluated from left
/// to right, and the first error ends the evaluation. `and` and `or`
/// evaluate their right side only where the left side leaves the result
/// open, and a conditional evaluates one of its branches; a conditional
/// without a second branch is null where its condition is false.
pub open spec fn value(expr: Expr, locals: Seq<VariableView>, env: Seq<ValueView>) -> Result<
    ValueView,
    RuntimeErrorCause,
>
    decreases expr,
{
    match expr {
        Expr::Atom(atom) => match atom.val {
            AtomicValue::Identifier(name) => Ok(env[slot_of(locals, name@) as int]),
            other => match literal(other) {
                Some(constant) => Ok(value_of(constant)),
                None => Ok(ValueView::Null),
            },
        },
        Expr::Unary { op, rhs } => match value(*rhs, locals, env) {
            Ok(operand) => unary_value(unary_opcode(op.val), operand),
            Err(cause) => Err(cause),
        },
        Expr::Binary { lhs, op, rhs } => match op.val {
            BinaryOperator::And => chosen(
                value(*lhs, locals, env),
                value(*rhs, locals, env),
                Ok(ValueView::Bool(false)),
            ),
            BinaryOperator::Or => chosen(
                value(*lhs, locals, env),
                Ok(ValueView::Bool(true)),
                value(*rhs, locals, env),
            ),
            _ => match value(*lhs, locals, env) {
                Err(cause) => Err(cause),
                Ok(left) => match value(*rhs, locals, env) {
                    Err(cause) => Err(cause),
                    Ok(right) => binary_value(binary_opcode(op.val), left, right),
                },
            },
        },
        Expr::If { condition, body, else_expr } => chosen(
            value(*condition, locals, env),
            value(*body, locals, env),
            match else_expr {
                Some(other) => value(*other, locals, env),
                None => Ok(ValueView::Null),
            },
        ),
        _ => Ok(ValueView::Null),
    }
}

/// The constants that a plain expression puts into the pool, in their
/// order.
pub open spec fn pool(expr: Expr, locals: Seq<VariableView>) -> Seq<ConstantView>
    decreases expr,
{
    match expr {
        Expr::Atom(atom) => match atom.val {
            AtomicValue::Identifier(name) => seq![
                ConstantView::MemoryAddress(MemoryAddressView::Local(slot_of(locals, name@))),
            ],
            other => match literal(other) {
                Some(constant) => seq![constant],
                None => Seq::empty(),
            },
        },
        Expr::Unary { op, rhs } => pool(*rhs, locals),
        Expr::Binary { lhs, op, rhs } => match op.val {
            BinaryOperator::And => (pool(*lhs, locals) + pool(*rhs, locals)).push(
                ConstantView::Bool(false),
            ),
            BinaryOperator::Or => pool(*lhs, locals).push(ConstantView::Bool(true)) + pool(
                *rhs,
                locals,
            ),
            _ => pool(*lhs, locals) + pool(*rhs, locals),
        },
        Expr::If { condition, body, else_expr } => pool(*condition, locals) + pool(
            *body,
            locals,
        ) + match else_expr {
            Some(other) => pool(*other, locals),
            None => Seq::empty(),
        },
        _ => Seq::empty(),
    }
}

/// The instructions of a choice between two pieces of code by the boolean
/// on top of the stack: a jump over the first piece that is taken when the
/// boolean is false, the first piece, a jump over the second piece, a
/// place to land for the first jump, the second piece, and a place to land
/// for the second jump.
pub open spec fn choice(first: Seq<Opcode>, second: Seq<Opcode>) -> Seq<Opcode> {
    seq![Opcode::Jif((first.len() + 2) as isize)] + first + seq![
        Opcode::Jp((second.len() + 2) as isize),
        Opcode::Pop(0),
    ] + second + seq![Opcode::Pop(0)]
}

/// The instructions that a plain expression is lowered into when the pool
/// holds `base` constants already.
pub open spec fn code(expr: Expr, base: nat, locals: Seq<VariableView>) -> Seq<Opcode>
    decreases expr,
{
    match expr {
        Expr::Atom(atom) => match atom.val {
            AtomicValue::Identifier(_) => seq![Opcode::Constant(base as usize), Opcode::Get],
            other => match literal(other) {
                Some(_) => seq![Opcode::Constant(base as usize)],
                None => seq![Opcode::Null],
            },
        },
        Expr::Unary { op, rhs } => code(*rhs, base, locals).push(unary_opcode(op.val)),
        Expr::Binary { lhs, op, rhs } => match op.val {
            BinaryOperator::And => code(*lhs, base, locals) + choice(
                code(*rhs, base + pool(*lhs, locals).len(), locals),
                seq![
                    Opcode::Constant(
                        (base + pool(*lhs, locals).len() + pool(*rhs, locals).len()) as usize,
                    ),
                ],
            ),
            BinaryOperator::Or => code(*lhs, base, locals) + choice(
                seq![Opcode::Constant((base + pool(*lhs, locals).len()) as usize)],
                code(*rhs, base + pool(*lhs, locals).len() + 1, locals),
            ),
            _ => (code(*lhs, base, locals) + code(
                *rhs,
                base + pool(*lhs, locals).len(),
                locals,
            )).push(binary_opcode(op.val)),
        },
        Expr::If { condition, body, else_expr } => code(*condition, base, locals) + choice(
            code(*body, base + pool(*condition, locals).len(), locals),
            match else_expr {
                Some(other) => code(
                    *other,
                    base + pool(*condition, locals).len() + pool(*body, locals).len(),
                    locals,
                ),
                None => seq![Opcode::Null],
            },
        ),
        _ => Seq::empty(),
    }
}

/// How many steps a choice takes after its condition: the jump, the piece
/// that is chosen, and what stands between the pieces and behind them.
pub open spec fn choice_cost(
    condition: Result<ValueView, RuntimeErrorCause>,
    first: nat,
    second: nat,
) -> nat {
    match condition {
        Ok(ValueView::Bool(true)) => first + 3,
        Ok(ValueView::Bool(false)) => second + 3,
        Ok(_) => 1,
        Err(_) => 0,
    }
}

/// How many steps the code of a plain expression takes at most.
pub open spec fn cost(expr: Expr, locals: Seq<VariableView>, env: Seq<ValueView>) -> nat
    decreases expr,
{
    match expr {
        Expr::Atom(atom) => if atom.val is Identifier {
            2
        } else {
            1
        },
        Expr::Unary { op, rhs } => cost(*rhs, locals, env) + 1,
        Expr::Binary { lhs, op, rhs } => match op.val {
            BinaryOperator::And => cost(*lhs, locals, env) + choice_cost(
                value(*lhs, locals, env),
                cost(*rhs, locals, env),
                1,
            ),
            BinaryOperator::Or => cost(*lhs, locals, env) + choice_cost(
                value(*lhs, locals, env),
                1,
                cost(*rhs, locals, env),
            ),
            _ => cost(*lhs, locals, env) + cost(*rhs, locals, env) + 1,
        },
        Expr::If { condition, body, else_expr } => cost(*condition, locals, env) + choice_cost(
            value(*condition, locals, env),
            cost(*body, locals, env),
            match else_expr {
                Some(other) => cost(*other, locals, env),
                None => 1,
            },
        ),
        _ => 0,
    }
}

/// No expression takes more steps than it has instructions.
pub proof fn lemma_cost_is_bounded(
    expr: Expr,
    base: nat,
    locals: Seq<VariableView>,
    env: Seq<ValueView>,
)
    requires
        plain(expr, locals),
    ensures
        cost(expr, locals, env) <= code(expr, base, locals).len(),
    decreases expr,
{
    match expr {
        Expr::Unary { op, rhs } => {
            lemma_cost_is_bounded(*rhs, base, locals, env);
        },
        Expr::Binary { lhs, op, rhs } => {
            lemma_cost_is_bounded(*lhs, base, locals, env);
            match op.val {
                BinaryOperator::And => {
                    lemma_cost_is_bounded(*rhs, base + pool(*lhs, locals).len(), locals, env);
                },
                BinaryOperator::Or => {
                    lemma_cost_is_bounded(*rhs, base + pool(*lhs, locals).len() + 1, locals, env);
                },
                _ => {
                    lemma_cost_is_bounded(*rhs, base + pool(*lhs, locals).len(), locals, env);
                },
            }
        },
        Expr::If { condition, body, else_expr } => {
            lemma_cost_is_bounded(*condition, base, locals, env);
            lemma_cost_is_bounded(*body, base + pool(*condition, locals).len(), locals, env);
            if let Some(other) = else_expr {
                lemma_cost_is_bounded(
                    *other,
                    base + pool(*condition, locals).len() + pool(*body, locals).len(),
                    locals,
                    env,
                );
            }
        },
        _ => {},
    }
}

/// With instructions and constants added to the current chunk.
pub open spec fn appended(
    generator: GeneratorView,
    instructions: Seq<Opcode>,
    constants: Seq<ConstantView>,
) -> GeneratorView {
    generator.with_chunk(
        ChunkView {
            opcodes: generator.opcodes() + instructions,
            constants: generator.constants() + constants,
        },
    )
}

/// There is a scope and a function, every open patch of the innermost scope
/// names an instruction that is written, and `more` instructions have room.
pub open spec fn roomy(generator: GeneratorView, more: nat) -> bool {
    &&& generator.scopes.len() > 0
    &&& generator.functions.len() > 0
    &&& forall|p: usize|
        generator.scopes.last().patches.contains(p) ==> p < generator.opcodes().len()
    &&& generator.opcodes().len() + more <= isize::MAX
}

/// Two generators are the same if they differ in nothing but, maybe, the
/// chunk of the current function, and that chunk has the same instructions
/// and the same constants in both.
pub proof fn lemma_same(a: GeneratorView, b: GeneratorView)
    requires
        a.scopes =~= b.scopes,
        a.finished == b.finished,
        a.functions.len() == b.functions.len(),
        a.functions.len() > 0,
        a.functions.drop_last() =~= b.functions.drop_last(),
        a.functions.last().name == b.functions.last().name,
        a.functions.last().arity == b.functions.last().arity,
        a.opcodes() =~= b.opcodes(),
        a.constants() =~= b.constants(),
    ensures
        a == b,
{
    assert(a.functions.last().chunk == b.functions.last().chunk);
    assert forall|i: int| 0 <= i < a.functions.len() implies a.functions[i] == b.functions[i] by {
        if i < a.functions.len() - 1 {
            assert(a.functions.drop_last()[i] == b.functions.drop_last()[i]);
        }
    }
    assert(a.functions =~= b.functions);
}

/// Adding in two steps is adding at once.
pub proof fn lemma_appended_twice(
    generator: GeneratorView,
    first: Seq<Opcode>,
    first_pool: Seq<ConstantView>,
    second: Seq<Opcode>,
    second_pool: Seq<ConstantView>,
)
    requires
        generator.functions.len() > 0,
    ensures
        appended(appended(generator, first, first_pool), second, second_pool) == appended(
            generator,
            first + second,
            first_pool + second_pool,
        ),
{
    let a = appended(appended(generator, first, first_pool), second, second_pool);
    let b = appended(generator, first + second, first_pool + second_pool);
    assert(a.opcodes() =~= b.opcodes());
    assert(a.constants() =~= b.constants());
    assert(a.functions.drop_last() =~= b.functions.drop_last());
    lemma_same(a, b);
}

/// How a choice is lowered: where the two pieces only add to the current
/// chunk, the jumps around them get the distances of the choice, and no
/// patch stays open. `tested` is the generator behind the condition.
pub proof fn lemma_choice_is_lowered(
    tested: GeneratorView,
    first: Seq<Opcode>,
    first_pool: Seq<ConstantView>,
    second: Seq<Opcode>,
    second_pool: Seq<ConstantView>,
)
    requires
        roomy(tested, choice(first, second).len()),
    ensures
        jumped(tested, Opcode::Jif(0)) is Ok,
        roomy(jumped(tested, Opcode::Jif(0)).unwrap().0, first.len()),
        ({
            let (taken, a) = jumped(tested, Opcode::Jif(0)).unwrap();
            let written = appended(taken, first, first_pool);
            &&& taken.constants() == tested.constants()
            &&& jumped(written, Opcode::Jp(0)) is Ok
            &&& landed(jumped(written, Opcode::Jp(0)).unwrap().0, a) is Ok
            &&& ({
                let (skipped, b) = jumped(written, Opcode::Jp(0)).unwrap();
                let otherwise = landed(skipped, a).unwrap();
                let both = appended(otherwise, second, second_pool);
                &&& roomy(otherwise, second.len())
                &&& otherwise.constants() == tested.constants() + first_pool
                &&& landed(both, b) == Ok::<GeneratorView, GenerationFault>(
                    appended(tested, choice(first, second), first_pool + second_pool),
                )
            })
        }),
{
    let (taken, a) = jumped(tested, Opcode::Jif(0)).unwrap();
    let written = appended(taken, first, first_pool);
    let (skipped, b) = jumped(written, Opcode::Jp(0)).unwrap();
    assert(written.opcodes()[a as int] == Opcode::Jif(0));
    assert(skipped.opcodes()[a as int] == Opcode::Jif(0));
    let padded = skipped.emit(Opcode::Pop(0));
    assert(padded.opcodes()[a as int] == Opcode::Jif(0));
    assert(padded.patch_fault(a) is None);
    let otherwise = landed(skipped, a).unwrap();
    assert(otherwise.constants() =~= tested.constants() + first_pool);
    let both = appended(otherwise, second, second_pool);
    assert(both.opcodes()[b as int] == Opcode::Jp(0));
    let last = both.emit(Opcode::Pop(0));
    assert(last.opcodes()[b as int] == Opcode::Jp(0));
    assert(last.scopes.last().patches.contains(b));
    assert(last.patch_fault(b) is None);
    let done = landed(both, b).unwrap();
    let expected = appended(tested, choice(first, second), first_pool + second_pool);
    assert(done.opcodes() =~= expected.opcodes());
    assert(done.constants() =~= expected.constants());
    assert(done.scopes.last().patches =~= tested.scopes.last().patches);
    assert(done.scopes.last() == tested.scopes.last());
    assert(done.scopes =~= expected.scopes);
    assert(done.functions.drop_last() =~= expected.functions.drop_last());
    lemma_same(done, expected);
}

/// Lowering a plain expression for which there is room never fails: it
/// adds the instructions and the constants of the expression to the
/// current chunk and changes nothing else.
pub proof fn lemma_plain_is_lowered(generator: GeneratorView, expr: Expr, locals: Seq<VariableView>)
    requires
        generator.scopes.len() > 0,
        generator.scopes.last().variables == locals,
        plain(expr, locals),
        roomy(generator, code(expr, generator.constants().len(), locals).len()),
    ensures
        generated_expr(generator, expr) == Ok::<GeneratorView, GenerationFault>(
            appended(
                generator,
                code(expr, generator.constants().len(), locals),
                pool(expr, locals),
            ),
        ),
    decreases expr,
{
    let base = generator.constants().len();
    let expected = appended(generator, code(expr, base, locals), pool(expr, locals));
    match expr {
        Expr::Atom(atom) => {
            let after = match atom.val {
                AtomicValue::Identifier(name) => generator.load(
                    ConstantView::MemoryAddress(MemoryAddressView::Local(slot_of(locals, name@))),
                ).emit(Opcode::Get),
                other => match literal(other) {
                    Some(constant) => generator.load(constant),
                    None => generator.emit(Opcode::Null),
                },
            };
            assert(generator.with_scopes(generator.scopes) == generator);
            assert(generated_atom(generator, atom.val) == Ok::<GeneratorView, GenerationFault>(
                after,
            ));
            assert(after.opcodes() =~= expected.opcodes());
            assert(after.constants() =~= expected.constants());
            assert(after.functions.drop_last() =~= expected.functions.drop_last());
            lemma_same(after, expected);
        },
        Expr::Unary { op, rhs } => {
            lemma_plain_is_lowered(generator, *rhs, locals);
            let inner = generated_expr(generator, *rhs).unwrap();
            let after = inner.emit(unary_opcode(op.val));
            assert(after.opcodes() =~= expected.opcodes());
            assert(after.functions.drop_last() =~= expected.functions.drop_last());
            lemma_same(after, expected);
            assert(generated_expr(generator, expr) == Ok::<GeneratorView, GenerationFault>(after));
        },
        Expr::Binary { lhs, op, rhs } => {
            lemma_binary_is_lowered(generator, expr, locals);
        },
        Expr::If { .. } => {
            lemma_if_is_lowered(generator, expr, locals);
        },
        _ => {},
    }
}

/// `lemma_plain_is_lowered`, for operations on two expressions.
#[verifier::rlimit(40)]
pub proof fn lemma_binary_is_lowered(
    generator: GeneratorView,
    expr: Expr,
    locals: Seq<VariableView>,
)
    requires
        generator.scopes.len() > 0,
        generator.scopes.last().variables == locals,
        expr is Binary,
        plain(expr, locals),
        roomy(generator, code(expr, generator.constants().len(), locals).len()),
    ensures
        generated_binary(generator, expr) == Ok::<GeneratorView, GenerationFault>(
            appended(
                generator,
                code(expr, generator.constants().len(), locals),
                pool(expr, locals),
            ),
        ),
    decreases expr, 0nat,
{
    let base = generator.constants().len();
    let expected = appended(generator, code(expr, base, locals), pool(expr, locals));
    if let Expr::Binary { lhs, op, rhs } = expr {
        lemma_plain_is_lowered(generator, *lhs, locals);
        let left = generated_expr(generator, *lhs).unwrap();
        assert(left.constants().len() == base + pool(*lhs, locals).len());
        match op.val {
            BinaryOperator::And => {
                let first = code(*rhs, base + pool(*lhs, locals).len(), locals);
                let index = (base + pool(*lhs, locals).len() + pool(*rhs, locals).len()) as usize;
                let second = seq![Opcode::Constant(index)];
                let second_pool = seq![ConstantView::Bool(false)];
                lemma_choice_is_lowered(left, first, pool(*rhs, locals), second, second_pool);
                let (tested, a) = jumped(left, Opcode::Jif(0)).unwrap();
                lemma_plain_is_lowered(tested, *rhs, locals);
                let right = generated_expr(tested, *rhs).unwrap();
                let (skipped, b) = jumped(right, Opcode::Jp(0)).unwrap();
                let otherwise = landed(skipped, a).unwrap();
                let loaded = otherwise.load(ConstantView::Bool(false));
                let both = appended(otherwise, second, second_pool);
                assert(loaded.opcodes() =~= both.opcodes());
                assert(loaded.constants() =~= both.constants());
                assert(loaded.functions.drop_last() =~= both.functions.drop_last());
                lemma_same(loaded, both);
                lemma_appended_twice(
                    generator,
                    code(*lhs, base, locals),
                    pool(*lhs, locals),
                    choice(first, second),
                    pool(*rhs, locals) + second_pool,
                );
                assert(pool(*lhs, locals) + (pool(*rhs, locals) + second_pool)
                    =~= pool(expr, locals));
            },
            BinaryOperator::Or => {
                let index = (base + pool(*lhs, locals).len()) as usize;
                let first = seq![Opcode::Constant(index)];
                let first_pool = seq![ConstantView::Bool(true)];
                let second = code(*rhs, base + pool(*lhs, locals).len() + 1, locals);
                lemma_choice_is_lowered(left, first, first_pool, second, pool(*rhs, locals));
                let (tested, a) = jumped(left, Opcode::Jif(0)).unwrap();
                let taken = tested.load(ConstantView::Bool(true));
                let written = appended(tested, first, first_pool);
                assert(taken.opcodes() =~= written.opcodes());
                assert(taken.constants() =~= written.constants());
                assert(taken.functions.drop_last() =~= written.functions.drop_last());
                lemma_same(taken, written);
                let (skipped, b) = jumped(taken, Opcode::Jp(0)).unwrap();
                let otherwise = landed(skipped, a).unwrap();
                assert(otherwise.constants().len() == base + pool(*lhs, locals).len() + 1);
                lemma_plain_is_lowered(otherwise, *rhs, locals);
                lemma_appended_twice(
                    generator,
                    code(*lhs, base, locals),
                    pool(*lhs, locals),
                    choice(first, second),
                    first_pool + pool(*rhs, locals),
                );
                assert(pool(*lhs, locals) + (first_pool + pool(*rhs, locals))
                    =~= pool(expr, locals));
            },
            other => {
                lemma_plain_is_lowered(left, *rhs, locals);
                let right = generated_expr(left, *rhs).unwrap();
                let after = right.emit(binary_opcode(other));
                assert(right.opcodes() =~= generator.opcodes() + (code(*lhs, base, locals) + code(
                    *rhs,
                    base + pool(*lhs, locals).len(),
                    locals,
                )));
                assert(right.constants() =~= generator.constants() + pool(expr, locals));
                assert(after.opcodes() =~= expected.opcodes());
                assert(after.functions.drop_last() =~= expected.functions.drop_last());
                lemma_same(after, expected);
            },
        }
    }
}

/// `lemma_plain_is_lowered`, for conditionals.
#[verifier::rlimit(40)]
pub proof fn lemma_if_is_lowered(generator: GeneratorView, expr: Expr, locals: Seq<VariableView>)
    requires
        generator.scopes.len() > 0,
        generator.scopes.last().variables == locals,
        expr is If,
        plain(expr, locals),
        roomy(generator, code(expr, generator.constants().len(), locals).len()),
    ensures
        generated_if(generator, expr) == Ok::<GeneratorView, GenerationFault>(
            appended(
                generator,
                code(expr, generator.constants().len(), locals),
                pool(expr, locals),
            ),
        ),
    decreases expr, 0nat,
{
    let base = generator.constants().len();
    if let Expr::If { condition, body, else_expr } = expr {
        lemma_plain_is_lowered(generator, *condition, locals);
        let tested = generated_expr(generator, *condition).unwrap();
        let inner = base + pool(*condition, locals).len();
        assert(tested.constants().len() == inner);
        let first = code(*body, inner, locals);
        let (second, second_pool) = match else_expr {
            Some(other) => (
                code(*other, inner + pool(*body, locals).len(), locals),
                pool(*other, locals),
            ),
            None => (seq![Opcode::Null], Seq::<ConstantView>::empty()),
        };
        lemma_choice_is_lowered(tested, first, pool(*body, locals), second, second_pool);
        let (taken, a) = jumped(tested, Opcode::Jif(0)).unwrap();
        lemma_plain_is_lowered(taken, *body, locals);
        let written = generated_expr(taken, *body).unwrap();
        let (skipped, b) = jumped(written, Opcode::Jp(0)).unwrap();
        let otherwise = landed(skipped, a).unwrap();
        assert(otherwise.constants().len() == inner + pool(*body, locals).len());
        let both = appended(otherwise, second, second_pool);
        match else_expr {
            Some(other) => {
                lemma_plain_is_lowered(otherwise, *other, locals);
            },
            None => {
                let nulled = otherwise.emit(Opcode::Null);
                assert(nulled.opcodes() =~= both.opcodes());
                assert(nulled.constants() =~= both.constants());
                assert(nulled.functions.drop_last() =~= both.functions.drop_last());
                lemma_same(nulled, both);
            },
        }
        lemma_appended_twice(
            generator,
            code(*condition, base, locals),
            pool(*condition, locals),
            choice(first, second),
            pool(*body, locals) + second_pool,
        );
        assert(pool(*condition, locals) + (pool(*body, locals) + second_pool)
            =~= pool(expr, locals));
    }
}

/// The code and the constants of `expr` stand in the chunk that the
/// machine runs, the code from the pointer on and the constants from
/// `base` on; and the first operands of the frame are the values of the
/// variables.
pub open spec fn seated(
    vm: VMView,
    expr: Expr,
    base: nat,
    locals: Seq<VariableView>,
    env: Seq<ValueView>,
) -> bool {
    &&& steady(vm)
    &&& holds(vm.call_stack.last().chunk.opcodes, vm.ip as int, code(expr, base, locals))
    &&& holds(vm.call_stack.last().chunk.constants, base as int, pool(expr, locals))
    &&& framed(vm, env)
    &&& within(locals, env.len())
}

/// The first piece of a choice, run from behind the jump at the start,
/// ends behind the choice.
pub proof fn lemma_first_choice_runs(
    vm: VMView,
    first: Seq<Opcode>,
    second: Seq<Opcode>,
    steps: nat,
    computed: Result<ValueView, RuntimeErrorCause>,
)
    requires
        steady(vm),
        holds(vm.call_stack.last().chunk.opcodes, vm.ip - 1, choice(first, second)),
        yields(vm, steps, first.len(), computed),
    ensures
        yields(vm, steps + 2, (first.len() + second.len() + 3) as nat, computed),
{
    let opcodes = vm.call_stack.last().chunk.opcodes;
    let all = choice(first, second);
    lemma_advanced_add(vm, steps, 2);
    if let Ok(result) = computed {
        let jumping = at(vm, vm.ip + first.len(), vm.operands.push(result));
        lemma_holds_item(opcodes, vm.ip - 1, all, (1 + first.len()) as int);
        lemma_jp_runs(jumping, second.len() + 2);
        let landing = at(vm, vm.ip + first.len() + second.len() + 2, vm.operands.push(result));
        lemma_holds_item(opcodes, vm.ip - 1, all, (first.len() + second.len() + 3) as int);
        lemma_landing(landing);
        lemma_advanced_add(jumping, 1, 1);
    }
}

/// The second piece of a choice, run from the place where the jump at the
/// start lands, ends behind the choice.
pub proof fn lemma_second_choice_runs(
    vm: VMView,
    first: Seq<Opcode>,
    second: Seq<Opcode>,
    steps: nat,
    computed: Result<ValueView, RuntimeErrorCause>,
)
    requires
        steady(vm),
        holds(
            vm.call_stack.last().chunk.opcodes,
            vm.ip - first.len() - 2,
            choice(first, second),
        ),
        yields(at(vm, vm.ip + 1, vm.operands), steps, second.len(), computed),
    ensures
        yields(vm, steps + 2, second.len() + 2, computed),
{
    let opcodes = vm.call_stack.last().chunk.opcodes;
    let all = choice(first, second);
    let start = vm.ip - first.len() - 2;
    lemma_holds_item(opcodes, start, all, (first.len() + 2) as int);
    lemma_landing(vm);
    let started = at(vm, vm.ip + 1, vm.operands);
    lemma_advanced_add(vm, 1, steps + 1);
    lemma_advanced_add(started, steps, 1);
    if let Ok(result) = computed {
        let last = at(vm, vm.ip + 1 + second.len(), vm.operands.push(result));
        lemma_holds_item(opcodes, start, all, (first.len() + second.len() + 3) as int);
        lemma_landing(last);
    }
}

/// What the code of a choice does: with a boolean on top it runs the piece
/// that the boolean chooses, and ends behind the choice with the value of
/// that piece in place of the boolean. `first_steps` and `second_steps`
/// are the steps that the pieces take, `first_value` and `second_value`
/// what they compute.
pub proof fn lemma_choice_runs(
    vm: VMView,
    first: Seq<Opcode>,
    second: Seq<Opcode>,
    first_steps: nat,
    second_steps: nat,
    first_value: Result<ValueView, RuntimeErrorCause>,
    second_value: Result<ValueView, RuntimeErrorCause>,
)
    requires
        steady(vm),
        vm.available() >= 1,
        holds(vm.call_stack.last().chunk.opcodes, vm.ip as int, choice(first, second)),
        vm.top() == ValueView::Bool(true) ==> yields(
            at(vm, vm.ip + 1, vm.operands.drop_last()),
            first_steps,
            first.len(),
            first_value,
        ),
        vm.top() == ValueView::Bool(false) ==> yields(
            at(vm, vm.ip + first.len() + 3, vm.operands.drop_last()),
            second_steps,
            second.len(),
            second_value,
        ),
    ensures
        vm.advanced(choice_cost(Ok(vm.top()), first_steps, second_steps)) == match chosen(
            Ok(vm.top()),
            first_value,
            second_value,
        ) {
            Ok(result) => Some(
                Ok::<VMView, RuntimeErrorCause>(
                    at(
                        vm,
                        vm.ip + choice(first, second).len(),
                        vm.operands.drop_last().push(result),
                    ),
                ),
            ),
            Err(cause) => Some(Err::<VMView, RuntimeErrorCause>(cause)),
        },
{
    let opcodes = vm.call_stack.last().chunk.opcodes;
    let all = choice(first, second);
    let rest = vm.operands.drop_last();
    lemma_holds_item(opcodes, vm.ip as int, all, 0);
    lemma_jif_runs(vm, first.len() + 2);
    match vm.top() {
        ValueView::Bool(true) => {
            let started = at(vm, vm.ip + 1, rest);
            lemma_first_choice_runs(started, first, second, first_steps, first_value);
            lemma_advanced_add(vm, 1, first_steps + 2);
        },
        ValueView::Bool(false) => {
            let landing = at(vm, vm.ip + first.len() + 2, rest);
            assert(at(landing, landing.ip + 1, rest) == at(vm, vm.ip + first.len() + 3, rest));
            lemma_second_choice_runs(landing, first, second, second_steps, second_value);
            lemma_advanced_add(vm, 1, second_steps + 2);
        },
        _ => {},
    }
}

/// The code of a literal computes its value, and the code of a name reads
/// the value of the variable.
pub proof fn lemma_atom_runs(
    vm: VMView,
    expr: Expr,
    base: nat,
    locals: Seq<VariableView>,
    env: Seq<ValueView>,
)
    requires
        expr is Atom,
        plain(expr, locals),
        seated(vm, expr, base, locals, env),
    ensures
        yields(
            vm,
            cost(expr, locals, env),
            code(expr, base, locals).len(),
            value(expr, locals, env),
        ),
{
    let chunk = vm.call_stack.last().chunk;
    lemma_one_step(vm);
    lemma_holds_item(chunk.opcodes, vm.ip as int, code(expr, base, locals), 0);
    if let Expr::Atom(atom) = expr {
        if let AtomicValue::Identifier(name) = atom.val {
            let address = MemoryAddressView::Local(slot_of(locals, name@));
            lemma_first_variable(locals, name@);
            lemma_holds_item(chunk.opcodes, vm.ip as int, code(expr, base, locals), 1);
            lemma_holds_item(chunk.constants, base as int, pool(expr, locals), 0);
            let reading = at(vm, vm.ip + 1, vm.operands.push(ValueView::MemoryAddress(address)));
            lemma_one_step(reading);
            assert(reading.dropped(1).operands =~= vm.operands);
            assert(vm.operands[vm.floor() + slot_of(locals, name@)] == env[slot_of(
                locals,
                name@,
            ) as int]);
            lemma_advanced_add(vm, 1, 1);
        } else if literal(atom.val) is Some {
            lemma_holds_item(chunk.constants, base as int, pool(expr, locals), 0);
        }
    }
}

/// The code of an operation on one expression computes its value if the
/// code of the operand does.
pub proof fn lemma_unary_runs(
    vm: VMView,
    expr: Expr,
    base: nat,
    locals: Seq<VariableView>,
    env: Seq<ValueView>,
)
    requires
        expr is Unary,
        plain(expr, locals),
        seated(vm, expr, base, locals, env),
        yields(
            vm,
            cost(*expr->Unary_rhs, locals, env),
            code(*expr->Unary_rhs, base, locals).len(),
            value(*expr->Unary_rhs, locals, env),
        ),
    ensures
        yields(
            vm,
            cost(expr, locals, env),
            code(expr, base, locals).len(),
            value(expr, locals, env),
        ),
{
    if let Expr::Unary { op, rhs } = expr {
        let chunk = vm.call_stack.last().chunk;
        let inner = code(*rhs, base, locals);
        lemma_advanced_add(vm, cost(*rhs, locals, env), 1);
        if let Ok(operand) = value(*rhs, locals, env) {
            let reached = at(vm, vm.ip + inner.len(), vm.operands.push(operand));
            lemma_one_step(reached);
            lemma_holds_item(
                chunk.opcodes,
                vm.ip as int,
                code(expr, base, locals),
                inner.len() as int,
            );
            assert(reached.next() == unary_opcode(op.val));
            assert(reached.dropped(1).operands =~= vm.operands);
        }
    }
}

/// The code of an operation that evaluates both its sides computes its
/// value if the code of the left side does, and the code of the right side
/// does after it.
pub proof fn lemma_binary_runs(
    vm: VMView,
    expr: Expr,
    base: nat,
    locals: Seq<VariableView>,
    env: Seq<ValueView>,
)
    requires
        expr matches Expr::Binary { op, .. } && op.val != BinaryOperator::And && op.val
            != BinaryOperator::Or,
        plain(expr, locals),
        seated(vm, expr, base, locals, env),
        yields(
            vm,
            cost(*expr->Binary_lhs, locals, env),
            code(*expr->Binary_lhs, base, locals).len(),
            value(*expr->Binary_lhs, locals, env),
        ),
        value(*expr->Binary_lhs, locals, env) matches Ok(left) ==> yields(
            at(vm, vm.ip + code(*expr->Binary_lhs, base, locals).len(), vm.operands.push(left)),
            cost(*expr->Binary_rhs, locals, env),
            code(*expr->Binary_rhs, base + pool(*expr->Binary_lhs, locals).len(), locals).len(),
            value(*expr->Binary_rhs, locals, env),
        ),
    ensures
        yields(
            vm,
            cost(expr, locals, env),
            code(expr, base, locals).len(),
            value(expr, locals, env),
        ),
{
    if let Expr::Binary { lhs, op, rhs } = expr {
        let chunk = vm.call_stack.last().chunk;
        let instructions = code(expr, base, locals);
        let first = code(*lhs, base, locals);
        let second = code(*rhs, base + pool(*lhs, locals).len(), locals);
        assert(instructions.len() == first.len() + (second.len() + 1));
        lemma_advanced_add(vm, cost(*lhs, locals, env), cost(*rhs, locals, env) + 1);
        if let Ok(left) = value(*lhs, locals, env) {
            let middle = at(vm, vm.ip + first.len(), vm.operands.push(left));
            lemma_advanced_add(middle, cost(*rhs, locals, env), 1);
            if let Ok(right) = value(*rhs, locals, env) {
                let last = at(middle, middle.ip + second.len(), middle.operands.push(right));
                lemma_one_step(last);
                lemma_holds_item(
                    chunk.opcodes,
                    vm.ip as int,
                    instructions,
                    (first.len() + second.len()) as int,
                );
                assert(last.next() == binary_opcode(op.val));
                assert(last.dropped(2).operands =~= vm.operands);
                assert(last.second() == left);
                assert(last.top() == right);
            }
        }
    }
}

/// What comes after a condition: where the code of the condition yields
/// its value and the choice behind it runs as `lemma_choice_runs` says, the
/// two together yield what is chosen.
pub proof fn lemma_condition_then_choice(
    vm: VMView,
    steps: nat,
    length: nat,
    condition: Result<ValueView, RuntimeErrorCause>,
    first: Seq<Opcode>,
    second: Seq<Opcode>,
    first_steps: nat,
    second_steps: nat,
    first_value: Result<ValueView, RuntimeErrorCause>,
    second_value: Result<ValueView, RuntimeErrorCause>,
)
    requires
        yields(vm, steps, length, condition),
        condition matches Ok(decided) ==> at(
            vm,
            vm.ip + length,
            vm.operands.push(decided),
        ).advanced(choice_cost(condition, first_steps, second_steps)) == match chosen(
            condition,
            first_value,
            second_value,
        ) {
            Ok(result) => Some(
                Ok::<VMView, RuntimeErrorCause>(
                    at(
                        vm,
                        vm.ip + length + choice(first, second).len(),
                        vm.operands.push(result),
                    ),
                ),
            ),
            Err(cause) => Some(Err::<VMView, RuntimeErrorCause>(cause)),
        },
    ensures
        yields(
            vm,
            steps + choice_cost(condition, first_steps, second_steps),
            length + choice(first, second).len(),
            chosen(condition, first_value, second_value),
        ),
{
    lemma_advanced_add(vm, steps, choice_cost(condition, first_steps, second_steps));
}

/// What the code of a plain expression does to a machine in which it is
/// seated: after the steps that the expression takes, the value of the
/// expression lies on top of the operands that were there, and the pointer
/// stands behind the code; or a step has failed with the error that the
/// evaluation of the expression ends in.
pub proof fn lemma_plain_code_runs(
    vm: VMView,
    expr: Expr,
    base: nat,
    locals: Seq<VariableView>,
    env: Seq<ValueView>,
)
    requires
        plain(expr, locals),
        seated(vm, expr, base, locals, env),
    ensures
        yields(
            vm,
            cost(expr, locals, env),
            code(expr, base, locals).len(),
            value(expr, locals, env),
        ),
    decreases expr, 1nat,
{
    let chunk = vm.call_stack.last().chunk;
    match expr {
        Expr::Atom(_) => {
            lemma_atom_runs(vm, expr, base, locals, env);
        },
        Expr::Unary { op, rhs } => {
            let inner = code(*rhs, base, locals);
            assert(code(expr, base, locals).subrange(0, inner.len() as int) =~= inner);
            lemma_holds_part(chunk.opcodes, vm.ip as int, code(expr, base, locals), 0, inner);
            lemma_plain_code_runs(vm, *rhs, base, locals, env);
            lemma_unary_runs(vm, expr, base, locals, env);
        },
        Expr::Binary { lhs, op, rhs } => {
            match op.val {
                BinaryOperator::And => {
                    lemma_and_runs(vm, expr, base, locals, env);
                },
                BinaryOperator::Or => {
                    lemma_or_runs(vm, expr, base, locals, env);
                },
                _ => {
                    let first = code(*lhs, base, locals);
                    let shifted = base + pool(*lhs, locals).len();
                    let second = code(*rhs, shifted, locals);
                    assert(code(expr, base, locals).subrange(0, first.len() as int) =~= first);
                    assert(code(expr, base, locals).subrange(
                        first.len() as int,
                        (first.len() + second.len()) as int,
                    ) =~= second);
                    assert(pool(expr, locals).subrange(0, pool(*lhs, locals).len() as int)
                        =~= pool(*lhs, locals));
                    assert(pool(expr, locals).subrange(
                        pool(*lhs, locals).len() as int,
                        pool(expr, locals).len() as int,
                    ) =~= pool(*rhs, locals));
                    lemma_holds_part(
                        chunk.opcodes,
                        vm.ip as int,
                        code(expr, base, locals),
                        0,
                        first,
                    );
                    lemma_holds_part(
                        chunk.opcodes,
                        vm.ip as int,
                        code(expr, base, locals),
                        first.len() as int,
                        second,
                    );
                    lemma_holds_part(
                        chunk.constants,
                        base as int,
                        pool(expr, locals),
                        0,
                        pool(*lhs, locals),
                    );
                    lemma_holds_part(
                        chunk.constants,
                        base as int,
                        pool(expr, locals),
                        pool(*lhs, locals).len() as int,
                        pool(*rhs, locals),
                    );
                    lemma_plain_code_runs(vm, *lhs, base, locals, env);
                    if let Ok(left) = value(*lhs, locals, env) {
                        let middle = at(vm, vm.ip + first.len(), vm.operands.push(left));
                        lemma_plain_code_runs(middle, *rhs, shifted, locals, env);
                    }
                    lemma_binary_runs(vm, expr, base, locals, env);
                },
            }
        },
        Expr::If { .. } => {
            lemma_if_runs(vm, expr, base, locals, env);
        },
        _ => {},
    }
}

/// `lemma_plain_code_runs`, for `and`.
#[verifier::rlimit(40)]
pub proof fn lemma_and_runs(
    vm: VMView,
    expr: Expr,
    base: nat,
    locals: Seq<VariableView>,
    env: Seq<ValueView>,
)
    requires
        expr matches Expr::Binary { op, .. } && op.val == BinaryOperator::And,
        plain(expr, locals),
        seated(vm, expr, base, locals, env),
    ensures
        yields(
            vm,
            cost(expr, locals, env),
            code(expr, base, locals).len(),
            value(expr, locals, env),
        ),
    decreases expr, 0nat,
{
    if let Expr::Binary { lhs, op, rhs } = expr {
        let chunk = vm.call_stack.last().chunk;
        let all = code(expr, base, locals);
        let left_code = code(*lhs, base, locals);
        let shifted = base + pool(*lhs, locals).len();
        let first = code(*rhs, shifted, locals);
        let index = shifted + pool(*rhs, locals).len();
        let second = seq![Opcode::Constant(index as usize)];
        let fork = choice(first, second);
        assert(all.subrange(0, left_code.len() as int) =~= left_code);
        assert(all.subrange(left_code.len() as int, all.len() as int) =~= fork);
        assert(fork.subrange(1, (1 + first.len()) as int) =~= first);
        assert(pool(expr, locals).subrange(0, pool(*lhs, locals).len() as int)
            =~= pool(*lhs, locals));
        assert(pool(expr, locals).subrange(
            pool(*lhs, locals).len() as int,
            (pool(*lhs, locals).len() + pool(*rhs, locals).len()) as int,
        ) =~= pool(*rhs, locals));
        lemma_holds_part(chunk.opcodes, vm.ip as int, all, 0, left_code);
        lemma_holds_part(chunk.opcodes, vm.ip as int, all, left_code.len() as int, fork);
        lemma_holds_part(chunk.opcodes, vm.ip + left_code.len(), fork, 1, first);
        lemma_holds_part(chunk.constants, base as int, pool(expr, locals), 0, pool(*lhs, locals));
        lemma_holds_part(
            chunk.constants,
            base as int,
            pool(expr, locals),
            pool(*lhs, locals).len() as int,
            pool(*rhs, locals),
        );
        lemma_plain_code_runs(vm, *lhs, base, locals, env);
        if let Ok(decided) = value(*lhs, locals, env) {
            let deciding = at(vm, vm.ip + left_code.len(), vm.operands.push(decided));
            assert(deciding.operands.drop_last() =~= vm.operands);
            if decided == ValueView::Bool(true) {
                lemma_plain_code_runs(
                    at(deciding, deciding.ip + 1, vm.operands),
                    *rhs,
                    shifted,
                    locals,
                    env,
                );
            }
            if decided == ValueView::Bool(false) {
                let loading = at(deciding, deciding.ip + first.len() + 3, vm.operands);
                lemma_holds_item(chunk.opcodes, deciding.ip as int, fork, (first.len() + 3) as int);
                lemma_holds_item(
                    chunk.constants,
                    base as int,
                    pool(expr, locals),
                    (pool(*lhs, locals).len() + pool(*rhs, locals).len()) as int,
                );
                lemma_constant_runs(loading, index, ConstantView::Bool(false));
            }
            lemma_choice_runs(
                deciding,
                first,
                second,
                cost(*rhs, locals, env),
                1,
                value(*rhs, locals, env),
                Ok(ValueView::Bool(false)),
            );
        }
        lemma_condition_then_choice(
            vm,
            cost(*lhs, locals, env),
            left_code.len(),
            value(*lhs, locals, env),
            first,
            second,
            cost(*rhs, locals, env),
            1,
            value(*rhs, locals, env),
            Ok(ValueView::Bool(false)),
        );
    }
}

/// `lemma_plain_code_runs`, for `or`.
#[verifier::rlimit(40)]
pub proof fn lemma_or_runs(
    vm: VMView,
    expr: Expr,
    base: nat,
    locals: Seq<VariableView>,
    env: Seq<ValueView>,
)
    requires
        expr matches Expr::Binary { op, .. } && op.val == BinaryOperator::Or,
        plain(expr, locals),
        seated(vm, expr, base, locals, env),
    ensures
        yields(
            vm,
            cost(expr, locals, env),
            code(expr, base, locals).len(),
            value(expr, locals, env),
        ),
    decreases expr, 0nat,
{
    if let Expr::Binary { lhs, op, rhs } = expr {
        let chunk = vm.call_stack.last().chunk;
        let all = code(expr, base, locals);
        let left_code = code(*lhs, base, locals);
        let index = base + pool(*lhs, locals).len();
        let first = seq![Opcode::Constant(index as usize)];
        let shifted = index + 1;
        let second = code(*rhs, shifted, locals);
        let fork = choice(first, second);
        assert(all.subrange(0, left_code.len() as int) =~= left_code);
        assert(all.subrange(left_code.len() as int, all.len() as int) =~= fork);
        assert(fork.subrange(4, (4 + second.len()) as int) =~= second);
        assert(pool(expr, locals).subrange(0, pool(*lhs, locals).len() as int)
            =~= pool(*lhs, locals));
        assert(pool(expr, locals).subrange(
            (pool(*lhs, locals).len() + 1) as int,
            (pool(*lhs, locals).len() + 1 + pool(*rhs, locals).len()) as int,
        ) =~= pool(*rhs, locals));
        lemma_holds_part(chunk.opcodes, vm.ip as int, all, 0, left_code);
        lemma_holds_part(chunk.opcodes, vm.ip as int, all, left_code.len() as int, fork);
        lemma_holds_part(chunk.opcodes, vm.ip + left_code.len(), fork, 4, second);
        lemma_holds_part(chunk.constants, base as int, pool(expr, locals), 0, pool(*lhs, locals));
        lemma_holds_part(
            chunk.constants,
            base as int,
            pool(expr, locals),
            (pool(*lhs, locals).len() + 1) as int,
            pool(*rhs, locals),
        );
        lemma_plain_code_runs(vm, *lhs, base, locals, env);
        if let Ok(decided) = value(*lhs, locals, env) {
            let deciding = at(vm, vm.ip + left_code.len(), vm.operands.push(decided));
            assert(deciding.operands.drop_last() =~= vm.operands);
            if decided == ValueView::Bool(true) {
                let loading = at(deciding, deciding.ip + 1, vm.operands);
                lemma_holds_item(chunk.opcodes, deciding.ip as int, fork, 1);
                lemma_holds_item(
                    chunk.constants,
                    base as int,
                    pool(expr, locals),
                    pool(*lhs, locals).len() as int,
                );
                lemma_constant_runs(loading, index, ConstantView::Bool(true));
            }
            if decided == ValueView::Bool(false) {
                lemma_plain_code_runs(
                    at(deciding, deciding.ip + 4, vm.operands),
                    *rhs,
                    shifted,
                    locals,
                    env,
                );
            }
            lemma_choice_runs(
                deciding,
                first,
                second,
                1,
                cost(*rhs, locals, env),
                Ok(ValueView::Bool(true)),
                value(*rhs, locals, env),
            );
        }
        lemma_condition_then_choice(
            vm,
            cost(*lhs, locals, env),
            left_code.len(),
            value(*lhs, locals, env),
            first,
            second,
            1,
            cost(*rhs, locals, env),
            Ok(ValueView::Bool(true)),
            value(*rhs, locals, env),
        );
    }
}

/// `lemma_plain_code_runs`, for conditionals.
#[verifier::rlimit(40)]
pub proof fn lemma_if_runs(
    vm: VMView,
    expr: Expr,
    base: nat,
    locals: Seq<VariableView>,
    env: Seq<ValueView>,
)
    requires
        expr is If,
        plain(expr, locals),
        seated(vm, expr, base, locals, env),
    ensures
        yields(
            vm,
            cost(expr, locals, env),
            code(expr, base, locals).len(),
            value(expr, locals, env),
        ),
    decreases expr, 0nat,
{
    if let Expr::If { condition, body, else_expr } = expr {
        let chunk = vm.call_stack.last().chunk;
        let all = code(expr, base, locals);
        let test = code(*condition, base, locals);
        let inner = base + pool(*condition, locals).len();
        let first = code(*body, inner, locals);
        let outer = inner + pool(*body, locals).len();
        let second = match else_expr {
            Some(other) => code(*other, outer, locals),
            None => seq![Opcode::Null],
        };
        let second_pool = match else_expr {
            Some(other) => pool(*other, locals),
            None => Seq::<ConstantView>::empty(),
        };
        let second_steps = match else_expr {
            Some(other) => cost(*other, locals, env),
            None => 1nat,
        };
        let second_value = match else_expr {
            Some(other) => value(*other, locals, env),
            None => Ok(ValueView::Null),
        };
        let fork = choice(first, second);
        assert(all.subrange(0, test.len() as int) =~= test);
        assert(all.subrange(test.len() as int, all.len() as int) =~= fork);
        assert(fork.subrange(1, (1 + first.len()) as int) =~= first);
        assert(fork.subrange((first.len() + 3) as int, (first.len() + 3 + second.len()) as int)
            =~= second);
        assert(pool(expr, locals).subrange(0, pool(*condition, locals).len() as int)
            =~= pool(*condition, locals));
        assert(pool(expr, locals).subrange(
            pool(*condition, locals).len() as int,
            (pool(*condition, locals).len() + pool(*body, locals).len()) as int,
        ) =~= pool(*body, locals));
        assert(pool(expr, locals).subrange(
            (pool(*condition, locals).len() + pool(*body, locals).len()) as int,
            pool(expr, locals).len() as int,
        ) =~= second_pool);
        lemma_holds_part(chunk.opcodes, vm.ip as int, all, 0, test);
        lemma_holds_part(chunk.opcodes, vm.ip as int, all, test.len() as int, fork);
        lemma_holds_part(chunk.opcodes, vm.ip + test.len(), fork, 1, first);
        lemma_holds_part(chunk.opcodes, vm.ip + test.len(), fork, (first.len() + 3) as int, second);
        lemma_holds_part(
            chunk.constants,
            base as int,
            pool(expr, locals),
            0,
            pool(*condition, locals),
        );
        lemma_holds_part(
            chunk.constants,
            base as int,
            pool(expr, locals),
            pool(*condition, locals).len() as int,
            pool(*body, locals),
        );
        lemma_holds_part(
            chunk.constants,
            base as int,
            pool(expr, locals),
            (pool(*condition, locals).len() + pool(*body, locals).len()) as int,
            second_pool,
        );
        lemma_plain_code_runs(vm, *condition, base, locals, env);
        if let Ok(decided) = value(*condition, locals, env) {
            let deciding = at(vm, vm.ip + test.len(), vm.operands.push(decided));
            assert(deciding.operands.drop_last() =~= vm.operands);
            if decided == ValueView::Bool(true) {
                lemma_plain_code_runs(
                    at(deciding, deciding.ip + 1, vm.operands),
                    *body,
                    inner,
                    locals,
                    env,
                );
            }
            if decided == ValueView::Bool(false) {
                let started = at(deciding, deciding.ip + first.len() + 3, vm.operands);
                match else_expr {
                    Some(other) => {
                        lemma_plain_code_runs(started, *other, outer, locals, env);
                    },
                    None => {
                        lemma_holds_item(chunk.opcodes, started.ip as int, second, 0);
                        lemma_one_step(started);
                    },
                }
            }
            lemma_choice_runs(
                deciding,
                first,
                second,
                cost(*body, locals, env),
                second_steps,
                value(*body, locals, env),
                second_value,
            );
        }
        lemma_condition_then_choice(
            vm,
            cost(*condition, locals, env),
            test.len(),
            value(*condition, locals, env),
            first,
            second,
            cost(*body, locals, env),
            second_steps,
            value(*body, locals, env),
            second_value,
        );
    }
}

/// From tree to value: the code that a plain expression without names is
/// lowered into, run on a machine that has just been made, yields the
/// value of the expression and leaves the operand stack empty, or it is
/// aborted with the error that the evaluation of the expression ends in. The code must
/// be within what a jump can span and the steps that a machine may take,
/// and the pool within what an instruction can name.
pub proof fn lemma_plain_expression_runs(expr: Expr)
    requires
        plain(expr, Seq::<VariableView>::empty()),
        code(expr, 0, Seq::<VariableView>::empty()).len() < crate::vm::STEP_LIMIT,
        code(expr, 0, Seq::<VariableView>::empty()).len() <= isize::MAX,
        pool(expr, Seq::<VariableView>::empty()).len() <= usize::MAX,
    ensures
        generated_expr(initial_generator(), expr) is Ok,
        ({
            let function = generated_expr(initial_generator(), expr).unwrap().functions.last();
            match value(expr, Seq::<VariableView>::empty(), Seq::<ValueView>::empty()) {
                Ok(computed) => fresh_machine().run(function) matches Ok((vm, yielded))
                    && yielded == computed && vm.operands.len() == 0,
                Err(cause) => fresh_machine().run(function) == Err::<
                    (VMView, ValueView),
                    RuntimeErrorCause,
                >(cause),
            }
        }),
{
    let locals = Seq::<VariableView>::empty();
    let env = Seq::<ValueView>::empty();
    lemma_plain_is_lowered(initial_generator(), expr, locals);
    let generator = generated_expr(initial_generator(), expr).unwrap();
    let function = generator.functions.last();
    assert(function.chunk.opcodes =~= code(expr, 0, locals));
    assert(function.chunk.constants =~= pool(expr, locals));
    let start = fresh_machine().entered(function);
    let count = code(expr, 0, locals).len();
    assert(function.chunk.opcodes.subrange(0, count as int) =~= code(expr, 0, locals));
    assert(function.chunk.constants.subrange(0, pool(expr, locals).len() as int)
        =~= pool(expr, locals));
    lemma_plain_code_runs(start, expr, 0, locals, env);
    lemma_cost_is_bounded(expr, 0, locals, env);
    lemma_steps_after(start, cost(expr, locals, env), crate::vm::STEP_LIMIT as nat);
    if let Ok(computed) = value(expr, locals, env) {
        let reached = at(start, count as int, start.operands.push(computed));
        assert(!reached.has_next());
        reveal_with_fuel(VMView::steps, 2);
        assert(reached.operands =~= seq![computed]);
        assert(reached.dropped(1).operands =~= Seq::empty());
    }
}

/// The expression of a statement that declares a variable or evaluates an
/// expression.
pub open spec fn expression_of(stmt: Stmt) -> Expr {
    match stmt {
        Stmt::Expression { expr } => expr,
        Stmt::VariableDeclaration { name, expr } => expr,
        Stmt::FunctionDeclaration { name, params, body } => body,
    }
}

/// The variables after a statement at the top of a program: a declaration
/// adds one, at the slot that follows those declared before it.
pub open spec fn extended(locals: Seq<VariableView>, stmt: Stmt) -> Seq<VariableView> {
    match stmt {
        Stmt::VariableDeclaration { name, expr } => locals.push(
            VariableView {
                name: name@,
                depth: 0,
                index: locals.len() as usize,
                upvalue_index: None,
            },
        ),
        _ => locals,
    }
}

/// The variables that the first `count` statements declare at the top of a
/// program.
pub open spec fn declared(stmts: Seq<Stmt>, count: nat) -> Seq<VariableView>
    decreases count,
{
    if count == 0 || count > stmts.len() {
        Seq::empty()
    } else {
        extended(declared(stmts, (count - 1) as nat), stmts[count - 1])
    }
}

/// The statement declares a variable or evaluates an expression, and its
/// expression is plain over the variables.
pub open spec fn simple(stmt: Stmt, locals: Seq<VariableView>) -> bool {
    !(stmt is FunctionDeclaration) && plain(expression_of(stmt), locals)
}

/// Each of the first `count` statements is simple over the variables
/// declared before it.
pub open spec fn straight(stmts: Seq<Stmt>, count: nat) -> bool
    decreases count,
{
    count == 0 || (count <= stmts.len() && straight(stmts, (count - 1) as nat) && simple(
        stmts[count - 1],
        declared(stmts, (count - 1) as nat),
    ))
}

/// The constants that the first `count` statements put into the pool.
pub open spec fn program_pool(stmts: Seq<Stmt>, count: nat) -> Seq<ConstantView>
    decreases count,
{
    if count == 0 || count > stmts.len() {
        Seq::empty()
    } else {
        program_pool(stmts, (count - 1) as nat) + pool(
            expression_of(stmts[count - 1]),
            declared(stmts, (count - 1) as nat),
        )
    }
}

/// The instructions of one statement: those of its expression, whose
/// value stays on the stack as the variable if the statement declares one,
/// and is dropped if not.
pub open spec fn statement_code(stmt: Stmt, base: nat, locals: Seq<VariableView>) -> Seq<Opcode> {
    if stmt is Expression {
        code(expression_of(stmt), base, locals).push(Opcode::Pop(1))
    } else {
        code(expression_of(stmt), base, locals)
    }
}

/// The instructions that the first `count` statements are lowered into.
pub open spec fn program_code(stmts: Seq<Stmt>, count: nat) -> Seq<Opcode>
    decreases count,
{
    if count == 0 || count > stmts.len() {
        Seq::empty()
    } else {
        program_code(stmts, (count - 1) as nat) + statement_code(
            stmts[count - 1],
            program_pool(stmts, (count - 1) as nat).len(),
            declared(stmts, (count - 1) as nat),
        )
    }
}

/// The values of the variables after a statement, or the error that its
/// evaluation ends in.
pub open spec fn executed(stmt: Stmt, locals: Seq<VariableView>, env: Seq<ValueView>) -> Result<
    Seq<ValueView>,
    RuntimeErrorCause,
> {
    match value(expression_of(stmt), locals, env) {
        Err(cause) => Err(cause),
        Ok(computed) => if stmt is VariableDeclaration {
            Ok(env.push(computed))
        } else {
            Ok(env)
        },
    }
}

/// The values of the variables after the first `count` statements, or the
/// error that ends their evaluation.
pub open spec fn stored(stmts: Seq<Stmt>, count: nat) -> Result<Seq<ValueView>, RuntimeErrorCause>
    decreases count,
{
    if count == 0 || count > stmts.len() {
        Ok(Seq::empty())
    } else {
        match stored(stmts, (count - 1) as nat) {
            Err(cause) => Err(cause),
            Ok(env) => executed(stmts[count - 1], declared(stmts, (count - 1) as nat), env),
        }
    }
}

/// How many steps a statement takes at most.
pub open spec fn statement_cost(stmt: Stmt, locals: Seq<VariableView>, env: Seq<ValueView>) -> nat {
    cost(expression_of(stmt), locals, env) + if stmt is Expression {
        1nat
    } else {
        0nat
    }
}

/// How many steps the first `count` statements take at most.
pub open spec fn program_cost(stmts: Seq<Stmt>, count: nat) -> nat
    decreases count,
{
    if count == 0 || count > stmts.len() {
        0
    } else {
        program_cost(stmts, (count - 1) as nat) + match stored(stmts, (count - 1) as nat) {
            Err(_) => 0,
            Ok(env) => statement_cost(stmts[count - 1], declared(stmts, (count - 1) as nat), env),
        }
    }
}

/// A plain expression has an instruction.
pub proof fn lemma_code_is_there(expr: Expr, base: nat, locals: Seq<VariableView>)
    requires
        plain(expr, locals),
    ensures
        code(expr, base, locals).len() >= 1,
    decreases expr,
{
    match expr {
        Expr::Unary { op, rhs } => {
            lemma_code_is_there(*rhs, base, locals);
        },
        _ => {},
    }
}

/// The variable at each position has the slot of that number, one value
/// is stored for each variable, and there are no more variables and no
/// more steps than instructions.
pub proof fn lemma_declared(stmts: Seq<Stmt>, count: nat)
    requires
        straight(stmts, count),
        program_code(stmts, count).len() <= usize::MAX,
    ensures
        forall|i: int|
            0 <= i < declared(stmts, count).len() ==> (#[trigger] declared(stmts, count)[i]).index
                == i,
        stored(stmts, count) matches Ok(env) ==> env.len() == declared(stmts, count).len(),
        declared(stmts, count).len() <= program_code(stmts, count).len(),
        program_cost(stmts, count) <= program_code(stmts, count).len(),
    decreases count,
{
    if count > 0 {
        let before = (count - 1) as nat;
        lemma_declared(stmts, before);
        let locals = declared(stmts, before);
        let expr = expression_of(stmts[count - 1]);
        let base = program_pool(stmts, before).len();
        lemma_code_is_there(expr, base, locals);
        if let Ok(env) = stored(stmts, before) {
            lemma_cost_is_bounded(expr, base, locals, env);
        }
    }
}

/// The generator at the top of a program whose instructions, constants
/// and variables are given: all is in the main function and the outermost
/// scope.
pub open spec fn lowered(
    instructions: Seq<Opcode>,
    constants: Seq<ConstantView>,
    variables: Seq<VariableView>,
) -> GeneratorView {
    let written = appended(initial_generator(), instructions, constants);
    written.with_scopes(seq![ScopeView { variables, ..written.scopes[0] }])
}

/// Nothing lowered is the generator before anything was written.
pub proof fn lemma_nothing_lowered()
    ensures
        lowered(Seq::empty(), Seq::empty(), Seq::empty()) == initial_generator(),
{
    let start = initial_generator();
    let expected = lowered(Seq::empty(), Seq::empty(), Seq::empty());
    assert(expected.opcodes() =~= start.opcodes());
    assert(expected.constants() =~= start.constants());
    assert(expected.scopes =~= start.scopes);
    assert(expected.functions.drop_last() =~= start.functions.drop_last());
    lemma_same(expected, start);
}

/// How a simple statement at the top of a program is lowered: its
/// instructions and constants are added, and its variable is declared.
pub proof fn lemma_statement_is_lowered(
    instructions: Seq<Opcode>,
    constants: Seq<ConstantView>,
    locals: Seq<VariableView>,
    stmt: Stmt,
)
    requires
        simple(stmt, locals),
        locals.len() <= usize::MAX,
        instructions.len() + statement_code(stmt, constants.len(), locals).len() <= isize::MAX,
    ensures
        generated_stmt(lowered(instructions, constants, locals), stmt) == Ok::<
            GeneratorView,
            GenerationFault,
        >(
            lowered(
                instructions + statement_code(stmt, constants.len(), locals),
                constants + pool(expression_of(stmt), locals),
                extended(locals, stmt),
            ),
        ),
{
    let generator = lowered(instructions, constants, locals);
    let expr = expression_of(stmt);
    let base = constants.len();
    let expected = lowered(
        instructions + statement_code(stmt, base, locals),
        constants + pool(expr, locals),
        extended(locals, stmt),
    );
    assert(generator.constants() =~= constants);
    assert(generator.opcodes() =~= instructions);
    lemma_plain_is_lowered(generator, expr, locals);
    let valued = appended(generator, code(expr, base, locals), pool(expr, locals));
    assert(valued.scopes.drop_last() =~= Seq::empty());
    assert(non_block_count(valued.scopes) == 1) by {
        reveal_with_fuel(non_block_count, 2);
    }
    assert(next_slot(valued.scopes) == locals.len()) by {
        reveal_with_fuel(frame_count, 2);
    }
    let after = generated_stmt(generator, stmt).unwrap();
    assert(after.opcodes() =~= expected.opcodes());
    assert(after.constants() =~= expected.constants());
    assert(after.scopes =~= expected.scopes);
    assert(after.functions.drop_last() =~= expected.functions.drop_last());
    lemma_same(after, expected);
}

/// Lowering a straight program for which there is room never fails: it
/// writes the instructions and the constants of the statements in their
/// order, and declares the variables in the outermost scope.
pub proof fn lemma_straight_is_lowered(stmts: Seq<Stmt>, count: nat)
    requires
        straight(stmts, count),
        count <= stmts.len(),
        program_code(stmts, count).len() <= isize::MAX,
    ensures
        generated_stmts(initial_generator(), stmts, count) == Ok::<
            GeneratorView,
            GenerationFault,
        >(lowered(program_code(stmts, count), program_pool(stmts, count), declared(stmts, count))),
    decreases count,
{
    if count == 0 {
        lemma_nothing_lowered();
    } else {
        let before = (count - 1) as nat;
        lemma_straight_is_lowered(stmts, before);
        lemma_declared(stmts, before);
        lemma_statement_is_lowered(
            program_code(stmts, before),
            program_pool(stmts, before),
            declared(stmts, before),
            stmts[count - 1],
        );
    }
}

/// What the code of a simple statement does: the value of its expression
/// becomes one more operand if the statement declares a variable, and no
/// operand is added if not; or a step fails with the error of the
/// expression.
pub proof fn lemma_statement_runs(
    vm: VMView,
    stmt: Stmt,
    base: nat,
    locals: Seq<VariableView>,
    env: Seq<ValueView>,
)
    requires
        simple(stmt, locals),
        steady(vm),
        holds(vm.call_stack.last().chunk.opcodes, vm.ip as int, statement_code(stmt, base, locals)),
        holds(vm.call_stack.last().chunk.constants, base as int, pool(expression_of(stmt), locals)),
        vm.operands.len() == vm.floor() + env.len(),
        framed(vm, env),
        within(locals, env.len()),
    ensures
        vm.advanced(statement_cost(stmt, locals, env)) == match executed(stmt, locals, env) {
            Ok(after) => Some(
                Ok::<VMView, RuntimeErrorCause>(
                    at(
                        vm,
                        vm.ip + statement_code(stmt, base, locals).len(),
                        vm.operands.take(vm.floor()) + after,
                    ),
                ),
            ),
            Err(cause) => Some(Err::<VMView, RuntimeErrorCause>(cause)),
        },
{
    let chunk = vm.call_stack.last().chunk;
    let expr = expression_of(stmt);
    let all = statement_code(stmt, base, locals);
    let inner = code(expr, base, locals);
    let steps = cost(expr, locals, env);
    assert(all.subrange(0, inner.len() as int) =~= inner);
    lemma_holds_part(chunk.opcodes, vm.ip as int, all, 0, inner);
    lemma_plain_code_runs(vm, expr, base, locals, env);
    assert(vm.operands =~= vm.operands.take(vm.floor()) + env);
    if stmt is Expression {
        lemma_advanced_add(vm, steps, 1);
    }
    if let Ok(computed) = value(expr, locals, env) {
        let valued = at(vm, vm.ip + inner.len(), vm.operands.push(computed));
        assert(vm.operands.push(computed) =~= vm.operands.take(vm.floor()) + env.push(computed));
        if stmt is Expression {
            lemma_holds_item(chunk.opcodes, vm.ip as int, all, inner.len() as int);
            lemma_one_step(valued);
            assert(valued.dropped(1).operands =~= vm.operands);
        }
    }
}

/// What the code of a straight program does to a machine whose frame
/// holds nothing yet: after the steps that the statements take, the frame
/// holds the values of the variables, in the order in which they were
/// declared, and nothing else; or a step has failed with the error that
/// ends the evaluation.
pub proof fn lemma_straight_code_runs(vm: VMView, stmts: Seq<Stmt>, count: nat)
    requires
        straight(stmts, count),
        count <= stmts.len(),
        steady(vm),
        vm.floor() == vm.operands.len(),
        holds(vm.call_stack.last().chunk.opcodes, vm.ip as int, program_code(stmts, count)),
        holds(vm.call_stack.last().chunk.constants, 0, program_pool(stmts, count)),
    ensures
        vm.advanced(program_cost(stmts, count)) == match stored(stmts, count) {
            Ok(env) => Some(
                Ok::<VMView, RuntimeErrorCause>(
                    at(vm, vm.ip + program_code(stmts, count).len(), vm.operands + env),
                ),
            ),
            Err(cause) => Some(Err::<VMView, RuntimeErrorCause>(cause)),
        },
    decreases count,
{
    if count == 0 {
        assert(vm.operands + Seq::<ValueView>::empty() =~= vm.operands);
    } else {
        let chunk = vm.call_stack.last().chunk;
        let before = (count - 1) as nat;
        let locals = declared(stmts, before);
        let stmt = stmts[count - 1];
        let base = program_pool(stmts, before).len();
        let all = program_code(stmts, count);
        let first = program_code(stmts, before);
        let last = statement_code(stmt, base, locals);
        let constants = program_pool(stmts, count);
        assert(all.subrange(0, first.len() as int) =~= first);
        assert(all.subrange(first.len() as int, all.len() as int) =~= last);
        assert(constants.subrange(0, base as int) =~= program_pool(stmts, before));
        assert(constants.subrange(base as int, constants.len() as int) =~= pool(
            expression_of(stmt),
            locals,
        ));
        lemma_holds_part(chunk.opcodes, vm.ip as int, all, 0, first);
        lemma_holds_part(chunk.opcodes, vm.ip as int, all, first.len() as int, last);
        lemma_holds_part(chunk.constants, 0, constants, 0, program_pool(stmts, before));
        lemma_holds_part(chunk.constants, 0, constants, base as int, pool(
            expression_of(stmt),
            locals,
        ));
        lemma_straight_code_runs(vm, stmts, before);
        lemma_declared(stmts, before);
        match stored(stmts, before) {
            Ok(env) => {
                let middle = at(vm, vm.ip + first.len(), vm.operands + env);
                lemma_statement_runs(middle, stmt, base, locals, env);
                lemma_advanced_add(
                    vm,
                    program_cost(stmts, before),
                    statement_cost(stmt, locals, env),
                );
                assert(middle.operands.take(middle.floor()) =~= vm.operands);
            },
            Err(_) => {
                lemma_advanced_add(vm, program_cost(stmts, before), 0);
            },
        }
    }
}

/// From program to frame: a straight program is lowered without a fault,
/// and the machine that runs the main function from an empty stack ends
/// with exactly the values of the declared variables on it, each at the
/// slot that the generator gave its variable. So the operands of the frame
/// are as many as the variables that the generator counts for it. If the
/// evaluation of a statement ends in an error, the run ends in that error.
/// The code must be within what a jump can span and the steps that a
/// machine may take, and the pool within what an instruction can name.
pub proof fn lemma_straight_program_runs(stmts: Seq<Stmt>)
    requires
        straight(stmts, stmts.len()),
        program_code(stmts, stmts.len()).len() < crate::vm::STEP_LIMIT,
        program_code(stmts, stmts.len()).len() <= isize::MAX,
        program_pool(stmts, stmts.len()).len() <= usize::MAX,
    ensures
        generated_stmts(initial_generator(), stmts, stmts.len()) is Ok,
        ({
            let generator = generated_stmts(initial_generator(), stmts, stmts.len()).unwrap();
            let start = fresh_machine().entered(generator.functions.last());
            &&& generator.scopes.len() == 1
            &&& generator.scopes[0].variables == declared(stmts, stmts.len())
            &&& frame_count(generator.scopes) == declared(stmts, stmts.len()).len()
            &&& forall|i: int|
                0 <= i < declared(stmts, stmts.len()).len() ==> (#[trigger] declared(
                    stmts,
                    stmts.len(),
                )[i]).index == i
            &&& match stored(stmts, stmts.len()) {
                Ok(env) => start.steps(crate::vm::STEP_LIMIT as nat) matches Ok(vm)
                    && vm.operands == env && vm.available() == frame_count(generator.scopes),
                Err(cause) => start.steps(crate::vm::STEP_LIMIT as nat) == Err::<
                    VMView,
                    RuntimeErrorCause,
                >(cause),
            }
        }),
{
    let count = stmts.len();
    lemma_straight_is_lowered(stmts, count);
    lemma_declared(stmts, count);
    let generator = generated_stmts(initial_generator(), stmts, count).unwrap();
    let function = generator.functions.last();
    let instructions = program_code(stmts, count);
    let constants = program_pool(stmts, count);
    assert(function.chunk.opcodes =~= instructions);
    assert(function.chunk.constants =~= constants);
    assert(frame_count(generator.scopes) == declared(stmts, count).len()) by {
        reveal_with_fuel(frame_count, 2);
    }
    let start = fresh_machine().entered(function);
    assert(function.chunk.opcodes.subrange(0, instructions.len() as int) =~= instructions);
    assert(function.chunk.constants.subrange(0, constants.len() as int) =~= constants);
    lemma_straight_code_runs(start, stmts, count);
    lemma_steps_after(start, program_cost(stmts, count), crate::vm::STEP_LIMIT as nat);
    if let Ok(env) = stored(stmts, count) {
        let reached = at(start, instructions.len() as int, start.operands + env);
        assert(!reached.has_next());
        reveal_with_fuel(VMView::steps, 2);
        assert(reached.operands =~= env);
    }
}

} // verus!
