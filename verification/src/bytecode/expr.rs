//! Lowering of expressions and statements. Operands are written before
//! their operator, so that the machine finds them on its stack in the
//! order of evaluation.
use vstd::prelude::*;
use vstd::std_specs::convert::FromSpecImpl;
use crate::bytecode::callables::{Function, FunctionView};
use crate::bytecode::chunk::{Chunk, ChunkView, Constant, ConstantView};
use crate::bytecode::state::{
    declare_variable,
    frame_count,
    leave,
    resolve_address,
    GenerationFault,
    ScopeType,
    ScopeView,
};
use crate::bytecode::{
    BytecodeFrom, BytecodeGenerationResult, BytecodeGenerator, GeneratorView, MemoryAddress,
    Opcode, Patch, UpvalueView,
};
use crate::common::{lemma_views_push, views};
use crate::syntax::tree::{AtomicValue, BinaryOperator, Expr, Stmt, UnaryOperator};

verus! {

/// The instruction that an operator between two expressions stands for.
pub open spec fn binary_opcode(operator: BinaryOperator) -> Opcode {
    match operator {
        BinaryOperator::Addition => Opcode::Add,
        BinaryOperator::Subtraction => Opcode::Sub,
        BinaryOperator::Multiplication => Opcode::Mul,
        BinaryOperator::Division => Opcode::Div,
        BinaryOperator::Modulo => Opcode::Mod,
        BinaryOperator::Power => Opcode::Pow,
        BinaryOperator::Equals => Opcode::Eq,
        BinaryOperator::BangEquals => Opcode::Ne,
        BinaryOperator::LesserThan => Opcode::Lt,
        BinaryOperator::LesserEquals => Opcode::Le,
        BinaryOperator::GreaterThan => Opcode::Gt,
        BinaryOperator::GreaterEquals => Opcode::Ge,
        BinaryOperator::Or => Opcode::Or,
        BinaryOperator::And => Opcode::And,
    }
}

/// The instruction that an operator before an expression stands for.
pub open spec fn unary_opcode(operator: UnaryOperator) -> Opcode {
    match operator {
        UnaryOperator::Negate => Opcode::Neg,
        UnaryOperator::Not => Opcode::Not,
    }
}

impl From<BinaryOperator> for Opcode {
    fn from(operator: BinaryOperator) -> (opcode: Self) {
        match operator {
            BinaryOperator::Addition => Opcode::Add,
            BinaryOperator::Subtraction => Opcode::Sub,
            BinaryOperator::Multiplication => Opcode::Mul,
            BinaryOperator::Division => Opcode::Div,
            BinaryOperator::Modulo => Opcode::Mod,
            BinaryOperator::Power => Opcode::Pow,
            BinaryOperator::Equals => Opcode::Eq,
            BinaryOperator::BangEquals => Opcode::Ne,
            BinaryOperator::LesserThan => Opcode::Lt,
            BinaryOperator::LesserEquals => Opcode::Le,
            BinaryOperator::GreaterThan => Opcode::Gt,
            BinaryOperator::GreaterEquals => Opcode::Ge,
            BinaryOperator::Or => Opcode::Or,
            BinaryOperator::And => Opcode::And,
        }
    }
}

impl FromSpecImpl<BinaryOperator> for Opcode {
    open spec fn obeys_from_spec() -> bool {
        true
    }

    open spec fn from_spec(operator: BinaryOperator) -> Self {
        binary_opcode(operator)
    }
}

impl From<UnaryOperator> for Opcode {
    fn from(operator: UnaryOperator) -> (opcode: Self) {
        match operator {
            UnaryOperator::Negate => Opcode::Neg,
            UnaryOperator::Not => Opcode::Not,
        }
    }
}

impl FromSpecImpl<UnaryOperator> for Opcode {
    open spec fn obeys_from_spec() -> bool {
        true
    }

    open spec fn from_spec(operator: UnaryOperator) -> Self {
        unary_opcode(operator)
    }
}

/// After `opcode` was written behind what `generated` gives.
pub open spec fn then_emit(
    generated: Result<GeneratorView, GenerationFault>,
    opcode: Opcode,
) -> Result<GeneratorView, GenerationFault> {
    match generated {
        Ok(generator) => Ok(generator.emit(opcode)),
        Err(fault) => Err(fault),
    }
}

/// After a jump was written whose distance is still to come, and the
/// position of the jump; a fault if the position is beyond counting.
pub open spec fn jumped(generator: GeneratorView, opcode: Opcode) -> Result<
    (GeneratorView, usize),
    GenerationFault,
> {
    if generator.opcodes().len() > usize::MAX {
        Err(GenerationFault::JumpTooLong)
    } else {
        Ok((generator.emit_patch(opcode), generator.opcodes().len() as usize))
    }
}

/// After a place to land was written and the jump at `index` was made to
/// land there. The place is an instruction that drops nothing: a jump lands
/// on the last instruction written before it is resolved.
pub open spec fn landed(generator: GeneratorView, index: usize) -> Result<
    GeneratorView,
    GenerationFault,
> {
    let padded = generator.emit(Opcode::Pop(0));
    match padded.patch_fault(index) {
        Some(fault) => Err(fault),
        None => Ok(padded.patch(index)),
    }
}

/// After the code that pushes a literal, or the value of a name, was
/// written.
pub open spec fn generated_atom(generator: GeneratorView, value: AtomicValue) -> Result<
    GeneratorView,
    GenerationFault,
> {
    match value {
        AtomicValue::Number(n) => Ok(generator.load(ConstantView::Number(n))),
        AtomicValue::Boolean(b) => Ok(generator.load(ConstantView::Bool(b))),
        AtomicValue::Text(t) => Ok(generator.load(ConstantView::Text(t@))),
        AtomicValue::Null => Ok(generator.emit(Opcode::Null)),
        AtomicValue::Identifier(name) => match resolve_address(generator.scopes, name@) {
            Ok((scopes, address)) => Ok(
                generator.with_scopes(scopes).load(ConstantView::MemoryAddress(address)).emit(
                    Opcode::Get,
                ),
            ),
            Err(fault) => Err(fault),
        },
    }
}

/// After the code of an expression was written. The code leaves the value
/// of the expression on the stack.
///
/// - A literal is pushed from the pool; a name is resolved and read.
/// - Operands come before their operator.
/// - `and` and `or` evaluate their right side only where the left side
///   leaves the result open.
/// - A conditional is the condition, a jump over the first branch that is
///   taken when the condition is false, the first branch, a jump over the
///   second branch, and the second branch, which is null where none is
///   written.
/// - A loop is the condition, a jump out that is taken when the condition
///   is false, the body, whose value is dropped, and a jump back to the
///   condition; its value is null.
/// - A block opens a scope, whose variables it drops at its end; its value
///   is that of its last expression, or null.
/// - An assignment writes the value to the place of the name and then reads
///   it from there.
pub open spec fn generated_expr(generator: GeneratorView, expr: Expr) -> Result<
    GeneratorView,
    GenerationFault,
>
    decreases expr, 1nat,
{
    match expr {
        Expr::Atom(value) => generated_atom(generator, value.val),
        Expr::Unary { op, rhs } => then_emit(generated_expr(generator, *rhs), unary_opcode(op.val)),
        Expr::Binary { .. } => generated_binary(generator, expr),
        Expr::If { .. } => generated_if(generator, expr),
        Expr::While { .. } => generated_while(generator, expr),
        Expr::Block { .. } => generated_block(generator, expr),
        Expr::Assignment { .. } => generated_assignment(generator, expr),
        Expr::Closure { params, body } => generated_function(
            generator,
            CLOSURE_NAME@,
            params@,
            *body,
        ),
        Expr::Call { .. } => generated_call(generator, expr),
        Expr::Return { value } => match (match value {
            Some(value) => generated_expr(generator, *value),
            None => Ok(generator.emit(Opcode::Null)),
        }) {
            Err(fault) => Err(fault),
            Ok(valued) => Ok(returned(valued.emit(Opcode::Return))),
        },
    }
}

/// The innermost scope is marked as one that has returned.
pub open spec fn returned(generator: GeneratorView) -> GeneratorView {
    generator.with_scopes(
        generator.scopes.update(
            generator.scopes.len() - 1,
            ScopeView { returned: true, ..generator.scopes.last() },
        ),
    )
}

/// After the first `count` names were declared as parameters.
pub open spec fn generated_params(
    generator: GeneratorView,
    params: Seq<String>,
    count: nat,
) -> Result<
    GeneratorView,
    GenerationFault,
>
    decreases count,
{
    if count == 0 || count > params.len() {
        Ok(generator)
    } else {
        match generated_params(generator, params, (count - 1) as nat) {
            Err(fault) => Err(fault),
            Ok(before) => match declare_variable(before.scopes, params[count - 1]@) {
                Err(fault) => Err(fault),
                Ok(scopes) => Ok(before.with_scopes(scopes)),
            },
        }
    }
}

/// The instruction that gives a callable what a link refers to.
pub open spec fn capture_opcode(link: UpvalueView) -> Opcode {
    if link.is_local {
        Opcode::CaptureLocal(link.local_index)
    } else {
        Opcode::CaptureUpvalue(link.local_index)
    }
}

/// Name of a function that was written without one.
pub const CLOSURE_NAME: &'static str = "closure";

/// After the instructions that capture the first `count` links were
/// written.
pub open spec fn captures(
    generator: GeneratorView,
    links: Seq<UpvalueView>,
    count: nat,
) -> GeneratorView
    decreases count,
{
    if count == 0 || count > links.len() {
        generator
    } else {
        captures(generator, links, (count - 1) as nat).emit(capture_opcode(links[count - 1]))
    }
}

/// With a function under way that has nothing written yet, and its scope
/// open.
pub open spec fn opened(generator: GeneratorView, name: Seq<char>, arity: usize) -> GeneratorView {
    GeneratorView {
        scopes: generator.scopes.push(ScopeView::fresh(ScopeType::Function, 0)),
        functions: generator.functions.push(
            FunctionView {
                arity,
                chunk: ChunkView { opcodes: Seq::empty(), constants: Seq::empty() },
                name,
            },
        ),
        finished: generator.finished,
    }
}

/// After the function under way was written out: it returns the value on
/// top, its scope is left, and it stands last among the functions that are
/// written out. The code around it makes it a callable and gives that
/// callable, link by link, what the scope of the function has captured.
pub open spec fn finished_function(generator: GeneratorView) -> Result<
    GeneratorView,
    GenerationFault,
> {
    let ended = generator.emit(Opcode::Return);
    match leave(ended.scopes) {
        Err(fault) => Err(fault),
        Ok((scopes, scope)) => if ended.functions.len() < 2 {
            Err(GenerationFault::NoFunction)
        } else {
            let outer = GeneratorView {
                scopes,
                functions: ended.functions.drop_last(),
                finished: ended.finished.push(ended.functions.last()),
            };
            Ok(
                captures(
                    outer.emit(Opcode::Closure(ended.finished.len() as usize)),
                    scope.upvalues,
                    scope.upvalues.len(),
                ),
            )
        },
    }
}

/// After the code that makes a function a value was written. The function
/// itself is written into a chunk of its own: its scope declares its
/// parameters, and it returns the value of its body.
pub open spec fn generated_function(
    generator: GeneratorView,
    name: Seq<char>,
    params: Seq<String>,
    body: Expr,
) -> Result<GeneratorView, GenerationFault>
    decreases body, 2nat,
{
    match generated_params(
        opened(generator, name, params.len() as usize),
        params,
        params.len(),
    ) {
        Err(fault) => Err(fault),
        Ok(with_params) => match generated_expr(with_params, body) {
            Err(fault) => Err(fault),
            Ok(written) => finished_function(written),
        },
    }
}

/// After the code of the first `count` expressions was written, in their
/// order.
pub open spec fn generated_exprs(generator: GeneratorView, exprs: Seq<Expr>, count: nat) -> Result<
    GeneratorView,
    GenerationFault,
>
    decreases exprs, count,
{
    if count == 0 || count > exprs.len() {
        Ok(generator)
    } else {
        match generated_exprs(generator, exprs, (count - 1) as nat) {
            Err(fault) => Err(fault),
            Ok(before) => generated_expr(before, exprs[count - 1]),
        }
    }
}

/// After the code of a call was written: the arguments in their order,
/// the callee, and the call.
pub open spec fn generated_call(generator: GeneratorView, expr: Expr) -> Result<
    GeneratorView,
    GenerationFault,
>
    decreases expr, 0nat,
{
    match expr {
        Expr::Call { callee, args } => match generated_exprs(generator, args@, args@.len()) {
            Err(fault) => Err(fault),
            Ok(with_args) => then_emit(generated_expr(with_args, *callee), Opcode::Call),
        },
        _ => Ok(generator),
    }
}

/// After the code of an operation on two expressions was written.
pub open spec fn generated_binary(generator: GeneratorView, expr: Expr) -> Result<
    GeneratorView,
    GenerationFault,
>
    decreases expr, 0nat,
{
    match expr {
        Expr::Binary { lhs, op, rhs } => match generated_expr(generator, *lhs) {
            Err(fault) => Err(fault),
            Ok(left) => match op.val {
                BinaryOperator::And => match jumped(left, Opcode::Jif(0)) {
                    Err(fault) => Err(fault),
                    Ok((tested, a)) => match generated_expr(tested, *rhs) {
                        Err(fault) => Err(fault),
                        Ok(right) => match jumped(right, Opcode::Jp(0)) {
                            Err(fault) => Err(fault),
                            Ok((skipped, b)) => match landed(skipped, a) {
                                Err(fault) => Err(fault),
                                Ok(otherwise) => landed(
                                    otherwise.load(ConstantView::Bool(false)),
                                    b,
                                ),
                            },
                        },
                    },
                },
                BinaryOperator::Or => match jumped(left, Opcode::Jif(0)) {
                    Err(fault) => Err(fault),
                    Ok((tested, a)) => match jumped(
                        tested.load(ConstantView::Bool(true)),
                        Opcode::Jp(0),
                    ) {
                        Err(fault) => Err(fault),
                        Ok((skipped, b)) => match landed(skipped, a) {
                            Err(fault) => Err(fault),
                            Ok(otherwise) => match generated_expr(otherwise, *rhs) {
                                Err(fault) => Err(fault),
                                Ok(right) => landed(right, b),
                            },
                        },
                    },
                },
                other => then_emit(generated_expr(left, *rhs), binary_opcode(other)),
            },
        },
        _ => Ok(generator),
    }
}

/// After the code of a conditional was written.
pub open spec fn generated_if(generator: GeneratorView, expr: Expr) -> Result<
    GeneratorView,
    GenerationFault,
>
    decreases expr, 0nat,
{
    match expr {
        Expr::If { condition, body, else_expr } => match generated_expr(generator, *condition) {
            Err(fault) => Err(fault),
            Ok(tested) => match jumped(tested, Opcode::Jif(0)) {
                Err(fault) => Err(fault),
                Ok((taken, a)) => match generated_expr(taken, *body) {
                    Err(fault) => Err(fault),
                    Ok(first) => match jumped(first, Opcode::Jp(0)) {
                        Err(fault) => Err(fault),
                        Ok((skipped, b)) => match landed(skipped, a) {
                            Err(fault) => Err(fault),
                            Ok(otherwise) => match (match else_expr {
                                Some(other) => generated_expr(otherwise, *other),
                                None => Ok(otherwise.emit(Opcode::Null)),
                            }) {
                                Err(fault) => Err(fault),
                                Ok(second) => landed(second, b),
                            },
                        },
                    },
                },
            },
        },
        _ => Ok(generator),
    }
}

/// After the code of a loop was written.
pub open spec fn generated_while(generator: GeneratorView, expr: Expr) -> Result<
    GeneratorView,
    GenerationFault,
>
    decreases expr, 0nat,
{
    match expr {
        Expr::While { condition, body } => match generated_expr(generator, *condition) {
            Err(fault) => Err(fault),
            Ok(tested) => match jumped(tested, Opcode::Jif(0)) {
                Err(fault) => Err(fault),
                Ok((taken, exit)) => match generated_expr(taken, *body) {
                    Err(fault) => Err(fault),
                    Ok(done) => {
                        let dropped = done.emit(Opcode::Pop(1));
                        let back = dropped.opcodes().len() - generator.opcodes().len();
                        if back < 0 || back > isize::MAX {
                            Err(GenerationFault::JumpTooLong)
                        } else {
                            match landed(dropped.emit(Opcode::Jp((-back) as isize)), exit) {
                                Err(fault) => Err(fault),
                                Ok(left) => Ok(left.emit(Opcode::Null)),
                            }
                        }
                    },
                },
            },
        },
        _ => Ok(generator),
    }
}

/// After the code of a block was written.
pub open spec fn generated_block(generator: GeneratorView, expr: Expr) -> Result<
    GeneratorView,
    GenerationFault,
>
    decreases expr, 0nat,
{
    match expr {
        Expr::Block { stmts, return_expr } => if frame_count(generator.scopes) > usize::MAX {
            Err(GenerationFault::TooManyVariables)
        } else {
            let entered = generator.with_scopes(
                generator.scopes.push(
                    ScopeView::fresh(ScopeType::Block, frame_count(generator.scopes) as usize),
                ),
            );
            match generated_stmts(entered, stmts@, stmts@.len()) {
                Err(fault) => Err(fault),
                Ok(inside) => match (match return_expr {
                    Some(last) => generated_expr(inside, *last),
                    None => Ok(inside.emit(Opcode::Null)),
                }) {
                    Err(fault) => Err(fault),
                    Ok(valued) => closed(valued),
                },
            }
        },
        _ => Ok(generator),
    }
}

/// After the end of a block was written: the instruction that drops the
/// variables of the innermost scope, which is then left.
pub open spec fn closed(generator: GeneratorView) -> Result<GeneratorView, GenerationFault> {
    let dropped = generator.emit(
        Opcode::Block(generator.scopes.last().variables.len() as usize),
    );
    match leave(dropped.scopes) {
        Err(fault) => Err(fault),
        Ok((scopes, _)) => Ok(dropped.with_scopes(scopes)),
    }
}

/// After the code of an assignment was written.
pub open spec fn generated_assignment(generator: GeneratorView, expr: Expr) -> Result<
    GeneratorView,
    GenerationFault,
>
    decreases expr, 0nat,
{
    match expr {
        Expr::Assignment { target, value } => match resolve_address(generator.scopes, target@) {
            Err(fault) => Err(fault),
            Ok((scopes, address)) => match generated_expr(
                generator.with_scopes(scopes).load(ConstantView::MemoryAddress(address)),
                *value,
            ) {
                Err(fault) => Err(fault),
                Ok(valued) => Ok(
                    valued.emit(Opcode::Asg).load(ConstantView::MemoryAddress(address)).emit(
                        Opcode::Get,
                    ),
                ),
            },
        },
        _ => Ok(generator),
    }
}

/// After the code of a statement was written. An expression leaves
/// nothing on the stack; a declaration leaves the value of its expression
/// there, in the slot that the name then has.
pub open spec fn generated_stmt(generator: GeneratorView, stmt: Stmt) -> Result<
    GeneratorView,
    GenerationFault,
>
    decreases stmt, 3nat,
{
    match stmt {
        Stmt::Expression { expr } => then_emit(generated_expr(generator, expr), Opcode::Pop(1)),
        Stmt::VariableDeclaration { name, expr } => match generated_expr(generator, expr) {
            Err(fault) => Err(fault),
            Ok(valued) => match declare_variable(valued.scopes, name@) {
                Err(fault) => Err(fault),
                Ok(scopes) => Ok(valued.with_scopes(scopes)),
            },
        },
        Stmt::FunctionDeclaration { name, params, body } => match declare_variable(
            generator.scopes,
            name@,
        ) {
            Err(fault) => Err(fault),
            Ok(scopes) => generated_function(generator.with_scopes(scopes), name@, params@, body),
        },
    }
}

/// After the code of the first `count` statements was written, in their
/// order.
pub open spec fn generated_stmts(generator: GeneratorView, stmts: Seq<Stmt>, count: nat) -> Result<
    GeneratorView,
    GenerationFault,
>
    decreases stmts, count,
{
    if count == 0 || count > stmts.len() {
        Ok(generator)
    } else {
        match generated_stmts(generator, stmts, (count - 1) as nat) {
            Err(fault) => Err(fault),
            Ok(before) => generated_stmt(before, stmts[count - 1]),
        }
    }
}

/// What a step of generation has done: on success the generator is what
/// `expected` says; a fault is the fault that `expected` says.
pub open spec fn outcome(
    result: BytecodeGenerationResult,
    after: GeneratorView,
    expected: Result<GeneratorView, GenerationFault>,
) -> bool {
    match expected {
        Ok(generator) => result is Ok && after == generator,
        Err(fault) => result == Err::<(), GenerationFault>(fault),
    }
}

impl BytecodeGenerator {
    /// Puts a constant into the pool and writes the instruction that
    /// pushes it.
    pub fn load_constant(&mut self, constant: Constant)
        requires
            old(self).wf(),
        ensures
            final(self).wf(),
            final(self)@ == old(self)@.load(constant@),
    {
        let index = self.write_constant(constant);
        self.write_opcode(Opcode::Constant(index));
    }

    /// Writes a place to land and makes the jump of `patch` land there.
    pub fn land(&mut self, patch: &Patch) -> (result: BytecodeGenerationResult)
        requires
            old(self).wf(),
        ensures
            final(self).wf(),
            outcome(result, final(self)@, landed(old(self)@, patch.index)),
    {
        self.write_opcode(Opcode::Pop(0));
        self.patch(patch)
    }

    /// Writes the code that pushes a literal or the value of a name.
    pub fn generate_atom(&mut self, value: &AtomicValue) -> (result: BytecodeGenerationResult)
        requires
            old(self).wf(),
        ensures
            final(self).wf(),
            outcome(result, final(self)@, generated_atom(old(self)@, *value)),
    {
        match value {
            AtomicValue::Number(n) => {
                self.load_constant(Constant::Number(*n));
            },
            AtomicValue::Boolean(b) => {
                self.load_constant(Constant::Bool(*b));
            },
            AtomicValue::Text(t) => {
                self.load_constant(Constant::Text(t.clone()));
            },
            AtomicValue::Null => {
                self.write_opcode(Opcode::Null);
            },
            AtomicValue::Identifier(name) => {
                let address = self.state.find_var_address(name.as_str())?;
                self.load_constant(Constant::MemoryAddress(address));
                self.write_opcode(Opcode::Get);
            },
        }
        Ok(())
    }

    /// Writes the code of an expression.
    pub fn generate_expr(&mut self, expr: &Expr) -> (result: BytecodeGenerationResult)
        requires
            old(self).wf(),
        ensures
            final(self).wf(),
            outcome(result, final(self)@, generated_expr(old(self)@, *expr)),
        decreases *expr, 1nat,
    {
        match expr {
            Expr::Atom(atomic_value) => self.generate_atom(&atomic_value.val),
            Expr::Unary { op, rhs } => {
                self.generate_expr(rhs)?;
                let operator_code = Opcode::from(op.val);
                self.write_opcode(operator_code);
                Ok(())
            },
            Expr::Binary { .. } => self.generate_binary(expr),
            Expr::If { .. } => self.generate_if(expr),
            Expr::While { .. } => self.generate_while(expr),
            Expr::Block { .. } => self.generate_block(expr),
            Expr::Assignment { .. } => self.generate_assignment(expr),
            Expr::Closure { params, body } => self.generate_function(CLOSURE_NAME, params, body),
            Expr::Call { .. } => self.generate_call(expr),
            Expr::Return { value } => {
                match value {
                    Some(value) => {
                        self.generate_expr(value)?;
                    },
                    None => {
                        self.write_opcode(Opcode::Null);
                    },
                }
                self.write_opcode(Opcode::Return);
                self.state.set_returned();
                Ok(())
            },
        }
    }

    /// Declares names as parameters, in their order.
    pub fn generate_params(&mut self, params: &Vec<String>) -> (result: BytecodeGenerationResult)
        requires
            old(self).wf(),
        ensures
            final(self).wf(),
            outcome(result, final(self)@, generated_params(old(self)@, params@, params@.len())),
    {
        let mut i: usize = 0;
        while i < params.len()
            invariant
                i <= params@.len(),
                self.wf(),
                generated_params(old(self)@, params@, i as nat) == Ok::<
                    GeneratorView,
                    GenerationFault,
                >(self@),
            decreases params@.len() - i,
        {
            match self.state.declare_var(params[i].clone()) {
                Ok(()) => {},
                Err(fault) => {
                    proof {
                        lemma_params_fault(old(self)@, params@, (i + 1) as nat, params@.len());
                    }
                    return Err(fault);
                },
            }
            i += 1;
        }
        Ok(())
    }

    /// Opens a function: a chunk of its own and its scope.
    pub fn open_function(&mut self, name: &str, arity: usize)
        requires
            old(self).wf(),
        ensures
            final(self).wf(),
            final(self)@ == opened(old(self)@, name@, arity),
    {
        let function = Function { name: name.to_owned(), arity, chunk: Chunk::default() };
        proof {
            lemma_views_push(self.functions@, function);
            assert(function@.chunk.opcodes =~= Seq::empty());
            assert(function@.chunk.constants =~= Seq::empty());
        }
        self.functions.push(function);
        self.state.enter_scope(ScopeType::Function, 0);
    }

    /// Writes the function under way out and, into the code around it, the
    /// instructions that make it a callable with what it has captured.
    pub fn finish_function(&mut self) -> (result: BytecodeGenerationResult)
        requires
            old(self).wf(),
        ensures
            final(self).wf(),
            outcome(result, final(self)@, finished_function(old(self)@)),
    {
        self.write_opcode(Opcode::Return);
        let scope = match self.state.leave_scope() {
            Ok(scope) => scope,
            Err(fault) => {
                return Err(fault);
            },
        };
        if self.functions.len() < 2 {
            return Err(GenerationFault::NoFunction);
        }
        let ghost before = self@;
        let function = self.functions.pop().unwrap();
        let index = self.finished.len();
        proof {
            lemma_views_push(self.finished@, function);
            assert(views(self.functions@) =~= before.functions.drop_last());
        }
        self.finished.push(function);
        self.write_opcode(Opcode::Closure(index));
        let ghost outer = self@;
        let mut i: usize = 0;
        while i < scope.upvalues.len()
            invariant
                i <= scope.upvalues@.len(),
                self.wf(),
                self@ == captures(outer, scope@.upvalues, i as nat),
            decreases scope.upvalues@.len() - i,
        {
            let link = &scope.upvalues[i];
            let capture = if link.is_local {
                Opcode::CaptureLocal(link.local_index)
            } else {
                Opcode::CaptureUpvalue(link.local_index)
            };
            self.write_opcode(capture);
            i += 1;
        }
        Ok(())
    }

    /// Writes a function and the code that makes it a value.
    pub fn generate_function(&mut self, name: &str, params: &Vec<String>, body: &Expr) -> (result:
        BytecodeGenerationResult)
        requires
            old(self).wf(),
        ensures
            final(self).wf(),
            outcome(
                result,
                final(self)@,
                generated_function(old(self)@, name@, params@, *body),
            ),
        decreases *body, 2nat,
    {
        self.open_function(name, params.len());
        self.generate_params(params)?;
        self.generate_expr(body)?;
        self.finish_function()
    }

    /// Writes the code of expressions, in their order.
    #[verifier::loop_isolation(false)]
    pub fn generate_exprs(&mut self, exprs: &Vec<Expr>) -> (result: BytecodeGenerationResult)
        requires
            old(self).wf(),
        ensures
            final(self).wf(),
            outcome(result, final(self)@, generated_exprs(old(self)@, exprs@, exprs@.len())),
        decreases *exprs, 0nat,
    {
        let mut i: usize = 0;
        while i < exprs.len()
            invariant
                i <= exprs@.len(),
                self.wf(),
                generated_exprs(old(self)@, exprs@, i as nat) == Ok::<
                    GeneratorView,
                    GenerationFault,
                >(self@),
            decreases exprs@.len() - i,
        {
            match self.generate_expr(&exprs[i]) {
                Ok(()) => {},
                Err(fault) => {
                    proof {
                        lemma_exprs_fault(old(self)@, exprs@, (i + 1) as nat, exprs@.len());
                    }
                    return Err(fault);
                },
            }
            i += 1;
        }
        Ok(())
    }

    /// Writes the code of a call.
    pub fn generate_call(&mut self, expr: &Expr) -> (result: BytecodeGenerationResult)
        requires
            old(self).wf(),
        ensures
            final(self).wf(),
            outcome(result, final(self)@, generated_call(old(self)@, *expr)),
        decreases *expr, 0nat,
    {
        match expr {
            Expr::Call { callee, args } => {
                self.generate_exprs(args)?;
                self.generate_expr(callee)?;
                self.write_opcode(Opcode::Call);
            },
            _ => {},
        }
        Ok(())
    }

    /// Writes the code of an operation on two expressions.
    pub fn generate_binary(&mut self, expr: &Expr) -> (result: BytecodeGenerationResult)
        requires
            old(self).wf(),
        ensures
            final(self).wf(),
            outcome(result, final(self)@, generated_binary(old(self)@, *expr)),
        decreases *expr, 0nat,
    {
        match expr {
            Expr::Binary { lhs, op, rhs } => {
                self.generate_expr(lhs)?;
                match op.val {
                    BinaryOperator::And => {
                        let jif_patch = self.emit_patch(Opcode::Jif(0));
                        self.generate_expr(rhs)?;
                        let jp_patch = self.emit_patch(Opcode::Jp(0));
                        self.land(&jif_patch)?;
                        self.load_constant(Constant::Bool(false));
                        self.land(&jp_patch)?;
                    },
                    BinaryOperator::Or => {
                        let jif_patch = self.emit_patch(Opcode::Jif(0));
                        self.load_constant(Constant::Bool(true));
                        let jp_patch = self.emit_patch(Opcode::Jp(0));
                        self.land(&jif_patch)?;
                        self.generate_expr(rhs)?;
                        self.land(&jp_patch)?;
                    },
                    other => {
                        self.generate_expr(rhs)?;
                        let operator_code = Opcode::from(other);
                        self.write_opcode(operator_code);
                    },
                }
            },
            _ => {},
        }
        Ok(())
    }

    /// Writes the code of a conditional.
    pub fn generate_if(&mut self, expr: &Expr) -> (result: BytecodeGenerationResult)
        requires
            old(self).wf(),
        ensures
            final(self).wf(),
            outcome(result, final(self)@, generated_if(old(self)@, *expr)),
        decreases *expr, 0nat,
    {
        match expr {
            Expr::If { condition, body, else_expr } => {
                self.generate_expr(condition)?;
                let jif_patch = self.emit_patch(Opcode::Jif(0));
                self.generate_expr(body)?;
                let jp_patch = self.emit_patch(Opcode::Jp(0));
                self.land(&jif_patch)?;
                match else_expr {
                    Some(else_expr) => {
                        self.generate_expr(else_expr)?;
                    },
                    None => {
                        self.write_opcode(Opcode::Null);
                    },
                }
                self.land(&jp_patch)?;
            },
            _ => {},
        }
        Ok(())
    }

    /// Writes the code of a loop.
    pub fn generate_while(&mut self, expr: &Expr) -> (result: BytecodeGenerationResult)
        requires
            old(self).wf(),
        ensures
            final(self).wf(),
            outcome(result, final(self)@, generated_while(old(self)@, *expr)),
        decreases *expr, 0nat,
    {
        match expr {
            Expr::While { condition, body } => {
                let start = self.functions[self.functions.len() - 1].chunk.opcodes_len();
                self.generate_expr(condition)?;
                let exit_patch = self.emit_patch(Opcode::Jif(0));
                self.generate_expr(body)?;
                self.write_opcode(Opcode::Pop(1));
                let here = self.functions[self.functions.len() - 1].chunk.opcodes_len();
                if here < start || here - start > isize::MAX as usize {
                    return Err(GenerationFault::JumpTooLong);
                }
                let back = (here - start) as isize;
                self.write_opcode(Opcode::Jp(-back));
                self.land(&exit_patch)?;
                self.write_opcode(Opcode::Null);
            },
            _ => {},
        }
        Ok(())
    }

    /// Writes the end of a block: the instruction that drops the
    /// variables of the innermost scope, which is then left.
    pub fn close_block(&mut self) -> (result: BytecodeGenerationResult)
        requires
            old(self).wf(),
        ensures
            final(self).wf(),
            outcome(result, final(self)@, closed(old(self)@)),
    {
        let declared = self.state.declared();
        self.write_opcode(Opcode::Block(declared));
        match self.state.leave_scope() {
            Ok(_) => Ok(()),
            Err(fault) => Err(fault),
        }
    }

    /// Writes the code of a block.
    pub fn generate_block(&mut self, expr: &Expr) -> (result: BytecodeGenerationResult)
        requires
            old(self).wf(),
        ensures
            final(self).wf(),
            outcome(result, final(self)@, generated_block(old(self)@, *expr)),
        decreases *expr, 0nat,
    {
        match expr {
            Expr::Block { stmts, return_expr } => {
                let starting_index = match self.state.frame_size() {
                    Some(size) => size,
                    None => {
                        return Err(GenerationFault::TooManyVariables);
                    },
                };
                self.state.enter_scope(ScopeType::Block, starting_index);
                self.generate_stmts(stmts)?;
                match return_expr {
                    Some(return_expr) => {
                        self.generate_expr(return_expr)?;
                    },
                    None => {
                        self.write_opcode(Opcode::Null);
                    },
                }
                self.close_block()
            },
            _ => Ok(()),
        }
    }

    /// Writes the code of an assignment.
    pub fn generate_assignment(&mut self, expr: &Expr) -> (result: BytecodeGenerationResult)
        requires
            old(self).wf(),
        ensures
            final(self).wf(),
            outcome(result, final(self)@, generated_assignment(old(self)@, *expr)),
        decreases *expr, 0nat,
    {
        match expr {
            Expr::Assignment { target, value } => {
                let address = self.state.find_var_address(target.as_str())?;
                self.load_constant(Constant::MemoryAddress(address.clone()));
                self.generate_expr(value)?;
                self.write_opcode(Opcode::Asg);
                self.load_constant(Constant::MemoryAddress(address));
                self.write_opcode(Opcode::Get);
            },
            _ => {},
        }
        Ok(())
    }

    /// Writes the code of a statement.
    pub fn generate_stmt(&mut self, stmt: &Stmt) -> (result: BytecodeGenerationResult)
        requires
            old(self).wf(),
        ensures
            final(self).wf(),
            outcome(result, final(self)@, generated_stmt(old(self)@, *stmt)),
        decreases *stmt, 3nat,
    {
        match stmt {
            Stmt::Expression { expr } => {
                self.generate_expr(expr)?;
                self.write_opcode(Opcode::Pop(1));
            },
            Stmt::VariableDeclaration { name, expr } => {
                self.generate_expr(expr)?;
                self.state.declare_var(name.clone())?;
            },
            Stmt::FunctionDeclaration { name, params, body } => {
                self.state.declare_var(name.clone())?;
                self.generate_function(name.as_str(), params, body)?;
            },
        }
        Ok(())
    }

    /// Writes the code of statements, in their order.
    #[verifier::loop_isolation(false)]
    pub fn generate_stmts(&mut self, stmts: &Vec<Stmt>) -> (result: BytecodeGenerationResult)
        requires
            old(self).wf(),
        ensures
            final(self).wf(),
            outcome(result, final(self)@, generated_stmts(old(self)@, stmts@, stmts@.len())),
        decreases *stmts, 0nat,
    {
        let mut i: usize = 0;
        while i < stmts.len()
            invariant
                i <= stmts@.len(),
                self.wf(),
                generated_stmts(old(self)@, stmts@, i as nat) == Ok::<
                    GeneratorView,
                    GenerationFault,
                >(self@),
            decreases stmts@.len() - i,
        {
            match self.generate_stmt(&stmts[i]) {
                Ok(()) => {},
                Err(fault) => {
                    proof {
                        lemma_stmts_fault(old(self)@, stmts@, (i + 1) as nat, stmts@.len());
                    }
                    return Err(fault);
                },
            }
            i += 1;
        }
        Ok(())
    }
}

/// A fault among the first expressions is the fault of all of them.
pub proof fn lemma_exprs_fault(generator: GeneratorView, exprs: Seq<Expr>, count: nat, all: nat)
    requires
        count <= all <= exprs.len(),
        generated_exprs(generator, exprs, count) is Err,
    ensures
        generated_exprs(generator, exprs, all) == generated_exprs(generator, exprs, count),
    decreases all - count,
{
    if count < all {
        lemma_exprs_fault(generator, exprs, count, (all - 1) as nat);
    }
}

/// A fault among the first parameters is the fault of all of them.
pub proof fn lemma_params_fault(
    generator: GeneratorView,
    params: Seq<String>,
    count: nat,
    all: nat,
)
    requires
        count <= all <= params.len(),
        generated_params(generator, params, count) is Err,
    ensures
        generated_params(generator, params, all) == generated_params(generator, params, count),
    decreases all - count,
{
    if count < all {
        lemma_params_fault(generator, params, count, (all - 1) as nat);
    }
}

/// A fault among the first statements is the fault of all of them.
pub proof fn lemma_stmts_fault(generator: GeneratorView, stmts: Seq<Stmt>, count: nat, all: nat)
    requires
        count <= all <= stmts.len(),
        generated_stmts(generator, stmts, count) is Err,
    ensures
        generated_stmts(generator, stmts, all) == generated_stmts(generator, stmts, count),
    decreases all - count,
{
    if count < all {
        lemma_stmts_fault(generator, stmts, count, (all - 1) as nat);
    }
}

impl BytecodeFrom<Vec<Stmt>> for BytecodeGenerator {
    open spec fn ready(&self) -> bool {
        self.wf()
    }

    fn generate(&mut self, ast: Vec<Stmt>) -> (result: BytecodeGenerationResult)
        ensures
            outcome(result, final(self)@, generated_stmts(old(self)@, ast@, ast@.len())),
    {
        self.generate_stmts(&ast)
    }
}

impl BytecodeFrom<Stmt> for BytecodeGenerator {
    open spec fn ready(&self) -> bool {
        self.wf()
    }

    fn generate(&mut self, stmt: Stmt) -> (result: BytecodeGenerationResult)
        ensures
            outcome(result, final(self)@, generated_stmt(old(self)@, stmt)),
    {
        self.generate_stmt(&stmt)
    }
}

impl BytecodeFrom<Expr> for BytecodeGenerator {
    open spec fn ready(&self) -> bool {
        self.wf()
    }

    fn generate(&mut self, expr: Expr) -> (result: BytecodeGenerationResult)
        ensures
            outcome(result, final(self)@, generated_expr(old(self)@, expr)),
    {
        self.generate_expr(&expr)
    }
}

impl BytecodeFrom<AtomicValue> for BytecodeGenerator {
    open spec fn ready(&self) -> bool {
        self.wf()
    }

    fn generate(&mut self, value: AtomicValue) -> (result: BytecodeGenerationResult)
        ensures
            outcome(result, final(self)@, generated_atom(old(self)@, value)),
    {
        self.generate_atom(&value)
    }
}

} // verus!
