//! The instruction set, the per-function container of instructions, the
//! scope resolver and the generator that lowers a syntax tree.
use vstd::prelude::*;
use crate::bytecode::callables::{Function, FunctionView};
use crate::bytecode::chunk::{Chunk, ChunkView, Constant};
use crate::bytecode::state::{GenerationFault, GeneratorState, ScopeView};
use crate::common::{lemma_views_update, str_eq, views, ProgramText, MAIN_FUNCTION_NAME};

pub mod chunk;
pub mod callables;
pub mod state;
pub mod expr;
pub mod laws;


verus! {

/// Position of a constant in a chunk's pool.
pub type ConstantIndex = usize;

/// One instruction. The comment on each case names what it takes from the
/// operand stack, the value pushed last first.
#[derive(Debug, Clone, Copy, PartialEq, Eq, Structural)]
pub enum Opcode {
    /// Pushes the pool entry at the given index.
    Constant(ConstantIndex),
    /// Pushes null.
    Null,
    /// `!` (Bool)
    Not,
    /// `-` (Number)
    Neg,
    /// `+` (Number, Number)
    Add,
    /// `-` (Number, Number)
    Sub,
    /// `/` (Number, Number)
    Div,
    /// `*` (Number, Number)
    Mul,
    /// `**` (Number, Number)
    Pow,
    /// `%` (Number, Number)
    Mod,
    /// `==` (Any, Any)
    Eq,
    /// `!=` (Any, Any)
    Ne,
    /// `<` (Number, Number)
    Lt,
    /// `<=` (Number, Number)
    Le,
    /// `>` (Number, Number)
    Gt,
    /// `>=` (Number, Number)
    Ge,
    /// `or` (Bool, Bool)
    Or,
    /// `and` (Bool, Bool)
    And,
    /// Jump by the distance if the popped value is false (Bool)
    Jif(isize),
    /// Jump by the distance
    Jp(isize),
    /// Leave a loop: move by the distance, then step
    Break(isize),
    /// Drop that many values
    Pop(usize),
    /// Drop that many values below the top one, which stays
    Block(usize),
    /// Read the addressed slot (Address)
    Get,
    /// Write the addressed slot (Any, Address)
    Asg,
    /// Call (Callable, then its arguments)
    Call,
    /// Return (Any)
    Return,
    /// Pushes the function at the given index of the program's table as a
    /// callable that reaches no upvalue yet.
    Closure(usize),
    /// Gives the callable on top one more upvalue: the given slot of the
    /// current frame (Callable)
    CaptureLocal(usize),
    /// Gives the callable on top one more upvalue: the one that the
    /// running function has at the given index (Callable)
    CaptureUpvalue(usize),
}

impl Opcode {
    /// The instruction carries a distance.
    pub open spec fn is_jump(self) -> bool {
        self is Jif || self is Jp || self is Break
    }

    /// The same kind of jump over another distance; any other instruction
    /// is left as it is.
    pub open spec fn with_distance(self, distance: isize) -> Opcode {
        match self {
            Opcode::Jif(_) => Opcode::Jif(distance),
            Opcode::Jp(_) => Opcode::Jp(distance),
            Opcode::Break(_) => Opcode::Break(distance),
            other => other,
        }
    }

    /// The distance of a jump.
    pub open spec fn distance(self) -> isize {
        match self {
            Opcode::Jif(distance) => distance,
            Opcode::Jp(distance) => distance,
            Opcode::Break(distance) => distance,
            _ => 0,
        }
    }
}

/// Where a variable lives at run time.
#[derive(Debug, PartialEq, Eq)]
pub enum MemoryAddress {
    /// Slot of the current frame, counted from the frame's start.
    Local(usize),
    /// With `is_ref`, entry `index` of the running closure's environment;
    /// without, slot `index` of the current frame, reached from a nested
    /// block.
    Upvalue { index: usize, is_ref: bool },
    /// Entry of the table of globals.
    Global(ProgramText),
}

/// Mathematical value of a [`MemoryAddress`].
pub enum MemoryAddressView {
    Local(usize),
    Upvalue { index: usize, is_ref: bool },
    Global(Seq<char>),
}

impl View for MemoryAddress {
    type V = MemoryAddressView;

    open spec fn view(&self) -> MemoryAddressView {
        match *self {
            MemoryAddress::Local(index) => MemoryAddressView::Local(index),
            MemoryAddress::Upvalue { index, is_ref } => MemoryAddressView::Upvalue { index, is_ref },
            MemoryAddress::Global(name) => MemoryAddressView::Global(name@),
        }
    }
}

impl MemoryAddress {
    /// Tells whether two addresses name the same place.
    pub fn same_as(&self, other: &MemoryAddress) -> (same: bool)
        ensures
            same == (self@ == other@),
    {
        match (self, other) {
            (MemoryAddress::Local(a), MemoryAddress::Local(b)) => *a == *b,
            (
                MemoryAddress::Upvalue { index: a, is_ref: ar },
                MemoryAddress::Upvalue { index: b, is_ref: br },
            ) => *a == *b && *ar == *br,
            (MemoryAddress::Global(a), MemoryAddress::Global(b)) => str_eq(
                a.as_str(),
                b.as_str(),
            ),
            _ => false,
        }
    }
}

impl Clone for MemoryAddress {
    fn clone(&self) -> (copy: Self)
        ensures
            copy == *self,
    {
        match self {
            MemoryAddress::Local(index) => MemoryAddress::Local(*index),
            MemoryAddress::Upvalue { index, is_ref } => MemoryAddress::Upvalue {
                index: *index,
                is_ref: *is_ref,
            },
            MemoryAddress::Global(name) => MemoryAddress::Global(name.clone()),
        }
    }
}

/// A declared name with the slot that was fixed for it at its declaration.
#[derive(Debug, PartialEq, Eq)]
pub struct Variable {
    pub name: ProgramText,
    /// Function-nesting depth of the declaration.
    pub depth: usize,
    /// Slot in the frame, counted from the frame's start.
    pub index: usize,
    /// Set once an inner scope has reached the variable through the
    /// upvalue search.
    pub upvalue_index: Option<usize>,
}

/// Mathematical value of a [`Variable`].
pub struct VariableView {
    pub name: Seq<char>,
    pub depth: usize,
    pub index: usize,
    pub upvalue_index: Option<usize>,
}

impl View for Variable {
    type V = VariableView;

    open spec fn view(&self) -> VariableView {
        VariableView {
            name: self.name@,
            depth: self.depth,
            index: self.index,
            upvalue_index: self.upvalue_index,
        }
    }
}

impl Clone for Variable {
    fn clone(&self) -> (copy: Self)
        ensures
            copy == *self,
    {
        Variable {
            name: self.name.clone(),
            depth: self.depth,
            index: self.index,
            upvalue_index: self.upvalue_index,
        }
    }
}

/// One link of a capture chain, held by the scope that captures.
#[derive(Debug, PartialEq, Eq)]
pub struct Upvalue {
    /// Position of the link in the list of its own scope. For the
    /// description of a variable that no function boundary separates from
    /// its use, the variable's slot.
    pub upvalue_index: usize,
    /// The link takes a slot of the directly enclosing frame.
    pub is_local: bool,
    /// The link stands in a scope's list and refers to something outside the
    /// scope.
    pub is_ref: bool,
    /// What the link refers to: a slot of the enclosing frame if `is_local`,
    /// else the position of the enclosing scope's link.
    pub local_index: usize,
    pub name: ProgramText,
}

/// Mathematical value of an [`Upvalue`].
pub struct UpvalueView {
    pub upvalue_index: usize,
    pub is_local: bool,
    pub is_ref: bool,
    pub local_index: usize,
    pub name: Seq<char>,
}

impl View for Upvalue {
    type V = UpvalueView;

    open spec fn view(&self) -> UpvalueView {
        UpvalueView {
            upvalue_index: self.upvalue_index,
            is_local: self.is_local,
            is_ref: self.is_ref,
            local_index: self.local_index,
            name: self.name@,
        }
    }
}

impl Clone for Upvalue {
    fn clone(&self) -> (copy: Self)
        ensures
            copy == *self,
    {
        Upvalue {
            upvalue_index: self.upvalue_index,
            is_local: self.is_local,
            is_ref: self.is_ref,
            local_index: self.local_index,
            name: self.name.clone(),
        }
    }
}

/// An emitted jump whose distance is still a placeholder.
#[derive(Debug, Clone, Copy, PartialEq, Eq, Hash, Structural)]
pub struct Patch {
    /// Position of the jump in its chunk.
    pub index: usize,
}

/// What generation gives: nothing, or the defect that stopped it.
pub type BytecodeGenerationResult = Result<(), GenerationFault>;

/// Lowers a syntax tree into chunks. The function that is being written is
/// the last of `functions`; the functions that are written out stand in
/// `finished`, where `Closure` instructions find them by their index.
#[derive(Debug)]
pub struct BytecodeGenerator {
    pub state: GeneratorState,
    pub functions: Vec<Function>,
    pub finished: Vec<Function>,
}

/// Mathematical value of a [`BytecodeGenerator`].
pub struct GeneratorView {
    /// The open scopes, the outermost first.
    pub scopes: Seq<ScopeView>,
    /// The functions under way, the one being written last.
    pub functions: Seq<FunctionView>,
    /// The functions that are written out.
    pub finished: Seq<FunctionView>,
}

/// A compiled program: its top-level code and the functions that the code
/// makes closures of.
#[derive(Debug, PartialEq)]
pub struct Program {
    pub main: Function,
    pub functions: Vec<Function>,
}

/// Mathematical value of a [`Program`].
pub struct ProgramView {
    pub main: FunctionView,
    pub functions: Seq<FunctionView>,
}

impl View for Program {
    type V = ProgramView;

    open spec fn view(&self) -> ProgramView {
        ProgramView { main: self.main@, functions: views(self.functions@) }
    }
}

impl GeneratorView {
    /// The instructions written so far for the current function.
    pub open spec fn opcodes(self) -> Seq<Opcode> {
        self.functions.last().chunk.opcodes
    }

    /// The pool of the current function.
    pub open spec fn constants(self) -> Seq<chunk::ConstantView> {
        self.functions.last().chunk.constants
    }

    /// The same generator with another chunk for the current function.
    pub open spec fn with_chunk(self, chunk: ChunkView) -> GeneratorView {
        GeneratorView {
            functions: self.functions.update(
                self.functions.len() - 1,
                FunctionView { chunk, ..self.functions.last() },
            ),
            ..self
        }
    }

    /// The same generator with other scopes.
    pub open spec fn with_scopes(self, scopes: Seq<ScopeView>) -> GeneratorView {
        GeneratorView { scopes, ..self }
    }

    /// After a constant was put into the pool and the instruction that
    /// pushes it was written.
    pub open spec fn load(self, constant: chunk::ConstantView) -> GeneratorView {
        self.store(constant).emit(Opcode::Constant(self.constants().len() as usize))
    }

    /// After one more instruction.
    pub open spec fn emit(self, opcode: Opcode) -> GeneratorView {
        self.with_chunk(
            ChunkView { opcodes: self.opcodes().push(opcode), constants: self.constants() },
        )
    }

    /// After one more pool entry.
    pub open spec fn store(self, constant: chunk::ConstantView) -> GeneratorView {
        self.with_chunk(
            ChunkView { opcodes: self.opcodes(), constants: self.constants().push(constant) },
        )
    }

    /// The same generator with other patches for the innermost scope.
    pub open spec fn with_patches(self, patches: Set<usize>) -> GeneratorView {
        GeneratorView {
            scopes: self.scopes.update(
                self.scopes.len() - 1,
                ScopeView { patches, ..self.scopes.last() },
            ),
            ..self
        }
    }

    /// After a jump was written whose distance is still to come.
    pub open spec fn emit_patch(self, opcode: Opcode) -> GeneratorView {
        self.emit(opcode).with_patches(
            self.scopes.last().patches.insert(self.opcodes().len() as usize),
        )
    }

    /// Why the patch at `index` cannot be resolved, if it cannot.
    pub open spec fn patch_fault(self, index: usize) -> Option<GenerationFault> {
        if !self.scopes.last().patches.contains(index) || index >= self.opcodes().len()
            || !self.opcodes()[index as int].is_jump() {
            Some(GenerationFault::UnknownPatch)
        } else if self.opcodes().len() - index - 1 > isize::MAX {
            Some(GenerationFault::JumpTooLong)
        } else {
            None
        }
    }

    /// After the jump at `index` got its distance: the number of
    /// instructions written after it.
    pub open spec fn patch(self, index: usize) -> GeneratorView {
        self.with_chunk(
            ChunkView {
                opcodes: self.opcodes().update(
                    index as int,
                    self.opcodes()[index as int].with_distance(
                        (self.opcodes().len() - index - 1) as isize,
                    ),
                ),
                constants: self.constants(),
            },
        ).with_patches(self.scopes.last().patches.remove(index))
    }
}

impl View for BytecodeGenerator {
    type V = GeneratorView;

    open spec fn view(&self) -> GeneratorView {
        GeneratorView {
            scopes: self.state@,
            functions: views(self.functions@),
            finished: views(self.finished@),
        }
    }
}

impl Clone for BytecodeGenerator {
    fn clone(&self) -> (copy: Self)
        ensures
            copy@ == self@,
    {
        let mut functions: Vec<Function> = Vec::new();
        let mut j: usize = 0;
        while j < self.functions.len()
            invariant
                j <= self.functions@.len(),
                functions@.len() == j,
                forall|k: int| 0 <= k < j ==> (#[trigger] functions@[k])@ == self.functions@[k]@,
            decreases self.functions@.len() - j,
        {
            functions.push(self.functions[j].clone());
            j += 1;
        }
        let mut finished: Vec<Function> = Vec::new();
        let mut k: usize = 0;
        while k < self.finished.len()
            invariant
                k <= self.finished@.len(),
                finished@.len() == k,
                forall|i: int| 0 <= i < k ==> (#[trigger] finished@[i])@ == self.finished@[i]@,
            decreases self.finished@.len() - k,
        {
            finished.push(self.finished[k].clone());
            k += 1;
        }
        let copy = BytecodeGenerator { state: self.state.clone(), functions, finished };
        proof {
            assert(copy@.functions =~= self@.functions);
            assert(copy@.finished =~= self@.finished);
        }
        copy
    }
}

impl BytecodeGenerator {
    /// There is a function to write to, and the scopes are in order.
    pub open spec fn wf(&self) -> bool {
        self.functions@.len() > 0 && self.state.wf()
    }

    /// A generator that is about to write the top-level code: the global
    /// scope is open, and the one function is empty, takes nothing and has
    /// the reserved name.
    pub fn new() -> (generator: Self)
        ensures
            generator.wf(),
            generator@ == initial_generator(),
    {
        let mut functions: Vec<Function> = Vec::new();
        functions.push(
            Function { name: MAIN_FUNCTION_NAME.to_owned(), arity: 0, chunk: Chunk::default() },
        );
        let generator = BytecodeGenerator {
            state: GeneratorState::new(),
            functions,
            finished: Vec::new(),
        };
        proof {
            assert(generator@.finished =~= Seq::empty());
            assert(generator@.functions[0].chunk.opcodes =~= Seq::empty());
            assert(generator@.functions[0].chunk.constants =~= Seq::empty());
            assert(generator@.functions =~= initial_generator().functions);
        }
        generator
    }

    /// The chunk that is being written, for writing.
    pub fn current_chunk(&mut self) -> (chunk: &mut Chunk)
        requires
            old(self).functions@.len() > 0,
        ensures
            *chunk == old(self).functions@.last().chunk,
            final(self).state == old(self).state,
            final(self).finished == old(self).finished,
            final(self).functions@ == old(self).functions@.update(
                old(self).functions@.len() - 1,
                Function {
                    arity: old(self).functions@.last().arity,
                    chunk: *final(chunk),
                    name: old(self).functions@.last().name,
                },
            ),
    {
        let last = self.functions.len() - 1;
        &mut self.functions[last].chunk
    }

    /// Appends an instruction to the current chunk and gives its position.
    pub fn write_opcode(&mut self, opcode: Opcode) -> (index: usize)
        requires
            old(self).wf(),
        ensures
            final(self).wf(),
            index == old(self)@.opcodes().len(),
            final(self)@ == old(self)@.emit(opcode),
    {
        let ghost before = self.functions@;
        let index = self.current_chunk().write_opcode(opcode);
        proof {
            lemma_views_update(before, before.len() - 1, self.functions@.last());
        }
        index
    }

    /// Appends a constant to the pool of the current chunk and gives its
    /// position there.
    pub fn write_constant(&mut self, constant: Constant) -> (index: usize)
        requires
            old(self).wf(),
        ensures
            final(self).wf(),
            index == old(self)@.constants().len(),
            final(self)@ == old(self)@.store(constant@),
    {
        let ghost before = self.functions@;
        let index = self.current_chunk().write_constant(constant);
        proof {
            lemma_views_update(before, before.len() - 1, self.functions@.last());
        }
        index
    }

    /// Writes a jump whose distance is still to come, and notes it as open
    /// in the innermost scope.
    pub fn emit_patch(&mut self, opcode: Opcode) -> (patch: Patch)
        requires
            old(self).wf(),
        ensures
            final(self).wf(),
            patch.index == old(self)@.opcodes().len(),
            final(self)@ == old(self)@.emit_patch(opcode),
    {
        let index = self.write_opcode(opcode);
        let patch = Patch { index };
        self.state.add_patch(patch);
        patch
    }

    /// Gives the jump at the patch its distance: the number of
    /// instructions written after it. Fails, and changes nothing, exactly
    /// when the innermost scope does not own the patch, the patch names no
    /// jump, or the distance cannot be expressed.
    pub fn patch(&mut self, patch: &Patch) -> (result: BytecodeGenerationResult)
        requires
            old(self).wf(),
        ensures
            final(self).wf(),
            match old(self)@.patch_fault(patch.index) {
                Some(fault) => result == Err::<(), GenerationFault>(fault)
                    && final(self)@ == old(self)@,
                None => result is Ok && final(self)@ == old(self)@.patch(patch.index),
            },
    {
        let index = patch.index;
        if !self.state.current_scope().patches.contains(&index) {
            return Err(GenerationFault::UnknownPatch);
        }
        let last = self.functions.len() - 1;
        let len = self.functions[last].chunk.opcodes_len();
        if index >= len {
            return Err(GenerationFault::UnknownPatch);
        }
        let placeholder = self.functions[last].chunk.read_opcode(index);
        let between = len - index - 1;
        if between > isize::MAX as usize {
            return match placeholder {
                Opcode::Jif(_) | Opcode::Jp(_) | Opcode::Break(_) => Err(
                    GenerationFault::JumpTooLong,
                ),
                _ => Err(GenerationFault::UnknownPatch),
            };
        }
        let distance = between as isize;
        let resolved = match placeholder {
            Opcode::Jif(_) => Opcode::Jif(distance),
            Opcode::Jp(_) => Opcode::Jp(distance),
            Opcode::Break(_) => Opcode::Break(distance),
            _ => {
                return Err(GenerationFault::UnknownPatch);
            },
        };
        let ghost before = self.functions@;
        self.current_chunk().replace_opcode(index, resolved);
        proof {
            lemma_views_update(before, before.len() - 1, self.functions@.last());
        }
        self.state.remove_patch(patch);
        Ok(())
    }

    /// The function that was being written.
    pub fn code(self) -> (function: Function)
        requires
            self.wf(),
        ensures
            function@ == self@.functions.last(),
    {
        let mut functions = self.functions;
        functions.pop().unwrap()
    }

    /// The program that was written: the function that was being written
    /// as its top-level code, with the functions that are written out.
    pub fn program(self) -> (program: Program)
        requires
            self.wf(),
        ensures
            program@ == (ProgramView {
                main: self@.functions.last(),
                functions: self@.finished,
            }),
    {
        let mut functions = self.functions;
        Program { main: functions.pop().unwrap(), functions: self.finished }
    }
}

/// What can be lowered into bytecode from a `T`.
pub trait BytecodeFrom<T> {
    /// The generator can take on more code.
    spec fn ready(&self) -> bool;

    /// Writes the code of `data`.
    fn generate(&mut self, data: T) -> (result: BytecodeGenerationResult)
        requires
            old(self).ready(),
        ensures
            final(self).ready(),
    ;
}

/// The generator before anything was written.
pub open spec fn initial_generator() -> GeneratorView {
    GeneratorView {
        scopes: seq![ScopeView::fresh(state::ScopeType::Global, 0)],
        functions: seq![
            FunctionView {
                arity: 0,
                chunk: ChunkView { opcodes: Seq::empty(), constants: Seq::empty() },
                name: MAIN_FUNCTION_NAME@,
            },
        ],
        finished: Seq::empty(),
    }
}

/// Lowers a program.
pub fn generate_bytecode(ast: crate::syntax::tree::Ast) -> (result: Result<
    Program,
    GenerationFault,
>)
    ensures
        match expr::generated_stmts(initial_generator(), ast@, ast@.len()) {
            Ok(generator) => result matches Ok(program) && program@ == (ProgramView {
                main: generator.functions.last(),
                functions: generator.finished,
            }),
            Err(fault) => result == Err::<Program, GenerationFault>(fault),
        },
{
    let mut generator = BytecodeGenerator::new();
    match generator.generate(ast) {
        Ok(()) => Ok(generator.program()),
        Err(fault) => Err(fault),
    }
}

/// Patch correctness: once `emitted` has been written after a jump, the
/// patch of that jump gives it the distance `emitted.len()`; the
/// instructions before and after the jump stay, and the innermost scope no
/// longer owns the patch.
pub proof fn lemma_patch_distance(generator: GeneratorView, jump: Opcode, emitted: Seq<Opcode>)
    requires
        generator.functions.len() > 0,
        generator.scopes.len() > 0,
        jump.is_jump(),
        generator.opcodes().len() + emitted.len() < usize::MAX,
        emitted.len() <= isize::MAX,
    ensures
        ({
            let index = generator.opcodes().len() as usize;
            let opened = generator.emit_patch(jump);
            let later = opened.with_chunk(
                ChunkView { opcodes: opened.opcodes() + emitted, constants: opened.constants() },
            );
            &&& later.patch_fault(index) is None
            &&& later.patch(index).opcodes() == (generator.opcodes().push(
                jump.with_distance(emitted.len() as isize),
            ) + emitted)
            &&& later.patch(index).opcodes()[index as int].distance() == emitted.len()
            &&& !later.patch(index).scopes.last().patches.contains(index)
        }),
{
    let index = generator.opcodes().len() as usize;
    let opened = generator.emit_patch(jump);
    let later = opened.with_chunk(
        ChunkView { opcodes: opened.opcodes() + emitted, constants: opened.constants() },
    );
    assert(later.opcodes() == generator.opcodes().push(jump) + emitted);
    assert(later.opcodes()[index as int] == jump);
    assert(later.patch(index).opcodes() =~= (generator.opcodes().push(
        jump.with_distance(emitted.len() as isize),
    ) + emitted));
}

} // verus!
